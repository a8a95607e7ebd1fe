//! The minimal operand record: a value tagged with its data type, and the
//! accessors that read it as that type.

use vstd::prelude::*;
use crate::diags::SourceSpan;

verus! {

#[derive(Debug, Clone, Copy, PartialEq, Eq, Structural)]
pub enum OperandKind {
    Variable,
    Constant,
}

#[derive(Debug, Clone, Copy, PartialEq, Eq, Structural)]
pub enum DataType {
    Int,
    QuotedString,
    Identifier,
    Unknown,
}

#[derive(Debug, Clone, Copy, PartialEq, Eq, Structural)]
pub enum IRKind {
    Assert,
    NEq,
    GEq,
    LEq,
    DoubleEq,
    U64,
    Multiply,
    Divide,
    Add,
    Subtract,
    LogicalAnd,
    BitAnd,
    BitOr,
    LogicalOr,
    LeftShift,
    RightShift,
    SectionStart,
    SectionEnd,
    Abs,
    Img,
    Sec,
    Sizeof,
    Wrs,
}

/// The stored value of an operand: an integer, or text for strings,
/// identifiers and values of unknown type.
#[derive(Debug, Clone)]
pub enum OperandValue {
    Int(u64),
    Text(String),
}

/// The spec-level content of a stored value.
pub enum ValView {
    Int(u64),
    Text(Seq<char>),
}

pub open spec fn val_view(v: OperandValue) -> ValView {
    match v {
        OperandValue::Int(n) => ValView::Int(n),
        OperandValue::Text(s) => ValView::Text(s@),
    }
}

#[derive(Debug)]
pub struct IROperand {
    /// The linear id of the producing operation if this operand is an
    /// output; `None` for constants.
    pub src_lid: Option<usize>,
    pub kind: OperandKind,
    pub data_type: DataType,
    pub src_loc: SourceSpan,
    pub val: OperandValue,
}

impl IROperand {
    /// The stored value agrees with the data type: integers hold a number,
    /// every other type holds text.
    pub open spec fn wf(&self) -> bool {
        if self.data_type == DataType::Int {
            self.val is Int
        } else {
            self.val is Text
        }
    }

    /// A copy of the stored value.
    pub fn clone_val_box(&self) -> (v: OperandValue)
        requires
            self.wf(),
        ensures
            val_view(v) == val_view(self.val),
    {
        match &self.val {
            OperandValue::Int(n) => OperandValue::Int(*n),
            OperandValue::Text(s) => OperandValue::Text(s.clone()),
        }
    }

    /// An integer operand is true when it is not zero.
    pub fn to_bool(&self) -> (b: bool)
        requires
            self.wf(),
            self.data_type == DataType::Int,
        ensures
            b == (self.val->Int_0 != 0),
    {
        match &self.val {
            OperandValue::Int(n) => *n != 0,
            OperandValue::Text(_) => false,
        }
    }

    /// The value of an integer operand.
    pub fn to_u64(&self) -> (n: u64)
        requires
            self.wf(),
            self.data_type == DataType::Int,
        ensures
            n == self.val->Int_0,
    {
        match &self.val {
            OperandValue::Int(n) => *n,
            OperandValue::Text(_) => 0,
        }
    }

    /// The text of a quoted-string operand.
    pub fn to_str(&self) -> (s: &str)
        requires
            self.wf(),
            self.data_type == DataType::QuotedString,
        ensures
            s@ == self.val->Text_0@,
    {
        match &self.val {
            OperandValue::Text(s) => s.as_str(),
            OperandValue::Int(_) => "",
        }
    }

    /// The name held by an identifier operand.
    pub fn to_identifier(&self) -> (s: &str)
        requires
            self.wf(),
            self.data_type == DataType::Identifier,
        ensures
            s@ == self.val->Text_0@,
    {
        match &self.val {
            OperandValue::Text(s) => s.as_str(),
            OperandValue::Int(_) => "",
        }
    }
}

#[derive(Debug, Clone)]
pub struct IR {
    pub kind: IRKind,
    pub operands: Vec<usize>,
    pub src_loc: SourceSpan,
}

} // verus!
