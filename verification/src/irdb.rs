//! Metadata about the files and object-file sections that an image reads.

use vstd::prelude::*;
use crate::diags::SourceSpan;

verus! {

/// A file written into the image with `wrf`.
#[derive(Debug, Clone)]
pub struct FileInfo {
    pub path: String,
    pub size: u64,
    pub src_loc: SourceSpan,
}

/// One section of an object file written into the image.
#[derive(Debug, Clone)]
pub struct ObjSectionInfo {
    pub path: String,
    pub section_name: String,
    pub file_offset: u64,
    pub size: u64,
    /// Required alignment of the section as declared in the object file.
    pub align: u64,
    /// Virtual memory address of the section.
    pub vma: u64,
    /// Load memory address of the section; equals the VMA for formats
    /// without a separate load address.
    pub lma: u64,
    pub src_loc: SourceSpan,
}

/// What the file system says of a path that `wrf` names.
#[derive(Debug, Clone)]
pub enum FileMeta {
    /// A regular file of this many bytes.
    File(u64),
    /// Something other than a regular file.
    NotFile,
    /// Reading the metadata failed: the error text, and the directory the
    /// path was looked up in.
    Failed(String, String),
}

} // verus!

verus! {

use crate::ir::{IR, IROperand, RegionBinding};

/// `i` is the first entry of `l` keyed `name`.
pub open spec fn first_key<V>(l: Seq<(String, V)>, name: Seq<char>, i: int) -> bool {
    0 <= i < l.len() && l[i].0@ == name && forall|j: int| 0 <= j < i ==> l[j].0@ != name
}

/// The value of the first entry keyed `name`, if any.
pub open spec fn lookup_key<V>(l: Seq<(String, V)>, name: Seq<char>) -> Option<V> {
    if exists|i: int| first_key(l, name, i) {
        Some(l[choose|i: int| first_key(l, name, i)].1)
    } else {
        None
    }
}

/// Finds the first entry keyed `name`.
pub fn find_key<V>(l: &[(String, V)], name: &str) -> (r: Option<usize>)
    ensures
        match r {
            Some(i) => first_key(l@, name@, i as int) && lookup_key(l@, name@) == Some(l@[i as int].1),
            None => lookup_key(l@, name@) is None,
        },
{
    let mut i: usize = 0;
    while i < l.len()
        invariant
            i <= l@.len(),
            forall|j: int| 0 <= j < i ==> l@[j].0@ != name@,
        decreases l@.len() - i,
    {
        if crate::extension::string_eq(&l[i].0, name) {
            proof {
                let c = choose|k: int| first_key(l@, name@, k);
                assert(first_key(l@, name@, i as int));
                if c < i {
                    assert(l@[c].0@ != name@);
                } else if c > i {
                    assert(l@[i as int].0@ != name@);
                }
            }
            return Some(i);
        }
        i = i + 1;
    }
    None
}

/// The typed instruction stream with the name tables the layout needs.
pub struct IRDb {
    pub ir_vec: Vec<IR>,
    pub parms: Vec<IROperand>,
    /// Files written with `wrf`, by path.
    pub files: Vec<(String, FileInfo)>,
    /// Sized items (sections) by name: the first and last instruction id.
    pub sized_locs: Vec<(String, (usize, usize))>,
    /// Addressable items (sections and labels) by name: the instruction id.
    pub addressed_locs: Vec<(String, usize)>,
    /// The section named by the `output` statement.
    pub output_sec_str: String,
    /// The region each bound section is placed in, by section name.
    pub section_region_names: Vec<(String, String)>,
    /// Declared regions by name.
    pub region_bindings: Vec<(String, RegionBinding)>,
}

/// The region binding of section `sec`, if it is bound to a declared region.
pub open spec fn region_for_section_spec(db: IRDb, sec: Seq<char>) -> Option<RegionBinding> {
    match lookup_key(db.section_region_names@, sec) {
        Some(rname) => lookup_key(db.region_bindings@, rname@),
        None => None,
    }
}

impl IRDb {
    /// The region binding of section `sec_name`, if it is bound to a
    /// declared region.
    pub fn region_for_section(&self, sec_name: &str) -> (r: Option<&RegionBinding>)
        ensures
            match r {
                Some(b) => region_for_section_spec(*self, sec_name@) == Some(*b),
                None => region_for_section_spec(*self, sec_name@) is None,
            },
    {
        match find_key(self.section_region_names.as_slice(), sec_name) {
            Some(i) => match find_key(self.region_bindings.as_slice(), self.section_region_names[i].1.as_str()) {
                Some(j) => Some(&self.region_bindings[j].1),
                None => None,
            },
            None => None,
        }
    }

    /// The identifier held by operand `opnd_num` of `ir`.
    pub fn get_opnd_as_identifier(&self, ir: &IR, opnd_num: usize) -> (s: &str)
        requires
            opnd_num < ir.operands@.len(),
            ir.operands@[opnd_num as int] < self.parms@.len(),
            self.parms@[ir.operands@[opnd_num as int] as int].val@ is Identifier,
        ensures
            crate::ir::PVal::Identifier(s@) == self.parms@[ir.operands@[opnd_num as int] as int].val@,
    {
        self.parms[ir.operands[opnd_num]].val.identifier_to_str()
    }

    /// The instruction whose output operand `opnd_num` is, if any.
    pub fn get_operand_ir_lid(&self, opnd_num: usize) -> (r: Option<usize>)
        requires
            opnd_num < self.parms@.len(),
        ensures
            r == self.parms@[opnd_num as int].ir_lid,
    {
        self.parms[opnd_num].ir_lid
    }
}

} // verus!

verus! {

use crate::ir::{IR as Instr, InstrV, IROperand as Operand, DataType, data_type_spec, data_type_name, data_type_name_spec,
    irkind_name, irkind_name_spec};
use crate::diags::{Diags, DiagView, Severity};
use crate::fmt::{cat, digits, usize_to_dec};

/// The integer kinds.
pub open spec fn is_int_type(t: DataType) -> bool {
    t == DataType::Integer || t == DataType::I64 || t == DataType::U64
}

/// Every operand index of `ir` names an operand of `parms`.
pub open spec fn operands_in(parms: Seq<Operand>, ops: Seq<usize>) -> bool {
    forall|i: int| 0 <= i < ops.len() ==> #[trigger] ops[i] < parms.len()
}

pub open spec fn err_one(code: Seq<char>, msg: Seq<char>, loc: SourceSpan) -> DiagView {
    DiagView { severity: Severity::Error, code, msg, primary: Some(loc), secondaries: Seq::empty() }
}

pub open spec fn err_two(code: Seq<char>, msg: Seq<char>, l1: SourceSpan, l2: SourceSpan) -> DiagView {
    DiagView { severity: Severity::Error, code, msg, primary: Some(l1), secondaries: seq![(l2, Seq::<char>::empty())] }
}

/// The data type of operand `k` of `ir`.
pub open spec fn opnd_type(parms: Seq<Operand>, ir: InstrV, k: int) -> DataType {
    data_type_spec(parms[ir.ops[k] as int].val@)
}

/// One integer operand: the diagnostics after and the verdict.
pub open spec fn numeric1_spec(parms: Seq<Operand>, ir: InstrV, recs: Seq<DiagView>) -> (Seq<DiagView>, bool) {
    let len = ir.ops.len();
    if len != 1 {
        (recs.push(err_one("IRDB_4"@, "'"@ + irkind_name_spec(ir.kind) + "' expressions must evaluate to one operand, but found "@
            + digits(len, 10) + "."@, ir.loc)), false)
    } else if !is_int_type(opnd_type(parms, ir, 0)) {
        (recs.push(err_two("IRDB_5"@, "'"@ + irkind_name_spec(ir.kind) + "' expression requires an integer or boolean operand, found '"@
            + data_type_name_spec(opnd_type(parms, ir, 0))@ + "'."@, ir.loc, parms[ir.ops[0] as int].src_loc)), false)
    } else {
        (recs, true)
    }
}

/// An integer value and an optional integer count: the diagnostics after
/// and the verdict.
pub open spec fn numeric12_spec(parms: Seq<Operand>, ir: InstrV, recs: Seq<DiagView>) -> (Seq<DiagView>, bool) {
    let len = ir.ops.len();
    let name = irkind_name_spec(ir.kind);
    if !(1 <= len <= 2) {
        (recs.push(err_one("IRDB_55"@, "'"@ + name + "' takes 1 or 2 arguments, found "@ + digits(len, 10) + "."@, ir.loc)),
            false)
    } else if !is_int_type(opnd_type(parms, ir, 0)) {
        (recs.push(err_two("IRDB_9"@, "'"@ + name + "' requires an integer for this operand, found '"@ + data_type_name_spec(
            opnd_type(parms, ir, 0),
        )@ + "'."@, ir.loc, parms[ir.ops[0] as int].src_loc)), false)
    } else if len == 2 && !is_int_type(opnd_type(parms, ir, 1)) {
        (recs.push(err_two("IRDB_15"@, "'"@ + name + "' requires an integer for this operand, found '"@ + data_type_name_spec(
            opnd_type(parms, ir, 1),
        )@ + "'."@, ir.loc, parms[ir.ops[1] as int].src_loc)), false)
    } else {
        (recs, true)
    }
}

/// The value types an extension accepts as a user argument.
pub open spec fn is_ext_arg_type(t: DataType) -> bool {
    t == DataType::U64 || t == DataType::I64 || t == DataType::Integer || t == DataType::QuotedString || t
        == DataType::Identifier
}

/// The first operand position in `from..to` of `ir` that an extension
/// cannot take, if any.
pub open spec fn first_bad_arg(parms: Seq<Operand>, ir: InstrV, from: int, to: int) -> Option<int>
    decreases to - from,
{
    if from >= to {
        None
    } else if !is_ext_arg_type(opnd_type(parms, ir, from)) {
        Some(from)
    } else {
        first_bad_arg(parms, ir, from + 1, to)
    }
}

/// Checking the extension user arguments at operand positions `from..to`
/// of `ir`: the diagnostics after and the verdict.  The first argument
/// that an extension cannot take is reported.
pub open spec fn user_args_spec(parms: Seq<Operand>, ir: InstrV, from: int, to: int, ext_name: Seq<char>, recs: Seq<
    DiagView,
>) -> (Seq<DiagView>, bool) {
    match first_bad_arg(parms, ir, from, to) {
        None => (recs, true),
        Some(k) => (recs.push(err_two("IRDB_47"@, "Extension '"@ + ext_name + "': argument "@ + digits(k as nat, 10)
            + " must be a numeric, string, or section-name expression, got "@ + data_type_name_spec(opnd_type(parms, ir, k))@,
            ir.loc, parms[ir.ops[k] as int].src_loc)), false),
    }
}

impl IRDb {
    /// Checks that `ir` has exactly one operand, of an integer kind.
    pub fn validate_numeric_1(&self, ir: &Instr, diags: &mut Diags) -> (ok: bool)
        requires
            operands_in(self.parms@, ir.operands@),
        ensures
            (final(diags).records(), ok) == numeric1_spec(self.parms@, ir@, old(diags).records()),
            final(diags).files_view() == old(diags).files_view(),
    {
        let len = ir.operands.len();
        if len != 1 {
            let m = cat(cat(cat(cat(String::from_str("'"), irkind_name(ir.kind).as_str()),
                "' expressions must evaluate to one operand, but found "), usize_to_dec(len).as_str()), ".");
            diags.err1("IRDB_4", m.as_str(), ir.src_loc);
            return false;
        }
        let opnd = &self.parms[ir.operands[0]];
        let dt = opnd.val.data_type();
        if !(dt == DataType::Integer || dt == DataType::I64 || dt == DataType::U64) {
            let m = cat(cat(cat(cat(String::from_str("'"), irkind_name(ir.kind).as_str()),
                "' expression requires an integer or boolean operand, found '"), data_type_name(dt)), "'.");
            diags.err2("IRDB_5", m.as_str(), ir.src_loc, opnd.src_loc);
            return false;
        }
        true
    }

    /// Checks that `ir` has an integer value and an optional integer count.
    pub fn validate_numeric_1_or_2(&self, ir: &Instr, diags: &mut Diags) -> (ok: bool)
        requires
            operands_in(self.parms@, ir.operands@),
        ensures
            (final(diags).records(), ok) == numeric12_spec(self.parms@, ir@, old(diags).records()),
            final(diags).files_view() == old(diags).files_view(),
    {
        let len = ir.operands.len();
        if !(1 <= len && len <= 2) {
            let m = cat(cat(cat(cat(String::from_str("'"), irkind_name(ir.kind).as_str()), "' takes 1 or 2 arguments, found "),
                usize_to_dec(len).as_str()), ".");
            diags.err1("IRDB_55", m.as_str(), ir.src_loc);
            return false;
        }
        let opnd = &self.parms[ir.operands[0]];
        let dt = opnd.val.data_type();
        if !(dt == DataType::Integer || dt == DataType::I64 || dt == DataType::U64) {
            let m = cat(cat(cat(cat(String::from_str("'"), irkind_name(ir.kind).as_str()),
                "' requires an integer for this operand, found '"), data_type_name(dt)), "'.");
            diags.err2("IRDB_9", m.as_str(), ir.src_loc, opnd.src_loc);
            return false;
        }
        if len == 2 {
            let opnd = &self.parms[ir.operands[1]];
            let dt = opnd.val.data_type();
            if !(dt == DataType::Integer || dt == DataType::I64 || dt == DataType::U64) {
                let m = cat(cat(cat(cat(String::from_str("'"), irkind_name(ir.kind).as_str()),
                    "' requires an integer for this operand, found '"), data_type_name(dt)), "'.");
                diags.err2("IRDB_15", m.as_str(), ir.src_loc, opnd.src_loc);
                return false;
            }
        }
        true
    }

    /// Checks that every extension user argument at operand positions
    /// `user_arg_range` of `ir` is a value an extension can take (a number,
    /// a string, or a section name); the first one that is not is reported.
    pub fn validate_ext_user_args(&self, ir: &Instr, user_arg_range: std::ops::Range<usize>, ext_name: &str,
        diags: &mut Diags) -> (ok: bool)
        requires
            operands_in(self.parms@, ir.operands@),
            user_arg_range.end <= ir.operands@.len(),
        ensures
            (final(diags).records(), ok) == user_args_spec(self.parms@, ir@, user_arg_range.start as int,
                user_arg_range.end as int, ext_name@, old(diags).records()),
            final(diags).files_view() == old(diags).files_view(),
    {
        let start = user_arg_range.start;
        let end = user_arg_range.end;
        if start >= end {
            return true;
        }
        let mut opnd_pos = start;
        while opnd_pos < end
            invariant
                start <= opnd_pos <= end,
                start == user_arg_range.start,
                end == user_arg_range.end,
                end <= ir.operands@.len(),
                operands_in(self.parms@, ir.operands@),
                first_bad_arg(self.parms@, ir@, start as int, end as int) == first_bad_arg(self.parms@, ir@, opnd_pos as int,
                    end as int),
                diags.records() == old(diags).records(),
                diags.files_view() == old(diags).files_view(),
            decreases end - opnd_pos,
        {
            let opnd = &self.parms[ir.operands[opnd_pos]];
            let dt = opnd.val.data_type();
            if !(dt == DataType::U64 || dt == DataType::I64 || dt == DataType::Integer || dt == DataType::QuotedString || dt
                == DataType::Identifier) {
                let m = cat(cat(cat(cat(cat(String::from_str("Extension '"), ext_name), "': argument "), usize_to_dec(
                    opnd_pos,
                ).as_str()), " must be a numeric, string, or section-name expression, got "), data_type_name(dt));
                assert(first_bad_arg(self.parms@, ir@, opnd_pos as int, end as int) == Some(opnd_pos as int));
                diags.err2("IRDB_47", m.as_str(), ir.src_loc, opnd.src_loc);
                return false;
            }
            opnd_pos = opnd_pos + 1;
        }
        true
    }
}

} // verus!

verus! {

use crate::ir::{PVal, IRKind};
use crate::extension::{ExtensionRegistry, ParamDesc, ParamKind, string_eq};
use crate::astdb::{strs_view, contains_str};
use crate::layoutdb::LayoutDb;
use crate::linearizer::LinIR;

/// The parameter name an operand carries at its call site.
pub open spec fn opnd_pname(o: Operand) -> Option<Seq<char>> {
    match o.param_name {
        Some(s) => Some(s@),
        None => None,
    }
}

/// The parameter name carried by operand slot `i` of `ir`.
pub open spec fn slot_name(parms: Seq<Operand>, ir: InstrV, i: int) -> Option<Seq<char>> {
    opnd_pname(parms[ir.ops[i] as int])
}

/// The value in operand slot `i` of `ir`.
pub open spec fn slot_val(parms: Seq<Operand>, ir: InstrV, i: int) -> PVal {
    parms[ir.ops[i] as int].val@
}

/// The text of an identifier value.
pub open spec fn ident_text(v: PVal) -> Seq<char> {
    match v {
        PVal::Identifier(s) => s,
        _ => Seq::empty(),
    }
}

/// The end of the user argument slots of an extension call: the slots are
/// `1..user_end`, slot 0 names the extension and the last slot is its output.
pub open spec fn user_end(ir: InstrV) -> int {
    ir.ops.len() - 1
}

/// A parameter called `n` is declared.
pub open spec fn declares(params: Seq<ParamDesc>, n: Seq<char>) -> bool {
    exists|q: int| 0 <= q < params.len() && params[q].name@ == n
}

/// User argument slot `i` carries a name that is not declared, or one that
/// an earlier slot carries.
pub open spec fn slot_fault(parms: Seq<Operand>, ir: InstrV, params: Seq<ParamDesc>, i: int) -> bool {
    match slot_name(parms, ir, i) {
        Some(n) => !declares(params, n) || exists|j: int| 1 <= j < i && slot_name(parms, ir, j) == Some(n),
        None => false,
    }
}

/// `i` is the first user argument slot with a fault.
pub open spec fn first_slot_fault(parms: Seq<Operand>, ir: InstrV, params: Seq<ParamDesc>, i: int) -> bool {
    1 <= i < user_end(ir) && slot_fault(parms, ir, params, i) && forall|j: int|
        1 <= j < i ==> !slot_fault(parms, ir, params, j)
}

/// `i` is the first user argument slot named `n`.
pub open spec fn first_slot(parms: Seq<Operand>, ir: InstrV, n: Seq<char>, i: int) -> bool {
    1 <= i < user_end(ir) && slot_name(parms, ir, i) == Some(n) && forall|j: int|
        1 <= j < i ==> slot_name(parms, ir, j) != Some(n)
}

/// Some user argument slot is named `n`.
pub open spec fn has_slot(parms: Seq<Operand>, ir: InstrV, n: Seq<char>) -> bool {
    exists|i: int| 1 <= i < user_end(ir) && slot_name(parms, ir, i) == Some(n)
}

/// The first user argument slot named `n`.
pub open spec fn slot_of(parms: Seq<Operand>, ir: InstrV, n: Seq<char>) -> int {
    choose|i: int| first_slot(parms, ir, n, i)
}

/// Some user argument carries a parameter name.
pub open spec fn any_named(parms: Seq<Operand>, ir: InstrV) -> bool {
    exists|i: int| 1 <= i < user_end(ir) && slot_name(parms, ir, i) is Some
}

/// `q` is the first declared parameter that no argument names.
pub open spec fn first_missing(parms: Seq<Operand>, ir: InstrV, params: Seq<ParamDesc>, q: int) -> bool {
    0 <= q < params.len() && !has_slot(parms, ir, params[q].name@) && forall|p: int|
        0 <= p < q ==> has_slot(parms, ir, params[p].name@)
}

/// Declared parameter `q` takes a slice, but the argument named for it is
/// not a section name.
pub open spec fn named_slice_bad(parms: Seq<Operand>, ir: InstrV, params: Seq<ParamDesc>, q: int) -> bool {
    params[q].kind == ParamKind::Slice && !(slot_val(parms, ir, slot_of(parms, ir, params[q].name@)) is Identifier)
}

pub open spec fn first_named_slice_bad(parms: Seq<Operand>, ir: InstrV, params: Seq<ParamDesc>, q: int) -> bool {
    0 <= q < params.len() && named_slice_bad(parms, ir, params, q) && forall|p: int|
        0 <= p < q ==> !named_slice_bad(parms, ir, params, p)
}

/// Declared parameter `q` takes a slice, but positional argument `q` is not
/// the name of a section in `secs`.
pub open spec fn pos_slice_bad(parms: Seq<Operand>, ir: InstrV, params: Seq<ParamDesc>, secs: Seq<Seq<char>>, q: int)
    -> bool {
    params[q].kind == ParamKind::Slice && match slot_val(parms, ir, 1 + q) {
        PVal::Identifier(s) => !secs.contains(s),
        _ => true,
    }
}

pub open spec fn first_pos_slice_bad(parms: Seq<Operand>, ir: InstrV, params: Seq<ParamDesc>, secs: Seq<Seq<char>>, q: int)
    -> bool {
    0 <= q < params.len() && pos_slice_bad(parms, ir, params, secs, q) && forall|p: int|
        0 <= p < q ==> !pos_slice_bad(parms, ir, params, secs, p)
}

/// The operand slots with the named arguments moved into declaration order.
pub open spec fn reordered(parms: Seq<Operand>, ir: InstrV, params: Seq<ParamDesc>) -> Seq<usize> {
    Seq::new(
        ir.ops.len(),
        |k: int|
            if 1 <= k < 1 + params.len() {
                ir.ops[slot_of(parms, ir, params[k - 1].name@)]
            } else {
                ir.ops[k]
            },
    )
}

/// The start of every extension argument message.
pub open spec fn ext_prefix(name: Seq<char>) -> Seq<char> {
    "Extension '"@ + name + "': "@
}

/// The message for a slice parameter given a value expression.
pub open spec fn slice_msg(name: Seq<char>, pname: Seq<char>) -> Seq<char> {
    ext_prefix(name) + "parameter '"@ + pname
        + "' has kind Slice and requires a section name, not a value expression"@
}

/// Checking the arguments of an extension call whose declared parameters
/// are `params` (none when the extension is unknown) against them: the
/// verdict, the operand slots after, and the diagnostic reported.  Named
/// arguments must be declared, unique and complete, slice parameters must
/// get a section name, and the named arguments are put into declaration
/// order; positional arguments must match the declared count, and a slice
/// parameter must get the name of a section in `secs`.
pub open spec fn ext_args_outcome(parms: Seq<Operand>, ir: InstrV, params: Option<Seq<ParamDesc>>, secs: Seq<Seq<char>>)
    -> (bool, Seq<usize>, Option<DiagView>) {
    let ops = ir.ops;
    let name = ident_text(slot_val(parms, ir, 0));
    match params {
        None => (true, ops, None),
        Some(ps) => if ps.len() == 0 {
            (true, ops, None)
        } else if any_named(parms, ir) {
            if exists|i: int| first_slot_fault(parms, ir, ps, i) {
                let i = choose|i: int| first_slot_fault(parms, ir, ps, i);
                let n = slot_name(parms, ir, i)->0;
                if !declares(ps, n) {
                    (false, ops, Some(err_two("IRDB_48"@, ext_prefix(name) + "unknown parameter name '"@ + n + "'"@,
                        ir.loc, parms[ops[i] as int].src_loc)))
                } else {
                    (false, ops, Some(err_two("IRDB_49"@, ext_prefix(name) + "duplicate parameter name '"@ + n + "'"@,
                        ir.loc, parms[ops[i] as int].src_loc)))
                }
            } else if exists|q: int| first_missing(parms, ir, ps, q) {
                let q = choose|q: int| first_missing(parms, ir, ps, q);
                (false, ops, Some(err_one("IRDB_51"@, ext_prefix(name) + "missing required parameter '"@ + ps[q].name@
                    + "'"@, ir.loc)))
            } else if exists|q: int| first_named_slice_bad(parms, ir, ps, q) {
                let q = choose|q: int| first_named_slice_bad(parms, ir, ps, q);
                let i = slot_of(parms, ir, ps[q].name@);
                (false, ops, Some(err_two("IRDB_52"@, slice_msg(name, ps[q].name@), ir.loc,
                    parms[ops[i] as int].src_loc)))
            } else {
                (true, reordered(parms, ir, ps), None)
            }
        } else if user_end(ir) - 1 != ps.len() {
            (false, ops, Some(err_one("IRDB_53"@, ext_prefix(name) + "expected "@ + digits(ps.len(), 10)
                + " argument(s), got "@ + digits((user_end(ir) - 1) as nat, 10), ir.loc)))
        } else if exists|q: int| first_pos_slice_bad(parms, ir, ps, secs, q) {
            let q = choose|q: int| first_pos_slice_bad(parms, ir, ps, secs, q);
            match slot_val(parms, ir, 1 + q) {
                PVal::Identifier(s) => (false, ops, Some(err_two("IRDB_54"@, ext_prefix(name) + "parameter '"@
                    + ps[q].name@ + "' names an unknown section '"@ + s + "'"@, ir.loc,
                    parms[ops[1 + q] as int].src_loc))),
                _ => (false, ops, Some(err_two("IRDB_52"@, slice_msg(name, ps[q].name@), ir.loc,
                    parms[ops[1 + q] as int].src_loc))),
            }
        } else {
            (true, ops, None)
        },
    }
}

/// Moving the named arguments into declaration order stays inside the
/// operand slots.
pub open spec fn reorder_fits(parms: Seq<Operand>, ir: InstrV, params: Option<Seq<ParamDesc>>) -> bool {
    match params {
        Some(ps) => (ps.len() > 0 && any_named(parms, ir) && ext_args_outcome(parms, ir, params, Seq::empty()).0)
            ==> ps.len() < ir.ops.len(),
        None => true,
    }
}

/// Equality of two strings.
fn str_eq(a: &str, b: &str) -> (r: bool)
    ensures
        r == (a@ == b@),
{
    string_eq(&String::from_str(a), b)
}

/// Whether `params` declares a parameter called `n`.
fn declares_exec(params: &Vec<ParamDesc>, n: &str) -> (b: bool)
    ensures
        b == declares(params@, n@),
{
    let mut q: usize = 0;
    while q < params.len()
        invariant
            q <= params@.len(),
            forall|p: int| 0 <= p < q ==> params@[p].name@ != n@,
        decreases params@.len() - q,
    {
        if str_eq(params[q].name, n) {
            return true;
        }
        q = q + 1;
    }
    false
}

impl IRDb {
    /// The first user argument slot of `ir` before `upto` that is named `n`.
    fn find_slot(&self, ir: &Instr, n: &str, upto: usize) -> (r: Option<usize>)
        requires
            operands_in(self.parms@, ir.operands@),
            upto <= user_end(ir@),
        ensures
            match r {
                Some(i) => i < upto && first_slot(self.parms@, ir@, n@, i as int),
                None => forall|j: int| 1 <= j < upto ==> slot_name(self.parms@, ir@, j) != Some(n@),
            },
    {
        let mut i: usize = 1;
        while i < upto
            invariant
                1 <= i,
                upto <= user_end(ir@),
                operands_in(self.parms@, ir.operands@),
                forall|j: int| 1 <= j < i ==> slot_name(self.parms@, ir@, j) != Some(n@),
            decreases upto - i,
        {
            let o = &self.parms[ir.operands[i]];
            match &o.param_name {
                Some(pn) => {
                    if string_eq(pn, n) {
                        return Some(i);
                    }
                },
                None => {},
            }
            i = i + 1;
        }
        None
    }

    /// Whether some user argument of `ir` carries a parameter name.
    fn has_named_arg(&self, ir: &Instr) -> (b: bool)
        requires
            operands_in(self.parms@, ir.operands@),
            ir.operands@.len() >= 1,
        ensures
            b == any_named(self.parms@, ir@),
    {
        let last = ir.operands.len() - 1;
        let mut i: usize = 1;
        while i < last
            invariant
                1 <= i,
                last == user_end(ir@),
                operands_in(self.parms@, ir.operands@),
                forall|j: int| 1 <= j < i ==> slot_name(self.parms@, ir@, j) is None,
            decreases last - i,
        {
            if self.parms[ir.operands[i]].param_name.is_some() {
                assert(slot_name(self.parms@, ir@, i as int) is Some);
                return true;
            }
            i = i + 1;
        }
        false
    }
}


/// The first slot named `n` is the slot that [`slot_of`] picks.
proof fn lemma_slot_of(parms: Seq<Operand>, ir: InstrV, n: Seq<char>, i: int)
    requires
        first_slot(parms, ir, n, i),
    ensures
        slot_of(parms, ir, n) == i,
{
    let c = slot_of(parms, ir, n);
    assert(first_slot(parms, ir, n, c));
    if c < i {
        assert(slot_name(parms, ir, c) == Some(n));
    } else if c > i {
        assert(slot_name(parms, ir, i) == Some(n));
    }
}

impl IRDb {
    /// The first user argument slot of `ir` whose name is undeclared or
    /// repeated, if any.
    fn named_fault(&self, ir: &Instr, params: &Vec<ParamDesc>) -> (r: Option<usize>)
        requires
            operands_in(self.parms@, ir.operands@),
            ir.operands@.len() >= 1,
        ensures
            match r {
                Some(i) => first_slot_fault(self.parms@, ir@, params@, i as int),
                None => forall|j: int| 1 <= j < user_end(ir@) ==> !slot_fault(self.parms@, ir@, params@, j),
            },
    {
        let last = ir.operands.len() - 1;
        let mut i: usize = 1;
        while i < last
            invariant
                1 <= i,
                last == user_end(ir@),
                operands_in(self.parms@, ir.operands@),
                forall|j: int| 1 <= j < i ==> !slot_fault(self.parms@, ir@, params@, j),
            decreases last - i,
        {
            let o = &self.parms[ir.operands[i]];
            match &o.param_name {
                Some(pn) => {
                    if !declares_exec(params, pn.as_str()) {
                        return Some(i);
                    }
                    match self.find_slot(ir, pn.as_str(), i) {
                        Some(j) => {
                            assert(slot_name(self.parms@, ir@, j as int) == Some(pn@));
                            return Some(i);
                        },
                        None => {},
                    }
                },
                None => {},
            }
            i = i + 1;
        }
        None
    }

    /// The first declared parameter that no argument of `ir` names, if any.
    fn missing_param(&self, ir: &Instr, params: &Vec<ParamDesc>) -> (r: Option<usize>)
        requires
            operands_in(self.parms@, ir.operands@),
            ir.operands@.len() >= 1,
        ensures
            match r {
                Some(q) => first_missing(self.parms@, ir@, params@, q as int),
                None => forall|p: int| 0 <= p < params@.len() ==> has_slot(self.parms@, ir@, params@[p].name@),
            },
    {
        let last = ir.operands.len() - 1;
        let mut q: usize = 0;
        while q < params.len()
            invariant
                q <= params@.len(),
                last == user_end(ir@),
                operands_in(self.parms@, ir.operands@),
                forall|p: int| 0 <= p < q ==> has_slot(self.parms@, ir@, params@[p].name@),
            decreases params@.len() - q,
        {
            match self.find_slot(ir, params[q].name, last) {
                Some(i) => {
                    assert(slot_name(self.parms@, ir@, i as int) == Some(params@[q as int].name@));
                },
                None => {
                    return Some(q);
                },
            }
            q = q + 1;
        }
        None
    }

    /// The first slice parameter whose named argument is not a section
    /// name, if any.
    fn named_slice_fault(&self, ir: &Instr, params: &Vec<ParamDesc>) -> (r: Option<usize>)
        requires
            operands_in(self.parms@, ir.operands@),
            ir.operands@.len() >= 1,
            forall|p: int| 0 <= p < params@.len() ==> has_slot(self.parms@, ir@, params@[p].name@),
        ensures
            match r {
                Some(q) => first_named_slice_bad(self.parms@, ir@, params@, q as int),
                None => forall|p: int| 0 <= p < params@.len() ==> !named_slice_bad(self.parms@, ir@, params@, p),
            },
    {
        let last = ir.operands.len() - 1;
        let mut q: usize = 0;
        while q < params.len()
            invariant
                q <= params@.len(),
                last == user_end(ir@),
                operands_in(self.parms@, ir.operands@),
                forall|p: int| 0 <= p < params@.len() ==> has_slot(self.parms@, ir@, params@[p].name@),
                forall|p: int| 0 <= p < q ==> !named_slice_bad(self.parms@, ir@, params@, p),
            decreases params@.len() - q,
        {
            if params[q].kind == ParamKind::Slice {
                match self.find_slot(ir, params[q].name, last) {
                    Some(i) => {
                        proof {
                            lemma_slot_of(self.parms@, ir@, params@[q as int].name@, i as int);
                        }
                        if !self.parms[ir.operands[i]].val.is_identifier() {
                            return Some(q);
                        }
                    },
                    None => {
                        assert(has_slot(self.parms@, ir@, params@[q as int].name@));
                        let ghost w = choose|w: int| 1 <= w < user_end(ir@) && slot_name(self.parms@, ir@, w) == Some(
                            params@[q as int].name@,
                        );
                        assert(slot_name(self.parms@, ir@, w) == Some(params@[q as int].name@));
                        return Some(q);
                    },
                }
            }
            q = q + 1;
        }
        None
    }

    /// The operand slots of `ir` with the named arguments in declaration
    /// order.
    fn reorder_named(&self, ir: &Instr, params: &Vec<ParamDesc>) -> (r: Vec<usize>)
        requires
            operands_in(self.parms@, ir.operands@),
            ir.operands@.len() >= 1,
            params@.len() < ir.operands@.len(),
            forall|p: int| 0 <= p < params@.len() ==> has_slot(self.parms@, ir@, params@[p].name@),
        ensures
            r@ == reordered(self.parms@, ir@, params@),
            operands_in(self.parms@, r@),
    {
        let last = ir.operands.len() - 1;
        let mut out: Vec<usize> = ir.operands.clone();
        let mut q: usize = 0;
        while q < params.len()
            invariant
                q <= params@.len(),
                params@.len() < ir.operands@.len(),
                last == user_end(ir@),
                operands_in(self.parms@, ir.operands@),
                forall|p: int| 0 <= p < params@.len() ==> has_slot(self.parms@, ir@, params@[p].name@),
                out@.len() == ir.operands@.len(),
                operands_in(self.parms@, out@),
                forall|k: int| 0 <= k < out@.len() ==> out@[k] == (if 1 <= k < 1 + q {
                    ir.operands@[slot_of(self.parms@, ir@, params@[k - 1].name@)]
                } else {
                    ir.operands@[k]
                }),
            decreases params@.len() - q,
        {
            match self.find_slot(ir, params[q].name, last) {
                Some(i) => {
                    proof {
                        lemma_slot_of(self.parms@, ir@, params@[q as int].name@, i as int);
                    }
                    out.set(1 + q, ir.operands[i]);
                },
                None => {
                    assert(has_slot(self.parms@, ir@, params@[q as int].name@));
                    let ghost w = choose|w: int| 1 <= w < user_end(ir@) && slot_name(self.parms@, ir@, w) == Some(
                        params@[q as int].name@,
                    );
                    assert(slot_name(self.parms@, ir@, w) == Some(params@[q as int].name@));
                    assert(false);
                },
            }
            q = q + 1;
        }
        proof {
            assert(out@ =~= reordered(self.parms@, ir@, params@));
        }
        out
    }

    /// The first slice parameter whose positional argument is not the name
    /// of a section in `section_names`, if any.
    fn pos_slice_fault(&self, ir: &Instr, params: &Vec<ParamDesc>, section_names: &Vec<String>) -> (r: Option<usize>)
        requires
            operands_in(self.parms@, ir.operands@),
            1 + params@.len() < ir.operands@.len(),
        ensures
            match r {
                Some(q) => first_pos_slice_bad(self.parms@, ir@, params@, strs_view(section_names@), q as int),
                None => forall|p: int|
                    0 <= p < params@.len() ==> !pos_slice_bad(self.parms@, ir@, params@, strs_view(section_names@), p),
            },
    {
        let mut q: usize = 0;
        while q < params.len()
            invariant
                q <= params@.len(),
                1 + params@.len() < ir.operands@.len(),
                operands_in(self.parms@, ir.operands@),
                forall|p: int|
                    0 <= p < q ==> !pos_slice_bad(self.parms@, ir@, params@, strs_view(section_names@), p),
            decreases params@.len() - q,
        {
            if params[q].kind == ParamKind::Slice {
                let v = &self.parms[ir.operands[1 + q]].val;
                if !v.is_identifier() {
                    return Some(q);
                }
                if !contains_str(section_names, v.identifier_to_str()) {
                    return Some(q);
                }
            }
            q = q + 1;
        }
        None
    }
}

impl IRDb {
    /// Checks the arguments of extension call `ir` against the parameters
    /// its extension declares and puts named arguments into declaration
    /// order; see [`ext_args_outcome`].  An unknown extension, or one that
    /// declares no parameters, is left to the other checks.
    pub fn resolve_named_ext_args(&self, ir: &mut Instr, ext_registry: &ExtensionRegistry, section_names: &Vec<String>,
        diags: &mut Diags) -> (ok: bool)
        requires
            operands_in(self.parms@, old(ir).operands@),
            old(ir).operands@.len() >= 1,
            slot_val(self.parms@, old(ir)@, 0) is Identifier,
            ext_registry.has(ident_text(slot_val(self.parms@, old(ir)@, 0))) ==> old(ir).operands@.len() >= 2,
            reorder_fits(self.parms@, old(ir)@, ext_registry.registered_params(ident_text(slot_val(self.parms@, old(ir)@, 0)))),
        ensures
            ({
                let out = ext_args_outcome(self.parms@, old(ir)@, ext_registry.registered_params(ident_text(slot_val(
                    self.parms@,
                    old(ir)@,
                    0,
                ))), strs_view(section_names@));
                &&& ok == out.0
                &&& final(ir).operands@ == out.1
                &&& final(ir).kind == old(ir).kind
                &&& final(ir).src_loc == old(ir).src_loc
                &&& final(ir).operands@.len() == old(ir).operands@.len()
                &&& final(ir).operands@[0] == old(ir).operands@[0]
                &&& operands_in(self.parms@, final(ir).operands@)
                &&& final(diags).records() == match out.2 {
                    Some(d) => old(diags).records().push(d),
                    None => old(diags).records(),
                }
            }),
            final(diags).files_view() == old(diags).files_view(),
    {
        let ghost parms = self.parms@;
        let ghost ir0 = ir@;
        let ghost secs = strs_view(section_names@);
        let name = self.get_opnd_as_identifier(ir, 0);
        let entry = match ext_registry.get(name) {
            Some(e) => e,
            None => {
                return true;
            },
        };
        let params = &entry.cached_params;
        let ghost ps = params@;
        let last = ir.operands.len() - 1;
        let user_count = last - 1;
        if params.len() == 0 {
            return true;
        }
        let prefix = cat(cat(String::from_str("Extension '"), name), "': ");
        if self.has_named_arg(ir) {
            match self.named_fault(ir, params) {
                Some(i) => {
                    let opnd = &self.parms[ir.operands[i]];
                    let pn = match &opnd.param_name {
                        Some(s) => s.as_str(),
                        None => "",
                    };
                    proof {
                        assert(first_slot_fault(parms, ir0, ps, i as int));
                        let c = choose|c: int| first_slot_fault(parms, ir0, ps, c);
                        assert(c == i);
                    }
                    if !declares_exec(params, pn) {
                        let m = cat(cat(cat(prefix, "unknown parameter name '"), pn), "'");
                        diags.err2("IRDB_48", m.as_str(), ir.src_loc, opnd.src_loc);
                    } else {
                        let m = cat(cat(cat(prefix, "duplicate parameter name '"), pn), "'");
                        diags.err2("IRDB_49", m.as_str(), ir.src_loc, opnd.src_loc);
                    }
                    return false;
                },
                None => {},
            }
            match self.missing_param(ir, params) {
                Some(q) => {
                    proof {
                        let c = choose|c: int| first_missing(parms, ir0, ps, c);
                        assert(first_missing(parms, ir0, ps, c));
                        assert(c == q);
                    }
                    let m = cat(cat(cat(prefix, "missing required parameter '"), params[q].name), "'");
                    diags.err1("IRDB_51", m.as_str(), ir.src_loc);
                    return false;
                },
                None => {},
            }
            match self.named_slice_fault(ir, params) {
                Some(q) => {
                    proof {
                        let c = choose|c: int| first_named_slice_bad(parms, ir0, ps, c);
                        assert(first_named_slice_bad(parms, ir0, ps, c));
                        assert(c == q);
                    }
                    let i = match self.find_slot(ir, params[q].name, last) {
                        Some(i) => i,
                        None => {
                            proof {
                                assert(has_slot(parms, ir0, ps[q as int].name@));
                                let w = choose|w: int| 1 <= w < user_end(ir0) && slot_name(parms, ir0, w) == Some(
                                    ps[q as int].name@,
                                );
                                assert(slot_name(parms, ir0, w) == Some(ps[q as int].name@));
                            }
                            0
                        },
                    };
                    proof {
                        lemma_slot_of(parms, ir0, ps[q as int].name@, i as int);
                    }
                    Self::err_bytearray_needs_section(ir, params[q].name, &self.parms[ir.operands[i]], name, diags);
                    return false;
                },
                None => {},
            }
            proof {
                assert(!exists|c: int| first_slot_fault(parms, ir0, ps, c));
                assert(!exists|c: int| first_missing(parms, ir0, ps, c));
                assert(!exists|c: int| first_named_slice_bad(parms, ir0, ps, c));
            }
            let new_ops = self.reorder_named(ir, params);
            ir.operands = new_ops;
            true
        } else {
            if user_count != params.len() {
                let m = cat(cat(cat(cat(prefix, "expected "), usize_to_dec(params.len()).as_str()), " argument(s), got "),
                    usize_to_dec(user_count).as_str());
                diags.err1("IRDB_53", m.as_str(), ir.src_loc);
                return false;
            }
            match self.pos_slice_fault(ir, params, section_names) {
                Some(q) => {
                    proof {
                        let c = choose|c: int| first_pos_slice_bad(parms, ir0, ps, secs, c);
                        assert(first_pos_slice_bad(parms, ir0, ps, secs, c));
                        assert(c == q);
                    }
                    let opnd = &self.parms[ir.operands[1 + q]];
                    if !opnd.val.is_identifier() {
                        Self::err_bytearray_needs_section(ir, params[q].name, opnd, name, diags);
                    } else {
                        let sec = opnd.val.identifier_to_str();
                        let m = cat(cat(cat(cat(cat(prefix, "parameter '"), params[q].name), "' names an unknown section '"),
                            sec), "'");
                        diags.err2("IRDB_54", m.as_str(), ir.src_loc, opnd.src_loc);
                    }
                    return false;
                },
                None => {},
            }
            proof {
                assert(!exists|c: int| first_pos_slice_bad(parms, ir0, ps, secs, c));
            }
            true
        }
    }

    /// Reports IRDB_52: slice parameter `param_name` of extension `ext_name`
    /// was given the value expression `opnd` in place of a section name.
    pub fn err_bytearray_needs_section(ir: &Instr, param_name: &str, opnd: &Operand, ext_name: &str, diags: &mut Diags)
        ensures
            final(diags).records() == old(diags).records().push(err_two("IRDB_52"@, slice_msg(ext_name@, param_name@),
                ir.src_loc, opnd.src_loc)),
            final(diags).files_view() == old(diags).files_view(),
    {
        let m = cat(cat(cat(cat(cat(String::from_str("Extension '"), ext_name), "': "), "parameter '"), param_name),
            "' has kind Slice and requires a section name, not a value expression");
        diags.err2("IRDB_52", m.as_str(), ir.src_loc, opnd.src_loc);
    }
}

/// The recorded files: key, path, size and location.
pub open spec fn files_view(files: Seq<(String, FileInfo)>) -> Seq<(Seq<char>, Seq<char>, u64, SourceSpan)> {
    files.map_values(|e: (String, FileInfo)| (e.0@, e.1.path@, e.1.size, e.1.src_loc))
}

/// A file is recorded under `path`.
pub open spec fn file_known(files: Seq<(Seq<char>, Seq<char>, u64, SourceSpan)>, path: Seq<char>) -> bool {
    exists|i: int| 0 <= i < files.len() && files[i].0 == path
}

/// Checking the operand of `wrf` instruction `ir`, with `files` recorded so
/// far and `meta` describing the named paths: the diagnostic, the verdict,
/// and the file to record (path, size, location).  The operand must be a
/// quoted path; a path met before is accepted as it is; otherwise it must
/// name a regular file.
pub open spec fn wrf_spec(parms: Seq<Operand>, files: Seq<(Seq<char>, Seq<char>, u64, SourceSpan)>, meta: Seq<(String, FileMeta)>, ir: InstrV)
    -> (Option<DiagView>, bool, Option<(Seq<char>, u64, SourceSpan)>) {
    let o = parms[ir.ops[0] as int];
    match o.val@ {
        PVal::QuotedString(path) => if file_known(files, path) {
            (None, true, None)
        } else {
            match lookup_key(meta, path) {
                Some(FileMeta::File(size)) => (None, true, Some((path, size, o.src_loc))),
                Some(FileMeta::NotFile) => (Some(err_one("IRDB_14"@, "'"@ + path + "' must be a regular file."@, o.src_loc)),
                false, None),
                Some(FileMeta::Failed(e, d)) => (Some(err_one("IRDB_13"@, "Error getting metadata for file '"@ + path
                    + "'\nOS error is '"@ + e@ + "'\nLooking in directory '"@ + d@ + "'"@, o.src_loc)), false, None),
                None => (None, false, None),
            }
        },
        _ => (Some(err_two("IRDB_11"@, "'"@ + irkind_name_spec(ir.kind) + "' operand must be a file path in double-quotes, found '"@
            + data_type_name_spec(data_type_spec(o.val@))@ + "'."@, ir.loc, o.src_loc)), false, None),
    }
}

/// The file metadata covers the path that `wrf` instruction `ir` names, if
/// that path is not recorded yet.
pub open spec fn wrf_meta_known(parms: Seq<Operand>, files: Seq<(Seq<char>, Seq<char>, u64, SourceSpan)>, meta: Seq<(String, FileMeta)>, ir: InstrV)
    -> bool {
    match parms[ir.ops[0] as int].val@ {
        PVal::QuotedString(path) => !file_known(files, path) ==> lookup_key(meta, path) is Some,
        _ => true,
    }
}

/// `k` is where `::` first occurs in `s`.
pub open spec fn first_dcolon(s: Seq<char>, k: int) -> bool {
    0 <= k && k + 1 < s.len() && s[k] == ':' && s[k + 1] == ':' && forall|j: int|
        0 <= j < k ==> !(#[trigger] s[j] == ':' && s[j + 1] == ':')
}

/// The message for an unknown extension `name`: the namespace before the
/// first `::` when there is one, else `lead` and the whole name.
pub open spec fn unknown_ext_msg(name: Seq<char>, lead: Seq<char>) -> Seq<char> {
    if exists|k: int| first_dcolon(name, k) {
        "Unknown namespace '"@ + name.subrange(0, choose|k: int| first_dcolon(name, k)) + "'"@
    } else {
        lead + name + "'"@
    }
}

/// The instruction kinds that only constant evaluation uses.
pub open spec fn const_only_kind(k: IRKind) -> bool {
    k is Const || k is ConstDeclare || k is IfBegin || k is ElseBegin || k is IfEnd || k is BareAssign
}

/// What checking the operands of `ir` needs to hold.
pub open spec fn validate_pre(parms: Seq<Operand>, files: Seq<(Seq<char>, Seq<char>, u64, SourceSpan)>, meta: Seq<(String, FileMeta)>, ir: InstrV)
    -> bool {
    &&& !const_only_kind(ir.kind)
    &&& ir.kind == IRKind::Wrf ==> ir.ops.len() == 1 && wrf_meta_known(parms, files, meta, ir)
    &&& (ir.kind == IRKind::ExtensionCall || ir.kind == IRKind::SizeofExt) ==> ir.ops.len() >= 1 && slot_val(parms, ir, 0) is Identifier
}

/// Checking the operands of `ir` by its kind: the diagnostics after, the
/// verdict, and a file to record.  Writes, alignment and address settings
/// take a value and an optional count, `assert` one integer, `wrf` a path
/// to a regular file, and an extension call or size query a registered
/// extension whose user arguments it can take; the other kinds were checked
/// when they were built.
pub open spec fn validate_spec(parms: Seq<Operand>, files: Seq<(Seq<char>, Seq<char>, u64, SourceSpan)>, meta: Seq<(String, FileMeta)>,
    reg: ExtensionRegistry, ir: InstrV, recs: Seq<DiagView>) -> (Seq<DiagView>, bool, Option<(Seq<char>, u64, SourceSpan)>) {
    match ir.kind {
        IRKind::Align | IRKind::SetSecOffset | IRKind::SetAddrOffset | IRKind::SetAddr | IRKind::SetFileOffset
        | IRKind::Wr(_) => {
            let r = numeric12_spec(parms, ir, recs);
            (r.0, r.1, None)
        },
        IRKind::Assert => {
            let r = numeric1_spec(parms, ir, recs);
            (r.0, r.1, None)
        },
        IRKind::Wrf => {
            let w = wrf_spec(parms, files, meta, ir);
            (match w.0 {
                Some(d) => recs.push(d),
                None => recs,
            }, w.1, w.2)
        },
        IRKind::ExtensionCall => {
            let name = ident_text(slot_val(parms, ir, 0));
            if !reg.has(name) {
                (recs.push(err_one("IRDB_40"@, unknown_ext_msg(name, "Unknown function '"@), ir.loc)), false, None)
            } else {
                let r = user_args_spec(parms, ir, 1, user_end(ir), name, recs);
                (r.0, r.1, None)
            }
        },
        IRKind::SizeofExt => {
            let name = ident_text(slot_val(parms, ir, 0));
            if !reg.has(name) {
                (recs.push(err_one("IRDB_44"@, unknown_ext_msg(name, "Unknown extension '"@), ir.loc)), false, None)
            } else {
                (recs, true, None)
            }
        },
        _ => (recs, true, None),
    }
}

/// Where `::` first occurs in `s`, if it does.
fn find_dcolon(s: &str) -> (r: Option<usize>)
    ensures
        match r {
            Some(k) => first_dcolon(s@, k as int),
            None => !exists|k: int| first_dcolon(s@, k),
        },
{
    let n = s.unicode_len();
    let mut k: usize = 0;
    while k < n
        invariant
            n == s@.len(),
            k <= n,
            forall|j: int| 0 <= j < k && j + 1 < n ==> !(#[trigger] s@[j] == ':' && s@[j + 1] == ':'),
        decreases n - k,
    {
        if k + 1 < n && s.get_char(k) == ':' && s.get_char(k + 1) == ':' {
            return Some(k);
        }
        k = k + 1;
    }
    proof {
        assert forall|c: int| !first_dcolon(s@, c) by {
            if first_dcolon(s@, c) {
                assert(c < k);
            }
        }
    }
    None
}

/// The message for an unknown extension; see [`unknown_ext_msg`].
fn unknown_ext_msg_exec(name: &str, lead: &str) -> (m: String)
    ensures
        m@ == unknown_ext_msg(name@, lead@),
{
    match find_dcolon(name) {
        Some(k) => {
            proof {
                let c = choose|c: int| first_dcolon(name@, c);
                assert(first_dcolon(name@, c));
                if c < k {
                    assert(!(name@[c] == ':' && name@[c + 1] == ':'));
                } else if c > k {
                    assert(!(name@[k as int] == ':' && name@[k + 1] == ':'));
                }
            }
            cat(cat(String::from_str("Unknown namespace '"), name.substring_char(0, k)), "'")
        },
        None => cat(cat(String::from_str(lead), name), "'"),
    }
}

impl IRDb {
    /// Whether a file is recorded under `path`.
    fn has_file(&self, path: &str) -> (b: bool)
        ensures
            b == file_known(files_view(self.files@), path@),
    {
        let mut i: usize = 0;
        while i < self.files.len()
            invariant
                i <= self.files@.len(),
                forall|j: int| 0 <= j < i ==> files_view(self.files@)[j].0 != path@,
            decreases self.files@.len() - i,
        {
            if string_eq(&self.files[i].0, path) {
                assert(files_view(self.files@)[i as int].0 == path@);
                return true;
            }
            i = i + 1;
        }
        false
    }

    /// Checks the operand of `wrf` instruction `ir` and records the file it
    /// names; see [`wrf_spec`].  `file_meta` says what the file system holds
    /// at the paths the instructions name.
    pub fn validate_wrf_operands(&mut self, ir: &Instr, file_meta: &Vec<(String, FileMeta)>, diags: &mut Diags) -> (ok: bool)
        requires
            operands_in(old(self).parms@, ir.operands@),
            ir.operands@.len() == 1,
            wrf_meta_known(old(self).parms@, files_view(old(self).files@), file_meta@, ir@),
        ensures
            ({
                let w = wrf_spec(old(self).parms@, files_view(old(self).files@), file_meta@, ir@);
                &&& ok == w.1
                &&& final(diags).records() == match w.0 {
                    Some(d) => old(diags).records().push(d),
                    None => old(diags).records(),
                }
                &&& files_view(final(self).files@) == match w.2 {
                    Some(f) => files_view(old(self).files@).push((f.0, f.0, f.1, f.2)),
                    None => files_view(old(self).files@),
                }
                &&& final(self).files@.len() == old(self).files@.len() + if w.2 is Some { 1int } else { 0int }
                &&& forall|i: int| 0 <= i < old(self).files@.len() ==> final(self).files@[i] == old(self).files@[i]
            }),
            final(self).parms@ == old(self).parms@,
            final(self).ir_vec@ == old(self).ir_vec@,
            final(self).sized_locs@ == old(self).sized_locs@,
            final(self).addressed_locs@ == old(self).addressed_locs@,
            final(self).section_region_names@ == old(self).section_region_names@,
            final(self).region_bindings@ == old(self).region_bindings@,
            final(self).output_sec_str@ == old(self).output_sec_str@,
            final(diags).files_view() == old(diags).files_view(),
    {
        let path_opnd = &self.parms[ir.operands[0]];
        let loc = path_opnd.src_loc;
        let dt = path_opnd.val.data_type();
        if dt != DataType::QuotedString {
            let m = cat(cat(cat(cat(String::from_str("'"), irkind_name(ir.kind).as_str()),
                "' operand must be a file path in double-quotes, found '"), data_type_name(dt)), "'.");
            diags.err2("IRDB_11", m.as_str(), ir.src_loc, loc);
            return false;
        }
        let path = String::from_str(path_opnd.val.to_str());
        if self.has_file(path.as_str()) {
            return true;
        }
        match find_key(file_meta.as_slice(), path.as_str()) {
            Some(i) => match &file_meta[i].1 {
                FileMeta::File(size) => {
                    let finfo = FileInfo { path: String::from_str(path.as_str()), size: *size, src_loc: loc };
                    let ghost before = self.files@;
                    self.files.push((path, finfo));
                    proof {
                        assert(files_view(self.files@) =~= files_view(before).push((
                            self.files@[before.len() as int].0@,
                            self.files@[before.len() as int].0@,
                            *size,
                            loc,
                        )));
                    }
                    true
                },
                FileMeta::NotFile => {
                    let m = cat(cat(String::from_str("'"), path.as_str()), "' must be a regular file.");
                    diags.err1("IRDB_14", m.as_str(), loc);
                    false
                },
                FileMeta::Failed(e, d) => {
                    let m = cat(cat(cat(cat(cat(cat(String::from_str("Error getting metadata for file '"), path.as_str()),
                        "'\nOS error is '"), e.as_str()), "'\nLooking in directory '"), d.as_str()), "'");
                    diags.err1("IRDB_13", m.as_str(), loc);
                    false
                },
            },
            None => false,
        }
    }

    /// Checks the operands of `ir` by its kind; see [`validate_spec`].
    pub fn validate_operands(&mut self, ir: &Instr, diags: &mut Diags, ext_registry: &ExtensionRegistry,
        _section_names: &Vec<String>, file_meta: &Vec<(String, FileMeta)>) -> (ok: bool)
        requires
            operands_in(old(self).parms@, ir.operands@),
            validate_pre(old(self).parms@, files_view(old(self).files@), file_meta@, ir@),
        ensures
            ({
                let v = validate_spec(old(self).parms@, files_view(old(self).files@), file_meta@, *ext_registry, ir@,
                    old(diags).records());
                &&& ok == v.1
                &&& final(diags).records() == v.0
                &&& files_view(final(self).files@) == match v.2 {
                    Some(f) => files_view(old(self).files@).push((f.0, f.0, f.1, f.2)),
                    None => files_view(old(self).files@),
                }
                &&& final(self).files@.len() == old(self).files@.len() + if v.2 is Some { 1int } else { 0int }
                &&& forall|i: int| 0 <= i < old(self).files@.len() ==> final(self).files@[i] == old(self).files@[i]
            }),
            final(self).parms@ == old(self).parms@,
            final(self).ir_vec@ == old(self).ir_vec@,
            final(self).sized_locs@ == old(self).sized_locs@,
            final(self).addressed_locs@ == old(self).addressed_locs@,
            final(self).section_region_names@ == old(self).section_region_names@,
            final(self).region_bindings@ == old(self).region_bindings@,
            final(self).output_sec_str@ == old(self).output_sec_str@,
            final(diags).files_view() == old(diags).files_view(),
    {
        match ir.kind {
            IRKind::Align | IRKind::SetSecOffset | IRKind::SetAddrOffset | IRKind::SetAddr | IRKind::SetFileOffset
            | IRKind::Wr(_) => self.validate_numeric_1_or_2(ir, diags),
            IRKind::Assert => self.validate_numeric_1(ir, diags),
            IRKind::Wrf => self.validate_wrf_operands(ir, file_meta, diags),
            IRKind::ExtensionCall => {
                let name = self.get_opnd_as_identifier(ir, 0);
                if ext_registry.get(name).is_none() {
                    let m = unknown_ext_msg_exec(name, "Unknown function '");
                    diags.err1("IRDB_40", m.as_str(), ir.src_loc);
                    return false;
                }
                let last = ir.operands.len() - 1;
                self.validate_ext_user_args(ir, 1..last, name, diags)
            },
            IRKind::SizeofExt => {
                let name = self.get_opnd_as_identifier(ir, 0);
                if ext_registry.get(name).is_none() {
                    let m = unknown_ext_msg_exec(name, "Unknown extension '");
                    diags.err1("IRDB_44", m.as_str(), ir.src_loc);
                    return false;
                }
                true
            },
            _ => true,
        }
    }
}

/// A name-keyed list as contracts see it.
pub open spec fn keys_view<V>(l: Seq<(String, V)>) -> Seq<(Seq<char>, V)> {
    l.map_values(|e: (String, V)| (e.0@, e.1))
}

/// `i` is the first entry of `l` keyed `k`.
pub open spec fn first_at<V>(l: Seq<(Seq<char>, V)>, k: Seq<char>, i: int) -> bool {
    0 <= i < l.len() && l[i].0 == k && forall|j: int| 0 <= j < i ==> l[j].0 != k
}

/// `l` with key `k` set to `v`: the first entry keyed `k` is replaced, or
/// a new entry is added at the end.
pub open spec fn assoc_put<V>(l: Seq<(Seq<char>, V)>, k: Seq<char>, v: V) -> Seq<(Seq<char>, V)> {
    if exists|i: int| first_at(l, k, i) {
        l.update(choose|i: int| first_at(l, k, i), (k, v))
    } else {
        l.push((k, v))
    }
}

/// The value of the first entry keyed `k`.
pub open spec fn assoc_get<V>(l: Seq<(Seq<char>, V)>, k: Seq<char>) -> V {
    l[choose|i: int| first_at(l, k, i)].1
}

/// The state while the layout instructions are turned into typed ones.
pub struct IrBuild {
    pub irs: Seq<InstrV>,
    pub files: Seq<(Seq<char>, Seq<char>, u64, SourceSpan)>,
    pub addressed: Seq<(Seq<char>, usize)>,
    pub sized: Seq<(Seq<char>, (usize, usize))>,
    pub recs: Seq<DiagView>,
    pub ok: bool,
}

/// The state of `db` with diagnostics `recs` and verdict `ok`.
pub open spec fn build_of(db: IRDb, recs: Seq<DiagView>, ok: bool) -> IrBuild {
    IrBuild {
        irs: db.ir_vec@.map_values(|i: Instr| i@),
        files: files_view(db.files@),
        addressed: keys_view(db.addressed_locs@),
        sized: keys_view(db.sized_locs@),
        recs,
        ok,
    }
}

/// The layout instructions of `db`.
pub open spec fn lin_instrs(db: LayoutDb) -> Seq<InstrV> {
    db.ir_vec@.map_values(|l: LinIR| InstrV { kind: l.op, ops: l.operand_vec@, loc: l.src_loc })
}

/// One layout instruction `ir0` turned into a typed one.  An extension
/// call first has its arguments checked and ordered; then the operands are
/// checked, and an instruction that passes is appended, a label recording
/// its address, a section start its address and the start of its extent,
/// and a section end the end of that extent.  A failed check clears the
/// verdict and the instruction is dropped.
pub open spec fn build_step(parms: Seq<Operand>, meta: Seq<(String, FileMeta)>, reg: ExtensionRegistry, secs: Seq<Seq<char>>,
    st: IrBuild, ir0: InstrV) -> IrBuild {
    let e = ext_args_outcome(parms, ir0, reg.registered_params(ident_text(slot_val(parms, ir0, 0))), secs);
    let pre_ok = ir0.kind != IRKind::ExtensionCall || e.0;
    let ir1 = if ir0.kind == IRKind::ExtensionCall { InstrV { kind: ir0.kind, ops: e.1, loc: ir0.loc } } else { ir0 };
    let recs1 = if ir0.kind == IRKind::ExtensionCall {
        match e.2 {
            Some(d) => st.recs.push(d),
            None => st.recs,
        }
    } else {
        st.recs
    };
    if !pre_ok {
        IrBuild { irs: st.irs, files: st.files, addressed: st.addressed, sized: st.sized, recs: recs1, ok: false }
    } else {
        let v = validate_spec(parms, st.files, meta, reg, ir1, recs1);
        if !v.1 {
            IrBuild { irs: st.irs, files: st.files, addressed: st.addressed, sized: st.sized, recs: v.0, ok: false }
        } else {
            let n = st.irs.len() as usize;
            let name = ident_text(slot_val(parms, ir1, 0));
            let files = match v.2 {
                Some(f) => st.files.push((f.0, f.0, f.1, f.2)),
                None => st.files,
            };
            let addressed = if ir1.kind == IRKind::Label || ir1.kind == IRKind::SectionStart {
                assoc_put(st.addressed, name, n)
            } else {
                st.addressed
            };
            let sized = if ir1.kind == IRKind::SectionStart {
                assoc_put(st.sized, name, (n, 0usize))
            } else if ir1.kind == IRKind::SectionEnd {
                assoc_put(st.sized, name, (assoc_get(st.sized, name).0, n))
            } else {
                st.sized
            };
            IrBuild { irs: st.irs.push(ir1), files, addressed, sized, recs: v.0, ok: st.ok }
        }
    }
}

/// The state after the first `k` layout instructions of `lirs`.
pub open spec fn build_run(parms: Seq<Operand>, meta: Seq<(String, FileMeta)>, reg: ExtensionRegistry, secs: Seq<Seq<char>>,
    lirs: Seq<InstrV>, st0: IrBuild, k: nat) -> IrBuild
    decreases k,
{
    if k == 0 {
        st0
    } else {
        build_step(parms, meta, reg, secs, build_run(parms, meta, reg, secs, lirs, st0, (k - 1) as nat), lirs[k - 1])
    }
}

/// What turning layout instruction `ir0` into a typed one needs of it in
/// state `st`: operands that exist, a kind that belongs to layout, an
/// identifier first where the kind names something, file metadata for a
/// `wrf` path not met before, room for reordered named arguments, and an
/// open section for a section end.
pub open spec fn build_pre(parms: Seq<Operand>, meta: Seq<(String, FileMeta)>, reg: ExtensionRegistry, st: IrBuild, ir0: InstrV)
    -> bool {
    let name = ident_text(slot_val(parms, ir0, 0));
    &&& operands_in(parms, ir0.ops)
    &&& validate_pre(parms, st.files, meta, ir0)
    &&& (ir0.kind == IRKind::Label || ir0.kind == IRKind::SectionStart || ir0.kind == IRKind::SectionEnd)
        ==> ir0.ops.len() >= 1 && slot_val(parms, ir0, 0) is Identifier
    &&& ir0.kind == IRKind::ExtensionCall ==> (reg.has(name) ==> ir0.ops.len() >= 2) && reorder_fits(parms, ir0,
        reg.registered_params(name))
    &&& ir0.kind == IRKind::SectionEnd ==> exists|i: int| first_at(st.sized, name, i)
}

/// Every layout instruction meets [`build_pre`] in the state it is met in.
pub open spec fn build_ok(parms: Seq<Operand>, meta: Seq<(String, FileMeta)>, reg: ExtensionRegistry, secs: Seq<Seq<char>>,
    lirs: Seq<InstrV>, st0: IrBuild) -> bool {
    forall|k: nat|
        k < lirs.len() ==> #[trigger] build_pre(parms, meta, reg, build_run(parms, meta, reg, secs, lirs, st0, k), lirs[k as int])
}

/// Sets key `k` of `l` to `v`; see [`assoc_put`].
fn put_key<V: Copy>(l: &mut Vec<(String, V)>, k: String, v: V)
    ensures
        keys_view(final(l)@) == assoc_put(keys_view(old(l)@), k@, v),
{
    let ghost kv = keys_view(l@);
    let mut i: usize = 0;
    while i < l.len()
        invariant
            i <= l@.len(),
            kv == keys_view(l@),
            kv == keys_view(old(l)@),
            forall|j: int| 0 <= j < i ==> kv[j].0 != k@,
        decreases l@.len() - i,
    {
        if string_eq(&l[i].0, k.as_str()) {
            proof {
                assert(first_at(kv, k@, i as int));
                let c = choose|c: int| first_at(kv, k@, c);
                assert(first_at(kv, k@, c));
                if c < i {
                    assert(kv[c].0 != k@);
                } else if c > i {
                    assert(kv[i as int].0 != k@);
                }
            }
            let ghost kk = k@;
            l.set(i, (k, v));
            proof {
                assert(first_at(kv, kk, i as int));
                let c = choose|c: int| first_at(kv, kk, c);
                assert(first_at(kv, kk, c));
                assert(c == i);
                assert(keys_view(l@) =~= kv.update(i as int, (kk, v)));
                assert(keys_view(l@) == assoc_put(kv, kk, v));
            }
            return;
        }
        i = i + 1;
    }
    proof {
        if exists|c: int| first_at(kv, k@, c) {
            let c = choose|c: int| first_at(kv, k@, c);
            assert(kv[c].0 != k@);
        }
    }
    let ghost kk = k@;
    l.push((k, v));
    proof {
        assert(keys_view(l@) =~= kv.push((kk, v)));
    }
}

/// The value under key `k` of `l`, which holds it.
fn get_key<V: Copy>(l: &Vec<(String, V)>, k: &str) -> (v: V)
    requires
        exists|i: int| first_at(keys_view(l@), k@, i),
    ensures
        v == assoc_get(keys_view(l@), k@),
{
    let ghost kv = keys_view(l@);
    let mut i: usize = 0;
    while i < l.len()
        invariant
            i <= l@.len(),
            kv == keys_view(l@),
            exists|c: int| first_at(kv, k@, c),
            forall|j: int| 0 <= j < i ==> kv[j].0 != k@,
        decreases l@.len() - i,
    {
        if string_eq(&l[i].0, k) {
            proof {
                let c = choose|c: int| first_at(kv, k@, c);
                assert(first_at(kv, k@, c));
                if c < i {
                    assert(kv[c].0 != k@);
                } else if c > i {
                    assert(kv[i as int].0 != k@);
                }
                assert(kv[i as int].1 == l@[i as int].1);
            }
            return l[i].1;
        }
        i = i + 1;
    }
    proof {
        let c = choose|c: int| first_at(kv, k@, c);
        assert(kv[c].0 == k@);
    }
    l[0].1
}

impl IRDb {
    /// Turns the layout instructions of `lin_db` into typed instructions,
    /// checking each; see [`build_step`].  The verdict is false if any
    /// check failed; the others are still made, to report every error.
    pub fn process_linear_ir(&mut self, lin_db: &LayoutDb, diags: &mut Diags, ext_registry: &ExtensionRegistry,
        file_meta: &Vec<(String, FileMeta)>) -> (ok: bool)
        requires
            build_ok(old(self).parms@, file_meta@, *ext_registry, strs_view(lin_db.section_names@), lin_instrs(*lin_db),
                build_of(*old(self), old(diags).records(), true)),
        ensures
            build_of(*final(self), final(diags).records(), ok) == build_run(old(self).parms@, file_meta@, *ext_registry,
                strs_view(lin_db.section_names@), lin_instrs(*lin_db), build_of(*old(self), old(diags).records(), true),
                lin_db.ir_vec@.len()),
            final(self).parms@ == old(self).parms@,
            final(diags).files_view() == old(diags).files_view(),
    {
        let ghost parms = self.parms@;
        let ghost meta = file_meta@;
        let ghost reg = *ext_registry;
        let ghost secs = strs_view(lin_db.section_names@);
        let ghost lirs = lin_instrs(*lin_db);
        let ghost st0 = build_of(*self, diags.records(), true);
        let section_names = &lin_db.section_names;
        let mut result = true;
        let mut k: usize = 0;
        while k < lin_db.ir_vec.len()
            invariant
                k <= lin_db.ir_vec@.len(),
                self.parms@ == parms,
                meta == file_meta@,
                reg == *ext_registry,
                secs == strs_view(section_names@),
                section_names == &lin_db.section_names,
                lirs == lin_instrs(*lin_db),
                build_ok(parms, meta, reg, secs, lirs, st0),
                build_of(*self, diags.records(), result) == build_run(parms, meta, reg, secs, lirs, st0, k as nat),
                diags.files_view() == old(diags).files_view(),
            decreases lin_db.ir_vec@.len() - k,
        {
            let ghost st = build_run(parms, meta, reg, secs, lirs, st0, k as nat);
            assert(build_pre(parms, meta, reg, build_run(parms, meta, reg, secs, lirs, st0, k as nat), lirs[k as int]));
            let lir = &lin_db.ir_vec[k];
            let mut ir = Instr { kind: lir.op, operands: lir.operand_vec.clone(), src_loc: lir.src_loc };
            let ghost ir0 = ir@;
            if ir.kind == IRKind::ExtensionCall {
                if !self.resolve_named_ext_args(&mut ir, ext_registry, section_names, diags) {
                    result = false;
                    k = k + 1;
                    proof {
                        assert(build_of(*self, diags.records(), result) == build_step(parms, meta, reg, secs, st, ir0));
                    }
                    continue;
                }
                proof {
                    assert(ir@ == InstrV { kind: ir0.kind, ops: ir.operands@, loc: ir0.loc });
                }
            }
            let ghost ir1 = ir@;
            let ir_num = self.ir_vec.len();
            if self.validate_operands(&ir, diags, ext_registry, section_names, file_meta) {
                match ir.kind {
                    IRKind::Label => {
                        let name = String::from_str(self.get_opnd_as_identifier(&ir, 0));
                        put_key(&mut self.addressed_locs, name, ir_num);
                    },
                    IRKind::SectionStart => {
                        let sec_name = String::from_str(self.get_opnd_as_identifier(&ir, 0));
                        let sec_name2 = String::from_str(sec_name.as_str());
                        put_key(&mut self.sized_locs, sec_name, (ir_num, 0));
                        put_key(&mut self.addressed_locs, sec_name2, ir_num);
                    },
                    IRKind::SectionEnd => {
                        let sec_name = String::from_str(self.get_opnd_as_identifier(&ir, 0));
                        let rng = get_key(&self.sized_locs, sec_name.as_str());
                        put_key(&mut self.sized_locs, sec_name, (rng.0, ir_num));
                    },
                    _ => {},
                }
                let ghost before = self.ir_vec@;
                self.ir_vec.push(ir);
                proof {
                    assert(self.ir_vec@.map_values(|i: Instr| i@) =~= before.map_values(|i: Instr| i@).push(ir1));
                }
            } else {
                result = false;
            }
            k = k + 1;
            proof {
                assert(build_of(*self, diags.records(), result) == build_step(parms, meta, reg, secs, st, ir0));
            }
        }
        result
    }
}
} // verus!
