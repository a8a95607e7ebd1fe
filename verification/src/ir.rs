//! Typed operand values and instruction records shared by the later stages.

use vstd::prelude::*;
use vstd::string::StrSliceExecFns;
use crate::diags::{Diags, DiagView, Severity, SourceSpan};
use crate::fmt::cat;
use crate::text::{str_to_chars, chars_to_string, is_digit};

verus! {

/// Region properties bound to a section via `section NAME in REGION`.
#[derive(Clone, Debug)]
pub struct RegionBinding {
    pub addr: u64,
    pub size: u64,
    /// The region name as written in source.
    pub name: String,
    /// Source location of the region declaration.
    pub src_loc: SourceSpan,
}

/// The effective region constraint of a section: the intersection of all
/// ancestor region bindings and the section's own binding, with the regions
/// that narrowed it, outermost first.
#[derive(Clone, Debug)]
pub struct EffectiveRegion {
    pub binding: RegionBinding,
    pub contributors: Vec<RegionBinding>,
}

#[derive(Debug, Clone, Copy, PartialEq, Eq, Structural)]
pub enum DataType {
    U64,
    I64,
    /// Ambiguously U64 or I64.
    Integer,
    QuotedString,
    Identifier,
    /// Output type of an extension call.
    Extension,
    Unknown,
}

#[derive(Debug, Clone, Copy, PartialEq, Eq, Structural)]
pub enum IRKind {
    Addr,
    Add,
    Align,
    Assert,
    BitAnd,
    BitOr,
    Const,
    Divide,
    DoubleEq,
    Eq,
    /// Declares a const with no value: `const NAME;`.
    ConstDeclare,
    /// Marks the start of an `if` block.
    IfBegin,
    /// Marks the transition from the then-body to the else-body.
    ElseBegin,
    /// Marks the end of an if/else construct.
    IfEnd,
    /// Bare assignment inside an if/else body: `NAME = expr;`
    BareAssign,
    /// Operands: [name, arg0..., output]
    ExtensionCall,
    GEq,
    Gt,
    I64,
    AddrOffset,
    Label,
    LeftShift,
    LEq,
    Lt,
    LogicalAnd,
    LogicalOr,
    Modulo,
    Multiply,
    NEq,
    BuiltinOutputAddr,
    BuiltinOutputSize,
    BuiltinVersionMajor,
    BuiltinVersionMinor,
    BuiltinVersionPatch,
    BuiltinVersionString,
    SetSecOffset,
    SetAddrOffset,
    SetAddr,
    SetFileOffset,
    Print,
    RightShift,
    SecOffset,
    FileOffset,
    SectionEnd,
    SectionStart,
    Sizeof,
    SizeofExt,
    Subtract,
    ToI64,
    ToU64,
    U64,
    /// Write N bytes (little-endian). N is the byte width: 1..=8.
    Wr(u8),
    Wrf,
    Wrs,
}

/// A typed runtime value.
#[derive(Debug, Clone)]
pub enum ParameterValue {
    U64(u64),
    I64(i64),
    /// Ambiguously U64 or I64, physically backed by i64.
    Integer(i64),
    QuotedString(String),
    Identifier(String),
    /// Placeholder value for the output slot of an extension call.
    Extension,
    Unknown,
}

/// The spec-level content of a value.
pub enum PVal {
    U64(u64),
    I64(i64),
    Integer(i64),
    QuotedString(Seq<char>),
    Identifier(Seq<char>),
    Extension,
    Unknown,
}

impl View for ParameterValue {
    type V = PVal;

    open spec fn view(&self) -> PVal {
        match self {
            ParameterValue::U64(v) => PVal::U64(*v),
            ParameterValue::I64(v) => PVal::I64(*v),
            ParameterValue::Integer(v) => PVal::Integer(*v),
            ParameterValue::QuotedString(s) => PVal::QuotedString(s@),
            ParameterValue::Identifier(s) => PVal::Identifier(s@),
            ParameterValue::Extension => PVal::Extension,
            ParameterValue::Unknown => PVal::Unknown,
        }
    }
}

pub open spec fn data_type_spec(v: PVal) -> DataType {
    match v {
        PVal::U64(_) => DataType::U64,
        PVal::I64(_) => DataType::I64,
        PVal::Integer(_) => DataType::Integer,
        PVal::QuotedString(_) => DataType::QuotedString,
        PVal::Identifier(_) => DataType::Identifier,
        PVal::Extension => DataType::Extension,
        PVal::Unknown => DataType::Unknown,
    }
}

/// True for the three numeric kinds.
pub open spec fn is_numeric(v: PVal) -> bool {
    v is U64 || v is I64 || v is Integer
}

/// The value as u64: signed values reinterpret their two's complement bits.
pub open spec fn as_u64_spec(v: PVal) -> u64 {
    match v {
        PVal::U64(x) => x,
        PVal::I64(x) => x as u64,
        PVal::Integer(x) => x as u64,
        _ => 0,
    }
}

/// The value as i64, for the signed kinds.
pub open spec fn as_i64_spec(v: PVal) -> i64 {
    match v {
        PVal::I64(x) => x,
        PVal::Integer(x) => x,
        _ => 0,
    }
}

/// A numeric value is true when its bits are not all zero.
pub open spec fn to_bool_spec(v: PVal) -> Option<bool> {
    if is_numeric(v) {
        Some(as_u64_spec(v) != 0)
    } else {
        None
    }
}

impl ParameterValue {
    pub fn data_type(&self) -> (t: DataType)
        ensures
            t == data_type_spec(self@),
    {
        match self {
            ParameterValue::U64(_) => DataType::U64,
            ParameterValue::I64(_) => DataType::I64,
            ParameterValue::Integer(_) => DataType::Integer,
            ParameterValue::QuotedString(_) => DataType::QuotedString,
            ParameterValue::Identifier(_) => DataType::Identifier,
            ParameterValue::Extension => DataType::Extension,
            ParameterValue::Unknown => DataType::Unknown,
        }
    }

    pub fn to_bool(&self) -> (b: Option<bool>)
        ensures
            b == to_bool_spec(self@),
    {
        match self {
            ParameterValue::I64(v) => Some((*v as u64) != 0),
            ParameterValue::Integer(v) => Some((*v as u64) != 0),
            ParameterValue::U64(v) => Some(*v != 0),
            _ => None,
        }
    }

    pub fn to_u64(&self) -> (r: u64)
        requires
            is_numeric(self@),
        ensures
            r == as_u64_spec(self@),
    {
        match self {
            ParameterValue::I64(v) => *v as u64,
            ParameterValue::Integer(v) => *v as u64,
            ParameterValue::U64(v) => *v,
            _ => 0,
        }
    }

    pub fn to_u64_mut(&mut self) -> (r: &mut u64)
        requires
            old(self)@ is U64,
        ensures
            *r == as_u64_spec(old(self)@),
            final(self)@ == PVal::U64(*final(r)),
    {
        match self {
            ParameterValue::U64(v) => v,
            _ => vstd::pervasive::unreached(),
        }
    }

    pub fn to_i64(&self) -> (r: i64)
        requires
            self@ is I64 || self@ is Integer,
        ensures
            r == as_i64_spec(self@),
    {
        match self {
            ParameterValue::I64(v) => *v,
            ParameterValue::Integer(v) => *v,
            _ => 0,
        }
    }

    pub fn to_i64_mut(&mut self) -> (r: &mut i64)
        requires
            old(self)@ is I64 || old(self)@ is Integer,
        ensures
            *r == as_i64_spec(old(self)@),
            old(self)@ is I64 ==> final(self)@ == PVal::I64(*final(r)),
            old(self)@ is Integer ==> final(self)@ == PVal::Integer(*final(r)),
    {
        match self {
            ParameterValue::I64(v) => v,
            ParameterValue::Integer(v) => v,
            _ => vstd::pervasive::unreached(),
        }
    }

    pub fn to_str(&self) -> (s: &str)
        requires
            self@ is QuotedString,
        ensures
            PVal::QuotedString(s@) == self@,
    {
        match self {
            ParameterValue::QuotedString(s) => s.as_str(),
            _ => "",
        }
    }

    /// Whether the value is an identifier.
    pub fn is_identifier(&self) -> (b: bool)
        ensures
            b == (self@ is Identifier),
    {
        match self {
            ParameterValue::Identifier(_) => true,
            _ => false,
        }
    }

    /// The text of an identifier value.
    pub fn identifier_to_str(&self) -> (s: &str)
        requires
            self@ is Identifier,
        ensures
            PVal::Identifier(s@) == self@,
    {
        match self {
            ParameterValue::Identifier(s) => s.as_str(),
            _ => "",
        }
    }
}

/// The magnitude suffix rule: a trailing `K`, `M` or `G` is removed and
/// stands for 2^10, 2^20 or 2^30.
pub open spec fn strip_kmg_spec(s: Seq<char>) -> (Seq<char>, u64) {
    if s.len() > 0 && s.last() == 'K' {
        (s.drop_last(), 1024)
    } else if s.len() > 0 && s.last() == 'M' {
        (s.drop_last(), 1048576u64)
    } else if s.len() > 0 && s.last() == 'G' {
        (s.drop_last(), 1073741824u64)
    } else {
        (s, 1)
    }
}

/// Strips a trailing K/M/G magnitude suffix from a numeric string and
/// returns the rest with the multiplier.
pub fn strip_kmg(s: &str) -> (r: (&str, u64))
    ensures
        (r.0@, r.1) == strip_kmg_spec(s@),
{
    let n = s.unicode_len();
    if n > 0 {
        let last = s.get_char(n - 1);
        if last == 'K' {
            return (s.substring_char(0, n - 1), 1024);
        }
        if last == 'M' {
            return (s.substring_char(0, n - 1), 1024 * 1024);
        }
        if last == 'G' {
            return (s.substring_char(0, n - 1), 1024 * 1024 * 1024);
        }
    }
    (s, 1)
}

} // verus!

verus! {

/// `char::is_whitespace`: the Unicode White_Space characters.
pub open spec fn is_unicode_ws(c: char) -> bool {
    let u = c as u32;
    (0x9 <= u && u <= 0xD) || u == 0x20 || u == 0x85 || u == 0xA0 || u == 0x1680 || (0x2000 <= u
        && u <= 0x200A) || u == 0x2028 || u == 0x2029 || u == 0x202F || u == 0x205F || u == 0x3000
}

/// True when `s`, after leading whitespace, starts with `-`.
pub open spec fn leading_minus(s: Seq<char>) -> bool {
    exists|k: int| 0 <= k < s.len() && s[k] == '-' && forall|j: int| 0 <= j < k ==> is_unicode_ws(#[trigger] s[j])
}

/// True when `s` has a leading `-` (after whitespace) and a further `-`
/// after it.
pub open spec fn second_minus(s: Seq<char>) -> bool {
    leading_minus(s) && exists|i: int, j: int| 0 <= i < j < s.len() && #[trigger] s[i] == '-' && #[trigger] s[j] == '-'
}

/// The value that `parse_int::parse::<u64>` yields for `s`, `None` when it
/// reports an error.
pub uninterp spec fn parse_int_u64(s: Seq<char>) -> Option<u64>;

/// The value that `parse_int::parse::<i64>` yields for `s`, `None` when it
/// reports an error.
pub uninterp spec fn parse_int_i64(s: Seq<char>) -> Option<i64>;

/// Calls `parse_int::parse::<u64>`, which accepts decimal, `0x`, `0o` and
/// `0b` forms with `_` separators.  A leading `-` makes that function
/// negate through an unsigned subtraction that overflows, so such input is
/// excluded.
#[verifier::external_body]
pub(crate) fn parse_int_u64_call(s: &str) -> (r: Option<u64>)
    requires
        !leading_minus(s@),
    ensures
        r == parse_int_u64(s@),
{
    parse_int::parse::<u64>(s).ok()
}

/// Calls `parse_int::parse::<i64>`, which accepts an optional `-`, then
/// decimal, `0x`, `0o` and `0b` forms with `_` separators.  After stripping
/// one leading `-` that function negates the rest by multiplying, which
/// overflows when the rest itself reads as the most negative value (it can
/// only when it carries a sign of its own), so input with a second `-`
/// after the leading one is excluded.
#[verifier::external_body]
pub(crate) fn parse_int_i64_call(s: &str) -> (r: Option<i64>)
    requires
        !second_minus(s@),
    ensures
        r == parse_int_i64(s@),
{
    parse_int::parse::<i64>(s).ok()
}

/// Scales a parsed unsigned literal by its magnitude multiplier; `None`
/// when the literal did not parse or the product overflows.
pub fn scale_u64(parsed: Option<u64>, mult: u64) -> (r: Option<u64>)
    ensures
        r == (match parsed {
            Some(v) => if v * mult <= u64::MAX { Some((v * mult) as u64) } else { None },
            None => None,
        }),
{
    match parsed {
        Some(v) => v.checked_mul(mult),
        None => None,
    }
}

/// Scales a parsed signed literal by its magnitude multiplier; `None` when
/// the literal did not parse or the product leaves the i64 range.
pub fn scale_i64(parsed: Option<i64>, mult: u64) -> (r: Option<i64>)
    requires
        mult <= i64::MAX,
    ensures
        r == (match parsed {
            Some(v) => if i64::MIN <= v * mult <= i64::MAX { Some((v * mult) as i64) } else { None },
            None => None,
        }),
{
    match parsed {
        Some(v) => v.checked_mul(mult as i64),
        None => None,
    }
}

/// `s` with every non-overlapping occurrence of `a b` (scanning left to
/// right) replaced by `c`.
pub open spec fn replace2(s: Seq<char>, a: char, b: char, c: char) -> Seq<char>
    decreases s.len(),
{
    if s.len() >= 2 && s[0] == a && s[1] == b {
        seq![c] + replace2(s.skip(2), a, b, c)
    } else if s.len() >= 1 {
        seq![s[0]] + replace2(s.skip(1), a, b, c)
    } else {
        Seq::empty()
    }
}

/// The body of a quoted string with its escapes `\"`, `\n`, `\0`, `\t`
/// resolved, one kind after the other.
pub open spec fn unescape_spec(body: Seq<char>) -> Seq<char> {
    replace2(
        replace2(replace2(replace2(body, '\\', '"', '"'), '\\', 'n', '\n'), '\\', '0', '\0'),
        '\\',
        't',
        '\t',
    )
}

/// Replaces every non-overlapping `a b` of `s` by `c`.
pub fn replace_pair(s: &Vec<char>, a: char, b: char, c: char) -> (r: Vec<char>)
    ensures
        r@ == replace2(s@, a, b, c),
{
    let mut out: Vec<char> = Vec::new();
    let mut i: usize = 0;
    let n = s.len();
    proof {
        assert(s@.skip(0) =~= s@);
        assert(out@ + replace2(s@.skip(0), a, b, c) =~= replace2(s@, a, b, c));
    }
    while i < n
        invariant
            n == s@.len(),
            i <= n,
            out@ + replace2(s@.skip(i as int), a, b, c) == replace2(s@, a, b, c),
        decreases n - i,
    {
        let ghost rest = s@.skip(i as int);
        proof {
            assert(rest.len() >= 1);
            assert(rest[0] == s@[i as int]);
        }
        if i + 1 < n && s[i] == a && s[i + 1] == b {
            proof {
                assert(rest[1] == s@[i + 1]);
                assert(rest.skip(2) =~= s@.skip(i + 2));
                assert(out@.push(c) + replace2(s@.skip(i + 2), a, b, c) =~= out@ + (seq![c] + replace2(rest.skip(2), a, b, c)));
            }
            out.push(c);
            i = i + 2;
        } else {
            proof {
                assert(rest.skip(1) =~= s@.skip(i + 1));
                assert(out@.push(s@[i as int]) + replace2(s@.skip(i + 1), a, b, c) =~= out@ + (seq![s@[i as int]] + replace2(rest.skip(1), a, b, c)));
            }
            out.push(s[i]);
            i = i + 1;
        }
    }
    proof {
        assert(s@.skip(i as int).len() == 0);
        assert(out@ + replace2(s@.skip(i as int), a, b, c) =~= out@);
    }
    out
}

/// The quoted literal `s` (quotes included) as a string value.
pub fn unescape_quoted(s: &str) -> (r: String)
    requires
        s@.len() >= 2,
        s@[0] == '"',
        s@.last() == '"',
    ensures
        r@ == unescape_spec(s@.subrange(1, s@.len() - 1)),
{
    let v = str_to_chars(s);
    let sl = v.as_slice();
    let mut body: Vec<char> = Vec::new();
    let mut i: usize = 1;
    while i < v.len() - 1
        invariant
            v@ == s@,
            1 <= i <= v@.len() - 1,
            body@ == v@.subrange(1, i as int),
        decreases v@.len() - 1 - i,
    {
        body.push(v[i]);
        proof {
            assert(v@.subrange(1, i + 1) =~= v@.subrange(1, i as int).push(v@[i as int]));
        }
        i = i + 1;
    }
    let r1 = replace_pair(&body, '\\', '"', '"');
    let r2 = replace_pair(&r1, '\\', 'n', '\n');
    let r3 = replace_pair(&r2, '\\', '0', '\0');
    let r4 = replace_pair(&r3, '\\', 't', '\t');
    chars_to_string(r4.as_slice())
}

/// Whether `s` has a leading `-` and a further `-`; see [`second_minus`].
pub fn has_second_minus(s: &str) -> (r: bool)
    ensures
        r == second_minus(s@),
{
    if !has_leading_minus(s) {
        return false;
    }
    let v = str_to_chars(s);
    let mut first: usize = 0;
    let mut seen: bool = false;
    let mut k: usize = 0;
    while k < v.len()
        invariant
            v@ == s@,
            k <= v@.len(),
            first <= k,
            seen ==> first < k && v@[first as int] == '-',
            !seen ==> forall|i: int| 0 <= i < k ==> v@[i] != '-',
            seen ==> forall|j: int| first < j < k ==> v@[j] != '-',
            seen ==> forall|i: int| 0 <= i < first ==> v@[i] != '-',
            leading_minus(s@),
        decreases v@.len() - k,
    {
        if v[k] == '-' {
            if seen {
                assert(s@[first as int] == '-' && s@[k as int] == '-');
                return true;
            }
            seen = true;
            first = k;
        }
        k = k + 1;
    }
    proof {
        assert forall|i: int, j: int| 0 <= i < j < s@.len() && #[trigger] s@[i] == '-' implies #[trigger] s@[j] != '-' by {
            assert(v@[i] == '-');
            if seen {
                assert(i >= first);
                assert(i == first);
                assert(v@[j] != '-');
            }
        }
    }
    false
}

/// Whether `s` (after leading whitespace) starts with `-`.
pub fn has_leading_minus(s: &str) -> (r: bool)
    ensures
        r == leading_minus(s@),
{
    let v = str_to_chars(s);
    let mut k: usize = 0;
    while k < v.len()
        invariant
            v@ == s@,
            k <= v@.len(),
            forall|j: int| 0 <= j < k ==> is_unicode_ws(#[trigger] v@[j]),
        decreases v@.len() - k,
    {
        let c = v[k];
        if c == '-' {
            return true;
        }
        let u = c as u32;
        let ws = (0x9 <= u && u <= 0xD) || u == 0x20 || u == 0x85 || u == 0xA0 || u == 0x1680 || (
        0x2000 <= u && u <= 0x200A) || u == 0x2028 || u == 0x2029 || u == 0x202F || u == 0x205F
            || u == 0x3000;
        if !ws {
            proof {
                assert forall|k2: int| 0 <= k2 < v@.len() && v@[k2] == '-' implies !(forall|j: int|
                    0 <= j < k2 ==> is_unicode_ws(#[trigger] v@[j])) by {
                    if k2 > k {
                        assert(!is_unicode_ws(v@[k as int]));
                    }
                }
            }
            return false;
        }
        k = k + 1;
    }
    false
}

} // verus!

verus! {

/// `s` without one trailing `c`, if it has one.
pub open spec fn strip_suffix_char(s: Seq<char>, c: char) -> Seq<char> {
    if s.len() > 0 && s.last() == c { s.drop_last() } else { s }
}

/// Removes one trailing `c` from `s`, if present.
pub fn strip_suffix_char_exec(s: &str, c: char) -> (r: &str)
    ensures
        r@ == strip_suffix_char(s@, c),
{
    let n = s.unicode_len();
    if n > 0 && s.get_char(n - 1) == c {
        s.substring_char(0, n - 1)
    } else {
        s
    }
}

/// The digits that an unsigned immediate hands to the integer parser.
pub open spec fn u64_literal_base(sval: Seq<char>) -> Seq<char> {
    strip_kmg_spec(strip_suffix_char(sval, 'u')).0
}

/// What converting the source text `sval` to type `dt` produces: the value,
/// and the code of the diagnostic that the conversion reports, if any.
pub open spec fn convert_spec(sval: Seq<char>, dt: DataType, is_immediate: bool) -> (Option<PVal>, Option<Seq<char>>) {
    match dt {
        DataType::QuotedString => if !is_immediate {
            (Some(PVal::QuotedString(Seq::empty())), None)
        } else {
            (Some(PVal::QuotedString(unescape_spec(sval.subrange(1, sval.len() - 1)))), None)
        },
        DataType::Extension => (Some(PVal::Extension), None),
        DataType::U64 => if !is_immediate {
            (Some(PVal::U64(0)), None)
        } else {
            let (base, mult) = strip_kmg_spec(strip_suffix_char(sval, 'u'));
            match parse_int_u64(base) {
                Some(v) => if v * mult <= u64::MAX {
                    (Some(PVal::U64((v * mult) as u64)), None)
                } else {
                    (None, Some("IR_1"@))
                },
                None => (None, Some("IR_1"@)),
            }
        },
        DataType::I64 => if !is_immediate {
            (Some(PVal::I64(0)), None)
        } else {
            let (base, mult) = strip_kmg_spec(strip_suffix_char(sval, 'i'));
            match parse_int_i64(base) {
                Some(v) => if i64::MIN <= v * mult <= i64::MAX {
                    (Some(PVal::I64((v * mult) as i64)), None)
                } else {
                    (None, Some("IR_3"@))
                },
                None => (None, Some("IR_3"@)),
            }
        },
        DataType::Integer => if !is_immediate {
            (Some(PVal::Integer(0)), None)
        } else {
            let (base, mult) = strip_kmg_spec(sval);
            match parse_int_i64(base) {
                Some(v) => if i64::MIN <= v * mult <= i64::MAX {
                    (Some(PVal::Integer((v * mult) as i64)), None)
                } else {
                    (None, Some("IR_4"@))
                },
                None => (None, Some("IR_4"@)),
            }
        },
        DataType::Identifier => (Some(PVal::Identifier(sval)), None),
        DataType::Unknown => (Some(PVal::Unknown), Some("IR_2"@)),
    }
}

/// The message that goes with a conversion diagnostic.
pub open spec fn convert_msg(sval: Seq<char>, dt: DataType) -> Seq<char> {
    if dt == DataType::Unknown {
        "Conversion failed for unknown type "@ + sval + "."@
    } else {
        "Malformed integer operand "@ + sval
    }
}

/// What the input of a conversion must satisfy: a quoted string literal
/// carries its quotes, an unsigned literal has no leading minus, and a
/// signed literal has no second minus after a leading one.
pub open spec fn convert_requires(sval: Seq<char>, dt: DataType, is_immediate: bool) -> bool {
    &&& (dt == DataType::QuotedString && is_immediate) ==> (sval.len() >= 2 && sval[0] == '"'
        && sval.last() == '"')
    &&& (dt == DataType::U64 && is_immediate) ==> !leading_minus(u64_literal_base(sval))
    &&& (dt == DataType::I64 && is_immediate) ==> !second_minus(strip_kmg_spec(strip_suffix_char(sval, 'i')).0)
    &&& (dt == DataType::Integer && is_immediate) ==> !second_minus(strip_kmg_spec(sval).0)
}

#[derive(Debug)]
pub struct IROperand {
    /// The id of the instruction whose output this operand carries, or None
    /// for a literal operand.
    pub ir_lid: Option<usize>,
    /// Source range that produced this operand.
    pub src_loc: SourceSpan,
    /// True if this operand holds a literal parsed from source.
    pub is_immediate: bool,
    /// The typed value.
    pub val: ParameterValue,
    /// Named-argument parameter name from the call site, if any.
    pub param_name: Option<String>,
}

impl IROperand {
    /// Converts `sval` to `data_type` and wraps it as an operand; `None`
    /// when the text is not a valid literal of that type.
    pub fn new(
        ir_lid: Option<usize>,
        sval: &str,
        src_loc: &SourceSpan,
        data_type: DataType,
        is_immediate: bool,
        diags: &mut Diags,
    ) -> (r: Option<IROperand>)
        requires
            convert_requires(sval@, data_type, is_immediate),
        ensures
            convert_spec(sval@, data_type, is_immediate).0 is Some <==> r is Some,
            r matches Some(op) ==> {
                &&& op.ir_lid == ir_lid
                &&& op.src_loc == *src_loc
                &&& op.is_immediate == is_immediate
                &&& Some(op.val@) == convert_spec(sval@, data_type, is_immediate).0
                &&& op.param_name is None
            },
            final(diags).files_view() == old(diags).files_view(),
            final(diags).records() == match convert_spec(sval@, data_type, is_immediate).1 {
                None => old(diags).records(),
                Some(code) => old(diags).records().push(DiagView {
                    severity: Severity::Error,
                    code,
                    msg: convert_msg(sval@, data_type),
                    primary: Some(*src_loc),
                    secondaries: Seq::empty(),
                }),
            },
    {
        match IROperand::convert_type(sval, data_type, src_loc, is_immediate, diags) {
            Some(val) => Some(IROperand { ir_lid, src_loc: *src_loc, is_immediate, val, param_name: None }),
            None => None,
        }
    }

    fn convert_type(
        sval: &str,
        data_type: DataType,
        src_loc: &SourceSpan,
        is_immediate: bool,
        diags: &mut Diags,
    ) -> (r: Option<ParameterValue>)
        requires
            convert_requires(sval@, data_type, is_immediate),
        ensures
            r matches Some(v) ==> convert_spec(sval@, data_type, is_immediate).0 == Some(v@),
            r is None ==> convert_spec(sval@, data_type, is_immediate).0 is None,
            final(diags).files_view() == old(diags).files_view(),
            final(diags).records() == match convert_spec(sval@, data_type, is_immediate).1 {
                None => old(diags).records(),
                Some(code) => old(diags).records().push(DiagView {
                    severity: Severity::Error,
                    code,
                    msg: convert_msg(sval@, data_type),
                    primary: Some(*src_loc),
                    secondaries: Seq::empty(),
                }),
            },
    {
        proof {
            reveal_strlit("IR_1");
            reveal_strlit("IR_2");
            reveal_strlit("IR_3");
            reveal_strlit("IR_4");
            reveal_strlit("Malformed integer operand ");
            reveal_strlit("Conversion failed for unknown type ");
            reveal_strlit(".");
        }
        match data_type {
            DataType::QuotedString => {
                if !is_immediate {
                    return Some(ParameterValue::QuotedString(String::new()));
                }
                Some(ParameterValue::QuotedString(unescape_quoted(sval)))
            },
            DataType::Extension => Some(ParameterValue::Extension),
            DataType::U64 => {
                if !is_immediate {
                    return Some(ParameterValue::U64(0));
                }
                let no_u = strip_suffix_char_exec(sval, 'u');
                let (base, mult) = strip_kmg(no_u);
                match scale_u64(parse_int_u64_call(base), mult) {
                    Some(v) => Some(ParameterValue::U64(v)),
                    None => {
                        let m = cat(String::from_str("Malformed integer operand "), sval);
                        diags.err1("IR_1", m.as_str(), *src_loc);
                        None
                    },
                }
            },
            DataType::I64 => {
                if !is_immediate {
                    return Some(ParameterValue::I64(0));
                }
                let no_i = strip_suffix_char_exec(sval, 'i');
                let (base, mult) = strip_kmg(no_i);
                match scale_i64(parse_int_i64_call(base), mult) {
                    Some(v) => Some(ParameterValue::I64(v)),
                    None => {
                        let m = cat(String::from_str("Malformed integer operand "), sval);
                        diags.err1("IR_3", m.as_str(), *src_loc);
                        None
                    },
                }
            },
            DataType::Integer => {
                if !is_immediate {
                    return Some(ParameterValue::Integer(0));
                }
                let (base, mult) = strip_kmg(sval);
                match scale_i64(parse_int_i64_call(base), mult) {
                    Some(v) => Some(ParameterValue::Integer(v)),
                    None => {
                        let m = cat(String::from_str("Malformed integer operand "), sval);
                        diags.err1("IR_4", m.as_str(), *src_loc);
                        None
                    },
                }
            },
            DataType::Identifier => Some(ParameterValue::Identifier(String::from_str(sval))),
            DataType::Unknown => {
                let m = cat(cat(String::from_str("Conversion failed for unknown type "), sval), ".");
                diags.err1("IR_2", m.as_str(), *src_loc);
                Some(ParameterValue::Unknown)
            },
        }
    }

    /// The id of the instruction this operand is the output of, if any.
    pub fn is_output_of(&self) -> (r: Option<usize>)
        ensures
            r == self.ir_lid,
    {
        self.ir_lid
    }

    /// A copy of the operand's value.
    pub fn clone_val(&self) -> (v: ParameterValue)
        ensures
            v@ == self.val@,
    {
        clone_value(&self.val)
    }
}

/// A copy of a value.
pub fn clone_value(v: &ParameterValue) -> (r: ParameterValue)
    ensures
        r@ == v@,
{
    match v {
        ParameterValue::U64(x) => ParameterValue::U64(*x),
        ParameterValue::I64(x) => ParameterValue::I64(*x),
        ParameterValue::Integer(x) => ParameterValue::Integer(*x),
        ParameterValue::QuotedString(s) => ParameterValue::QuotedString(s.clone()),
        ParameterValue::Identifier(s) => ParameterValue::Identifier(s.clone()),
        ParameterValue::Extension => ParameterValue::Extension,
        ParameterValue::Unknown => ParameterValue::Unknown,
    }
}

/// One instruction: its kind, its operand ids and its source location.
#[derive(Debug, Clone)]
pub struct IR {
    pub kind: IRKind,
    pub operands: Vec<usize>,
    pub src_loc: SourceSpan,
}

/// An instruction as contracts see it: its kind, its operand indices and
/// its source location.
pub struct InstrV {
    pub kind: IRKind,
    pub ops: Seq<usize>,
    pub loc: SourceSpan,
}

impl View for IR {
    type V = InstrV;

    open spec fn view(&self) -> InstrV {
        InstrV { kind: self.kind, ops: self.operands@, loc: self.src_loc }
    }
}

} // verus!

verus! {

/// The value of a non-empty run of ASCII decimal digits.
pub open spec fn dec_value(s: Seq<char>) -> nat
    decreases s.len(),
{
    if s.len() == 0 {
        0
    } else {
        dec_value(s.drop_last()) * 10 + ((s.last() as u32) - 48) as nat
    }
}

pub open spec fn all_digits(s: Seq<char>) -> bool {
    forall|i: int| 0 <= i < s.len() ==> is_digit(#[trigger] s[i])
}

/// What `str::parse::<u64>` yields: an optional `+`, then one or more ASCII
/// digits whose value fits in u64; `None` for anything else.
pub open spec fn std_parse_u64(s: Seq<char>) -> Option<u64> {
    let body = if s.len() > 0 && s[0] == '+' { s.skip(1) } else { s };
    if body.len() >= 1 && all_digits(body) && dec_value(body) <= u64::MAX {
        Some(dec_value(body) as u64)
    } else {
        None
    }
}

/// Calls `str::parse::<u64>`.
#[verifier::external_body]
fn std_parse_u64_call(s: &str) -> (r: Option<u64>)
    ensures
        r == std_parse_u64(s@),
{
    s.parse::<u64>().ok()
}

/// The index of the first `c` in `s`.
pub open spec fn first_index(s: Seq<char>, c: char) -> Option<int> {
    if exists|i: int| 0 <= i < s.len() && s[i] == c {
        Some(choose|i: int| 0 <= i < s.len() && s[i] == c && forall|j: int| 0 <= j < i ==> s[j] != c)
    } else {
        None
    }
}

/// Splits `s` at its first `c`: the part before, and the part after if a
/// `c` was found.
pub open spec fn split_first(s: Seq<char>, c: char) -> (Seq<char>, Option<Seq<char>>) {
    match first_index(s, c) {
        Some(i) => (s.subrange(0, i), Some(s.subrange(i + 1, s.len() as int))),
        None => (s, None),
    }
}

/// Parses a version component, 0 when it is not a plain number.
pub open spec fn version_field(part: Option<Seq<char>>) -> u64 {
    match part {
        Some(p) => match std_parse_u64(p) {
            Some(v) => v,
            None => 0,
        },
        None => 0,
    }
}

/// The first three `.`-separated parts of `s`; the third keeps any further
/// dots.
pub open spec fn version_parts(s: Seq<char>) -> (Option<Seq<char>>, Option<Seq<char>>, Option<Seq<char>>) {
    let (p1, rest1) = split_first(s, '.');
    match rest1 {
        None => (Some(p1), None, None),
        Some(r1) => {
            let (p2, rest2) = split_first(r1, '.');
            (Some(p1), Some(p2), rest2)
        },
    }
}

/// Splits `v` at its first `c`.
fn split_first_exec(v: &[char], c: char) -> (r: (Vec<char>, Option<Vec<char>>))
    ensures
        r.0@ == split_first(v@, c).0,
        r.1 is Some <==> split_first(v@, c).1 is Some,
        r.1 matches Some(x) ==> split_first(v@, c).1 == Some(x@),
{
    let mut i: usize = 0;
    let mut before: Vec<char> = Vec::new();
    while i < v.len()
        invariant
            i <= v@.len(),
            before@ == v@.subrange(0, i as int),
            forall|j: int| 0 <= j < i ==> v@[j] != c,
        decreases v@.len() - i,
    {
        if v[i] == c {
            let mut after: Vec<char> = Vec::new();
            let mut k: usize = i + 1;
            while k < v.len()
                invariant
                    i < k <= v@.len(),
                    after@ == v@.subrange(i + 1, k as int),
                decreases v@.len() - k,
            {
                after.push(v[k]);
                proof { assert(v@.subrange(i + 1, k + 1) =~= v@.subrange(i + 1, k as int).push(v@[k as int])); }
                k = k + 1;
            }
            proof {
                let s = v@;
                assert(exists|w: int| 0 <= w < s.len() && s[w] == c);
                let w = choose|w: int| 0 <= w < s.len() && s[w] == c && forall|j: int| 0 <= j < w ==> s[j] != c;
                assert(0 <= i < s.len() && s[i as int] == c && forall|j: int| 0 <= j < i ==> s[j] != c);
                if w < i {
                    assert(s[w] != c);
                }
                if w > i {
                    assert(s[i as int] != c);
                }
                assert(w == i);
            }
            return (before, Some(after));
        }
        before.push(v[i]);
        proof { assert(v@.subrange(0, i + 1) =~= v@.subrange(0, i as int).push(v@[i as int])); }
        i = i + 1;
    }
    proof {
        assert(v@.subrange(0, i as int) =~= v@);
    }
    (before, None)
}

/// All compile-time constants exposed as built-in variables.
pub struct ConstBuiltins {
    pub brink_version_string: &'static str,
    pub brink_version_major: u64,
    pub brink_version_minor: u64,
    pub brink_version_patch: u64,
}

/// The version of this compiler.
pub const BRINK_VERSION: &'static str = "0.1.0";

impl ConstBuiltins {
    /// Initialization is deterministic and happens at each `get`; this does
    /// nothing.
    pub fn init() {
    }

    /// Splits `version` into major, minor and patch.  Each field that is
    /// missing or not a plain number is 0.
    pub fn from_version_str(version: &'static str) -> (b: ConstBuiltins)
        ensures
            b.brink_version_string == version,
            b.brink_version_major == version_field(version_parts(version@).0),
            b.brink_version_minor == version_field(version_parts(version@).1),
            b.brink_version_patch == version_field(version_parts(version@).2),
    {
        let v = str_to_chars(version);
        let (p1, rest1) = split_first_exec(v.as_slice(), '.');
        let major = parse_field(chars_to_string(p1.as_slice()).as_str());
        let (minor, patch) = match rest1 {
            None => (0, 0),
            Some(r1) => {
                let (p2, rest2) = split_first_exec(r1.as_slice(), '.');
                let minor = parse_field(chars_to_string(p2.as_slice()).as_str());
                let patch = match rest2 {
                    None => 0,
                    Some(r2) => parse_field(chars_to_string(r2.as_slice()).as_str()),
                };
                (minor, patch)
            },
        };
        ConstBuiltins {
            brink_version_string: version,
            brink_version_major: major,
            brink_version_minor: minor,
            brink_version_patch: patch,
        }
    }

    /// The built-in constants of this compiler.
    pub fn get() -> (b: ConstBuiltins)
        ensures
            b.brink_version_string == BRINK_VERSION,
            b.brink_version_major == version_field(version_parts(BRINK_VERSION@).0),
            b.brink_version_minor == version_field(version_parts(BRINK_VERSION@).1),
            b.brink_version_patch == version_field(version_parts(BRINK_VERSION@).2),
    {
        Self::from_version_str(BRINK_VERSION)
    }
}

fn parse_field(p: &str) -> (r: u64)
    ensures
        r == version_field(Some(p@)),
{
    match std_parse_u64_call(p) {
        Some(v) => v,
        None => 0,
    }
}

} // verus!

verus! {

/// The name of a data type, as its `Debug` rendering prints it.
pub open spec fn data_type_name_spec(t: DataType) -> &'static str {
    match t {
        DataType::U64 => "U64",
        DataType::I64 => "I64",
        DataType::Integer => "Integer",
        DataType::QuotedString => "QuotedString",
        DataType::Identifier => "Identifier",
        DataType::Extension => "Extension",
        DataType::Unknown => "Unknown",
    }
}

/// The name of a data type, as its `Debug` rendering prints it.
pub fn data_type_name(t: DataType) -> (s: &'static str)
    ensures
        s == data_type_name_spec(t),
{
    match t {
        DataType::U64 => "U64",
        DataType::I64 => "I64",
        DataType::Integer => "Integer",
        DataType::QuotedString => "QuotedString",
        DataType::Identifier => "Identifier",
        DataType::Extension => "Extension",
        DataType::Unknown => "Unknown",
    }
}

} // verus!

verus! {

/// The name of an instruction kind, as its `Debug` rendering prints it.
pub open spec fn irkind_name_spec(k: IRKind) -> Seq<char> {
    match k {
        IRKind::Addr => "Addr"@,
        IRKind::Add => "Add"@,
        IRKind::Align => "Align"@,
        IRKind::Assert => "Assert"@,
        IRKind::BitAnd => "BitAnd"@,
        IRKind::BitOr => "BitOr"@,
        IRKind::Const => "Const"@,
        IRKind::Divide => "Divide"@,
        IRKind::DoubleEq => "DoubleEq"@,
        IRKind::Eq => "Eq"@,
        IRKind::ConstDeclare => "ConstDeclare"@,
        IRKind::IfBegin => "IfBegin"@,
        IRKind::ElseBegin => "ElseBegin"@,
        IRKind::IfEnd => "IfEnd"@,
        IRKind::BareAssign => "BareAssign"@,
        IRKind::ExtensionCall => "ExtensionCall"@,
        IRKind::GEq => "GEq"@,
        IRKind::Gt => "Gt"@,
        IRKind::I64 => "I64"@,
        IRKind::AddrOffset => "AddrOffset"@,
        IRKind::Label => "Label"@,
        IRKind::LeftShift => "LeftShift"@,
        IRKind::LEq => "LEq"@,
        IRKind::Lt => "Lt"@,
        IRKind::LogicalAnd => "LogicalAnd"@,
        IRKind::LogicalOr => "LogicalOr"@,
        IRKind::Modulo => "Modulo"@,
        IRKind::Multiply => "Multiply"@,
        IRKind::NEq => "NEq"@,
        IRKind::BuiltinOutputAddr => "BuiltinOutputAddr"@,
        IRKind::BuiltinOutputSize => "BuiltinOutputSize"@,
        IRKind::BuiltinVersionMajor => "BuiltinVersionMajor"@,
        IRKind::BuiltinVersionMinor => "BuiltinVersionMinor"@,
        IRKind::BuiltinVersionPatch => "BuiltinVersionPatch"@,
        IRKind::BuiltinVersionString => "BuiltinVersionString"@,
        IRKind::SetSecOffset => "SetSecOffset"@,
        IRKind::SetAddrOffset => "SetAddrOffset"@,
        IRKind::SetAddr => "SetAddr"@,
        IRKind::SetFileOffset => "SetFileOffset"@,
        IRKind::Print => "Print"@,
        IRKind::RightShift => "RightShift"@,
        IRKind::SecOffset => "SecOffset"@,
        IRKind::FileOffset => "FileOffset"@,
        IRKind::SectionEnd => "SectionEnd"@,
        IRKind::SectionStart => "SectionStart"@,
        IRKind::Sizeof => "Sizeof"@,
        IRKind::SizeofExt => "SizeofExt"@,
        IRKind::Subtract => "Subtract"@,
        IRKind::ToI64 => "ToI64"@,
        IRKind::ToU64 => "ToU64"@,
        IRKind::U64 => "U64"@,
        IRKind::Wrf => "Wrf"@,
        IRKind::Wrs => "Wrs"@,
        IRKind::Wr(n) => "Wr("@ + crate::fmt::digits(n as nat, 10) + ")"@,
    }
}

/// The name of an instruction kind, as its `Debug` rendering prints it.
pub fn irkind_name(k: IRKind) -> (s: String)
    ensures
        s@ == irkind_name_spec(k),
{
    match k {
        IRKind::Addr => String::from_str("Addr"),
        IRKind::Add => String::from_str("Add"),
        IRKind::Align => String::from_str("Align"),
        IRKind::Assert => String::from_str("Assert"),
        IRKind::BitAnd => String::from_str("BitAnd"),
        IRKind::BitOr => String::from_str("BitOr"),
        IRKind::Const => String::from_str("Const"),
        IRKind::Divide => String::from_str("Divide"),
        IRKind::DoubleEq => String::from_str("DoubleEq"),
        IRKind::Eq => String::from_str("Eq"),
        IRKind::ConstDeclare => String::from_str("ConstDeclare"),
        IRKind::IfBegin => String::from_str("IfBegin"),
        IRKind::ElseBegin => String::from_str("ElseBegin"),
        IRKind::IfEnd => String::from_str("IfEnd"),
        IRKind::BareAssign => String::from_str("BareAssign"),
        IRKind::ExtensionCall => String::from_str("ExtensionCall"),
        IRKind::GEq => String::from_str("GEq"),
        IRKind::Gt => String::from_str("Gt"),
        IRKind::I64 => String::from_str("I64"),
        IRKind::AddrOffset => String::from_str("AddrOffset"),
        IRKind::Label => String::from_str("Label"),
        IRKind::LeftShift => String::from_str("LeftShift"),
        IRKind::LEq => String::from_str("LEq"),
        IRKind::Lt => String::from_str("Lt"),
        IRKind::LogicalAnd => String::from_str("LogicalAnd"),
        IRKind::LogicalOr => String::from_str("LogicalOr"),
        IRKind::Modulo => String::from_str("Modulo"),
        IRKind::Multiply => String::from_str("Multiply"),
        IRKind::NEq => String::from_str("NEq"),
        IRKind::BuiltinOutputAddr => String::from_str("BuiltinOutputAddr"),
        IRKind::BuiltinOutputSize => String::from_str("BuiltinOutputSize"),
        IRKind::BuiltinVersionMajor => String::from_str("BuiltinVersionMajor"),
        IRKind::BuiltinVersionMinor => String::from_str("BuiltinVersionMinor"),
        IRKind::BuiltinVersionPatch => String::from_str("BuiltinVersionPatch"),
        IRKind::BuiltinVersionString => String::from_str("BuiltinVersionString"),
        IRKind::SetSecOffset => String::from_str("SetSecOffset"),
        IRKind::SetAddrOffset => String::from_str("SetAddrOffset"),
        IRKind::SetAddr => String::from_str("SetAddr"),
        IRKind::SetFileOffset => String::from_str("SetFileOffset"),
        IRKind::Print => String::from_str("Print"),
        IRKind::RightShift => String::from_str("RightShift"),
        IRKind::SecOffset => String::from_str("SecOffset"),
        IRKind::FileOffset => String::from_str("FileOffset"),
        IRKind::SectionEnd => String::from_str("SectionEnd"),
        IRKind::SectionStart => String::from_str("SectionStart"),
        IRKind::Sizeof => String::from_str("Sizeof"),
        IRKind::SizeofExt => String::from_str("SizeofExt"),
        IRKind::Subtract => String::from_str("Subtract"),
        IRKind::ToI64 => String::from_str("ToI64"),
        IRKind::ToU64 => String::from_str("ToU64"),
        IRKind::U64 => String::from_str("U64"),
        IRKind::Wrf => String::from_str("Wrf"),
        IRKind::Wrs => String::from_str("Wrs"),
        IRKind::Wr(n) => cat(cat(String::from_str("Wr("), crate::fmt::u64_to_dec(n as u64).as_str()), ")"),
    }
}

} // verus!
