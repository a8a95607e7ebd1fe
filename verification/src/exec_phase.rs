//! Image generation: writing the bytes of each output instruction into the
//! image buffer at the locations the layout assigned, refusing overlapping
//! writes, and patching extension output into the finished image.

use vstd::prelude::*;
use crate::diags::{Diags, DiagView, Severity, SourceSpan};
use crate::extension::{le_bytes, ExtensionRegistry, registered_size, ParamArg, ParamDesc, ParamKind, string_eq, ArgV,
    arg_view, args_view};
use crate::engine::WrDispatch;
use crate::fmt::{cat, usize_to_dec};
use crate::ir::{IR, IRKind, IROperand, ParameterValue, PVal, is_numeric, as_u64_spec};
use crate::ireval::{execute_assert, assert_info_requires, evaluate_string_expr, string_expr_errs, string_expr_text, string_piece, op_locs};
use crate::locationdb::Location;
use crate::ranges::{WrittenRanges, RangeEntry, insert_spec, overlap_spec, overlap_msg, sorted, intersects};

verus! {

/// The final stage: builds the output image.
pub struct ExecPhase {}

/// The values held by a parameter table.
pub open spec fn pvals(v: Seq<ParameterValue>) -> Seq<PVal> {
    v.map_values(|p: ParameterValue| p@)
}

/// The absolute address of a location.
pub open spec fn loc_addr(l: Location) -> int {
    l.addr.addr_base + l.addr.addr_offset
}

/// Whether recording `[start, start + size)` succeeds: an empty range always
/// does, any other one when it overlaps no recorded range.
pub open spec fn range_ok(e: Seq<RangeEntry>, start: u64, size: u64) -> bool {
    size == 0 || overlap_spec(e, start, (start + size) as u64) is None
}

/// The recorded ranges after recording `[start, start + size)`.
pub open spec fn ranges_after(e: Seq<RangeEntry>, start: u64, size: u64, loc: SourceSpan) -> Seq<RangeEntry> {
    if size == 0 { e } else { insert_spec(e, start, (start + size) as u64, loc) }
}

/// The diagnostic recording `[start, start + size)` adds: one `code` error
/// naming the overlapped range, if any.
pub open spec fn range_diags(e: Seq<RangeEntry>, start: u64, size: u64, loc: SourceSpan, code: Seq<char>) -> Seq<
    DiagView,
> {
    if size == 0 {
        Seq::empty()
    } else {
        match overlap_spec(e, start, (start + size) as u64) {
            None => Seq::empty(),
            Some(p) => seq![DiagView {
                severity: Severity::Error,
                code,
                msg: overlap_msg(start, (start + size) as u64, p),
                primary: Some(loc),
                secondaries: seq![(p.2, Seq::<char>::empty())],
            }],
        }
    }
}

/// `s` repeated `n` times.
pub open spec fn repeat_bytes(s: Seq<u8>, n: nat) -> Seq<u8>
    decreases n,
{
    if n == 0 { Seq::empty() } else { repeat_bytes(s, (n - 1) as nat) + s }
}

/// The bytes one `wrN` unit writes: the low `w` little-endian bytes of the
/// value's 64-bit pattern.
pub open spec fn wrx_unit(v: PVal, w: nat) -> Seq<u8> {
    le_bytes(as_u64_spec(v)).take(w as int)
}

/// How many times a `wrN` writes its value: the second operand, else once.
pub open spec fn wrx_repeat(ir: IR, parms: Seq<PVal>) -> nat {
    if ir.operands@.len() == 2 { as_u64_spec(parms[ir.operands@[1] as int]) as nat } else { 1 }
}

/// What a `wrN` instruction needs to be executed.
pub open spec fn wrx_requires(locs: Seq<Location>, parms: Seq<PVal>, lid: int, ir: IR) -> bool {
    &&& ir.kind is Wr
    &&& 1 <= ir.kind->Wr_0 <= 8
    &&& ir.operands@.len() == 1 || ir.operands@.len() == 2
    &&& forall|k: int| 0 <= k < ir.operands@.len() ==> #[trigger] ir.operands@[k] < parms.len()
    &&& is_numeric(parms[ir.operands@[0] as int])
    &&& ir.operands@.len() == 2 ==> is_numeric(parms[ir.operands@[1] as int])
    &&& 0 <= lid < locs.len()
    &&& loc_addr(locs[lid]) + ir.kind->Wr_0 * wrx_repeat(ir, parms) <= u64::MAX
}

/// The text a `wrs` writes, when its operands can all be stringified.
pub open spec fn wrs_text(parms: Seq<PVal>, ops: Seq<IROperand>, ir: IR) -> Seq<char> {
    string_expr_text(parms, ir.operands@, ir.operands@.len() as int)
}

/// The errors stringifying the operands of a `wrs` reports.
pub open spec fn wrs_errs(parms: Seq<PVal>, ops: Seq<IROperand>, ir: IR) -> Seq<DiagView> {
    string_expr_errs(parms, op_locs(ops), ir.operands@, ir.operands@.len() as int)
}

/// What a `wrs` instruction needs to be executed.
pub open spec fn wrs_requires(locs: Seq<Location>, parms: Seq<PVal>, ops: Seq<IROperand>, lid: int, ir: IR) -> bool {
    &&& forall|k: int| 0 <= k < ir.operands@.len() ==> #[trigger] ir.operands@[k] < parms.len() && (string_piece(
        parms[ir.operands@[k] as int],
    ) is None ==> ir.operands@[k] < ops.len())
    &&& 0 <= lid < locs.len()
    &&& wrs_errs(parms, ops, ir).len() == 0 ==> loc_addr(locs[lid]) + vstd::utf8::encode_utf8(
        wrs_text(parms, ops, ir),
    ).len() <= u64::MAX
}

/// `i` is the first entry loaded for `path`.
pub open spec fn first_file(files: Seq<(String, Vec<u8>)>, path: Seq<char>, i: int) -> bool {
    0 <= i < files.len() && files[i].0@ == path && forall|j: int| 0 <= j < i ==> files[j].0@ != path
}

/// The contents loaded for `path` (the first entry for it), if any.
pub open spec fn file_bytes(files: Seq<(String, Vec<u8>)>, path: Seq<char>) -> Option<Seq<u8>> {
    if exists|i: int| first_file(files, path, i) {
        Some(files[choose|i: int| first_file(files, path, i)].1@)
    } else {
        None
    }
}

/// Finds the first entry loaded for `path`.
fn find_file(files: &[(String, Vec<u8>)], path: &str) -> (k: usize)
    ensures
        k <= files@.len(),
        k < files@.len() ==> first_file(files@, path@, k as int),
        k == files@.len() ==> forall|j: int| 0 <= j < files@.len() ==> files@[j].0@ != path@,
{
    let mut k: usize = 0;
    while k < files.len()
        invariant
            k <= files@.len(),
            forall|j: int| 0 <= j < k ==> files@[j].0@ != path@,
        decreases files@.len() - k,
    {
        if crate::extension::string_eq(&files[k].0, path) {
            return k;
        }
        k = k + 1;
    }
    k
}

/// What a `wrf` instruction needs to be executed: its path is a string whose
/// contents were loaded, and the contents fit at the location.
pub open spec fn wrf_requires(locs: Seq<Location>, parms: Seq<PVal>, files: Seq<(String, Vec<u8>)>, lid: int, ir: IR)
    -> bool {
    &&& ir.operands@.len() >= 1
    &&& ir.operands@[0] < parms.len()
    &&& parms[ir.operands@[0] as int] is QuotedString
    &&& file_bytes(files, parms[ir.operands@[0] as int]->QuotedString_0) is Some
    &&& 0 <= lid < locs.len()
    &&& loc_addr(locs[lid]) + file_bytes(files, parms[ir.operands@[0] as int]->QuotedString_0).unwrap().len()
        <= u64::MAX
}


/// The effect of one instruction on the image: whether it succeeded, the
/// bytes it appended, the recorded ranges after it and the diagnostics it
/// added.
pub struct StepOut {
    pub ok: bool,
    pub bytes: Seq<u8>,
    pub ranges: Seq<RangeEntry>,
    pub diags: Seq<DiagView>,
}

/// Writing `bytes` (`size` of them) at `start`.
pub open spec fn write_out(e: Seq<RangeEntry>, start: u64, size: u64, bytes: Seq<u8>, loc: SourceSpan) -> StepOut {
    let ok = range_ok(e, start, size);
    StepOut {
        ok,
        bytes: if ok { bytes } else { Seq::empty() },
        ranges: ranges_after(e, start, size, loc),
        diags: range_diags(e, start, size, loc, "ERR_172"@),
    }
}

/// `n` zero bytes.
pub open spec fn zeros(n: nat) -> Seq<u8> {
    Seq::new(n, |i: int| 0u8)
}

/// What executing instruction `lid` does to the image in the byte
/// generation pass.
pub open spec fn core_step(locs: Seq<Location>, pv: Seq<PVal>, ops: Seq<IROperand>, files: Seq<(String, Vec<u8>)>,
    exts: Seq<(Seq<char>, usize)>, lid: int, ir: IR, e: Seq<RangeEntry>) -> StepOut {
    let start = loc_addr(locs[lid]) as u64;
    match ir.kind {
        IRKind::Wr(w) => write_out(e, start, (w * wrx_repeat(ir, pv)) as u64, repeat_bytes(
            wrx_unit(pv[ir.operands@[0] as int], w as nat),
            wrx_repeat(ir, pv),
        ), ir.src_loc),
        IRKind::Wrs => if wrs_errs(pv, ops, ir).len() > 0 {
            StepOut {
                ok: false,
                bytes: Seq::empty(),
                ranges: e,
                diags: wrs_errs(pv, ops, ir) + seq![DiagView {
                    severity: Severity::Error,
                    code: "ERR_139"@,
                    msg: "Evaluating string expression failed."@,
                    primary: Some(ir.src_loc),
                    secondaries: Seq::empty(),
                }],
            }
        } else {
            let bytes = vstd::utf8::encode_utf8(wrs_text(pv, ops, ir));
            write_out(e, start, bytes.len() as u64, bytes, ir.src_loc)
        },
        IRKind::Wrf => {
            let bytes = file_bytes(files, pv[ir.operands@[0] as int]->QuotedString_0).unwrap();
            write_out(e, start, bytes.len() as u64, bytes, ir.src_loc)
        },
        IRKind::ExtensionCall => StepOut {
            ok: true,
            bytes: match registered_size(exts, pv[ir.operands@[0] as int]->Identifier_0) {
                Some(n) => zeros(n as nat),
                None => Seq::empty(),
            },
            ranges: e,
            diags: Seq::empty(),
        },
        _ => StepOut { ok: true, bytes: Seq::empty(), ranges: e, diags: Seq::empty() },
    }
}

/// What instruction `lid` needs for the byte generation pass.
pub open spec fn core_requires(locs: Seq<Location>, pv: Seq<PVal>, ops: Seq<IROperand>, files: Seq<(String, Vec<u8>)>,
    lid: int, ir: IR) -> bool {
    match ir.kind {
        IRKind::Wr(_) => wrx_requires(locs, pv, lid, ir),
        IRKind::Wrs => wrs_requires(locs, pv, ops, lid, ir),
        IRKind::Wrf => wrf_requires(locs, pv, files, lid, ir),
        IRKind::ExtensionCall => ir.operands@.len() >= 1 && ir.operands@[0] < pv.len()
            && pv[ir.operands@[0] as int] is Identifier,
        _ => true,
    }
}

/// The state of the byte generation pass.
pub struct CoreState {
    pub bytes: Seq<u8>,
    pub ranges: Seq<RangeEntry>,
    pub diags: Seq<DiagView>,
    pub errors: nat,
}

/// The most failed instructions the pass tolerates before it stops.
pub open spec fn max_errors() -> nat {
    10
}

/// The pass after the first `k` instructions, starting from ranges `e0`;
/// it stops once more than ten instructions have failed.
pub open spec fn core_fold(locs: Seq<Location>, pv: Seq<PVal>, ops: Seq<IROperand>, files: Seq<(String, Vec<u8>)>,
    exts: Seq<(Seq<char>, usize)>, irs: Seq<IR>, e0: Seq<RangeEntry>, k: nat) -> CoreState
    decreases k,
{
    if k == 0 {
        CoreState { bytes: Seq::empty(), ranges: e0, diags: Seq::empty(), errors: 0 }
    } else {
        let prev = core_fold(locs, pv, ops, files, exts, irs, e0, (k - 1) as nat);
        if prev.errors > max_errors() {
            prev
        } else {
            let s = core_step(locs, pv, ops, files, exts, k - 1, irs[k - 1], prev.ranges);
            CoreState {
                bytes: prev.bytes + s.bytes,
                ranges: s.ranges,
                diags: prev.diags + s.diags,
                errors: prev.errors + if s.ok { 0nat } else { 1nat },
            }
        }
    }
}


/// How many of the first `k` sections are called `name`.
pub open spec fn count_named(secs: Seq<WrDispatch>, name: Seq<char>, k: int) -> nat
    decreases k,
{
    if k <= 0 {
        0
    } else {
        count_named(secs, name, k - 1) + if secs[k - 1].name@ == name { 1nat } else { 0nat }
    }
}

/// `i` is the first section called `name`.
pub open spec fn first_sec(secs: Seq<WrDispatch>, name: Seq<char>, i: int) -> bool {
    0 <= i < secs.len() && secs[i].name@ == name && forall|j: int| 0 <= j < i ==> secs[j].name@ != name
}

/// Where the section a slice parameter names lies in the image.
#[derive(Debug, Clone, Copy, PartialEq, Eq, Structural)]
pub enum SectionLookup {
    /// Written once, at `start..end`.
    Found(usize, usize),
    /// Not written at all.
    Missing,
    /// Written this many times.
    Ambiguous(usize),
}

pub open spec fn section_lookup(secs: Seq<WrDispatch>, name: Seq<char>) -> SectionLookup {
    let n = count_named(secs, name, secs.len() as int);
    if n == 0 {
        SectionLookup::Missing
    } else if n > 1 {
        SectionLookup::Ambiguous(n as usize)
    } else {
        let i = choose|i: int| first_sec(secs, name, i);
        SectionLookup::Found(secs[i].file_offset as usize, (secs[i].file_offset + secs[i].size) as usize)
    }
}

/// The value kinds a non-slice extension parameter accepts.
pub open spec fn arg_value_ok(v: PVal) -> bool {
    v is U64 || v is I64 || v is Integer || v is QuotedString
}

/// `a` is the argument handed to an extension for a parameter of `kind`
/// whose operand holds `v`: for a slice, the image bytes of `range`.
pub open spec fn arg_for(a: ParamArg, kind: ParamKind, v: PVal, range: (usize, usize), img: Seq<u8>) -> bool {
    if kind == ParamKind::Slice {
        a matches ParamArg::Slice { data } && data@ == img.subrange(range.0 as int, range.1 as int)
    } else {
        match v {
            PVal::U64(x) => a == ParamArg::Int(x),
            PVal::I64(x) => a == ParamArg::Int(x as u64),
            PVal::Integer(x) => a == ParamArg::Int(x as u64),
            PVal::QuotedString(t) => a matches ParamArg::Str(u) && u@ == t,
            _ => false,
        }
    }
}

/// The name an extension call invokes.
pub open spec fn call_name(pv: Seq<PVal>, ir: IR) -> Seq<char> {
    pv[ir.operands@[0] as int]->Identifier_0
}

/// What an extension call needs to be executed: it names a registered
/// extension and has an operand of the right kind for every declared
/// parameter.
pub open spec fn ext_call_requires(pv: Seq<PVal>, reg: ExtensionRegistry, ir: IR) -> bool {
    &&& ir.operands@.len() >= 1
    &&& ir.operands@[0] < pv.len()
    &&& pv[ir.operands@[0] as int] is Identifier
    &&& reg.registered_params(call_name(pv, ir)) is Some
    &&& {
        let ps = reg.registered_params(call_name(pv, ir)).unwrap();
        &&& ir.operands@.len() >= ps.len() + 1
        &&& forall|i: int| 0 <= i < ps.len() ==> #[trigger] ir.operands@[i + 1] < pv.len() && (if ps[i].kind
            == ParamKind::Slice {
            pv[ir.operands@[i + 1] as int] is Identifier
        } else {
            arg_value_ok(pv[ir.operands@[i + 1] as int])
        })
    }
}

/// Byte `j` of the image lies in the output slot of some extension call.
pub open spec fn in_ext_window(locs: Seq<Location>, pv: Seq<PVal>, exts: Seq<(Seq<char>, usize)>, irs: Seq<IR>, j: int)
    -> bool {
    exists|idx: int|
        0 <= idx < irs.len() && #[trigger] irs[idx].kind == IRKind::ExtensionCall && locs[idx].file_offset <= j
            < locs[idx].file_offset + registered_size(exts, call_name(pv, irs[idx])).unwrap()
}

/// `after` extends `before` with extension diagnostics only (ERR_173 for an
/// ambiguous section, ERR_167 for a failed extension).
pub open spec fn only_ext_diags(before: Seq<DiagView>, after: Seq<DiagView>) -> bool {
    &&& before.len() <= after.len()
    &&& after.subrange(0, before.len() as int) == before
    &&& forall|k: int| before.len() <= k < after.len() ==> (#[trigger] after[k]).code == "ERR_173"@ || after[k].code
        == "ERR_167"@
}

/// Pushing an extension diagnostic keeps [`only_ext_diags`].
proof fn lemma_push_ext_diag(before: Seq<DiagView>, mid: Seq<DiagView>, d: DiagView)
    requires
        only_ext_diags(before, mid),
        d.code == "ERR_173"@ || d.code == "ERR_167"@,
    ensures
        only_ext_diags(before, mid.push(d)),
{
    assert(mid.push(d).subrange(0, before.len() as int) =~= mid.subrange(0, before.len() as int));
}

/// The argument view of parameter `q` of extension call `ir` over image
/// `img`: a slice parameter gets the bytes of the section it names, any
/// other parameter its operand's value.
pub open spec fn ext_arg(pv: Seq<PVal>, ps: Seq<ParamDesc>, secs: Seq<WrDispatch>, ir: IR, img: Seq<u8>, q: int) -> ArgV {
    let v = pv[ir.operands@[q + 1] as int];
    if ps[q].kind == ParamKind::Slice {
        match section_lookup(secs, v->Identifier_0) {
            SectionLookup::Found(a, b) => ArgV::Slice(img.subrange(a as int, b as int)),
            _ => ArgV::Slice(Seq::empty()),
        }
    } else {
        match v {
            PVal::U64(x) => ArgV::Int(x),
            PVal::I64(x) => ArgV::Int(x as u64),
            PVal::Integer(x) => ArgV::Int(x as u64),
            PVal::QuotedString(t) => ArgV::Str(t),
            _ => ArgV::Int(0),
        }
    }
}

/// The image after extension call `ir` (instruction `idx`) runs over `img`:
/// the registered extension's output on its arguments, over an output area
/// of zeros of its size, replaces the bytes at the call's file offset.
pub open spec fn ext_step(locs: Seq<Location>, pv: Seq<PVal>, reg: ExtensionRegistry, secs: Seq<WrDispatch>, ir: IR,
    idx: int, img: Seq<u8>) -> Seq<u8> {
    if ir.kind != IRKind::ExtensionCall {
        img
    } else {
        let name = call_name(pv, ir);
        let ps = reg.registered_params(name).unwrap();
        let bw = registered_size(reg.entries(), name).unwrap();
        let args = Seq::new(ps.len(), |q: int| ext_arg(pv, ps, secs, ir, img, q));
        let out = (**reg.ext_at(reg.name_index(name))).output_spec(args, Seq::new(bw as nat, |i: int| 0u8));
        let at = locs[idx].file_offset as int;
        if at + out.len() <= img.len() {
            img.subrange(0, at) + out + img.subrange(at + out.len(), img.len() as int)
        } else {
            img
        }
    }
}

/// The image after the extension calls among the first `k` instructions
/// run in order over `img`.
pub open spec fn ext_image(locs: Seq<Location>, pv: Seq<PVal>, reg: ExtensionRegistry, secs: Seq<WrDispatch>,
    irs: Seq<IR>, img: Seq<u8>, k: nat) -> Seq<u8>
    decreases k,
{
    if k == 0 || k > irs.len() {
        img
    } else {
        ext_step(locs, pv, reg, secs, irs[k - 1], k - 1, ext_image(locs, pv, reg, secs, irs, img, (k - 1) as nat))
    }
}

/// The argument an extension gets for a parameter is the view the
/// contracts give it.
proof fn lemma_arg_view(a: ParamArg, pv: Seq<PVal>, ps: Seq<ParamDesc>, secs: Seq<WrDispatch>, ir: IR, img: Seq<u8>,
    q: int, range: (usize, usize))
    requires
        0 <= q < ps.len(),
        arg_for(a, ps[q].kind, pv[ir.operands@[q + 1] as int], range, img),
        ps[q].kind == ParamKind::Slice ==> section_lookup(secs, pv[ir.operands@[q + 1] as int]->Identifier_0)
            == SectionLookup::Found(range.0, range.1),
    ensures
        arg_view(a) == ext_arg(pv, ps, secs, ir, img, q),
{
}

/// Every slice parameter of extension call `ir` names a section written
/// exactly once in `secs`.
pub open spec fn slices_found(pv: Seq<PVal>, reg: ExtensionRegistry, secs: Seq<WrDispatch>, ir: IR) -> bool {
    let ps = reg.registered_params(call_name(pv, ir)).unwrap();
    forall|q: int|
        0 <= q < ps.len() && #[trigger] ps[q].kind == ParamKind::Slice ==> section_lookup(
            secs,
            pv[ir.operands@[q + 1] as int]->Identifier_0,
        ) is Found
}

pub open spec fn no_ext_calls(irs: Seq<IR>) -> bool {
    forall|idx: int| 0 <= idx < irs.len() ==> #[trigger] irs[idx].kind != IRKind::ExtensionCall
}

/// Looks up the section a slice parameter names.
fn resolve_section(secs: &[WrDispatch], name: &str) -> (r: SectionLookup)
    requires
        forall|i: int| 0 <= i < secs@.len() ==> #[trigger] secs@[i].file_offset + secs@[i].size <= usize::MAX,
    ensures
        r == section_lookup(secs@, name@),
        r matches SectionLookup::Found(a, b) ==> exists|i: int| first_sec(secs@, name@, i) && a == secs@[i].file_offset
            && b == secs@[i].file_offset + secs@[i].size,
{
    let mut count: usize = 0;
    let mut first: usize = 0;
    let mut i: usize = 0;
    while i < secs.len()
        invariant
            i <= secs@.len(),
            count == count_named(secs@, name@, i as int),
            count <= i,
            count == 0 ==> forall|j: int| 0 <= j < i ==> secs@[j].name@ != name@,
            count > 0 ==> first_sec(secs@, name@, first as int) && first < i,
        decreases secs@.len() - i,
    {
        if string_eq(&secs[i].name, name) {
            if count == 0 {
                first = i;
            }
            count = count + 1;
        }
        i = i + 1;
    }
    if count == 0 {
        SectionLookup::Missing
    } else if count > 1 {
        SectionLookup::Ambiguous(count)
    } else {
        proof {
            let c = choose|k: int| first_sec(secs@, name@, k);
            assert(first_sec(secs@, name@, c));
            if c < first {
                assert(secs@[c].name@ != name@);
            } else if c > first {
                assert(secs@[first as int].name@ != name@);
            }
            assert(secs@[first as int].file_offset + secs@[first as int].size <= usize::MAX);
        }
        let d = &secs[first];
        SectionLookup::Found(d.file_offset as usize, (d.file_offset + d.size) as usize)
    }
}

/// Parameter `i` can be handed over: its operand exists, and a slice's
/// range lies in the image while any other operand has a value kind.
pub open spec fn arg_slot_ok(parms: Seq<ParameterValue>, ir: IR, params: Seq<ParamDesc>, resolved: Seq<(usize, usize)>,
    img: Seq<u8>, i: int) -> bool {
    &&& ir.operands@[i + 1] < parms.len()
    &&& if params[i].kind == ParamKind::Slice {
        resolved[i].0 <= resolved[i].1 <= img.len()
    } else {
        arg_value_ok(parms[ir.operands@[i + 1] as int]@)
    }
}

pub open spec fn args_ok(parms: Seq<ParameterValue>, ir: IR, params: Seq<ParamDesc>, resolved: Seq<(usize, usize)>,
    img: Seq<u8>) -> bool {
    &&& params.len() == resolved.len()
    &&& ir.operands@.len() >= params.len() + 1
    &&& forall|i: int| 0 <= i < params.len() ==> #[trigger] arg_slot_ok(parms, ir, params, resolved, img, i)
}

/// The arguments handed to an extension: one per declared parameter, a
/// slice parameter getting its resolved range of the image and any other
/// parameter its operand's value.
fn build_ext_args<'a>(parms: &'a [ParameterValue], ir: &IR, params: &[ParamDesc], resolved: &[(usize, usize)],
    img: &'a [u8]) -> (args: Vec<ParamArg<'a>>)
    requires
        args_ok(parms@, *ir, params@, resolved@, img@),
    ensures
        args@.len() == params@.len(),
        forall|i: int| 0 <= i < params@.len() ==> arg_for(#[trigger] args@[i], params@[i].kind,
            parms@[ir.operands@[i + 1] as int]@, resolved@[i], img@),
{
    let mut args: Vec<ParamArg<'a>> = Vec::new();
    let mut i: usize = 0;
    while i < params.len()
        invariant
            i <= params@.len(),
            args_ok(parms@, *ir, params@, resolved@, img@),
            args@.len() == i,
            forall|k: int| 0 <= k < i ==> arg_for(#[trigger] args@[k], params@[k].kind,
                parms@[ir.operands@[k + 1] as int]@, resolved@[k], img@),
        decreases params@.len() - i,
    {
        proof {
            assert(arg_slot_ok(parms@, *ir, params@, resolved@, img@, i as int));
        }
        let a = if params[i].kind == ParamKind::Slice {
            let (start, end) = resolved[i];
            ParamArg::Slice { data: vstd::slice::slice_subrange(img, start, end) }
        } else {
            match &parms[ir.operands[i + 1]] {
                ParameterValue::U64(v) => ParamArg::Int(*v),
                ParameterValue::I64(v) => ParamArg::Int(*v as u64),
                ParameterValue::Integer(v) => ParamArg::Int(*v as u64),
                ParameterValue::QuotedString(t) => ParamArg::Str(t.as_str()),
                _ => vstd::pervasive::unreached(),
            }
        };
        args.push(a);
        i = i + 1;
    }
    args
}

/// Overwrites the image at `at` with `bytes`.
fn patch(output: &mut Vec<u8>, at: usize, bytes: &[u8])
    requires
        at + bytes@.len() <= old(output)@.len(),
    ensures
        final(output)@.len() == old(output)@.len(),
        forall|j: int| 0 <= j < old(output)@.len() ==> #[trigger] final(output)@[j] == if at <= j < at + bytes@.len() {
            bytes@[j - at]
        } else {
            old(output)@[j]
        },
{
    let mut k: usize = 0;
    while k < bytes.len()
        invariant
            k <= bytes@.len(),
            at + bytes@.len() <= old(output)@.len(),
            output@.len() == old(output)@.len(),
            forall|j: int| 0 <= j < old(output)@.len() ==> #[trigger] output@[j] == if at <= j < at + k {
                bytes@[j - at]
            } else {
                old(output)@[j]
            },
        decreases bytes@.len() - k,
    {
        let n = output.len();
        assert(at + k < n);
        output.set(at + k, bytes[k]);
        k = k + 1;
    }
}


/// What an assert instruction needs to be evaluated.
pub open spec fn assert_requires(parms: Seq<ParameterValue>, ops: Seq<IROperand>, irs: Seq<IR>, ir: IR) -> bool {
    &&& ir.operands@.len() >= 1
    &&& ir.operands@[0] < parms.len()
    &&& ir.operands@[0] < ops.len()
    &&& is_numeric(parms[ir.operands@[0] as int]@)
    &&& assert_info_requires(parms, ops, irs, ir.operands@[0] as int)
}

/// Assert instruction `ir` holds.
pub open spec fn assert_holds(parms: Seq<ParameterValue>, ir: IR) -> bool {
    crate::ir::to_bool_spec(parms[ir.operands@[0] as int]@) == Some(true)
}


/// A slice parameter's resolved range lies in the image.
pub open spec fn slice_resolved(ps: Seq<ParamDesc>, resolved: Seq<(usize, usize)>, img: Seq<u8>, k: int) -> bool {
    ps[k].kind == ParamKind::Slice ==> resolved[k].0 <= resolved[k].1 <= img.len()
}

proof fn lemma_args_ok(pv: Seq<PVal>, parms: Seq<ParameterValue>, reg: ExtensionRegistry, ir: IR, ps: Seq<ParamDesc>,
    resolved: Seq<(usize, usize)>, img: Seq<u8>)
    requires
        pv == pvals(parms),
        ext_call_requires(pv, reg, ir),
        reg.registered_params(call_name(pv, ir)) == Some(ps),
        resolved.len() == ps.len(),
        forall|k: int| 0 <= k < ps.len() ==> #[trigger] slice_resolved(ps, resolved, img, k),
    ensures
        args_ok(parms, ir, ps, resolved, img),
{
    assert forall|k: int| 0 <= k < ps.len() implies #[trigger] arg_slot_ok(parms, ir, ps, resolved, img, k) by {
        assert(ir.operands@[k + 1] < pv.len());
        assert(pv[ir.operands@[k + 1] as int] == parms[ir.operands@[k + 1] as int]@);
        assert(slice_resolved(ps, resolved, img, k));
        if ps[k].kind != ParamKind::Slice {
            assert(arg_value_ok(pv[ir.operands@[k + 1] as int]));
        }
    }
}

/// Appends `bytes` to the image.
fn append_bytes(output: &mut Vec<u8>, bytes: &[u8])
    ensures
        final(output)@ == old(output)@ + bytes@,
{
    let mut i: usize = 0;
    while i < bytes.len()
        invariant
            i <= bytes@.len(),
            output@ == old(output)@ + bytes@.take(i as int),
        decreases bytes@.len() - i,
    {
        proof {
            assert(bytes@.take(i as int + 1) =~= bytes@.take(i as int).push(bytes@[i as int]));
        }
        output.push(bytes[i]);
        i = i + 1;
    }
    proof {
        assert(bytes@.take(i as int) =~= bytes@);
    }
}

/// The low `w` little-endian bytes of `v`.
fn le_unit(v: u64, w: usize) -> (r: Vec<u8>)
    requires
        w <= 8,
    ensures
        r@ == le_bytes(v).take(w as int),
{
    let mut r: Vec<u8> = Vec::new();
    let mut k: usize = 0;
    while k < w
        invariant
            k <= w <= 8,
            r@ == le_bytes(v).take(k as int),
        decreases w - k,
    {
        let sh: u64 = 8 * (k as u64);
        proof {
            assert(le_bytes(v).take(k as int + 1) =~= le_bytes(v).take(k as int).push(le_bytes(v)[k as int]));
        }
        r.push(((v >> sh) & 0xff) as u8);
        k = k + 1;
    }
    r
}


/// Appends `n` zero bytes to the image.
fn append_zeros(output: &mut Vec<u8>, n: usize)
    ensures
        final(output)@ == old(output)@ + zeros(n as nat),
{
    let mut i: usize = 0;
    while i < n
        invariant
            i <= n,
            output@ == old(output)@ + zeros(i as nat),
        decreases n - i,
    {
        proof {
            assert(zeros((i + 1) as nat) =~= zeros(i as nat).push(0u8));
        }
        output.push(0u8);
        i = i + 1;
    }
}

/// Once more than ten instructions have failed, later instructions change
/// nothing.
proof fn lemma_fold_stopped(locs: Seq<Location>, pv: Seq<PVal>, ops: Seq<IROperand>, files: Seq<(String, Vec<u8>)>,
    exts: Seq<(Seq<char>, usize)>, irs: Seq<IR>, e0: Seq<RangeEntry>, k: nat, n: nat)
    requires
        k <= n,
        core_fold(locs, pv, ops, files, exts, irs, e0, k).errors > max_errors(),
    ensures
        core_fold(locs, pv, ops, files, exts, irs, e0, n) == core_fold(locs, pv, ops, files, exts, irs, e0, k),
    decreases n - k,
{
    if k < n {
        lemma_fold_stopped(locs, pv, ops, files, exts, irs, e0, k, (n - 1) as nat);
    }
}

impl ExecPhase {
    /// Records `[start, start + size)` as written; if it intersects any range
    /// recorded earlier, ERR_172 is reported and the result is false.
    pub fn check_and_record_range(written_ranges: &mut WrittenRanges, start: u64, size: u64, src_loc: SourceSpan,
        diags: &mut Diags) -> (ok: bool)
        requires
            start + size <= u64::MAX,
            sorted(old(written_ranges).ranges()),
        ensures
            sorted(final(written_ranges).ranges()),
            final(diags).files_view() == old(diags).files_view(),
            ok == range_ok(old(written_ranges).ranges(), start, size),
            size > 0 ==> (ok <==> !exists|i: int| 0 <= i < old(written_ranges).ranges().len() && intersects(
                old(written_ranges).ranges()[i].0 as int,
                old(written_ranges).ranges()[i].1 as int,
                start as int,
                start + size,
            )),
            final(written_ranges).ranges() == ranges_after(old(written_ranges).ranges(), start, size, src_loc),
            final(diags).records() == old(diags).records() + range_diags(old(written_ranges).ranges(), start, size,
                src_loc, "ERR_172"@),
    {
        let ok = written_ranges.check_and_record(start, size, src_loc, "ERR_172", diags);
        proof {
            if size == 0 || overlap_spec(old(written_ranges).ranges(), start, (start + size) as u64) is None {
                assert(final(diags).records() =~= old(diags).records() + Seq::<DiagView>::empty());
            }
        }
        ok
    }

    /// Writes a `wrN` instruction: its value's low N little-endian bytes,
    /// as many times as the repeat operand says, at the instruction's
    /// address.  An overlap with earlier writes is reported and nothing is
    /// written.
    pub fn execute_wrx(locs: &[Location], parms: &[ParameterValue], written_ranges: &mut WrittenRanges, lid: usize,
        ir: &IR, diags: &mut Diags, output: &mut Vec<u8>) -> (ok: bool)
        requires
            wrx_requires(locs@, pvals(parms@), lid as int, *ir),
            sorted(old(written_ranges).ranges()),
        ensures
            sorted(final(written_ranges).ranges()),
            final(diags).files_view() == old(diags).files_view(),
            ({
                let pv = pvals(parms@);
                let start = loc_addr(locs@[lid as int]) as u64;
                let size = (ir.kind->Wr_0 * wrx_repeat(*ir, pv)) as u64;
                &&& ok == range_ok(old(written_ranges).ranges(), start, size)
                &&& final(written_ranges).ranges() == ranges_after(old(written_ranges).ranges(), start, size,
                    ir.src_loc)
                &&& final(diags).records() == old(diags).records() + range_diags(old(written_ranges).ranges(),
                    start, size, ir.src_loc, "ERR_172"@)
                &&& final(output)@ == if ok {
                    old(output)@ + repeat_bytes(wrx_unit(pv[ir.operands@[0] as int], ir.kind->Wr_0 as nat),
                        wrx_repeat(*ir, pv))
                } else {
                    old(output)@
                }
            }),
    {
        let ghost pv = pvals(parms@);
        proof {
            assert(pv[ir.operands@[0] as int] == parms@[ir.operands@[0] as int]@);
            if ir.operands@.len() == 2 {
                assert(pv[ir.operands@[1] as int] == parms@[ir.operands@[1] as int]@);
            }
        }
        let w = crate::engine::get_wrx_byte_width(ir);
        let v = parms[ir.operands[0]].to_u64();
        let unit = le_unit(v, w);
        let repeat: u64 = if ir.operands.len() == 2 { parms[ir.operands[1]].to_u64() } else { 1 };
        let loc = &locs[lid];
        let start = loc.addr.addr_base + loc.addr.addr_offset;
        proof {
            assert(0 <= w * repeat <= u64::MAX) by (nonlinear_arith)
                requires
                    start + w * repeat <= u64::MAX,
                    w >= 1,
            ;
        }
        let total = (w as u64) * repeat;
        if !Self::check_and_record_range(written_ranges, start, total, ir.src_loc, diags) {
            return false;
        }
        let mut r: u64 = 0;
        while r < repeat
            invariant
                r <= repeat,
                unit@ == wrx_unit(pv[ir.operands@[0] as int], w as nat),
                output@ == old(output)@ + repeat_bytes(unit@, r as nat),
            decreases repeat - r,
        {
            append_bytes(output, unit.as_slice());
            proof {
                assert(repeat_bytes(unit@, (r + 1) as nat) == repeat_bytes(unit@, r as nat) + unit@);
                assert(output@ =~= old(output)@ + repeat_bytes(unit@, (r + 1) as nat));
            }
            r = r + 1;
        }
        true
    }

    /// Writes a `wrs` instruction: the UTF-8 bytes of its string
    /// expression at the instruction's address.  An operand that cannot be
    /// stringified is reported, followed by ERR_139; an overlap with earlier
    /// writes is reported; either way nothing is written.
    pub fn execute_wrs(locs: &[Location], parms: &[ParameterValue], ops: &[IROperand],
        written_ranges: &mut WrittenRanges, lid: usize, ir: &IR, diags: &mut Diags, output: &mut Vec<u8>) -> (ok:
        bool)
        requires
            wrs_requires(locs@, pvals(parms@), ops@, lid as int, *ir),
            sorted(old(written_ranges).ranges()),
        ensures
            sorted(final(written_ranges).ranges()),
            final(diags).files_view() == old(diags).files_view(),
            ({
                let pv = pvals(parms@);
                let errs = wrs_errs(pv, ops@, *ir);
                if errs.len() > 0 {
                    &&& !ok
                    &&& final(written_ranges).ranges() == old(written_ranges).ranges()
                    &&& final(output)@ == old(output)@
                    &&& final(diags).records() == old(diags).records() + errs + seq![DiagView {
                        severity: Severity::Error,
                        code: "ERR_139"@,
                        msg: "Evaluating string expression failed."@,
                        primary: Some(ir.src_loc),
                        secondaries: Seq::empty(),
                    }]
                } else {
                    let bytes = vstd::utf8::encode_utf8(wrs_text(pv, ops@, *ir));
                    let start = loc_addr(locs@[lid as int]) as u64;
                    let size = bytes.len() as u64;
                    &&& ok == range_ok(old(written_ranges).ranges(), start, size)
                    &&& final(written_ranges).ranges() == ranges_after(old(written_ranges).ranges(), start, size,
                        ir.src_loc)
                    &&& final(diags).records() == old(diags).records() + range_diags(old(written_ranges).ranges(),
                        start, size, ir.src_loc, "ERR_172"@)
                    &&& final(output)@ == if ok { old(output)@ + bytes } else { old(output)@ }
                }
            }),
    {
        let ghost pv = pvals(parms@);
        let xstr = match evaluate_string_expr(parms, ops, ir.operands.as_slice(), diags) {
            Some(s) => s,
            None => {
                proof {
                    reveal_strlit("ERR_139");
                    reveal_strlit("Evaluating string expression failed.");
                }
                diags.err1("ERR_139", "Evaluating string expression failed.", ir.src_loc);
                return false;
            },
        };
        let bytes = xstr.as_str().as_bytes();
        let size = bytes.len() as u64;
        let loc = &locs[lid];
        let start = loc.addr.addr_base + loc.addr.addr_offset;
        if !Self::check_and_record_range(written_ranges, start, size, ir.src_loc, diags) {
            return false;
        }
        append_bytes(output, bytes);
        true
    }

    /// Writes a `wrf` instruction: the loaded contents of the named file at
    /// the instruction's address.  An overlap with earlier writes is
    /// reported and nothing is written.
    pub fn execute_wrf(locs: &[Location], parms: &[ParameterValue], files: &[(String, Vec<u8>)],
        written_ranges: &mut WrittenRanges, lid: usize, ir: &IR, diags: &mut Diags, output: &mut Vec<u8>) -> (ok:
        bool)
        requires
            wrf_requires(locs@, pvals(parms@), files@, lid as int, *ir),
            sorted(old(written_ranges).ranges()),
        ensures
            sorted(final(written_ranges).ranges()),
            final(diags).files_view() == old(diags).files_view(),
            ({
                let pv = pvals(parms@);
                let bytes = file_bytes(files@, pv[ir.operands@[0] as int]->QuotedString_0).unwrap();
                let start = loc_addr(locs@[lid as int]) as u64;
                let size = bytes.len() as u64;
                &&& ok == range_ok(old(written_ranges).ranges(), start, size)
                &&& final(written_ranges).ranges() == ranges_after(old(written_ranges).ranges(), start, size,
                    ir.src_loc)
                &&& final(diags).records() == old(diags).records() + range_diags(old(written_ranges).ranges(),
                    start, size, ir.src_loc, "ERR_172"@)
                &&& final(output)@ == if ok { old(output)@ + bytes } else { old(output)@ }
            }),
    {
        let ghost pv = pvals(parms@);
        proof {
            assert(pv[ir.operands@[0] as int] == parms@[ir.operands@[0] as int]@);
        }
        let path = parms[ir.operands[0]].to_str();
        let k = find_file(files, path);
        proof {
            if k == files@.len() {
                assert(!exists|i: int| first_file(files@, path@, i));
            } else {
                let c = choose|i: int| first_file(files@, path@, i);
                assert(first_file(files@, path@, c));
                if c < k {
                    assert(files@[c].0@ != path@);
                } else if c > k {
                    assert(files@[k as int].0@ != path@);
                }
                assert(c == k);
            }
        }
        let bytes = files[k].1.as_slice();
        let size = bytes.len() as u64;
        let loc = &locs[lid];
        let start = loc.addr.addr_base + loc.addr.addr_offset;
        if !Self::check_and_record_range(written_ranges, start, size, ir.src_loc, diags) {
            return false;
        }
        append_bytes(output, bytes);
        true
    }

    /// The byte generation pass: writes every output instruction in order.
    /// After more than ten failed instructions the pass stops early; it
    /// fails if any instruction failed.  An extension call reserves its
    /// output size in zeros, to be patched once the image is complete.
    pub fn execute_core_operations(locs: &[Location], parms: &[ParameterValue], ops: &[IROperand],
        files: &[(String, Vec<u8>)], written_ranges: &mut WrittenRanges, ir_vec: &[IR], diags: &mut Diags,
        output: &mut Vec<u8>, ext_registry: &ExtensionRegistry) -> (ok: bool)
        requires
            forall|lid: int| 0 <= lid < ir_vec@.len() ==> core_requires(locs@, pvals(parms@), ops@, files@, lid,
                #[trigger] ir_vec@[lid]),
            sorted(old(written_ranges).ranges()),
        ensures
            sorted(final(written_ranges).ranges()),
            final(diags).files_view() == old(diags).files_view(),
            ({
                let st = core_fold(locs@, pvals(parms@), ops@, files@, ext_registry.entries(), ir_vec@,
                    old(written_ranges).ranges(), ir_vec@.len() as nat);
                &&& ok == (st.errors == 0)
                &&& final(output)@ == old(output)@ + st.bytes
                &&& final(written_ranges).ranges() == st.ranges
                &&& final(diags).records() == old(diags).records() + st.diags
            }),
    {
        let ghost pv = pvals(parms@);
        let ghost exts = ext_registry.entries();
        let ghost e0 = written_ranges.ranges();
        let mut error_count: usize = 0;
        let mut lid: usize = 0;
        while lid < ir_vec.len()
            invariant_except_break
                ({
                    let st = core_fold(locs@, pv, ops@, files@, exts, ir_vec@, e0, lid as nat);
                    &&& error_count == st.errors
                    &&& error_count <= max_errors()
                    &&& output@ == old(output)@ + st.bytes
                    &&& written_ranges.ranges() == st.ranges
                    &&& diags.records() == old(diags).records() + st.diags
                }),
            invariant
                lid <= ir_vec@.len(),
                pv == pvals(parms@),
                exts == ext_registry.entries(),
                forall|l: int| 0 <= l < ir_vec@.len() ==> core_requires(locs@, pv, ops@, files@, l,
                    #[trigger] ir_vec@[l]),
                sorted(written_ranges.ranges()),
                diags.files_view() == old(diags).files_view(),
            ensures
                lid <= ir_vec@.len(),
                sorted(written_ranges.ranges()),
                diags.files_view() == old(diags).files_view(),
                ({
                    let st = core_fold(locs@, pv, ops@, files@, exts, ir_vec@, e0, ir_vec@.len() as nat);
                    &&& error_count == st.errors
                    &&& output@ == old(output)@ + st.bytes
                    &&& written_ranges.ranges() == st.ranges
                    &&& diags.records() == old(diags).records() + st.diags
                }),
            decreases ir_vec@.len() - lid,
        {
            let ir = &ir_vec[lid];
            let ghost prev = core_fold(locs@, pv, ops@, files@, exts, ir_vec@, e0, lid as nat);
            let ghost step = core_step(locs@, pv, ops@, files@, exts, lid as int, *ir, prev.ranges);
            let ghost out0 = output@;
            let ghost rec0 = diags.records();
            proof {
                assert(core_requires(locs@, pv, ops@, files@, lid as int, ir_vec@[lid as int]));
            }
            let ok = match ir.kind {
                IRKind::Wr(_) => Self::execute_wrx(locs, parms, written_ranges, lid, ir, diags, output),
                IRKind::Wrs => Self::execute_wrs(locs, parms, ops, written_ranges, lid, ir, diags, output),
                IRKind::Wrf => Self::execute_wrf(locs, parms, files, written_ranges, lid, ir, diags, output),
                IRKind::ExtensionCall => {
                    proof {
                        assert(pv[ir.operands@[0] as int] == parms@[ir.operands@[0] as int]@);
                    }
                    let ext_name = parms[ir.operands[0]].identifier_to_str();
                    match ext_registry.get(ext_name) {
                        Some(entry) => {
                            append_zeros(output, entry.cached_size);
                        },
                        None => {},
                    }
                    true
                },
                _ => true,
            };
            proof {
                assert(ok == step.ok);
                assert(output@ =~= out0 + step.bytes);
                assert(diags.records() =~= rec0 + step.diags);
                let next = core_fold(locs@, pv, ops@, files@, exts, ir_vec@, e0, (lid + 1) as nat);
                assert(next.bytes =~= prev.bytes + step.bytes);
                assert(next.diags =~= prev.diags + step.diags);
                assert(output@ =~= old(output)@ + next.bytes);
                assert(diags.records() =~= old(diags).records() + next.diags);
                assert(next.ranges == step.ranges);
                assert(next.errors == prev.errors + if ok { 0nat } else { 1nat });
            }
            if !ok {
                error_count = error_count + 1;
                if error_count > 10 {
                    proof {
                        lemma_fold_stopped(locs@, pv, ops@, files@, exts, ir_vec@, e0, (lid + 1) as nat,
                            ir_vec@.len() as nat);
                    }
                    break;
                }
            }
            lid = lid + 1;
        }
        error_count == 0
    }

    /// The extension pass: runs every extension call in order over the
    /// finished image and patches its output into the slot that the byte
    /// generation pass reserved.  A slice parameter naming a section written
    /// more than once is reported (ERR_173) and that call is skipped; a
    /// failing extension is reported (ERR_167) and ends the pass.  Bytes
    /// outside the extension slots are never changed.
    pub fn execute_extensions(locs: &[Location], parms: &[ParameterValue], sections: &[WrDispatch], ir_vec: &[IR],
        diags: &mut Diags, output: &mut Vec<u8>, ext_registry: &ExtensionRegistry) -> (r: Result<(), String>)
        requires
            forall|i: int| 0 <= i < sections@.len() ==> #[trigger] sections@[i].file_offset + sections@[i].size
                <= old(output)@.len(),
            forall|idx: int| 0 <= idx < ir_vec@.len() && #[trigger] ir_vec@[idx].kind == IRKind::ExtensionCall
                ==> ext_call_requires(pvals(parms@), *ext_registry, ir_vec@[idx]) && idx < locs@.len(),
        ensures
            final(output)@.len() == old(output)@.len(),
            final(diags).files_view() == old(diags).files_view(),
            forall|j: int| 0 <= j < old(output)@.len() && !in_ext_window(locs@, pvals(parms@), ext_registry.entries(),
                ir_vec@, j) ==> #[trigger] final(output)@[j] == old(output)@[j],
            no_ext_calls(ir_vec@) ==> r is Ok && final(output)@ == old(output)@ && final(diags).records() == old(
                diags,
            ).records(),
            r is Ok ==> final(diags).records() == old(diags).records(),
            only_ext_diags(old(diags).records(), final(diags).records()),
            r is Ok ==> final(output)@ == ext_image(locs@, pvals(parms@), *ext_registry, sections@, ir_vec@, old(
                output,
            )@, ir_vec@.len()),
            r is Ok ==> forall|idx: int|
                0 <= idx < ir_vec@.len() && #[trigger] ir_vec@[idx].kind == IRKind::ExtensionCall ==> slices_found(
                    pvals(parms@),
                    *ext_registry,
                    sections@,
                    ir_vec@[idx],
                ),
    {
        let ghost pv = pvals(parms@);
        let ghost exts = ext_registry.entries();
        proof {
            assert(diags.records().subrange(0, diags.records().len() as int) =~= diags.records());
        }
        let mut error_count: usize = 0;
        let mut idx: usize = 0;
        while idx < ir_vec.len()
            invariant
                idx <= ir_vec@.len(),
                pv == pvals(parms@),
                exts == ext_registry.entries(),
                forall|i: int| 0 <= i < sections@.len() ==> #[trigger] sections@[i].file_offset + sections@[i].size
                    <= old(output)@.len(),
                forall|k: int| 0 <= k < ir_vec@.len() && #[trigger] ir_vec@[k].kind == IRKind::ExtensionCall
                    ==> ext_call_requires(pv, *ext_registry, ir_vec@[k]) && k < locs@.len(),
                output@.len() == old(output)@.len(),
                diags.files_view() == old(diags).files_view(),
                forall|j: int| 0 <= j < old(output)@.len() && !in_ext_window(locs@, pv, exts, ir_vec@, j)
                    ==> #[trigger] output@[j] == old(output)@[j],
                no_ext_calls(ir_vec@) ==> output@ == old(output)@ && diags.records() == old(diags).records()
                    && error_count == 0,
                error_count == 0 ==> diags.records() == old(diags).records(),
                error_count == 0 ==> forall|k: int|
                    0 <= k < idx && #[trigger] ir_vec@[k].kind == IRKind::ExtensionCall ==> slices_found(
                        pv,
                        *ext_registry,
                        sections@,
                        ir_vec@[k],
                    ),
                error_count == 0 ==> output@ == ext_image(locs@, pv, *ext_registry, sections@, ir_vec@, old(output)@,
                    idx as nat),
                only_ext_diags(old(diags).records(), diags.records()),
            decreases ir_vec@.len() - idx,
        {
            let ir = &ir_vec[idx];
            if ir.kind == IRKind::ExtensionCall {
                proof {
                    assert(ext_call_requires(pv, *ext_registry, ir_vec@[idx as int]));
                    assert(pv[ir.operands@[0] as int] == parms@[ir.operands@[0] as int]@);
                }
                let name = parms[ir.operands[0]].identifier_to_str();
                let entry = match ext_registry.get(name) {
                    Some(e) => e,
                    None => vstd::pervasive::unreached(),
                };
                let params = entry.cached_params.as_slice();
                let ghost ps = params@;
                proof {
                    assert(ir_vec@[idx as int].kind == IRKind::ExtensionCall);
                    assert(!no_ext_calls(ir_vec@));
                }
                // Resolve every slice parameter before touching the image.
                let mut resolved: Vec<(usize, usize)> = Vec::new();
                let mut failed = false;
                let mut i: usize = 0;
                while i < params.len()
                    invariant_except_break
                        !failed,
                    invariant
                        i <= params@.len(),
                        ps == params@,
                        ext_call_requires(pv, *ext_registry, *ir),
                        ext_registry.registered_params(call_name(pv, *ir)) == Some(ps),
                        pv == pvals(parms@),
                        forall|s: int| 0 <= s < sections@.len() ==> #[trigger] sections@[s].file_offset
                            + sections@[s].size <= old(output)@.len(),
                        output@.len() == old(output)@.len(),
                        resolved@.len() == i,
                        forall|k: int| 0 <= k < i ==> #[trigger] slice_resolved(ps, resolved@, output@, k),
                        diags.files_view() == old(diags).files_view(),
                        forall|j: int| 0 <= j < old(output)@.len() && !in_ext_window(locs@, pv, exts, ir_vec@, j)
                            ==> #[trigger] output@[j] == old(output)@[j],
                        !no_ext_calls(ir_vec@),
                        exts == ext_registry.entries(),
                        error_count == 0 ==> diags.records() == old(diags).records(),
                        error_count == 0 ==> forall|k: int|
                            0 <= k < idx && #[trigger] ir_vec@[k].kind == IRKind::ExtensionCall ==> slices_found(
                                pv,
                                *ext_registry,
                                sections@,
                                ir_vec@[k],
                            ),
                        idx < ir_vec@.len(),
                        *ir == ir_vec@[idx as int],
                        forall|q: int|
                            0 <= q < i && #[trigger] ps[q].kind == ParamKind::Slice ==> section_lookup(
                                sections@,
                                pv[ir.operands@[q + 1] as int]->Identifier_0,
                            ) == SectionLookup::Found(resolved@[q].0, resolved@[q].1),
                        error_count == 0 ==> output@ == ext_image(locs@, pv, *ext_registry, sections@, ir_vec@, old(
                            output,
                        )@, idx as nat),
                        only_ext_diags(old(diags).records(), diags.records()),
                    ensures
                        !failed ==> i == params@.len(),
                        failed ==> error_count > 0,
                    decreases params@.len() - i,
                {
                    let ghost prev_resolved = resolved@;
                    proof {
                        assert(ir.operands@[i + 1] < pv.len());
                        assert(pv[ir.operands@[i + 1] as int] == parms@[ir.operands@[i + 1] as int]@);
                    }
                    if params[i].kind == ParamKind::Slice {
                        let sec_name = parms[ir.operands[i + 1]].identifier_to_str();
                        let olen = output.len();
                        proof {
                            assert forall|s: int| 0 <= s < sections@.len() implies #[trigger] sections@[s].file_offset
                                + sections@[s].size <= usize::MAX by {
                                assert(sections@[s].file_offset + sections@[s].size <= old(output)@.len());
                            }
                        }
                        match resolve_section(sections, sec_name) {
                            SectionLookup::Found(start, end) => {
                                proof {
                                    let c = choose|k: int| first_sec(sections@, sec_name@, k) && start
                                        == sections@[k].file_offset && end == sections@[k].file_offset
                                        + sections@[k].size;
                                    assert(sections@[c].file_offset + sections@[c].size <= old(output)@.len());
                                }
                                resolved.push((start, end));
                            },
                            SectionLookup::Ambiguous(count) => {
                                let msg = cat(cat(cat(cat(cat(cat(cat(String::from_str("Extension '"), name),
                                    "': section '"), sec_name), "' for parameter '"), params[i].name), "' appears "),
                                    usize_to_dec(count).as_str());
                                let msg = cat(msg, " times in the output and is ambiguous.");
                                let ghost mid = diags.records();
                                diags.err1("ERR_173", msg.as_str(), ir.src_loc);
                                proof {
                                    lemma_push_ext_diag(old(diags).records(), mid, diags.records().last());
                                    assert(diags.records() =~= mid.push(diags.records().last()));
                                }
                                error_count = if error_count < usize::MAX { error_count + 1 } else { error_count };
                                failed = true;
                                break;
                            },
                            SectionLookup::Missing => {
                                let msg = cat(cat(cat(cat(cat(cat(String::from_str("Extension '"), name),
                                    "': section '"), sec_name), "' for parameter '"), params[i].name),
                                    "' not found in dispatch table. This is a compiler bug.");
                                return Err(msg);
                            },
                        }
                    } else {
                        resolved.push((0, 0));
                    }
                    proof {
                        assert forall|k: int| 0 <= k < i + 1 implies #[trigger] slice_resolved(ps, resolved@, output@, k)
                            by {
                            if k < i {
                                assert(slice_resolved(ps, prev_resolved, output@, k));
                                assert(resolved@[k] == prev_resolved[k]);
                            }
                        }
                    }
                    i = i + 1;
                }
                if !failed {
                    let bw = entry.cached_size;
                    let mut out: Vec<u8> = vec![0u8; bw];
                    let ghost img0 = output@;
                    let ghost sargs = Seq::new(ps.len(), |q: int| ext_arg(pv, ps, sections@, *ir, img0, q));
                    proof {
                        assert(out@ =~= Seq::new(bw as nat, |j: int| 0u8));
                        lemma_args_ok(pv, parms@, *ext_registry, *ir, ps, resolved@, output@);
                    }
                    let args = build_ext_args(parms, ir, params, resolved.as_slice(), output.as_slice());
                    proof {
                        assert forall|q: int| 0 <= q < ps.len() implies #[trigger] args_view(args@)[q] == sargs[q] by {
                            assert(pv[ir.operands@[q + 1] as int] == parms@[ir.operands@[q + 1] as int]@);
                            lemma_arg_view(args@[q], pv, ps, sections@, *ir, img0, q, resolved@[q]);
                        }
                        assert(args_view(args@) =~= sargs);
                    }
                    let exec_result = entry.extension.execute(args.as_slice(), out.as_mut_slice());
                    match exec_result {
                        Err(e) => {
                            let msg = cat(cat(cat(String::from_str("Extension '"), name), "' execution failed: "),
                                e.as_str());
                            let ghost mid = diags.records();
                            diags.err1("ERR_167", msg.as_str(), ir.src_loc);
                            proof {
                                lemma_push_ext_diag(old(diags).records(), mid, diags.records().last());
                                assert(diags.records() =~= mid.push(diags.records().last()));
                            }
                            return Err(msg);
                        },
                        Ok(()) => {},
                    }
                    let loc = &locs[idx];
                    let len = output.len();
                    if loc.file_offset > len as u64 || ((len as u64) - loc.file_offset) < (out.len() as u64) {
                        return Err(String::from_str(
                            "Extension bounded write exceeds buffer bounds. This is a severe compiler bug.",
                        ));
                    }
                    let at = loc.file_offset as usize;
                    let ghost before = output@;
                    patch(output, at, out.as_slice());
                    proof {
                        assert(call_name(pv, *ir) == name@);
                        assert(out@ == (**ext_registry.ext_at(ext_registry.name_index(name@))).output_spec(sargs,
                            Seq::new(bw as nat, |j: int| 0u8)));
                        assert(output@ =~= before.subrange(0, at as int) + out@ + before.subrange(at + out@.len(),
                            before.len() as int));
                        assert(output@ == ext_step(locs@, pv, *ext_registry, sections@, ir_vec@[idx as int], idx as int,
                            before));
                        assert forall|j: int| 0 <= j < old(output)@.len() && !in_ext_window(locs@, pv, exts, ir_vec@,
                            j) implies #[trigger] output@[j] == old(output)@[j] by {
                            if at <= j < at + bw {
                                assert(ir_vec@[idx as int].kind == IRKind::ExtensionCall);
                                assert(registered_size(exts, call_name(pv, ir_vec@[idx as int])) == Some(bw));
                                assert(in_ext_window(locs@, pv, exts, ir_vec@, j));
                            }
                        }
                    }
                }
            }
            idx = idx + 1;
        }
        if error_count > 0 {
            return Err(String::from_str("Error detected in extension execution"));
        }
        Ok(())
    }

    /// The validation pass: evaluates every assert against the finished
    /// image.  It succeeds exactly when every assert holds; a failing assert
    /// is reported, and after more than ten failures the pass stops early.
    pub fn execute_validation(parms: &[ParameterValue], ops: &[IROperand], ir_vec: &[IR], diags: &mut Diags) -> (ok:
        bool)
        requires
            forall|lid: int| 0 <= lid < ir_vec@.len() && #[trigger] ir_vec@[lid].kind == IRKind::Assert
                ==> assert_requires(parms@, ops@, ir_vec@, ir_vec@[lid]),
        ensures
            final(diags).files_view() == old(diags).files_view(),
            ok <==> forall|lid: int| 0 <= lid < ir_vec@.len() && #[trigger] ir_vec@[lid].kind == IRKind::Assert
                ==> assert_holds(parms@, ir_vec@[lid]),
            ok ==> final(diags).records() == old(diags).records(),
    {
        let mut error_count: usize = 0;
        let mut lid: usize = 0;
        while lid < ir_vec.len()
            invariant_except_break
                error_count <= 10,
                error_count == 0 <==> forall|l: int| 0 <= l < lid && #[trigger] ir_vec@[l].kind == IRKind::Assert
                    ==> assert_holds(parms@, ir_vec@[l]),
            invariant
                lid <= ir_vec@.len(),
                forall|l: int| 0 <= l < ir_vec@.len() && #[trigger] ir_vec@[l].kind == IRKind::Assert
                    ==> assert_requires(parms@, ops@, ir_vec@, ir_vec@[l]),
                diags.files_view() == old(diags).files_view(),
                error_count == 0 ==> diags.records() == old(diags).records(),
            ensures
                error_count == 0 <==> forall|l: int| 0 <= l < ir_vec@.len() && #[trigger] ir_vec@[l].kind
                    == IRKind::Assert ==> assert_holds(parms@, ir_vec@[l]),
            decreases ir_vec@.len() - lid,
        {
            let ir = &ir_vec[lid];
            if ir.kind == IRKind::Assert {
                proof {
                    assert(assert_requires(parms@, ops@, ir_vec@, ir_vec@[lid as int]));
                }
                if !execute_assert(parms, ops, ir_vec, ir, diags) {
                    error_count = error_count + 1;
                    if error_count > 10 {
                        proof {
                            assert(ir_vec@[lid as int].kind == IRKind::Assert);
                            assert(!assert_holds(parms@, ir_vec@[lid as int]));
                        }
                        break;
                    }
                }
            }
            lid = lid + 1;
        }
        error_count == 0
    }

    /// Builds the image: the byte generation pass, then, if it succeeded,
    /// the extension pass.  The extension pass changes only the extension
    /// slots of the generated bytes.
    pub fn execute(locs: &[Location], parms: &[ParameterValue], ops: &[IROperand], files: &[(String, Vec<u8>)],
        sections: &[WrDispatch], ir_vec: &[IR], diags: &mut Diags, ext_registry: &ExtensionRegistry) -> (r: Result<
        Vec<u8>,
        String,
    >)
        requires
            forall|lid: int| 0 <= lid < ir_vec@.len() ==> core_requires(locs@, pvals(parms@), ops@, files@, lid,
                #[trigger] ir_vec@[lid]),
            forall|i: int| 0 <= i < sections@.len() ==> #[trigger] sections@[i].file_offset + sections@[i].size
                <= core_fold(locs@, pvals(parms@), ops@, files@, ext_registry.entries(), ir_vec@, Seq::empty(),
                ir_vec@.len() as nat).bytes.len(),
            forall|idx: int| 0 <= idx < ir_vec@.len() && #[trigger] ir_vec@[idx].kind == IRKind::ExtensionCall
                ==> ext_call_requires(pvals(parms@), *ext_registry, ir_vec@[idx]) && idx < locs@.len(),
        ensures
            final(diags).files_view() == old(diags).files_view(),
            ({
                let st = core_fold(locs@, pvals(parms@), ops@, files@, ext_registry.entries(), ir_vec@,
                    Seq::empty(), ir_vec@.len() as nat);
                &&& st.errors > 0 ==> (r matches Err(e) && e@ == "Error detected"@)
                    && final(diags).records() == old(diags).records() + st.diags
                &&& r matches Ok(img) ==> {
                    &&& st.errors == 0
                    &&& final(diags).records() == old(diags).records() + st.diags
                    &&& forall|idx: int|
                        0 <= idx < ir_vec@.len() && #[trigger] ir_vec@[idx].kind == IRKind::ExtensionCall
                            ==> slices_found(pvals(parms@), *ext_registry, sections@, ir_vec@[idx])
                    &&& img@ == ext_image(locs@, pvals(parms@), *ext_registry, sections@, ir_vec@, st.bytes,
                        ir_vec@.len() as nat)
                    &&& img@.len() == st.bytes.len()
                    &&& forall|j: int| 0 <= j < img@.len() && !in_ext_window(locs@, pvals(parms@),
                        ext_registry.entries(), ir_vec@, j) ==> #[trigger] img@[j] == st.bytes[j]
                }
                &&& (st.errors == 0 && no_ext_calls(ir_vec@)) ==> (r matches Ok(img) && img@ == st.bytes
                    && final(diags).records() == old(diags).records() + st.diags)
            }),
    {
        let mut written = WrittenRanges::new();
        let mut output: Vec<u8> = Vec::new();
        proof {
            assert(sorted(written.ranges()));
        }
        if !Self::execute_core_operations(locs, parms, ops, files, &mut written, ir_vec, diags, &mut output,
            ext_registry) {
            proof {
                reveal_strlit("Error detected");
            }
            return Err(String::from_str("Error detected"));
        }
        proof {
            assert(output@ =~= core_fold(locs@, pvals(parms@), ops@, files@, ext_registry.entries(), ir_vec@,
                Seq::empty(), ir_vec@.len() as nat).bytes);
        }
        match Self::execute_extensions(locs, parms, sections, ir_vec, diags, &mut output, ext_registry) {
            Ok(()) => Ok(output),
            Err(e) => Err(e),
        }
    }
}

} // verus!
