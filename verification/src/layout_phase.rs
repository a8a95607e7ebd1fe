//! The layout pass: per-instruction steps that compute sizes and
//! addresses until the layout is stable, including region intersection.

use vstd::prelude::*;
use crate::arith::{ArithOp, do_u64, do_i64};
use crate::diags::{Diags, DiagView, Severity, SourceSpan};
use crate::fmt::{cat, digits, usize_to_dec};
use crate::ir::{IR, IRKind, IROperand, ParameterValue, PVal, ConstBuiltins, BRINK_VERSION, version_field,
    version_parts, RegionBinding, EffectiveRegion};
use crate::binop::{eval_binary, eval_conversion, is_binary_op, is_conversion_op, out_slot_ok, conv_slot_ok, binary_value, binary_diag, conversion_value, conversion_diag};
use crate::locationdb::{AddressState, Location};
use crate::irdb::{IRDb, FileInfo, lookup_key, find_key};
use crate::extension::{ExtensionRegistry, registered_size};
use crate::ireval::{string_expr_errs_with, string_expr_text, string_piece, op_locs, evaluate_string_expr_with};
use crate::fmt::{i64_to_dec, int_dec};
use vstd::utf8::encode_utf8;

verus! {

/// Parent-scope state saved on section entry and restored on exit.
pub struct ScopeFrame {
    pub parent_state: AddressState,
    pub sec_name: String,
    pub set_addr_seen: bool,
    /// The effective region constraint of this scope, if any.
    pub effective_region: Option<EffectiveRegion>,
    /// The file offset at which the section was entered.
    pub entry_file_offset: Ghost<u64>,
}

/// The spec-level content of a region binding.
pub struct RegionV {
    pub addr: u64,
    pub size: u64,
    pub name: Seq<char>,
    pub src_loc: SourceSpan,
}

pub open spec fn region_v(b: RegionBinding) -> RegionV {
    RegionV { addr: b.addr, size: b.size, name: b.name@, src_loc: b.src_loc }
}

/// The spec-level content of a scope frame.
pub struct FrameV {
    pub parent: AddressState,
    pub name: Seq<char>,
    pub set_addr_seen: bool,
    pub eff: Option<RegionV>,
    /// The regions whose intersection the effective region is.
    pub contribs: Seq<RegionV>,
    pub entry: u64,
}

/// The contributing regions of an effective region.
pub open spec fn contribs_v(e: EffectiveRegion) -> Seq<RegionV> {
    e.contributors@.map_values(|b: RegionBinding| region_v(b))
}

pub open spec fn frame_v(f: ScopeFrame) -> FrameV {
    FrameV {
        parent: f.parent_state,
        name: f.sec_name@,
        set_addr_seen: f.set_addr_seen,
        eff: match f.effective_region {
            Some(e) => Some(region_v(e.binding)),
            None => None,
        },
        contribs: match f.effective_region {
            Some(e) => contribs_v(e),
            None => Seq::empty(),
        },
        entry: f.entry_file_offset@,
    }
}

/// `i` is the first entry keyed `name`.
pub open spec fn first_v<V>(l: Seq<(Seq<char>, V)>, name: Seq<char>, i: int) -> bool {
    0 <= i < l.len() && l[i].0 == name && forall|j: int| 0 <= j < i ==> l[j].0 != name
}

/// The value of the first entry keyed `name`, if any.
pub open spec fn lookup_v<V>(l: Seq<(Seq<char>, V)>, name: Seq<char>) -> Option<V> {
    if exists|i: int| first_v(l, name, i) {
        Some(l[choose|i: int| first_v(l, name, i)].1)
    } else {
        None
    }
}

/// `a + b`, saturating at u64::MAX.
pub open spec fn sat_add(a: u64, b: u64) -> u64 {
    if a + b <= u64::MAX { (a + b) as u64 } else { u64::MAX }
}

/// The cursor after writing `size` bytes; `None` when the file offset or
/// the absolute address would overflow.
pub open spec fn advance_spec(l: Location, size: u64) -> Option<Location> {
    if l.file_offset + size > u64::MAX || l.addr.addr_base + l.addr.addr_offset + size > u64::MAX {
        None
    } else {
        Some(Location {
            file_offset: (l.file_offset + size) as u64,
            addr: AddressState {
                addr_offset: (l.addr.addr_offset + size) as u64,
                sec_offset: sat_add(l.addr.sec_offset, size),
                addr_base: l.addr.addr_base,
            },
        })
    }
}

/// The error writing `size` bytes at `l` reports, if any.
pub open spec fn advance_diags(l: Location, size: u64, loc: SourceSpan) -> Seq<DiagView> {
    if l.file_offset + size > u64::MAX {
        seq![err_at("EXEC_37"@, "Write operation causes file offset overflow"@, loc)]
    } else if l.addr.addr_base + l.addr.addr_offset + size > u64::MAX {
        seq![err_at("EXEC_43"@, "Write operation causes absolute address overflow"@, loc)]
    } else {
        Seq::empty()
    }
}

/// A cursor move: the new cursor if it succeeded.
pub open spec fn moved(l: Location, size: u64) -> (Location, bool) {
    match advance_spec(l, size) {
        Some(n) => (n, true),
        None => (l, false),
    }
}


/// What checking a `wrN` repeat count reports.
pub open spec fn wrx_repeat_diags(pv: Seq<PVal>, db: IRDb, ir: IR) -> Seq<DiagView> {
    if ir.operands@.len() == 2 {
        let loc = db.parms@[ir.operands@[1] as int].src_loc;
        match pv[ir.operands@[1] as int] {
            PVal::U64(_) => Seq::empty(),
            PVal::I64(x) => if x < 0 {
                seq![err_at("EXEC_32"@, "Repeat count cannot be negative, but found '"@ + int_dec(x as int) + "'"@, loc)]
            } else {
                Seq::empty()
            },
            PVal::Integer(x) => if x < 0 {
                seq![err_at("EXEC_32"@, "Repeat count cannot be negative, but found '"@ + int_dec(x as int) + "'"@, loc)]
            } else {
                Seq::empty()
            },
            other => seq![err_at("EXEC_31"@, "Repeat count cannot be type '"@ + crate::ir::data_type_name_spec(
                crate::ir::data_type_spec(other),
            )@ + "'"@, loc)],
        }
    } else {
        Seq::empty()
    }
}

/// Everything a `wrN` step reports.
pub open spec fn wrx_diags(pv: Seq<PVal>, db: IRDb, ir: IR, cur: Location) -> Seq<DiagView> {
    let (rep, _) = wrx_repeat_spec(pv, ir);
    let w = ir.kind->Wr_0;
    wrx_repeat_diags(pv, db, ir) + if w * rep > u64::MAX {
        let which = if ir.operands@.len() == 2 { ir.operands@[1] } else { ir.operands@[0] };
        seq![err_at("EXEC_36"@, "Write repeat count causes size overflow"@, db.parms@[which as int].src_loc)]
    } else {
        advance_diags(cur, (w * rep) as u64, ir.src_loc)
    }
}

/// The size of the item spanning instructions `s..=e` at the current
/// locations; 0 while its end still precedes its start.
pub open spec fn span_size(locs: Seq<Location>, s: usize, e: usize) -> u64 {
    if locs[s as int].file_offset > locs[e as int].file_offset {
        0
    } else {
        (locs[e as int].file_offset - locs[s as int].file_offset) as u64
    }
}

/// The sized items name valid instruction ranges.
pub open spec fn sized_ok(db: IRDb, n: nat) -> bool {
    forall|i: int| 0 <= i < db.sized_locs@.len() ==> #[trigger] db.sized_locs@[i].1.0 <= db.sized_locs@[i].1.1 < n
}

/// The addressable items name valid instructions.
pub open spec fn addressed_ok(db: IRDb, n: nat) -> bool {
    forall|i: int| 0 <= i < db.addressed_locs@.len() ==> #[trigger] db.addressed_locs@[i].1 < n
}

pub open spec fn sizeof_value(pv: Seq<PVal>, db: IRDb, locs: Seq<Location>, ir: IR) -> Option<PVal> {
    match pv[ir.operands@[0] as int] {
        PVal::Identifier(name) => match lookup_key(db.sized_locs@, name) {
            Some(r) => Some(PVal::U64(span_size(locs, r.0, r.1))),
            None => match lookup_key(db.region_bindings@, name) {
                Some(b) => Some(PVal::U64(b.size)),
                None => None,
            },
        },
        _ => None,
    }
}

pub open spec fn sizeof_diag(pv: Seq<PVal>, ir: IR) -> DiagView {
    match pv[ir.operands@[0] as int] {
        PVal::Identifier(name) => err_at("EXEC_5"@, "sizeof() argument '"@ + name
            + "' is not a section used in output or a declared region."@, ir.src_loc),
        _ => err_at("EXEC_52"@, "sizeof() only accepts section or region names."@, ir.src_loc),
    }
}

pub open spec fn output_size_value(db: IRDb, locs: Seq<Location>) -> Option<PVal> {
    match lookup_key(db.sized_locs@, db.output_sec_str@) {
        Some(r) => Some(PVal::U64(span_size(locs, r.0, r.1))),
        None => None,
    }
}

pub open spec fn output_addr_value(db: IRDb, locs: Seq<Location>) -> Option<PVal> {
    match lookup_key(db.addressed_locs@, db.output_sec_str@) {
        Some(i) => if locs[i as int].addr.addr_base + locs[i as int].addr.addr_offset > u64::MAX {
            None
        } else {
            Some(PVal::U64((locs[i as int].addr.addr_base + locs[i as int].addr.addr_offset) as u64))
        },
        None => None,
    }
}

pub open spec fn output_addr_diag(db: IRDb, ir: IR) -> DiagView {
    match lookup_key(db.addressed_locs@, db.output_sec_str@) {
        Some(_) => err_at("EXEC_59"@, "__OUTPUT_ADDR: address overflow."@, ir.src_loc),
        None => err_at("EXEC_58"@, "__OUTPUT_ADDR: output section '"@ + db.output_sec_str@ + "' not reachable."@,
            ir.src_loc),
    }
}

/// The address-like value of kind `k` at location `l`; `None` when the
/// absolute address overflows.
pub open spec fn loc_value(k: IRKind, l: Location) -> Option<u64> {
    match k {
        IRKind::Addr => if l.addr.addr_base + l.addr.addr_offset > u64::MAX {
            None
        } else {
            Some((l.addr.addr_base + l.addr.addr_offset) as u64)
        },
        IRKind::AddrOffset => Some(l.addr.addr_offset),
        IRKind::SecOffset => Some(l.addr.sec_offset),
        _ => Some(l.file_offset),
    }
}

pub open spec fn is_address_kind(k: IRKind) -> bool {
    k == IRKind::Addr || k == IRKind::AddrOffset || k == IRKind::SecOffset || k == IRKind::FileOffset
}

pub open spec fn ident_addr_value(pv: Seq<PVal>, db: IRDb, locs: Seq<Location>, ir: IR) -> Option<PVal> {
    let name = pv[ir.operands@[0] as int]->Identifier_0;
    match lookup_key(db.addressed_locs@, name) {
        Some(i) => match loc_value(ir.kind, locs[i as int]) {
            Some(v) => Some(PVal::U64(v)),
            None => None,
        },
        None => match lookup_key(db.region_bindings@, name) {
            Some(b) => if ir.kind == IRKind::Addr { Some(PVal::U64(b.addr)) } else { None },
            None => None,
        },
    }
}

pub open spec fn kind_word(k: IRKind) -> Seq<char> {
    if k == IRKind::AddrOffset { "addr_offset"@ } else if k == IRKind::SecOffset { "sec_offset"@ } else { "file_offset"@ }
}

pub open spec fn ident_addr_diag(pv: Seq<PVal>, db: IRDb, ir: IR) -> DiagView {
    let name = pv[ir.operands@[0] as int]->Identifier_0;
    match lookup_key(db.addressed_locs@, name) {
        Some(_) => err_at("EXEC_44"@, "Absolute address (abs_base + off) overflow for identifier"@, ir.src_loc),
        None => match lookup_key(db.region_bindings@, name) {
            Some(_) => err_at("EXEC_76"@, kind_word(ir.kind) + "("@ + name + ") is not valid for region '"@ + name
                + "'; use addr("@ + name + ") instead."@, ir.src_loc),
            None => err_at("EXEC_11"@, "Section, label, or region '"@ + name + "' not found in output."@,
                ir.src_loc),
        },
    }
}

/// The output operand of a padding instruction: the last one.
pub open spec fn pad_out(ir: IR) -> usize {
    if ir.operands@.len() == 2 { ir.operands@[1] } else { ir.operands@[2] }
}

pub open spec fn align_value(pv: Seq<PVal>, ir: IR, cur: Location) -> Option<PVal> {
    let a = crate::ir::as_u64_spec(pv[ir.operands@[0] as int]);
    let abs = cur.addr.addr_base + cur.addr.addr_offset;
    if a == 0 || abs > u64::MAX {
        None
    } else {
        Some(PVal::U64(if abs % (a as int) == 0 { 0 } else { (a - abs % (a as int)) as u64 }))
    }
}

pub open spec fn align_diag(pv: Seq<PVal>, db: IRDb, ir: IR) -> DiagView {
    if crate::ir::as_u64_spec(pv[ir.operands@[0] as int]) == 0 {
        err_at("EXEC_38"@, "Alignment amount cannot be zero"@, db.parms@[ir.operands@[0] as int].src_loc)
    } else {
        err_at("EXEC_42"@, "Absolute address (abs_base + off) overflow"@, ir.src_loc)
    }
}

pub open spec fn set_base(k: IRKind, cur: Location) -> u64 {
    if k == IRKind::SetAddrOffset {
        cur.addr.addr_offset
    } else if k == IRKind::SetSecOffset {
        cur.addr.sec_offset
    } else {
        cur.file_offset
    }
}

pub open spec fn set_value(pv: Seq<PVal>, ir: IR, cur: Location) -> Option<PVal> {
    let v = crate::ir::as_u64_spec(pv[ir.operands@[0] as int]);
    if v < set_base(ir.kind, cur) { None } else { Some(PVal::U64((v - set_base(ir.kind, cur)) as u64)) }
}

pub open spec fn set_diag(pv: Seq<PVal>, ir: IR, cur: Location) -> DiagView {
    let v = crate::ir::as_u64_spec(pv[ir.operands@[0] as int]);
    err_at("EXEC_22"@, "Set statement moves location counter backwards from "@ + digits(set_base(ir.kind, cur) as nat,
        10) + " to "@ + digits(v as nat, 10) + "."@, ir.src_loc)
}

/// A step that writes one output operand: on success the table with the
/// operand replaced and no diagnostic, otherwise the table unchanged and
/// one error.
pub open spec fn value_written(r: Option<PVal>, out: int, d: DiagView, ok: bool, p0: Seq<PVal>, p1: Seq<PVal>,
    r0: Seq<DiagView>, r1: Seq<DiagView>) -> bool {
    match r {
        Some(v) => ok && p1 == p0.update(out, v) && r1 == r0,
        None => !ok && p1 == p0 && r1 == r0.push(d),
    }
}

/// Whether (instruction, code) is reported for the first time.
pub open spec fn fresh(w: Seq<(usize, Seq<char>)>, lid: usize, code: Seq<char>) -> bool {
    !w.contains((lid, code))
}

/// The reported pairs after reporting (instruction, code).
pub open spec fn mark(w: Seq<(usize, Seq<char>)>, lid: usize, code: Seq<char>) -> Seq<(usize, Seq<char>)> {
    if fresh(w, lid, code) { w.push((lid, code)) } else { w }
}

/// The end of a region, saturating.
pub open spec fn sat_end(b: RegionV) -> u64 {
    sat_add(b.addr, b.size)
}

/// `0x` and upper-case hex digits, as `{:#X}` prints.
pub open spec fn hex(n: u64) -> Seq<char> {
    seq!['0', 'x'] + digits(n as nat, 16)
}

/// The region constraint `set_addr(v)` violates in the innermost scope, if
/// any: the code and the diagnostic.
pub open spec fn set_addr_violation(frames: Seq<FrameV>, v: u64, loc: SourceSpan) -> Option<DiagView> {
    if frames.len() > 0 && frames.last().eff is Some {
        let b = frames.last().eff.unwrap();
        if b.addr + b.size > u64::MAX {
            Some(DiagView {
                severity: Severity::Error,
                code: "EXEC_74"@,
                msg: "Region '"@ + b.name + "' addr + size overflows u64."@,
                primary: Some(loc),
                secondaries: seq![(b.src_loc, Seq::<char>::empty())],
            })
        } else if v < b.addr || v >= b.addr + b.size {
            Some(DiagView {
                severity: Severity::Error,
                code: "EXEC_72"@,
                msg: "set_addr target "@ + hex(v) + " is outside region '"@ + b.name + "' bounds ["@ + hex(b.addr)
                    + ", "@ + hex((b.addr + b.size) as u64) + ")."@,
                primary: Some(loc),
                secondaries: seq![(b.src_loc, Seq::<char>::empty())],
            })
        } else {
            None
        }
    } else {
        None
    }
}

/// The scope frames after `set_addr` in the middle of a section marks the
/// innermost one.
pub open spec fn mark_set_addr(frames: Seq<FrameV>, cur: Location) -> Seq<FrameV> {
    if cur.addr.sec_offset != 0 && frames.len() > 0 {
        frames.update(frames.len() - 1, FrameV { set_addr_seen: true, ..frames.last() })
    } else {
        frames
    }
}

/// The cursor after `set_addr(v)`.
pub open spec fn rebased(cur: Location, v: u64) -> Location {
    Location { file_offset: cur.file_offset, addr: AddressState { addr_base: v, addr_offset: 0, ..cur.addr } }
}

/// The effective region of a section entered below `parent` with direct
/// binding `direct`, and whether the two are compatible.
pub open spec fn section_binding(parent: Option<RegionV>, direct: Option<RegionV>) -> (Option<RegionV>, bool) {
    match (parent, direct) {
        (None, None) => (None, true),
        (Some(p), None) => (Some(p), true),
        (None, Some(d)) => (Some(d), true),
        (Some(p), Some(d)) => match intersect_view(p, d) {
            Some(b) => (Some(b), d.addr >= b.addr),
            None => (Some(d), false),
        },
    }
}

/// The intersection of two regions, named "P & D" and located at D.
pub open spec fn intersect_view(p: RegionV, d: RegionV) -> Option<RegionV> {
    let addr = if p.addr >= d.addr { p.addr } else { d.addr };
    let end = if sat_end(p) <= sat_end(d) { sat_end(p) } else { sat_end(d) };
    if end <= addr {
        None
    } else {
        Some(RegionV { addr, size: (end - addr) as u64, name: p.name + " & "@ + d.name, src_loc: d.src_loc })
    }
}

/// The diagnostic entering a section reports when its region is
/// incompatible with the enclosing one, if any.
pub open spec fn section_diag(name: Seq<char>, parent: Option<RegionV>, direct: Option<RegionV>) -> Option<DiagView> {
    match (parent, direct) {
        (Some(p), Some(d)) => match intersect_view(p, d) {
            Some(b) => if d.addr < b.addr {
                Some(DiagView {
                    severity: Severity::Error,
                    code: "EXEC_78"@,
                    msg: "Section '"@ + name + "': region '"@ + d.name + "' starts at "@ + hex(d.addr)
                        + ", which is before the enclosing region '"@ + p.name + "' start "@ + hex(p.addr)
                        + ". The starting address must lie within the intersection ["@ + hex(b.addr) + ", "@
                        + hex(sat_end(b)) + ")."@,
                    primary: Some(d.src_loc),
                    secondaries: seq![(p.src_loc, Seq::<char>::empty())],
                })
            } else {
                None
            },
            None => Some(DiagView {
                severity: Severity::Error,
                code: "EXEC_77"@,
                msg: "Section '"@ + name + "': region '"@ + d.name + "' ["@ + hex(d.addr) + ", "@ + hex(sat_end(d))
                    + ") does not intersect with enclosing region '"@ + p.name + "' ["@ + hex(p.addr) + ", "@ + hex(
                    sat_end(p),
                ) + ")."@,
                primary: Some(d.src_loc),
                secondaries: seq![(p.src_loc, Seq::<char>::empty())],
            }),
        },
        _ => None,
    }
}

/// The cursor on entering a section: section offset zero, and anchored at
/// the start of a directly bound region.
pub open spec fn entered(cur: Location, direct: Option<RegionV>) -> Location {
    match direct {
        Some(d) => Location {
            file_offset: cur.file_offset,
            addr: AddressState { addr_base: d.addr, addr_offset: 0, sec_offset: 0 },
        },
        None => Location { file_offset: cur.file_offset, addr: AddressState { sec_offset: 0, ..cur.addr } },
    }
}

/// The address state after writing `n` bytes.
pub open spec fn addr_advanced(a: AddressState, n: u64) -> AddressState {
    AddressState { sec_offset: sat_add(a.sec_offset, n), addr_offset: (a.addr_offset + n) as u64, addr_base: a.addr_base }
}

/// The map after recording `v` under `name`.
pub open spec fn put_v<V>(l: Seq<(Seq<char>, V)>, name: Seq<char>, v: V) -> Seq<(Seq<char>, V)> {
    if exists|i: int| first_v(l, name, i) {
        l.update(choose|i: int| first_v(l, name, i), (name, v))
    } else {
        l.push((name, v))
    }
}

/// The directly bound region of section `name`, if any.
pub open spec fn direct_region(db: IRDb, name: Seq<char>) -> Option<RegionV> {
    match crate::irdb::region_for_section_spec(db, name) {
        Some(b) => Some(region_v(b)),
        None => None,
    }
}

/// The section an instruction names with its first operand.
pub open spec fn sec_name_of(db: IRDb, ir: IR) -> Seq<char> {
    db.parms@[ir.operands@[0] as int].val@->Identifier_0
}

/// The contributing regions inherited from the innermost scope.
pub open spec fn parent_contribs(frames: Seq<FrameV>) -> Seq<RegionV> {
    if frames.len() > 0 { frames.last().contribs } else { Seq::empty() }
}

/// The effective region of the innermost scope, if any.
pub open spec fn innermost_eff(frames: Seq<FrameV>) -> Option<RegionV> {
    if frames.len() > 0 { frames.last().eff } else { None }
}

/// What stringifying the operands of `ir` during layout reports.
pub open spec fn layout_str_errs(pv: Seq<PVal>, db: IRDb, ir: IR) -> Seq<DiagView> {
    string_expr_errs_with("EXEC_14"@, pv, op_locs(db.parms@), ir.operands@, ir.operands@.len() as int)
}

/// The cursor move of a `wrs`: the UTF-8 length of its text.
pub open spec fn wrs_move(pv: Seq<PVal>, db: IRDb, ir: IR, cur: Location) -> (Location, bool) {
    if layout_str_errs(pv, db, ir).len() > 0 {
        (cur, false)
    } else {
        moved(cur, encode_utf8(string_expr_text(pv, ir.operands@, ir.operands@.len() as int)).len() as u64)
    }
}

/// The cursor move of an extension call: its registered size.
pub open spec fn ext_move(pv: Seq<PVal>, exts: Seq<(Seq<char>, usize)>, ir: IR, cur: Location) -> (Location, bool) {
    match registered_size(exts, pv[ir.operands@[0] as int]->Identifier_0) {
        Some(n) => moved(cur, n as u64),
        None => (cur, false),
    }
}

/// The repeat count of a `wrN` and whether it was acceptable.
pub open spec fn wrx_repeat_spec(pv: Seq<PVal>, ir: IR) -> (u64, bool) {
    if ir.operands@.len() == 2 {
        match pv[ir.operands@[1] as int] {
            PVal::U64(x) => (x, true),
            PVal::I64(x) => if x < 0 { (0, false) } else { (x as u64, true) },
            PVal::Integer(x) => if x < 0 { (0, false) } else { (x as u64, true) },
            _ => (1, false),
        }
    } else {
        (1, true)
    }
}

/// The cursor move of a `wrN`: width times repeat count.
pub open spec fn wrx_move(pv: Seq<PVal>, ir: IR, cur: Location) -> (Location, bool) {
    let (rep, rep_ok) = wrx_repeat_spec(pv, ir);
    let w = ir.kind->Wr_0;
    if w * rep > u64::MAX {
        (cur, false)
    } else {
        let (n, adv_ok) = moved(cur, (w * rep) as u64);
        (n, rep_ok && adv_ok)
    }
}

/// The cursor move of a `wrf`: the recorded size of the file.
pub open spec fn wrf_move(pv: Seq<PVal>, db: IRDb, ir: IR, cur: Location) -> (Location, bool) {
    moved(cur, lookup_key(db.files@, pv[ir.operands@[0] as int]->QuotedString_0).unwrap().size)
}

/// The state of the layout pass.
pub struct LayoutPhase {
    parms: Vec<ParameterValue>,
    ir_locs: Vec<Location>,
    scope_stack: Vec<ScopeFrame>,
    /// (instruction id, code) pairs already warned about.
    warned_lids: Vec<(usize, String)>,
    /// Effective region per section name.
    section_effective_regions: Vec<(String, EffectiveRegion)>,
}

pub open spec fn err_at(code: Seq<char>, msg: Seq<char>, loc: SourceSpan) -> DiagView {
    DiagView { severity: Severity::Error, code, msg, primary: Some(loc), secondaries: Seq::empty() }
}

/// The end of a region, saturating at u64::MAX.
pub open spec fn region_end(r: RegionBinding) -> int {
    if r.addr + r.size <= u64::MAX { r.addr + r.size } else { u64::MAX as int }
}

/// The address range shared by two regions: from the later start to the
/// earlier (saturating) end; `None` when that is empty.
pub open spec fn intersect_spec(p: RegionBinding, d: RegionBinding) -> Option<(u64, u64)> {
    let addr = if p.addr >= d.addr { p.addr } else { d.addr };
    let end = if region_end(p) <= region_end(d) { region_end(p) } else { region_end(d) };
    if end <= addr { None } else { Some((addr, (end - addr) as u64)) }
}

/// An address lies in the intersection of two regions exactly when it lies
/// in both (with ends saturating at u64::MAX).
pub proof fn lemma_intersection_is_common_part(p: RegionBinding, d: RegionBinding, x: int)
    ensures
        (match intersect_spec(p, d) {
            Some((a, s)) => a <= x < a + s,
            None => false,
        }) <==> (p.addr <= x < region_end(p) && d.addr <= x < region_end(d)),
{
}

/// The spec-level intersection agrees with the one computed on bindings.
pub proof fn lemma_intersect_views(p: RegionBinding, d: RegionBinding)
    ensures
        match intersect_spec(p, d) {
            None => intersect_view(region_v(p), region_v(d)) is None,
            Some((a, s)) => intersect_view(region_v(p), region_v(d)) == Some(RegionV {
                addr: a,
                size: s,
                name: p.name@ + " & "@ + d.name@,
                src_loc: d.src_loc,
            }),
        },
{
}

impl LayoutPhase {
    pub closed spec fn parms_view(&self) -> Seq<PVal> {
        self.parms@.map_values(|p: ParameterValue| p@)
    }

    pub closed spec fn locs_view(&self) -> Seq<Location> {
        self.ir_locs@
    }

    pub closed spec fn depth(&self) -> nat {
        self.scope_stack@.len()
    }

    /// The open section scopes, innermost last.
    pub closed spec fn frames(&self) -> Seq<FrameV> {
        self.scope_stack@.map_values(|f: ScopeFrame| frame_v(f))
    }

    /// The (instruction, code) pairs already reported.
    pub closed spec fn warned(&self) -> Seq<(usize, Seq<char>)> {
        self.warned_lids@.map_values(|p: (usize, String)| (p.0, p.1@))
    }

    /// The effective region recorded per section name.
    pub closed spec fn eff_regions(&self) -> Seq<(Seq<char>, (RegionV, Seq<RegionV>))> {
        self.section_effective_regions@.map_values(|p: (String, EffectiveRegion)| (p.0@, (region_v(p.1.binding), contribs_v(p.1))))
    }

    pub closed spec fn innermost_name(&self) -> Seq<char> {
        if self.scope_stack@.len() == 0 { Seq::empty() } else { self.scope_stack@.last().sec_name@ }
    }

    /// The state before the first pass: one value per operand, copied from
    /// the operand table, and every instruction location zero.
    pub fn new_state(ops: &[IROperand], n_ir: usize) -> (e: LayoutPhase)
        ensures
            e.parms_view() == ops@.map_values(|o: IROperand| o.val@),
            e.locs_view() == Seq::new(n_ir as nat, |i: int| Location {
                file_offset: 0, addr: AddressState { addr_offset: 0, sec_offset: 0, addr_base: 0 },
            }),
            e.depth() == 0,
            e.frames() == Seq::<FrameV>::empty(),
            e.warned() == Seq::<(usize, Seq<char>)>::empty(),
            e.eff_regions() == Seq::<(Seq<char>, (RegionV, Seq<RegionV>))>::empty(),
    {
        let mut parms: Vec<ParameterValue> = Vec::new();
        let mut i: usize = 0;
        while i < ops.len()
            invariant
                i <= ops@.len(),
                parms@.map_values(|p: ParameterValue| p@) =~= ops@.take(i as int).map_values(|o: IROperand| o.val@),
            decreases ops@.len() - i,
        {
            let v = ops[i].clone_val();
            let ghost before = parms@;
            parms.push(v);
            proof {
                assert(ops@.take(i as int + 1) =~= ops@.take(i as int).push(ops@[i as int]));
                assert(parms@ == before.push(v));
                assert(parms@.map_values(|p: ParameterValue| p@) =~= before.map_values(|p: ParameterValue| p@).push(v@));
            }
            i = i + 1;
        }
        proof { assert(ops@.take(i as int) =~= ops@); }
        let mut ir_locs: Vec<Location> = Vec::new();
        let mut j: usize = 0;
        let start = Location { file_offset: 0, addr: AddressState { addr_offset: 0, sec_offset: 0, addr_base: 0 } };
        while j < n_ir
            invariant
                j <= n_ir,
                ir_locs@ =~= Seq::new(j as nat, |i: int| start),
            decreases n_ir - j,
        {
            ir_locs.push(start);
            j = j + 1;
        }
        let e = LayoutPhase {
            parms,
            ir_locs,
            scope_stack: Vec::new(),
            warned_lids: Vec::new(),
            section_effective_regions: Vec::new(),
        };
        proof {
            assert(e.frames() =~= Seq::<FrameV>::empty());
            assert(e.warned() =~= Seq::<(usize, Seq<char>)>::empty());
            assert(e.eff_regions() =~= Seq::<(Seq<char>, (RegionV, Seq<RegionV>))>::empty());
        }
        e
    }

    /// The final locations and operand values.
    pub fn into_parts(self) -> (r: (crate::locationdb::LocationDb, crate::ireval::ParmValDb))
        ensures
            r.0.ir_locs@ == self.locs_view(),
            r.1.parms@.map_values(|p: ParameterValue| p@) == self.parms_view(),
    {
        (crate::locationdb::LocationDb { ir_locs: self.ir_locs }, crate::ireval::ParmValDb::new(self.parms))
    }

    /// The number of operand values.
    pub fn parms_len(&self) -> (n: usize)
        ensures
            n == self.parms_view().len(),
    {
        self.parms.len()
    }

    /// The number of open section scopes.
    pub fn scope_depth(&self) -> (n: usize)
        ensures
            n == self.frames().len(),
            n == self.depth(),
    {
        self.scope_stack.len()
    }

    /// Whether the innermost open scope has seen `set_addr` mid-section.
    pub fn innermost_set_addr_seen(&self) -> (b: bool)
        ensures
            b == (self.frames().len() > 0 && self.frames().last().set_addr_seen),
    {
        let n = self.scope_stack.len();
        if n == 0 {
            false
        } else {
            proof {
                assert(self.frames().last() == frame_v(self.scope_stack@[n - 1]));
            }
            self.scope_stack[n - 1].set_addr_seen
        }
    }

    /// Records the cursor before instruction `lid`.
    pub fn record_loc(&mut self, lid: usize, loc: Location)
        requires
            lid < old(self).locs_view().len(),
        ensures
            final(self).locs_view() == old(self).locs_view().update(lid as int, loc),
            final(self).parms_view() == old(self).parms_view(),
            final(self).frames() == old(self).frames(),
            final(self).warned() == old(self).warned(),
            final(self).eff_regions() == old(self).eff_regions(),
    {
        self.ir_locs.set(lid, loc);
    }

    /// The recorded location of instruction `i`.
    pub fn loc_at(&self, i: usize) -> (l: Location)
        requires
            i < self.locs_view().len(),
        ensures
            l == self.locs_view()[i as int],
    {
        self.ir_locs[i]
    }

    /// The effective region recorded for section `name`, if any.
    pub fn effective_of(&self, name: &str) -> (r: Option<&EffectiveRegion>)
        ensures
            match r {
                Some(e) => lookup_v(self.eff_regions(), name@) == Some((region_v(e.binding), contribs_v(*e))),
                None => lookup_v(self.eff_regions(), name@) is None,
            },
    {
        let mut i: usize = 0;
        while i < self.section_effective_regions.len()
            invariant
                i <= self.section_effective_regions@.len(),
                forall|j: int| 0 <= j < i ==> self.eff_regions()[j].0 != name@,
            decreases self.section_effective_regions@.len() - i,
        {
            proof {
                assert(self.eff_regions()[i as int].0 == self.section_effective_regions@[i as int].0@);
            }
            if crate::extension::string_eq(&self.section_effective_regions[i].0, name) {
                proof {
                    let l = self.eff_regions();
                    assert(first_v(l, name@, i as int));
                    let c = choose|k: int| first_v(l, name@, k);
                    if c < i {
                        assert(l[c].0 != name@);
                    } else if c > i {
                        assert(l[i as int].0 != name@);
                    }
                }
                return Some(&self.section_effective_regions[i].1);
            }
            i = i + 1;
        }
        proof {
            assert(!exists|k: int| first_v(self.eff_regions(), name@, k));
        }
        None
    }

    /// A copy of the instruction locations.
    pub fn locations(&self) -> (v: Vec<Location>)
        ensures
            v@ == self.locs_view(),
    {
        let mut v: Vec<Location> = Vec::new();
        let mut i: usize = 0;
        while i < self.ir_locs.len()
            invariant
                i <= self.ir_locs@.len(),
                v@ =~= self.ir_locs@.take(i as int),
            decreases self.ir_locs@.len() - i,
        {
            v.push(self.ir_locs[i]);
            proof {
                assert(self.ir_locs@.take(i as int + 1) =~= self.ir_locs@.take(i as int).push(self.ir_locs@[i as int]));
            }
            i = i + 1;
        }
        proof {
            assert(self.ir_locs@.take(i as int) =~= self.ir_locs@);
        }
        v
    }

    /// The value of operand `i`.
    pub fn parm(&self, i: usize) -> (p: &ParameterValue)
        requires
            i < self.parms_view().len(),
        ensures
            p@ == self.parms_view()[i as int],
    {
        &self.parms[i]
    }

    /// The trace line for `msg`: indented four spaces per open section and
    /// prefixed with the innermost section's name.
    pub fn trace(&self, msg: &str) -> (s: String)
        ensures
            s@ == crate::engine::indent(self.depth()) + self.innermost_name() + ": "@ + msg@,
    {
        let depth = self.scope_stack.len();
        let mut s = String::new();
        let mut k: usize = 0;
        while k < depth
            invariant
                k <= depth,
                depth == self.depth(),
                crate::engine::indent(depth as nat) == s@ + crate::engine::indent((depth - k) as nat),
            decreases depth - k,
        {
            proof {
                reveal_strlit("    ");
                assert(crate::engine::indent((depth - k) as nat) == "    "@ + crate::engine::indent((depth - k - 1) as nat));
            }
            s = cat(s, "    ");
            k = k + 1;
        }
        proof { reveal_strlit(": "); }
        let s = if depth == 0 { s } else { cat(s, self.scope_stack[depth - 1].sec_name.as_str()) };
        cat(cat(s, ": "), msg)
    }

    pub fn do_u64_add(ir: &IR, in0: u64, in1: u64, out: &mut u64, diags: &mut Diags) -> (ok: bool)
        ensures
            crate::arith::u64_ensures(ArithOp::Add, ir.src_loc, in0, in1, *old(out), *final(out), ok, old(diags).records(), final(diags).records()),
            final(diags).files_view() == old(diags).files_view(),
    {
        do_u64(ArithOp::Add, ir.src_loc, in0, in1, out, diags)
    }

    pub fn do_u64_sub(ir: &IR, in0: u64, in1: u64, out: &mut u64, diags: &mut Diags) -> (ok: bool)
        ensures
            crate::arith::u64_ensures(ArithOp::Sub, ir.src_loc, in0, in1, *old(out), *final(out), ok, old(diags).records(), final(diags).records()),
            final(diags).files_view() == old(diags).files_view(),
    {
        do_u64(ArithOp::Sub, ir.src_loc, in0, in1, out, diags)
    }

    pub fn do_u64_mul(ir: &IR, in0: u64, in1: u64, out: &mut u64, diags: &mut Diags) -> (ok: bool)
        ensures
            crate::arith::u64_ensures(ArithOp::Mul, ir.src_loc, in0, in1, *old(out), *final(out), ok, old(diags).records(), final(diags).records()),
            final(diags).files_view() == old(diags).files_view(),
    {
        do_u64(ArithOp::Mul, ir.src_loc, in0, in1, out, diags)
    }

    pub fn do_u64_div(ir: &IR, in0: u64, in1: u64, out: &mut u64, diags: &mut Diags) -> (ok: bool)
        ensures
            crate::arith::u64_ensures(ArithOp::Div, ir.src_loc, in0, in1, *old(out), *final(out), ok, old(diags).records(), final(diags).records()),
            final(diags).files_view() == old(diags).files_view(),
    {
        do_u64(ArithOp::Div, ir.src_loc, in0, in1, out, diags)
    }

    pub fn do_u64_mod(ir: &IR, in0: u64, in1: u64, out: &mut u64, diags: &mut Diags) -> (ok: bool)
        ensures
            crate::arith::u64_ensures(ArithOp::Mod, ir.src_loc, in0, in1, *old(out), *final(out), ok, old(diags).records(), final(diags).records()),
            final(diags).files_view() == old(diags).files_view(),
    {
        do_u64(ArithOp::Mod, ir.src_loc, in0, in1, out, diags)
    }

    pub fn do_u64_shl(ir: &IR, in0: u64, in1: u64, out: &mut u64, diags: &mut Diags) -> (ok: bool)
        ensures
            crate::arith::u64_ensures(ArithOp::Shl, ir.src_loc, in0, in1, *old(out), *final(out), ok, old(diags).records(), final(diags).records()),
            final(diags).files_view() == old(diags).files_view(),
    {
        do_u64(ArithOp::Shl, ir.src_loc, in0, in1, out, diags)
    }

    pub fn do_u64_shr(ir: &IR, in0: u64, in1: u64, out: &mut u64, diags: &mut Diags) -> (ok: bool)
        ensures
            crate::arith::u64_ensures(ArithOp::Shr, ir.src_loc, in0, in1, *old(out), *final(out), ok, old(diags).records(), final(diags).records()),
            final(diags).files_view() == old(diags).files_view(),
    {
        do_u64(ArithOp::Shr, ir.src_loc, in0, in1, out, diags)
    }

    pub fn do_i64_add(ir: &IR, in0: i64, in1: i64, out: &mut i64, diags: &mut Diags) -> (ok: bool)
        ensures
            crate::arith::i64_ensures(ArithOp::Add, ir.src_loc, in0, in1, *old(out), *final(out), ok, old(diags).records(), final(diags).records()),
            final(diags).files_view() == old(diags).files_view(),
    {
        do_i64(ArithOp::Add, ir.src_loc, in0, in1, out, diags)
    }

    pub fn do_i64_sub(ir: &IR, in0: i64, in1: i64, out: &mut i64, diags: &mut Diags) -> (ok: bool)
        ensures
            crate::arith::i64_ensures(ArithOp::Sub, ir.src_loc, in0, in1, *old(out), *final(out), ok, old(diags).records(), final(diags).records()),
            final(diags).files_view() == old(diags).files_view(),
    {
        do_i64(ArithOp::Sub, ir.src_loc, in0, in1, out, diags)
    }

    pub fn do_i64_mul(ir: &IR, in0: i64, in1: i64, out: &mut i64, diags: &mut Diags) -> (ok: bool)
        ensures
            crate::arith::i64_ensures(ArithOp::Mul, ir.src_loc, in0, in1, *old(out), *final(out), ok, old(diags).records(), final(diags).records()),
            final(diags).files_view() == old(diags).files_view(),
    {
        do_i64(ArithOp::Mul, ir.src_loc, in0, in1, out, diags)
    }

    pub fn do_i64_div(ir: &IR, in0: i64, in1: i64, out: &mut i64, diags: &mut Diags) -> (ok: bool)
        ensures
            crate::arith::i64_ensures(ArithOp::Div, ir.src_loc, in0, in1, *old(out), *final(out), ok, old(diags).records(), final(diags).records()),
            final(diags).files_view() == old(diags).files_view(),
    {
        do_i64(ArithOp::Div, ir.src_loc, in0, in1, out, diags)
    }

    pub fn do_i64_mod(ir: &IR, in0: i64, in1: i64, out: &mut i64, diags: &mut Diags) -> (ok: bool)
        ensures
            crate::arith::i64_ensures(ArithOp::Mod, ir.src_loc, in0, in1, *old(out), *final(out), ok, old(diags).records(), final(diags).records()),
            final(diags).files_view() == old(diags).files_view(),
    {
        do_i64(ArithOp::Mod, ir.src_loc, in0, in1, out, diags)
    }

    pub fn do_i64_shl(ir: &IR, in0: i64, in1: i64, out: &mut i64, diags: &mut Diags) -> (ok: bool)
        ensures
            crate::arith::i64_ensures(ArithOp::Shl, ir.src_loc, in0, in1, *old(out), *final(out), ok, old(diags).records(), final(diags).records()),
            final(diags).files_view() == old(diags).files_view(),
    {
        do_i64(ArithOp::Shl, ir.src_loc, in0, in1, out, diags)
    }

    pub fn do_i64_shr(ir: &IR, in0: i64, in1: i64, out: &mut i64, diags: &mut Diags) -> (ok: bool)
        ensures
            crate::arith::i64_ensures(ArithOp::Shr, ir.src_loc, in0, in1, *old(out), *final(out), ok, old(diags).records(), final(diags).records()),
            final(diags).files_view() == old(diags).files_view(),
    {
        do_i64(ArithOp::Shr, ir.src_loc, in0, in1, out, diags)
    }

    fn set_parm(&mut self, i: usize, v: ParameterValue)
        requires
            i < old(self).parms_view().len(),
        ensures
            final(self).parms_view() == old(self).parms_view().update(i as int, v@),
            final(self).locs_view() == old(self).locs_view(),
            final(self).frames() == old(self).frames(),
            final(self).depth() == old(self).depth(),
            final(self).frames() == old(self).frames(),
            final(self).warned() == old(self).warned(),
            final(self).eff_regions() == old(self).eff_regions(),
    {
        let ghost v_view = v@;
        self.parms.set(i, v);
        proof {
            assert(self.parms@.map_values(|p: ParameterValue| p@) =~= old(self).parms@.map_values(
                |p: ParameterValue| p@,
            ).update(i as int, v_view));
        }
    }

    /// Sets the output operand to the version string.
    pub fn iterate_builtin_version_string(&mut self, ir: &IR) -> (ok: bool)
        requires
            ir.operands@.len() == 1,
            ir.operands@[0] < old(self).parms_view().len(),
        ensures
            ok,
            final(self).parms_view() == old(self).parms_view().update(ir.operands@[0] as int, PVal::QuotedString(BRINK_VERSION@)),
            final(self).locs_view() == old(self).locs_view(),
            final(self).frames() == old(self).frames(),
            final(self).warned() == old(self).warned(),
            final(self).eff_regions() == old(self).eff_regions(),
    {
        let b = ConstBuiltins::get();
        self.set_parm(ir.operands[0], ParameterValue::QuotedString(String::from_str(b.brink_version_string)));
        true
    }

    /// Sets the output operand to the major version.
    pub fn iterate_builtin_version_major(&mut self, ir: &IR) -> (ok: bool)
        requires
            ir.operands@.len() == 1,
            ir.operands@[0] < old(self).parms_view().len(),
            old(self).parms_view()[ir.operands@[0] as int] is U64,
        ensures
            ok,
            final(self).parms_view() == old(self).parms_view().update(ir.operands@[0] as int,
                PVal::U64(version_field(version_parts(BRINK_VERSION@).0))),
            final(self).locs_view() == old(self).locs_view(),
            final(self).frames() == old(self).frames(),
            final(self).warned() == old(self).warned(),
            final(self).eff_regions() == old(self).eff_regions(),
    {
        let b = ConstBuiltins::get();
        self.set_parm(ir.operands[0], ParameterValue::U64(b.brink_version_major));
        true
    }

    /// Sets the output operand to the minor version.
    pub fn iterate_builtin_version_minor(&mut self, ir: &IR) -> (ok: bool)
        requires
            ir.operands@.len() == 1,
            ir.operands@[0] < old(self).parms_view().len(),
            old(self).parms_view()[ir.operands@[0] as int] is U64,
        ensures
            ok,
            final(self).parms_view() == old(self).parms_view().update(ir.operands@[0] as int,
                PVal::U64(version_field(version_parts(BRINK_VERSION@).1))),
            final(self).locs_view() == old(self).locs_view(),
            final(self).frames() == old(self).frames(),
            final(self).warned() == old(self).warned(),
            final(self).eff_regions() == old(self).eff_regions(),
    {
        let b = ConstBuiltins::get();
        self.set_parm(ir.operands[0], ParameterValue::U64(b.brink_version_minor));
        true
    }

    /// Sets the output operand to the patch version.
    pub fn iterate_builtin_version_patch(&mut self, ir: &IR) -> (ok: bool)
        requires
            ir.operands@.len() == 1,
            ir.operands@[0] < old(self).parms_view().len(),
            old(self).parms_view()[ir.operands@[0] as int] is U64,
        ensures
            ok,
            final(self).parms_view() == old(self).parms_view().update(ir.operands@[0] as int,
                PVal::U64(version_field(version_parts(BRINK_VERSION@).2))),
            final(self).locs_view() == old(self).locs_view(),
            final(self).frames() == old(self).frames(),
            final(self).warned() == old(self).warned(),
            final(self).eff_regions() == old(self).eff_regions(),
    {
        let b = ConstBuiltins::get();
        self.set_parm(ir.operands[0], ParameterValue::U64(b.brink_version_patch));
        true
    }

    /// Evaluates a two-input instruction into its output operand; see
    /// [`eval_binary`] for the type rule.
    pub fn iterate_arithmetic(&mut self, ir: &IR, ops: &[IROperand], operation: IRKind, diags: &mut Diags) -> (ok: bool)
        requires
            is_binary_op(operation),
            ir.operands@.len() == 3,
            forall|k: int| 0 <= k < 3 ==> #[trigger] ir.operands@[k] < old(self).parms_view().len(),
            ir.operands@[0] < ops@.len(),
            ir.operands@[1] < ops@.len(),
            out_slot_ok(operation, old(self).parms_view()[ir.operands@[0] as int],
                old(self).parms_view()[ir.operands@[1] as int], old(self).parms_view()[ir.operands@[2] as int]),
        ensures
            final(self).locs_view() == old(self).locs_view(),
            final(self).frames() == old(self).frames(),
            final(self).warned() == old(self).warned(),
            final(self).eff_regions() == old(self).eff_regions(),
            final(self).depth() == old(self).depth(),
            final(self).innermost_name() == old(self).innermost_name(),
            final(diags).files_view() == old(diags).files_view(),
            ({
                let l = old(self).parms_view()[ir.operands@[0] as int];
                let r = old(self).parms_view()[ir.operands@[1] as int];
                let o = old(self).parms_view()[ir.operands@[2] as int];
                match binary_value(operation, l, r, o) {
                    Some(v) => {
                        &&& ok
                        &&& final(self).parms_view() == old(self).parms_view().update(ir.operands@[2] as int, v)
                        &&& final(diags).records() == old(diags).records()
                    },
                    None => {
                        &&& !ok
                        &&& final(self).parms_view() == old(self).parms_view()
                        &&& final(diags).records() == old(diags).records().push(binary_diag(operation, l, r,
                            ops@[ir.operands@[0] as int].src_loc, ops@[ir.operands@[1] as int].src_loc, ir.src_loc))
                    },
                }
            }),
    {
        proof {
            assert(self.parms@[ir.operands@[0] as int]@ == self.parms_view()[ir.operands@[0] as int]);
            assert(self.parms@[ir.operands@[1] as int]@ == self.parms_view()[ir.operands@[1] as int]);
            assert(self.parms@[ir.operands@[2] as int]@ == self.parms_view()[ir.operands@[2] as int]);
        }
        eval_binary(&mut self.parms, ir, ops, operation, diags)
    }

    /// Evaluates `to_u64` or `to_i64` into the output operand; see
    /// [`eval_conversion`].
    pub fn iterate_type_conversion(&mut self, ir: &IR, ops: &[IROperand], operation: IRKind, diags: &mut Diags) -> (ok: bool)
        requires
            is_conversion_op(operation),
            ir.operands@.len() == 2,
            ir.operands@[0] < old(self).parms_view().len(),
            ir.operands@[1] < old(self).parms_view().len(),
            ir.operands@[0] < ops@.len(),
            conv_slot_ok(operation, old(self).parms_view()[ir.operands@[1] as int]),
        ensures
            final(self).locs_view() == old(self).locs_view(),
            final(self).frames() == old(self).frames(),
            final(self).warned() == old(self).warned(),
            final(self).eff_regions() == old(self).eff_regions(),
            final(self).depth() == old(self).depth(),
            final(self).innermost_name() == old(self).innermost_name(),
            final(diags).files_view() == old(diags).files_view(),
            ({
                let i = old(self).parms_view()[ir.operands@[0] as int];
                let o = old(self).parms_view()[ir.operands@[1] as int];
                match conversion_value(operation, i, o) {
                    Some(v) => {
                        &&& ok
                        &&& final(self).parms_view() == old(self).parms_view().update(ir.operands@[1] as int, v)
                        &&& final(diags).records() == old(diags).records()
                    },
                    None => {
                        &&& !ok
                        &&& final(self).parms_view() == old(self).parms_view()
                        &&& final(diags).records() == old(diags).records().push(conversion_diag(operation, i,
                            ops@[ir.operands@[0] as int].src_loc))
                    },
                }
            }),
    {
        proof {
            assert(self.parms@[ir.operands@[0] as int]@ == self.parms_view()[ir.operands@[0] as int]);
            assert(self.parms@[ir.operands@[1] as int]@ == self.parms_view()[ir.operands@[1] as int]);
        }
        eval_conversion(&mut self.parms, ir, ops, operation, diags)
    }

    /// Stores the current address (`addr`), address offset, section offset
    /// or file offset into the output operand.  The absolute address is the
    /// base plus the offset and fails when that overflows.
    pub fn iterate_current_address(&mut self, ir: &IR, diags: &mut Diags, current: &Location) -> (ok: bool)
        requires
            ir.operands@.len() == 1,
            ir.operands@[0] < old(self).parms_view().len(),
            old(self).parms_view()[ir.operands@[0] as int] is U64,
            ir.kind == IRKind::Addr || ir.kind == IRKind::AddrOffset || ir.kind == IRKind::SecOffset
                || ir.kind == IRKind::FileOffset,
        ensures
            final(self).locs_view() == old(self).locs_view(),
            final(self).frames() == old(self).frames(),
            final(self).warned() == old(self).warned(),
            final(self).eff_regions() == old(self).eff_regions(),
            final(diags).files_view() == old(diags).files_view(),
            if ir.kind == IRKind::Addr && current.addr.addr_base + current.addr.addr_offset > u64::MAX {
                &&& !ok
                &&& final(self).parms_view() == old(self).parms_view()
                &&& final(diags).records() == old(diags).records().push(
                    err_at("EXEC_39"@, "Absolute address (abs_base + off) overflow"@, ir.src_loc))
            } else {
                &&& ok
                &&& final(diags).records() == old(diags).records()
                &&& final(self).parms_view() == old(self).parms_view().update(ir.operands@[0] as int, PVal::U64(
                    match ir.kind {
                        IRKind::Addr => (current.addr.addr_base + current.addr.addr_offset) as u64,
                        IRKind::AddrOffset => current.addr.addr_offset,
                        IRKind::SecOffset => current.addr.sec_offset,
                        _ => current.file_offset,
                    }))
            },
    {
        let out_parm_num = ir.operands[0];
        let val = match ir.kind {
            IRKind::Addr => match current.addr.addr_base.checked_add(current.addr.addr_offset) {
                Some(v) => v,
                None => {
                    proof {
                        reveal_strlit("EXEC_39");
                        reveal_strlit("Absolute address (abs_base + off) overflow");
                    }
                    diags.err1("EXEC_39", "Absolute address (abs_base + off) overflow", ir.src_loc);
                    return false;
                },
            },
            IRKind::AddrOffset => current.addr.addr_offset,
            IRKind::SecOffset => current.addr.sec_offset,
            _ => current.file_offset,
        };
        self.set_parm(out_parm_num, ParameterValue::U64(val));
        true
    }

    /// The intersection of two regions: the later start, the earlier end
    /// (saturating), named "P & D" and located at the direct region's
    /// declaration; `None` when they do not overlap.
    pub fn intersect_regions(parent: &RegionBinding, direct: &RegionBinding) -> (r: Option<RegionBinding>)
        ensures
            match intersect_spec(*parent, *direct) {
                None => r is None,
                Some((a, s)) => r matches Some(b) && b.addr == a && b.size == s && b.name@ == parent.name@
                    + " & "@ + direct.name@ && b.src_loc == direct.src_loc,
            },
    {
        let addr = if parent.addr >= direct.addr { parent.addr } else { direct.addr };
        let end_p = parent.addr.saturating_add(parent.size);
        let end_d = direct.addr.saturating_add(direct.size);
        let end = if end_p <= end_d { end_p } else { end_d };
        if end <= addr {
            return None;
        }
        proof { reveal_strlit(" & "); }
        let name = cat(cat(parent.name.clone(), " & "), direct.name.as_str());
        Some(RegionBinding { addr, size: end - addr, name, src_loc: direct.src_loc })
    }

    /// One line per instruction location: "index: file offset F, addr offset
    /// A, sec offset S".
    pub fn dump_locations(&self) -> (lines: Vec<String>)
        ensures
            lines@.len() == self.locs_view().len(),
            forall|i: int| 0 <= i < lines@.len() ==> #[trigger] lines@[i]@ == digits(i as nat, 10) + ": "@
                + "file offset "@ + digits(self.locs_view()[i].file_offset as nat, 10) + ", addr offset "@
                + digits(self.locs_view()[i].addr.addr_offset as nat, 10) + ", sec offset "@
                + digits(self.locs_view()[i].addr.sec_offset as nat, 10),
    {
        let mut lines: Vec<String> = Vec::new();
        let mut i: usize = 0;
        while i < self.ir_locs.len()
            invariant
                i <= self.ir_locs@.len(),
                lines@.len() == i,
                forall|k: int| 0 <= k < i ==> #[trigger] lines@[k]@ == digits(k as nat, 10) + ": "@
                    + "file offset "@ + digits(self.ir_locs@[k].file_offset as nat, 10) + ", addr offset "@
                    + digits(self.ir_locs@[k].addr.addr_offset as nat, 10) + ", sec offset "@
                    + digits(self.ir_locs@[k].addr.sec_offset as nat, 10),
            decreases self.ir_locs@.len() - i,
        {
            proof { reveal_strlit(": "); }
            let line = cat(cat(usize_to_dec(i), ": "), self.ir_locs[i].describe().as_str());
            lines.push(line);
            i = i + 1;
        }
        lines
    }
}


impl LayoutPhase {
    /// The text of a string expression, reporting each operand that cannot
    /// be stringified as EXEC_14.
    pub fn evaluate_string_expr(&self, ir: &IR, irdb: &IRDb, diags: &mut Diags) -> (r: Option<String>)
        requires
            forall|k: int| 0 <= k < ir.operands@.len() ==> #[trigger] ir.operands@[k] < self.parms_view().len()
                && (string_piece(self.parms_view()[ir.operands@[k] as int]) is None ==> ir.operands@[k]
                < irdb.parms@.len()),
        ensures
            final(diags).files_view() == old(diags).files_view(),
            final(diags).records() == old(diags).records() + layout_str_errs(self.parms_view(), *irdb, *ir),
            layout_str_errs(self.parms_view(), *irdb, *ir).len() == 0 ==> (r matches Some(t) && t@
                == string_expr_text(self.parms_view(), ir.operands@, ir.operands@.len() as int)),
            layout_str_errs(self.parms_view(), *irdb, *ir).len() > 0 ==> r is None,
    {
        proof {
            assert forall|k: int| 0 <= k < ir.operands@.len() implies #[trigger] ir.operands@[k] < self.parms@.len()
                && (string_piece(self.parms@[ir.operands@[k] as int]@) is None ==> ir.operands@[k]
                < irdb.parms@.len()) by {
                assert(self.parms_view()[ir.operands@[k] as int] == self.parms@[ir.operands@[k] as int]@);
            }
        }
        evaluate_string_expr_with("EXEC_14", self.parms.as_slice(), irdb.parms.as_slice(), ir.operands.as_slice(),
            diags)
    }

    /// `wrs`: moves the cursor by the UTF-8 length of the string.
    pub fn iterate_wrs(&self, ir: &IR, irdb: &IRDb, diags: &mut Diags, current: &mut Location) -> (ok: bool)
        requires
            forall|k: int| 0 <= k < ir.operands@.len() ==> #[trigger] ir.operands@[k] < self.parms_view().len()
                && (string_piece(self.parms_view()[ir.operands@[k] as int]) is None ==> ir.operands@[k]
                < irdb.parms@.len()),
            old(current).addr.addr_offset <= old(current).file_offset,
        ensures
            final(diags).files_view() == old(diags).files_view(),
            (*final(current), ok) == wrs_move(self.parms_view(), *irdb, *ir, *old(current)),
            final(diags).records() == old(diags).records() + layout_str_errs(self.parms_view(), *irdb, *ir) + if
                layout_str_errs(self.parms_view(), *irdb, *ir).len() > 0 {
                Seq::<DiagView>::empty()
            } else {
                advance_diags(*old(current), encode_utf8(string_expr_text(self.parms_view(), ir.operands@,
                    ir.operands@.len() as int)).len() as u64, ir.src_loc)
            },
    {
        let xstr = match self.evaluate_string_expr(ir, irdb, diags) {
            Some(t) => t,
            None => {
                proof {
                    assert(diags.records() =~= old(diags).records() + layout_str_errs(self.parms_view(), *irdb, *ir)
                        + Seq::<DiagView>::empty());
                }
                return false;
            },
        };
        let size = xstr.as_str().as_bytes().len() as u64;
        let ghost mid = diags.records();
        let ok = current.advance(size, &ir.src_loc, diags);
        proof {
            reveal_strlit("EXEC_37");
            reveal_strlit("EXEC_43");
            reveal_strlit("Write operation causes file offset overflow");
            reveal_strlit("Write operation causes absolute address overflow");
            assert(diags.records() =~= mid + advance_diags(*old(current), size, ir.src_loc));
        }
        ok
    }

    /// An extension call: moves the cursor by the extension's registered
    /// size; an unknown extension is reported (EXEC_50).
    pub fn iterate_ext(&self, ir: &IR, current: &mut Location, ext_registry: &ExtensionRegistry, diags: &mut Diags)
        -> (ok: bool)
        requires
            ir.operands@.len() >= 1,
            ir.operands@[0] < self.parms_view().len(),
            self.parms_view()[ir.operands@[0] as int] is Identifier,
            old(current).addr.addr_offset <= old(current).file_offset,
        ensures
            final(diags).files_view() == old(diags).files_view(),
            (*final(current), ok) == ext_move(self.parms_view(), ext_registry.entries(), *ir, *old(current)),
            final(diags).records() == old(diags).records() + match registered_size(ext_registry.entries(),
                self.parms_view()[ir.operands@[0] as int]->Identifier_0) {
                Some(n) => advance_diags(*old(current), n as u64, ir.src_loc),
                None => seq![err_at("EXEC_50"@, "Failed to resolve extension '"@ + self.parms_view()[ir.operands@[0] as int]->Identifier_0
                    + "' size during layout."@, ir.src_loc)],
            },
    {
        proof {
            assert(self.parms_view()[ir.operands@[0] as int] == self.parms@[ir.operands@[0] as int]@);
            reveal_strlit("EXEC_37");
            reveal_strlit("EXEC_43");
            reveal_strlit("Write operation causes file offset overflow");
            reveal_strlit("Write operation causes absolute address overflow");
            reveal_strlit("EXEC_50");
            reveal_strlit("Failed to resolve extension '");
            reveal_strlit("' size during layout.");
        }
        let ext_name = self.parms[ir.operands[0]].identifier_to_str();
        match ext_registry.get(ext_name) {
            Some(entry) => {
                let size = entry.cached_size as u64;
                let ghost mid = diags.records();
                let ok = current.advance(size, &ir.src_loc, diags);
                proof {
                    assert(diags.records() =~= mid + advance_diags(*old(current), size, ir.src_loc));
                }
                ok
            },
            None => {
                let msg = cat(cat(String::from_str("Failed to resolve extension '"), ext_name),
                    "' size during layout.");
                diags.err1("EXEC_50", msg.as_str(), ir.src_loc);
                proof {
                    assert(diags.records() =~= old(diags).records() + seq![err_at("EXEC_50"@, msg@, ir.src_loc)]);
                }
                false
            },
        }
    }

    /// `wrN` with an optional repeat count: moves the cursor by N times the
    /// count.  A negative count (EXEC_32) counts as zero and a count of
    /// another type (EXEC_31) as one, both failing the step; a size that
    /// overflows (EXEC_36) fails without moving.
    pub fn iterate_wrx(&self, ir: &IR, irdb: &IRDb, diags: &mut Diags, current: &mut Location) -> (ok: bool)
        requires
            ir.kind is Wr,
            ir.operands@.len() == 1 || ir.operands@.len() == 2,
            forall|k: int| 0 <= k < ir.operands@.len() ==> #[trigger] ir.operands@[k] < self.parms_view().len()
                && ir.operands@[k] < irdb.parms@.len(),
            old(current).addr.addr_offset <= old(current).file_offset,
        ensures
            final(diags).files_view() == old(diags).files_view(),
            (*final(current), ok) == wrx_move(self.parms_view(), *ir, *old(current)),
            final(diags).records() == old(diags).records() + wrx_diags(self.parms_view(), *irdb, *ir, *old(current)),
    {
        let ghost pv = self.parms_view();
        proof {
            reveal_strlit("EXEC_37");
            reveal_strlit("EXEC_43");
            reveal_strlit("Write operation causes file offset overflow");
            reveal_strlit("Write operation causes absolute address overflow");
            reveal_strlit("EXEC_32");
            reveal_strlit("EXEC_31");
            reveal_strlit("EXEC_36");
            reveal_strlit("Repeat count cannot be negative, but found '");
            reveal_strlit("'");
            reveal_strlit("Repeat count cannot be type '");
            reveal_strlit("Write repeat count causes size overflow");
        }
        let byte_size = crate::engine::get_wrx_byte_width(ir) as u64;
        let mut result = true;
        let mut repeat_count: u64 = 1;
        if ir.operands.len() == 2 {
            let opn = ir.operands[1];
            proof {
                assert(pv[opn as int] == self.parms@[opn as int]@);
            }
            match &self.parms[opn] {
                ParameterValue::U64(x) => {
                    repeat_count = *x;
                },
                ParameterValue::I64(x) | ParameterValue::Integer(x) => {
                    if *x < 0 {
                        let msg = cat(cat(String::from_str("Repeat count cannot be negative, but found '"),
                            i64_to_dec(*x).as_str()), "'");
                        diags.err1("EXEC_32", msg.as_str(), irdb.parms[opn].src_loc);
                        result = false;
                        repeat_count = 0;
                    } else {
                        repeat_count = *x as u64;
                    }
                },
                other => {
                    let msg = cat(cat(String::from_str("Repeat count cannot be type '"), crate::ir::data_type_name(
                        other.data_type(),
                    )), "'");
                    diags.err1("EXEC_31", msg.as_str(), irdb.parms[opn].src_loc);
                    result = false;
                },
            }
        }
        let ghost mid = diags.records();
        proof {
            assert(mid =~= old(diags).records() + wrx_repeat_diags(pv, *irdb, *ir));
            assert((repeat_count, result) == wrx_repeat_spec(pv, *ir));
        }
        let size = match byte_size.checked_mul(repeat_count) {
            Some(sz) => sz,
            None => {
                let which = if ir.operands.len() == 2 { ir.operands[1] } else { ir.operands[0] };
                diags.err1("EXEC_36", "Write repeat count causes size overflow", irdb.parms[which].src_loc);
                proof {
                    assert(diags.records() =~= old(diags).records() + wrx_diags(pv, *irdb, *ir, *old(current)));
                }
                return false;
            },
        };
        let adv = current.advance(size, &ir.src_loc, diags);
        proof {
            assert(diags.records() =~= old(diags).records() + wrx_diags(pv, *irdb, *ir, *old(current)));
        }
        result && adv
    }

    /// `wrf`: moves the cursor by the recorded size of the file.
    pub fn iterate_wrf(&self, ir: &IR, irdb: &IRDb, diags: &mut Diags, current: &mut Location) -> (ok: bool)
        requires
            ir.operands@.len() == 1,
            ir.operands@[0] < self.parms_view().len(),
            self.parms_view()[ir.operands@[0] as int] is QuotedString,
            lookup_key(irdb.files@, self.parms_view()[ir.operands@[0] as int]->QuotedString_0) is Some,
            old(current).addr.addr_offset <= old(current).file_offset,
        ensures
            final(diags).files_view() == old(diags).files_view(),
            (*final(current), ok) == wrf_move(self.parms_view(), *irdb, *ir, *old(current)),
            final(diags).records() == old(diags).records() + advance_diags(*old(current), lookup_key(irdb.files@,
                self.parms_view()[ir.operands@[0] as int]->QuotedString_0).unwrap().size, ir.src_loc),
    {
        proof {
            assert(self.parms_view()[ir.operands@[0] as int] == self.parms@[ir.operands@[0] as int]@);
            reveal_strlit("EXEC_37");
            reveal_strlit("EXEC_43");
            reveal_strlit("Write operation causes file offset overflow");
            reveal_strlit("Write operation causes absolute address overflow");
        }
        let file_path = self.parms[ir.operands[0]].to_str();
        let i = match find_key(irdb.files.as_slice(), file_path) {
            Some(i) => i,
            None => vstd::pervasive::unreached(),
        };
        let byte_size = irdb.files[i].1.size;
        let ghost mid = diags.records();
        let ok = current.advance(byte_size, &ir.src_loc, diags);
        proof {
            assert(diags.records() =~= mid + advance_diags(*old(current), byte_size, ir.src_loc));
        }
        ok
    }
}


impl LayoutPhase {
    /// `sizeof(NAME)`: the current size of a section written to the output,
    /// else the size of a declared region.
    pub fn iterate_sizeof(&mut self, ir: &IR, irdb: &IRDb, diags: &mut Diags) -> (ok: bool)
        requires
            ir.operands@.len() == 2,
            ir.operands@[0] < old(self).parms_view().len(),
            ir.operands@[1] < old(self).parms_view().len(),
            old(self).parms_view()[ir.operands@[1] as int] is U64,
            sized_ok(*irdb, old(self).locs_view().len()),
        ensures
            final(self).locs_view() == old(self).locs_view(),
            final(self).frames() == old(self).frames(),
            final(self).warned() == old(self).warned(),
            final(self).eff_regions() == old(self).eff_regions(),
            final(diags).files_view() == old(diags).files_view(),
            value_written(sizeof_value(old(self).parms_view(), *irdb, old(self).locs_view(), *ir), ir.operands@[1] as int,
                sizeof_diag(old(self).parms_view(), *ir), ok, old(self).parms_view(), final(self).parms_view(),
                old(diags).records(), final(diags).records()),
    {
        let in_num = ir.operands[0];
        let out_num = ir.operands[1];
        proof {
            assert(self.parms_view()[in_num as int] == self.parms@[in_num as int]@);
            reveal_strlit("EXEC_5");
            reveal_strlit("EXEC_52");
            reveal_strlit("sizeof() argument '");
            reveal_strlit("' is not a section used in output or a declared region.");
            reveal_strlit("sizeof() only accepts section or region names.");
        }
        match &self.parms[in_num] {
            ParameterValue::Identifier(name) => {
                let name = name.as_str();
                match find_key(irdb.sized_locs.as_slice(), name) {
                    Some(i) => {
                        let (st, en) = irdb.sized_locs[i].1;
                        proof {
                            assert(irdb.sized_locs@[i as int].1.0 <= irdb.sized_locs@[i as int].1.1 < self.locs_view().len());
                        }
                        let sz = if self.ir_locs[st].file_offset > self.ir_locs[en].file_offset {
                            0
                        } else {
                            self.ir_locs[en].file_offset - self.ir_locs[st].file_offset
                        };
                        self.set_parm(out_num, ParameterValue::U64(sz));
                        return true;
                    },
                    None => {},
                }
                match find_key(irdb.region_bindings.as_slice(), name) {
                    Some(j) => {
                        let size = irdb.region_bindings[j].1.size;
                        self.set_parm(out_num, ParameterValue::U64(size));
                        true
                    },
                    None => {
                        let msg = cat(cat(String::from_str("sizeof() argument '"), name),
                            "' is not a section used in output or a declared region.");
                        diags.err1("EXEC_5", msg.as_str(), ir.src_loc);
                        false
                    },
                }
            },
            _ => {
                diags.err1("EXEC_52", "sizeof() only accepts section or region names.", ir.src_loc);
                false
            },
        }
    }

    /// `sizeof(ext::name)`: the registered size of an extension.
    pub fn iterate_sizeof_ext(&mut self, ir: &IR, diags: &mut Diags, ext_registry: &ExtensionRegistry) -> (ok: bool)
        requires
            ir.operands@.len() == 2,
            ir.operands@[0] < old(self).parms_view().len(),
            ir.operands@[1] < old(self).parms_view().len(),
            old(self).parms_view()[ir.operands@[0] as int] is Identifier,
            old(self).parms_view()[ir.operands@[1] as int] is U64,
        ensures
            final(self).locs_view() == old(self).locs_view(),
            final(self).frames() == old(self).frames(),
            final(self).warned() == old(self).warned(),
            final(self).eff_regions() == old(self).eff_regions(),
            final(diags).files_view() == old(diags).files_view(),
            value_written(match registered_size(ext_registry.entries(), old(self).parms_view()[ir.operands@[0] as int]->Identifier_0) {
                Some(n) => Some(PVal::U64(n as u64)),
                None => None,
            }, ir.operands@[1] as int, err_at("EXEC_53"@, "Unknown extension '"@
                + old(self).parms_view()[ir.operands@[0] as int]->Identifier_0 + "' in sizeof()."@, ir.src_loc), ok,
                old(self).parms_view(), final(self).parms_view(), old(diags).records(), final(diags).records()),
    {
        proof {
            assert(self.parms_view()[ir.operands@[0] as int] == self.parms@[ir.operands@[0] as int]@);
            reveal_strlit("EXEC_53");
            reveal_strlit("Unknown extension '");
            reveal_strlit("' in sizeof().");
        }
        let out_num = ir.operands[1];
        let name = String::from_str(self.parms[ir.operands[0]].identifier_to_str());
        match ext_registry.get(name.as_str()) {
            Some(entry) => {
                self.set_parm(out_num, ParameterValue::U64(entry.cached_size as u64));
                true
            },
            None => {
                let msg = cat(cat(String::from_str("Unknown extension '"), name.as_str()), "' in sizeof().");
                diags.err1("EXEC_53", msg.as_str(), ir.src_loc);
                false
            },
        }
    }

    /// `__OUTPUT_SIZE`: the current size of the output section.
    pub fn iterate_output_size(&mut self, ir: &IR, irdb: &IRDb, diags: &mut Diags) -> (ok: bool)
        requires
            ir.operands@.len() == 1,
            ir.operands@[0] < old(self).parms_view().len(),
            old(self).parms_view()[ir.operands@[0] as int] is U64,
            sized_ok(*irdb, old(self).locs_view().len()),
        ensures
            final(self).locs_view() == old(self).locs_view(),
            final(self).frames() == old(self).frames(),
            final(self).warned() == old(self).warned(),
            final(self).eff_regions() == old(self).eff_regions(),
            final(diags).files_view() == old(diags).files_view(),
            value_written(output_size_value(*irdb, old(self).locs_view()), ir.operands@[0] as int, err_at("EXEC_57"@,
                "__OUTPUT_SIZE: output section '"@ + irdb.output_sec_str@ + "' not found."@, ir.src_loc), ok,
                old(self).parms_view(), final(self).parms_view(), old(diags).records(), final(diags).records()),
    {
        proof {
            reveal_strlit("EXEC_57");
            reveal_strlit("__OUTPUT_SIZE: output section '");
            reveal_strlit("' not found.");
        }
        let out_num = ir.operands[0];
        match find_key(irdb.sized_locs.as_slice(), irdb.output_sec_str.as_str()) {
            Some(i) => {
                let (st, en) = irdb.sized_locs[i].1;
                proof {
                    assert(irdb.sized_locs@[i as int].1.0 <= irdb.sized_locs@[i as int].1.1 < self.locs_view().len());
                }
                let sz = if self.ir_locs[st].file_offset > self.ir_locs[en].file_offset {
                    0
                } else {
                    self.ir_locs[en].file_offset - self.ir_locs[st].file_offset
                };
                self.set_parm(out_num, ParameterValue::U64(sz));
                true
            },
            None => {
                let msg = cat(cat(String::from_str("__OUTPUT_SIZE: output section '"), irdb.output_sec_str.as_str()),
                    "' not found.");
                diags.err1("EXEC_57", msg.as_str(), ir.src_loc);
                false
            },
        }
    }

    /// `__OUTPUT_ADDR`: the current absolute address of the output section.
    pub fn iterate_output_addr(&mut self, ir: &IR, irdb: &IRDb, diags: &mut Diags) -> (ok: bool)
        requires
            ir.operands@.len() == 1,
            ir.operands@[0] < old(self).parms_view().len(),
            old(self).parms_view()[ir.operands@[0] as int] is U64,
            addressed_ok(*irdb, old(self).locs_view().len()),
        ensures
            final(self).locs_view() == old(self).locs_view(),
            final(self).frames() == old(self).frames(),
            final(self).warned() == old(self).warned(),
            final(self).eff_regions() == old(self).eff_regions(),
            final(diags).files_view() == old(diags).files_view(),
            value_written(output_addr_value(*irdb, old(self).locs_view()), ir.operands@[0] as int, output_addr_diag(
                *irdb, *ir), ok, old(self).parms_view(), final(self).parms_view(), old(diags).records(),
                final(diags).records()),
    {
        proof {
            reveal_strlit("EXEC_58");
            reveal_strlit("EXEC_59");
            reveal_strlit("__OUTPUT_ADDR: output section '");
            reveal_strlit("' not reachable.");
            reveal_strlit("__OUTPUT_ADDR: address overflow.");
        }
        let out_num = ir.operands[0];
        match find_key(irdb.addressed_locs.as_slice(), irdb.output_sec_str.as_str()) {
            Some(i) => {
                let lid = irdb.addressed_locs[i].1;
                proof {
                    assert(irdb.addressed_locs@[i as int].1 < self.locs_view().len());
                }
                let l = self.ir_locs[lid];
                match l.addr.addr_base.checked_add(l.addr.addr_offset) {
                    Some(v) => {
                        self.set_parm(out_num, ParameterValue::U64(v));
                        true
                    },
                    None => {
                        diags.err1("EXEC_59", "__OUTPUT_ADDR: address overflow.", ir.src_loc);
                        false
                    },
                }
            },
            None => {
                let msg = cat(cat(String::from_str("__OUTPUT_ADDR: output section '"), irdb.output_sec_str.as_str()),
                    "' not reachable.");
                diags.err1("EXEC_58", msg.as_str(), ir.src_loc);
                false
            },
        }
    }

    /// `addr(NAME)`, `addr_offset(NAME)`, `sec_offset(NAME)` or
    /// `file_offset(NAME)`: the value at a section or label; for a declared
    /// region only `addr` is meaningful.
    pub fn iterate_identifier_address(&mut self, ir: &IR, irdb: &IRDb, diags: &mut Diags) -> (ok: bool)
        requires
            ir.operands@.len() == 2,
            is_address_kind(ir.kind),
            ir.operands@[0] < old(self).parms_view().len(),
            ir.operands@[1] < old(self).parms_view().len(),
            old(self).parms_view()[ir.operands@[0] as int] is Identifier,
            old(self).parms_view()[ir.operands@[1] as int] is U64,
            addressed_ok(*irdb, old(self).locs_view().len()),
        ensures
            final(self).locs_view() == old(self).locs_view(),
            final(self).frames() == old(self).frames(),
            final(self).warned() == old(self).warned(),
            final(self).eff_regions() == old(self).eff_regions(),
            final(diags).files_view() == old(diags).files_view(),
            value_written(ident_addr_value(old(self).parms_view(), *irdb, old(self).locs_view(), *ir),
                ir.operands@[1] as int, ident_addr_diag(old(self).parms_view(), *irdb, *ir), ok, old(self).parms_view(),
                final(self).parms_view(), old(diags).records(), final(diags).records()),
    {
        proof {
            assert(self.parms_view()[ir.operands@[0] as int] == self.parms@[ir.operands@[0] as int]@);
            reveal_strlit("EXEC_44");
            reveal_strlit("EXEC_76");
            reveal_strlit("EXEC_11");
            reveal_strlit("Absolute address (abs_base + off) overflow for identifier");
            reveal_strlit("addr_offset");
            reveal_strlit("sec_offset");
            reveal_strlit("file_offset");
            reveal_strlit("(");
            reveal_strlit(") is not valid for region '");
            reveal_strlit("'; use addr(");
            reveal_strlit(") instead.");
            reveal_strlit("Section, label, or region '");
            reveal_strlit("' not found in output.");
        }
        let out_num = ir.operands[1];
        let name = String::from_str(self.parms[ir.operands[0]].identifier_to_str());
        match find_key(irdb.addressed_locs.as_slice(), name.as_str()) {
            Some(i) => {
                let lid = irdb.addressed_locs[i].1;
                proof {
                    assert(irdb.addressed_locs@[i as int].1 < self.locs_view().len());
                }
                let l = self.ir_locs[lid];
                let v = match ir.kind {
                    IRKind::Addr => match l.addr.addr_base.checked_add(l.addr.addr_offset) {
                        Some(v) => v,
                        None => {
                            diags.err1("EXEC_44", "Absolute address (abs_base + off) overflow for identifier",
                                ir.src_loc);
                            return false;
                        },
                    },
                    IRKind::AddrOffset => l.addr.addr_offset,
                    IRKind::SecOffset => l.addr.sec_offset,
                    _ => l.file_offset,
                };
                self.set_parm(out_num, ParameterValue::U64(v));
                true
            },
            None => match find_key(irdb.region_bindings.as_slice(), name.as_str()) {
                Some(j) => {
                    if ir.kind == IRKind::Addr {
                        let a = irdb.region_bindings[j].1.addr;
                        self.set_parm(out_num, ParameterValue::U64(a));
                        true
                    } else {
                        let word = if ir.kind == IRKind::AddrOffset {
                            "addr_offset"
                        } else if ir.kind == IRKind::SecOffset {
                            "sec_offset"
                        } else {
                            "file_offset"
                        };
                        let msg = cat(cat(cat(cat(cat(cat(cat(String::from_str(word), "("), name.as_str()),
                            ") is not valid for region '"), name.as_str()), "'; use addr("), name.as_str()),
                            ") instead.");
                        diags.err1("EXEC_76", msg.as_str(), ir.src_loc);
                        false
                    }
                },
                None => {
                    let msg = cat(cat(String::from_str("Section, label, or region '"), name.as_str()),
                        "' not found in output.");
                    diags.err1("EXEC_11", msg.as_str(), ir.src_loc);
                    false
                },
            },
        }
    }

    /// An address query: at the current location without an operand name,
    /// else at the named item.
    pub fn iterate_address(&mut self, ir: &IR, irdb: &IRDb, diags: &mut Diags, current: &Location) -> (ok: bool)
        requires
            ir.operands@.len() == 1 || ir.operands@.len() == 2,
            is_address_kind(ir.kind),
            forall|k: int| 0 <= k < ir.operands@.len() ==> #[trigger] ir.operands@[k] < old(self).parms_view().len(),
            ir.operands@.len() == 2 ==> old(self).parms_view()[ir.operands@[0] as int] is Identifier,
            old(self).parms_view()[ir.operands@[ir.operands@.len() - 1] as int] is U64,
            addressed_ok(*irdb, old(self).locs_view().len()),
        ensures
            final(self).locs_view() == old(self).locs_view(),
            final(self).frames() == old(self).frames(),
            final(self).warned() == old(self).warned(),
            final(self).eff_regions() == old(self).eff_regions(),
            final(diags).files_view() == old(diags).files_view(),
            ir.operands@.len() == 1 ==> value_written(match loc_value(ir.kind, *current) {
                Some(v) => Some(PVal::U64(v)),
                None => None,
            }, ir.operands@[0] as int, err_at("EXEC_39"@, "Absolute address (abs_base + off) overflow"@, ir.src_loc), ok,
                old(self).parms_view(), final(self).parms_view(), old(diags).records(), final(diags).records()),
            ir.operands@.len() == 2 ==> value_written(ident_addr_value(old(self).parms_view(), *irdb, old(self).locs_view(), *ir),
                ir.operands@[1] as int, ident_addr_diag(old(self).parms_view(), *irdb, *ir), ok, old(self).parms_view(),
                final(self).parms_view(), old(diags).records(), final(diags).records()),
    {
        if ir.operands.len() == 1 {
            self.iterate_current_address(ir, diags, current)
        } else {
            self.iterate_identifier_address(ir, irdb, diags)
        }
    }

    /// `align(N)`: the number of pad bytes up to the next multiple of N of
    /// the absolute address.
    pub fn iterate_align(&mut self, ir: &IR, irdb: &IRDb, diags: &mut Diags, current: &Location) -> (ok: bool)
        requires
            ir.operands@.len() == 2 || ir.operands@.len() == 3,
            forall|k: int| 0 <= k < ir.operands@.len() ==> #[trigger] ir.operands@[k] < old(self).parms_view().len(),
            ir.operands@[0] < irdb.parms@.len(),
            crate::ir::is_numeric(old(self).parms_view()[ir.operands@[0] as int]),
            old(self).parms_view()[pad_out(*ir) as int] is U64,
        ensures
            final(self).locs_view() == old(self).locs_view(),
            final(self).frames() == old(self).frames(),
            final(self).warned() == old(self).warned(),
            final(self).eff_regions() == old(self).eff_regions(),
            final(diags).files_view() == old(diags).files_view(),
            value_written(align_value(old(self).parms_view(), *ir, *current), pad_out(*ir) as int, align_diag(
                old(self).parms_view(), *irdb, *ir), ok, old(self).parms_view(), final(self).parms_view(),
                old(diags).records(), final(diags).records()),
            ok ==> ({
                let a = crate::ir::as_u64_spec(old(self).parms_view()[ir.operands@[0] as int]) as int;
                let x = current.addr.addr_base + current.addr.addr_offset;
                final(self).parms_view()[pad_out(*ir) as int] matches PVal::U64(p) && a > 0 && crate::laws::multiple_of(
                    x + p,
                    a,
                ) && p < a && forall|y: int| x <= y < x + p ==> !#[trigger] crate::laws::multiple_of(y, a)
            }),
    {
        proof {
            reveal_strlit("EXEC_38");
            reveal_strlit("EXEC_42");
            reveal_strlit("Alignment amount cannot be zero");
            reveal_strlit("Absolute address (abs_base + off) overflow");
            assert(self.parms_view()[ir.operands@[0] as int] == self.parms@[ir.operands@[0] as int]@);
        }
        let out_num = if ir.operands.len() == 2 { ir.operands[1] } else { ir.operands[2] };
        let align_num = ir.operands[0];
        let align_val = self.parms[align_num].to_u64();
        if align_val == 0 {
            diags.err1("EXEC_38", "Alignment amount cannot be zero", irdb.parms[align_num].src_loc);
            return false;
        }
        let abs_val = match current.addr.addr_base.checked_add(current.addr.addr_offset) {
            Some(v) => v,
            None => {
                diags.err1("EXEC_42", "Absolute address (abs_base + off) overflow", ir.src_loc);
                return false;
            },
        };
        let remainder = abs_val % align_val;
        let pad = if remainder == 0 { 0 } else { align_val - remainder };
        proof {
            crate::laws::lemma_pad_to(abs_val as int, align_val as int);
        }
        self.set_parm(out_num, ParameterValue::U64(pad));
        true
    }

    /// `pad_addr_offset`, `pad_sec_offset`, `pad_file_offset`: the number of
    /// pad bytes up to the target; moving backwards is an error.
    pub fn iterate_set(&mut self, ir: &IR, diags: &mut Diags, current: &Location) -> (ok: bool)
        requires
            ir.operands@.len() == 2 || ir.operands@.len() == 3,
            forall|k: int| 0 <= k < ir.operands@.len() ==> #[trigger] ir.operands@[k] < old(self).parms_view().len(),
            crate::ir::is_numeric(old(self).parms_view()[ir.operands@[0] as int]),
            old(self).parms_view()[pad_out(*ir) as int] is U64,
            ir.kind == IRKind::SetAddrOffset || ir.kind == IRKind::SetSecOffset || ir.kind == IRKind::SetFileOffset,
        ensures
            final(self).locs_view() == old(self).locs_view(),
            final(self).frames() == old(self).frames(),
            final(self).warned() == old(self).warned(),
            final(self).eff_regions() == old(self).eff_regions(),
            final(diags).files_view() == old(diags).files_view(),
            value_written(set_value(old(self).parms_view(), *ir, *current), pad_out(*ir) as int, set_diag(
                old(self).parms_view(), *ir, *current), ok, old(self).parms_view(), final(self).parms_view(),
                old(diags).records(), final(diags).records()),
    {
        proof {
            reveal_strlit("EXEC_22");
            reveal_strlit("Set statement moves location counter backwards from ");
            reveal_strlit(" to ");
            reveal_strlit(".");
            assert(self.parms_view()[ir.operands@[0] as int] == self.parms@[ir.operands@[0] as int]@);
        }
        let out_num = if ir.operands.len() == 2 { ir.operands[1] } else { ir.operands[2] };
        let set_val = self.parms[ir.operands[0]].to_u64();
        let loc = if ir.kind == IRKind::SetAddrOffset {
            current.addr.addr_offset
        } else if ir.kind == IRKind::SetSecOffset {
            current.addr.sec_offset
        } else {
            current.file_offset
        };
        if set_val < loc {
            let msg = cat(cat(cat(cat(String::from_str("Set statement moves location counter backwards from "),
                crate::fmt::u64_to_dec(loc).as_str()), " to "), crate::fmt::u64_to_dec(set_val).as_str()), ".");
            diags.err1("EXEC_22", msg.as_str(), ir.src_loc);
            return false;
        }
        self.set_parm(out_num, ParameterValue::U64(set_val - loc));
        true
    }
}


/// A copy of a region binding.
pub(crate) fn clone_binding(b: &RegionBinding) -> (r: RegionBinding)
    ensures
        region_v(r) == region_v(*b),
{
    RegionBinding { addr: b.addr, size: b.size, name: b.name.clone(), src_loc: b.src_loc }
}

/// A copy of a list of region bindings.
pub(crate) fn clone_bindings(v: &Vec<RegionBinding>) -> (r: Vec<RegionBinding>)
    ensures
        r@.map_values(|b: RegionBinding| region_v(b)) == v@.map_values(|b: RegionBinding| region_v(b)),
{
    let mut r: Vec<RegionBinding> = Vec::new();
    let mut i: usize = 0;
    while i < v.len()
        invariant
            i <= v@.len(),
            r@.map_values(|b: RegionBinding| region_v(b)) =~= v@.take(i as int).map_values(|b: RegionBinding| region_v(b)),
        decreases v@.len() - i,
    {
        let c = clone_binding(&v[i]);
        let ghost before = r@;
        r.push(c);
        proof {
            assert(r@ == before.push(c));
            assert(v@.take(i as int + 1) =~= v@.take(i as int).push(v@[i as int]));
            assert(r@.map_values(|b: RegionBinding| region_v(b)) =~= before.map_values(|b: RegionBinding| region_v(b)).push(region_v(c)));
        }
        i = i + 1;
    }
    proof { assert(v@.take(i as int) =~= v@); }
    r
}

impl LayoutPhase {
    /// Records that (instruction, code) is being reported; true the first
    /// time, so each diagnostic appears once across passes.
    pub fn warn_once(&mut self, lid: usize, code: &str) -> (f: bool)
        ensures
            f == fresh(old(self).warned(), lid, code@),
            final(self).warned() == mark(old(self).warned(), lid, code@),
            final(self).parms_view() == old(self).parms_view(),
            final(self).locs_view() == old(self).locs_view(),
            final(self).frames() == old(self).frames(),
            final(self).eff_regions() == old(self).eff_regions(),
    {
        let mut i: usize = 0;
        while i < self.warned_lids.len()
            invariant
                i <= self.warned_lids@.len(),
                self.warned() == old(self).warned(),
                forall|j: int| 0 <= j < i ==> self.warned()[j] != (lid, code@),
            decreases self.warned_lids@.len() - i,
        {
            proof {
                assert(self.warned()[i as int] == (self.warned_lids@[i as int].0, self.warned_lids@[i as int].1@));
            }
            if self.warned_lids[i].0 == lid && crate::extension::string_eq(&self.warned_lids[i].1, code) {
                proof {
                    assert(self.warned().contains((lid, code@)));
                }
                return false;
            }
            i = i + 1;
        }
        proof {
            assert(!self.warned().contains((lid, code@))) by {
                if self.warned().contains((lid, code@)) {
                    let j = choose|j: int| 0 <= j < self.warned().len() && self.warned()[j] == (lid, code@);
                    assert(self.warned()[j] != (lid, code@));
                }
            }
        }
        let ghost before = self.warned();
        self.warned_lids.push((lid, String::from_str(code)));
        proof {
            assert(self.warned() =~= before.push((lid, code@)));
        }
        true
    }

    /// Records the effective region of section `name`, replacing an earlier
    /// one.
    fn record_effective(&mut self, name: &str, e: EffectiveRegion)
        ensures
            final(self).eff_regions() == put_v(old(self).eff_regions(), name@, (region_v(e.binding), contribs_v(e))),
            final(self).parms_view() == old(self).parms_view(),
            final(self).locs_view() == old(self).locs_view(),
            final(self).frames() == old(self).frames(),
            final(self).warned() == old(self).warned(),
    {
        let ghost rv = (region_v(e.binding), contribs_v(e));
        let ghost before = self.eff_regions();
        let mut i: usize = 0;
        while i < self.section_effective_regions.len()
            invariant
                i <= self.section_effective_regions@.len(),
                self.eff_regions() == before,
                self.eff_regions() == old(self).eff_regions(),
                self.parms_view() == old(self).parms_view(),
                self.locs_view() == old(self).locs_view(),
                self.frames() == old(self).frames(),
                self.warned() == old(self).warned(),
                rv == (region_v(e.binding), contribs_v(e)),
                forall|j: int| 0 <= j < i ==> self.eff_regions()[j].0 != name@,
            decreases self.section_effective_regions@.len() - i,
        {
            proof {
                assert(self.eff_regions()[i as int].0 == self.section_effective_regions@[i as int].0@);
            }
            if crate::extension::string_eq(&self.section_effective_regions[i].0, name) {
                proof {
                    let c = choose|k: int| first_v(before, name@, k);
                    assert(first_v(before, name@, i as int));
                    if c < i {
                        assert(before[c].0 != name@);
                    } else if c > i {
                        assert(before[i as int].0 != name@);
                    }
                }
                let ghost vec_before = self.section_effective_regions@;
                let entry = (String::from_str(name), e);
                let ghost ev = (entry.0@, (region_v(entry.1.binding), contribs_v(entry.1)));
                self.section_effective_regions.set(i, entry);
                proof {
                    assert(ev == (name@, rv));
                    assert(self.section_effective_regions@ == vec_before.update(i as int, entry));
                    assert forall|j: int| 0 <= j < before.len() implies #[trigger] self.eff_regions()[j] == before.update(
                        i as int,
                        (name@, rv),
                    )[j] by {
                        if j != i {
                            assert(self.section_effective_regions@[j] == vec_before[j]);
                        }
                    }
                    assert(self.eff_regions() =~= before.update(i as int, (name@, rv)));
                }
                return;
            }
            i = i + 1;
        }
        proof {
            assert(!exists|k: int| first_v(before, name@, k));
        }
        let ghost vec_before = self.section_effective_regions@;
        let entry = (String::from_str(name), e);
        let ghost ev = (entry.0@, (region_v(entry.1.binding), contribs_v(entry.1)));
        self.section_effective_regions.push(entry);
        proof {
            assert(ev == (name@, rv));
            assert(self.section_effective_regions@ == vec_before.push(entry));
            assert(self.eff_regions() =~= before.push((name@, rv)));
        }
    }

    /// `set_addr(X)`: rebases the cursor at X with a zero address offset;
    /// the output operand (bytes to write) becomes 0.  X must lie in the
    /// effective region of the innermost section (EXEC_72; EXEC_74 for a
    /// region whose end overflows), reported once per instruction.
    pub fn iterate_set_addr(&mut self, ir: &IR, lid: usize, diags: &mut Diags, current: &mut Location) -> (ok: bool)
        requires
            ir.operands@.len() == 2 || ir.operands@.len() == 3,
            forall|k: int| 0 <= k < ir.operands@.len() ==> #[trigger] ir.operands@[k] < old(self).parms_view().len(),
            crate::ir::is_numeric(old(self).parms_view()[ir.operands@[0] as int]),
            old(self).parms_view()[pad_out(*ir) as int] is U64,
        ensures
            final(self).locs_view() == old(self).locs_view(),
            final(self).eff_regions() == old(self).eff_regions(),
            final(diags).files_view() == old(diags).files_view(),
            ({
                let v = crate::ir::as_u64_spec(old(self).parms_view()[ir.operands@[0] as int]);
                match set_addr_violation(old(self).frames(), v, ir.src_loc) {
                    Some(d) => {
                        &&& !ok
                        &&& final(self).parms_view() == old(self).parms_view()
                        &&& final(self).frames() == old(self).frames()
                        &&& *final(current) == *old(current)
                        &&& final(self).warned() == mark(old(self).warned(), lid, d.code)
                        &&& final(diags).records() == if fresh(old(self).warned(), lid, d.code) {
                            old(diags).records().push(d)
                        } else {
                            old(diags).records()
                        }
                    },
                    None => {
                        &&& ok
                        &&& final(self).parms_view() == old(self).parms_view().update(pad_out(*ir) as int, PVal::U64(0))
                        &&& final(self).frames() == mark_set_addr(old(self).frames(), *old(current))
                        &&& *final(current) == rebased(*old(current), v)
                        &&& final(self).warned() == old(self).warned()
                        &&& final(diags).records() == old(diags).records()
                    },
                }
            }),
    {
        proof {
            assert(self.parms_view()[ir.operands@[0] as int] == self.parms@[ir.operands@[0] as int]@);
            reveal_strlit("EXEC_74");
            reveal_strlit("EXEC_72");
            reveal_strlit("Region '");
            reveal_strlit("' addr + size overflows u64.");
            reveal_strlit("set_addr target ");
            reveal_strlit(" is outside region '");
            reveal_strlit("' bounds [");
            reveal_strlit(", ");
            reveal_strlit(").");
        }
        let set_val = self.parms[ir.operands[0]].to_u64();
        let out_num = if ir.operands.len() == 2 { ir.operands[1] } else { ir.operands[2] };
        let n = self.scope_stack.len();
        if n > 0 {
            proof {
                assert(self.frames().last() == frame_v(self.scope_stack@[n - 1]));
            }
            match &self.scope_stack[n - 1].effective_region {
                Some(eff) => {
                    let b = clone_binding(&eff.binding);
                    match b.addr.checked_add(b.size) {
                        None => {
                            if self.warn_once(lid, "EXEC_74") {
                                let msg = cat(cat(String::from_str("Region '"), b.name.as_str()),
                                    "' addr + size overflows u64.");
                                diags.err2("EXEC_74", msg.as_str(), ir.src_loc, b.src_loc);
                            }
                            return false;
                        },
                        Some(region_end) => {
                            if set_val < b.addr || set_val >= region_end {
                                if self.warn_once(lid, "EXEC_72") {
                                    let msg = cat(cat(cat(cat(cat(cat(cat(cat(String::from_str("set_addr target "),
                                        crate::fmt::u64_to_hex_upper(set_val).as_str()), " is outside region '"),
                                        b.name.as_str()), "' bounds ["), crate::fmt::u64_to_hex_upper(b.addr).as_str()),
                                        ", "), crate::fmt::u64_to_hex_upper(region_end).as_str()), ").");
                                    diags.err2("EXEC_72", msg.as_str(), ir.src_loc, b.src_loc);
                                }
                                return false;
                            }
                        },
                    }
                },
                None => {},
            }
        }
        if current.addr.sec_offset != 0 && n > 0 {
            let mut frame = self.scope_stack.pop().unwrap();
            let ghost before = self.scope_stack@;
            frame.set_addr_seen = true;
            let ghost fv = frame_v(frame);
            self.scope_stack.push(frame);
            proof {
                assert(self.scope_stack@ == before.push(frame));
                assert(self.frames() =~= old(self).frames().update(n - 1, fv));
            }
        }
        current.addr.addr_base = set_val;
        current.addr.addr_offset = 0;
        self.set_parm(out_num, ParameterValue::U64(0));
        true
    }

    /// Entering a section: computes its effective region from the enclosing
    /// scope's and its own direct binding (EXEC_77 when they do not overlap,
    /// EXEC_78 when the direct region starts before the overlap; each
    /// reported once per instruction), records it, opens a scope that saves
    /// the parent cursor, and restarts the section offset, anchoring the
    /// address at a directly bound region's start.
    pub fn iterate_section_start(&mut self, ir: &IR, irdb: &IRDb, lid: usize, diags: &mut Diags,
        current: &mut Location) -> (ok: bool)
        requires
            ir.operands@.len() >= 1,
            ir.operands@[0] < irdb.parms@.len(),
            irdb.parms@[ir.operands@[0] as int].val@ is Identifier,
        ensures
            final(self).parms_view() == old(self).parms_view(),
            final(self).locs_view() == old(self).locs_view(),
            final(diags).files_view() == old(diags).files_view(),
            ({
                let name = sec_name_of(*irdb, *ir);
                let parent = innermost_eff(old(self).frames());
                let direct = direct_region(*irdb, name);
                let (binding, compatible) = section_binding(parent, direct);
                let contribs = parent_contribs(old(self).frames()) + match direct {
                    Some(d) => seq![d],
                    None => Seq::empty(),
                };
                &&& ok == compatible
                &&& final(self).frames() == old(self).frames().push(FrameV {
                    parent: old(current).addr,
                    name,
                    set_addr_seen: false,
                    eff: binding,
                    contribs: if binding is Some { contribs } else { Seq::empty() },
                    entry: old(current).file_offset,
                })
                &&& *final(current) == entered(*old(current), direct)
                &&& final(self).eff_regions() == match binding {
                    Some(b) => put_v(old(self).eff_regions(), name, (b, contribs)),
                    None => old(self).eff_regions(),
                }
                &&& match section_diag(name, parent, direct) {
                    Some(d) => {
                        &&& final(self).warned() == mark(old(self).warned(), lid, d.code)
                        &&& final(diags).records() == if fresh(old(self).warned(), lid, d.code) {
                            old(diags).records().push(d)
                        } else {
                            old(diags).records()
                        }
                    },
                    None => {
                        &&& final(self).warned() == old(self).warned()
                        &&& final(diags).records() == old(diags).records()
                    },
                }
            }),
    {
        proof {
            reveal_strlit("EXEC_78");
            reveal_strlit("EXEC_77");
            reveal_strlit("Section '");
            reveal_strlit("': region '");
            reveal_strlit("' starts at ");
            reveal_strlit(", which is before the enclosing region '");
            reveal_strlit("' start ");
            reveal_strlit(". The starting address must lie within the intersection [");
            reveal_strlit(", ");
            reveal_strlit(").");
            reveal_strlit("' [");
            reveal_strlit(") does not intersect with enclosing region '");
        }
        let sec_name = irdb.get_opnd_as_identifier(ir, 0);
        let direct = irdb.region_for_section(sec_name);
        let n = self.scope_stack.len();
        let mut contributors: Vec<RegionBinding> = Vec::new();
        let mut parent: Option<RegionBinding> = None;
        if n > 0 {
            proof {
                assert(self.frames().last() == frame_v(self.scope_stack@[n - 1]));
            }
            match &self.scope_stack[n - 1].effective_region {
                Some(e) => {
                    contributors = clone_bindings(&e.contributors);
                    parent = Some(clone_binding(&e.binding));
                },
                None => {},
            }
        }
        let ghost inherited = contributors@.map_values(|b: RegionBinding| region_v(b));
        let ghost parent_v: Option<RegionV> = match &parent {
            Some(p) => Some(region_v(*p)),
            None => None,
        };
        let ghost direct_v: Option<RegionV> = match direct {
            Some(d) => Some(region_v(*d)),
            None => None,
        };
        proof {
            assert(sec_name@ == sec_name_of(*irdb, *ir));
            assert(parent_v == innermost_eff(old(self).frames()));
            assert(inherited == parent_contribs(old(self).frames()));
            assert(direct_v == direct_region(*irdb, sec_name@));
        }
        match direct {
            Some(d) => {
                let c = clone_binding(d);
                let ghost before_c = contributors@;
                contributors.push(c);
                proof {
                    assert(contributors@ == before_c.push(c));
                    assert(contributors@.map_values(|b: RegionBinding| region_v(b)) =~= inherited + seq![region_v(*d)]);
                }
            },
            None => {
                proof {
                    assert(contributors@.map_values(|b: RegionBinding| region_v(b)) =~= inherited + Seq::<RegionV>::empty());
                }
            },
        }
        let mut result = true;
        let binding: Option<RegionBinding> = match parent {
            None => match direct {
                None => None,
                Some(d) => Some(clone_binding(d)),
            },
            Some(p) => match direct {
                None => Some(p),
                Some(d) => {
                    proof { lemma_intersect_views(p, *d); }
                    match Self::intersect_regions(&p, d) {
                        Some(b) => {
                            if d.addr < b.addr {
                                if self.warn_once(lid, "EXEC_78") {
                                    let mut msg = String::from_str("Section '");
                                    msg = cat(msg, sec_name);
                                    msg = cat(msg, "': region '");
                                    msg = cat(msg, d.name.as_str());
                                    msg = cat(msg, "' starts at ");
                                    msg = cat(msg, crate::fmt::u64_to_hex_upper(d.addr).as_str());
                                    msg = cat(msg, ", which is before the enclosing region '");
                                    msg = cat(msg, p.name.as_str());
                                    msg = cat(msg, "' start ");
                                    msg = cat(msg, crate::fmt::u64_to_hex_upper(p.addr).as_str());
                                    msg = cat(msg, ". The starting address must lie within the intersection [");
                                    msg = cat(msg, crate::fmt::u64_to_hex_upper(b.addr).as_str());
                                    msg = cat(msg, ", ");
                                    msg = cat(msg, crate::fmt::u64_to_hex_upper(b.addr.saturating_add(b.size)).as_str());
                                    msg = cat(msg, ").");
                                    diags.err2("EXEC_78", msg.as_str(), d.src_loc, p.src_loc);
                                }
                                result = false;
                            }
                            Some(b)
                        },
                        None => {
                            if self.warn_once(lid, "EXEC_77") {
                                let mut msg = String::from_str("Section '");
                                msg = cat(msg, sec_name);
                                msg = cat(msg, "': region '");
                                msg = cat(msg, d.name.as_str());
                                msg = cat(msg, "' [");
                                msg = cat(msg, crate::fmt::u64_to_hex_upper(d.addr).as_str());
                                msg = cat(msg, ", ");
                                msg = cat(msg, crate::fmt::u64_to_hex_upper(d.addr.saturating_add(d.size)).as_str());
                                msg = cat(msg, ") does not intersect with enclosing region '");
                                msg = cat(msg, p.name.as_str());
                                msg = cat(msg, "' [");
                                msg = cat(msg, crate::fmt::u64_to_hex_upper(p.addr).as_str());
                                msg = cat(msg, ", ");
                                msg = cat(msg, crate::fmt::u64_to_hex_upper(p.addr.saturating_add(p.size)).as_str());
                                msg = cat(msg, ").");
                                diags.err2("EXEC_77", msg.as_str(), d.src_loc, p.src_loc);
                            }
                            result = false;
                            Some(clone_binding(d))
                        },
                    }
                },
            },
        };
        proof {
            assert(match binding {
                Some(b) => Some(region_v(b)),
                None => None,
            } == section_binding(parent_v, direct_v).0);
        }
        let effective_region = match binding {
            Some(b) => {
                let copy = EffectiveRegion { binding: clone_binding(&b), contributors: clone_bindings(&contributors) };
                self.record_effective(sec_name, copy);
                Some(EffectiveRegion { binding: b, contributors })
            },
            None => None,
        };
        let ghost before = self.scope_stack@;
        let frame = ScopeFrame {
            parent_state: current.addr,
            sec_name: String::from_str(sec_name),
            set_addr_seen: false,
            effective_region,
            entry_file_offset: Ghost(current.file_offset),
        };
        self.scope_stack.push(frame);
        proof {
            assert(self.scope_stack@ == before.push(frame));
            assert(self.frames() =~= old(self).frames().push(frame_v(frame)));
        }
        current.addr.sec_offset = 0;
        match direct {
            Some(d) => {
                current.addr.addr_base = d.addr;
                current.addr.addr_offset = 0;
            },
            None => {},
        }
        result
    }

    /// Leaving a section: closes the innermost scope, restores the parent's
    /// cursor and advances it by the section's size.
    pub fn iterate_section_end(&mut self, current: &mut Location) -> (ok: bool)
        requires
            old(self).frames().len() > 0,
            old(self).frames().last().parent.addr_offset + old(current).addr.sec_offset <= u64::MAX,
        ensures
            ok,
            final(self).frames() == old(self).frames().drop_last(),
            *final(current) == (Location {
                file_offset: old(current).file_offset,
                addr: addr_advanced(old(self).frames().last().parent, old(current).addr.sec_offset),
            }),
            final(self).parms_view() == old(self).parms_view(),
            final(self).locs_view() == old(self).locs_view(),
            final(self).warned() == old(self).warned(),
            final(self).eff_regions() == old(self).eff_regions(),
    {
        let child_size = current.addr.sec_offset;
        let ghost before = self.scope_stack@;
        let frame = self.scope_stack.pop().unwrap();
        proof {
            assert(before == self.scope_stack@.push(frame));
            assert(self.frames() =~= old(self).frames().drop_last());
            assert(old(self).frames().last() == frame_v(frame));
        }
        current.addr = frame.parent_state;
        current.addr.advance(child_size);
        true
    }
}

} // verus!
