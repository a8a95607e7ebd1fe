//! Running the layout: one pass walks every instruction in order, and
//! passes repeat until the instruction locations stop changing.

use vstd::prelude::*;
use crate::diags::{Diags, DiagView, Severity};
use crate::ir::{IR, IRKind, ParameterValue, PVal, BRINK_VERSION, version_field, version_parts, is_numeric,
    as_u64_spec};
use crate::binop::{is_binary_op, is_conversion_op, out_slot_ok, conv_slot_ok, binary_value, binary_diag,
    conversion_value, conversion_diag, is_binary_kind, out_slot_check, conv_slot_check};
use crate::locationdb::{AddressState, Location, LocationDb};
use crate::ireval::ParmValDb;
use crate::ir::{RegionBinding, EffectiveRegion};
use crate::fmt::{cat, digits, u64_to_dec, u64_to_hex_upper};
use crate::irdb::first_key;
use crate::layout_phase::{clone_binding, clone_bindings};
use crate::irdb::{IRDb, lookup_key, find_key};
use crate::extension::{ExtensionRegistry, registered_size};
use crate::ireval::{string_piece, string_expr_text};
use crate::layout_phase::{LayoutPhase, FrameV, RegionV, err_at, lookup_v, hex, region_v, contribs_v, sizeof_value, sizeof_diag, output_size_value,
    output_addr_value, output_addr_diag, loc_value, ident_addr_value, ident_addr_diag, pad_out, align_value,
    align_diag, set_value, set_diag, fresh, mark, set_addr_violation, mark_set_addr, rebased, section_binding,
    section_diag, entered, addr_advanced, put_v, direct_region, sec_name_of, innermost_eff, parent_contribs,
    layout_str_errs, wrs_move, ext_move, wrx_move, wrf_move, wrx_diags, advance_diags, advance_spec, sized_ok,
    addressed_ok};
use vstd::utf8::encode_utf8;

verus! {

/// Everything a layout step reads and writes.
#[verifier::ext_equal]
pub struct LState {
    pub parms: Seq<PVal>,
    pub locs: Seq<Location>,
    pub frames: Seq<FrameV>,
    pub warned: Seq<(usize, Seq<char>)>,
    pub eff: Seq<(Seq<char>, (RegionV, Seq<RegionV>))>,
    pub cur: Location,
    pub recs: Seq<DiagView>,
}

impl LayoutPhase {
    /// The layout state with cursor `cur` and diagnostics `recs`.
    pub open spec fn lstate(&self, cur: Location, recs: Seq<DiagView>) -> LState {
        LState {
            parms: self.parms_view(),
            locs: self.locs_view(),
            frames: self.frames(),
            warned: self.warned(),
            eff: self.eff_regions(),
            cur,
            recs,
        }
    }
}

/// The cursor at the start of a pass.
pub open spec fn origin() -> Location {
    Location { file_offset: 0, addr: AddressState { addr_offset: 0, sec_offset: 0, addr_base: 0 } }
}

/// Every operand index of `ir` is below `n`.
pub open spec fn ops_below(ir: IR, n: int) -> bool {
    forall|k: int| 0 <= k < ir.operands@.len() ==> #[trigger] ir.operands@[k] < n
}

/// Whether `ir` is well formed for its layout step: its operands exist
/// and hold the types the step reads and writes, and a section end has a
/// section to close.
pub open spec fn ready(pv: Seq<PVal>, depth: nat, db: IRDb, ir: IR) -> bool {
    let o = ir.operands@;
    let np = pv.len() as int;
    let nd = db.parms@.len() as int;
    if is_binary_op(ir.kind) {
        o.len() == 3 && ops_below(ir, np) && o[0] < nd && o[1] < nd && out_slot_ok(ir.kind, pv[o[0] as int],
            pv[o[1] as int], pv[o[2] as int])
    } else if is_conversion_op(ir.kind) {
        o.len() == 2 && ops_below(ir, np) && o[0] < nd && conv_slot_ok(ir.kind, pv[o[1] as int])
    } else {
        match ir.kind {
            IRKind::Sizeof => o.len() == 2 && ops_below(ir, np) && pv[o[1] as int] is U64,
            IRKind::SizeofExt => o.len() == 2 && ops_below(ir, np) && pv[o[0] as int] is Identifier
                && pv[o[1] as int] is U64,
            IRKind::BuiltinOutputSize | IRKind::BuiltinOutputAddr | IRKind::BuiltinVersionMajor
            | IRKind::BuiltinVersionMinor | IRKind::BuiltinVersionPatch => o.len() == 1 && ops_below(ir, np)
                && pv[o[0] as int] is U64,
            IRKind::BuiltinVersionString => o.len() == 1 && ops_below(ir, np),
            IRKind::Addr | IRKind::AddrOffset | IRKind::SecOffset | IRKind::FileOffset => (o.len() == 1 || o.len()
                == 2) && ops_below(ir, np) && (o.len() == 2 ==> pv[o[0] as int] is Identifier) && pv[o[o.len()
                - 1] as int] is U64,
            IRKind::Wrs => ops_below(ir, np) && forall|k: int| 0 <= k < o.len() && #[trigger] string_piece(
                pv[o[k] as int],
            ) is None ==> o[k] < nd,
            IRKind::SectionStart => o.len() >= 1 && o[0] < nd && db.parms@[o[0] as int].val@ is Identifier,
            IRKind::SectionEnd => depth > 0,
            IRKind::Wr(_) => (o.len() == 1 || o.len() == 2) && ops_below(ir, np) && ops_below(ir, nd),
            IRKind::ExtensionCall => o.len() >= 1 && o[0] < np && pv[o[0] as int] is Identifier,
            IRKind::Align => (o.len() == 2 || o.len() == 3) && ops_below(ir, np) && o[0] < nd && is_numeric(
                pv[o[0] as int],
            ) && pv[pad_out(ir) as int] is U64,
            IRKind::SetSecOffset | IRKind::SetAddrOffset | IRKind::SetFileOffset | IRKind::SetAddr => (o.len() == 2
                || o.len() == 3) && ops_below(ir, np) && is_numeric(pv[o[0] as int]) && pv[pad_out(ir) as int] is U64,
            IRKind::Wrf => o.len() == 1 && o[0] < np && pv[o[0] as int] is QuotedString && lookup_key(
                db.files@,
                pv[o[0] as int]->QuotedString_0,
            ) is Some,
            _ => true,
        }
    }
}

/// A step that writes `r` to operand `out`, or fails with `d`.
pub open spec fn written(r: Option<PVal>, out: int, d: DiagView, s: LState) -> (LState, bool) {
    match r {
        Some(v) => (LState { parms: s.parms.update(out, v), ..s }, true),
        None => (LState { recs: s.recs.push(d), ..s }, false),
    }
}

/// A step that moves the cursor as `m` says and reports `extra`.
pub open spec fn moved_to(m: (Location, bool), extra: Seq<DiagView>, s: LState) -> (LState, bool) {
    (LState { cur: m.0, recs: s.recs + extra, ..s }, m.1)
}

/// The warning for a `set_sec_offset` or `set_addr_offset` that follows
/// `set_addr` in the same section.
pub open spec fn after_set_addr_warning(ir: IR) -> DiagView {
    let cmd = if ir.kind == IRKind::SetSecOffset { "set_sec_offset"@ } else { "set_addr_offset"@ };
    DiagView {
        severity: Severity::Warning,
        code: "EXEC_54"@,
        msg: "[EXEC_54] Warning: '"@ + cmd + "' follows 'set_addr' in the same section scope.  '"@ + cmd
            + "' pads to a sec/addr_offset value, not to an address.  Consider 'set_addr_offset' after 'set_addr' to pad relative to the address anchor."@,
        primary: Some(ir.src_loc),
        secondaries: Seq::empty(),
    }
}

/// The state after the EXEC_54 check of an offset-setting instruction.
pub open spec fn checked_after_set_addr(lid: usize, ir: IR, s: LState) -> LState {
    if ir.kind != IRKind::SetFileOffset && s.frames.len() > 0 && s.frames.last().set_addr_seen {
        LState {
            warned: mark(s.warned, lid, "EXEC_54"@),
            recs: if fresh(s.warned, lid, "EXEC_54"@) {
                s.recs.push(after_set_addr_warning(ir))
            } else {
                s.recs
            },
            ..s
        }
    } else {
        s
    }
}

/// Entering a section (see `iterate_section_start`); its location is
/// recorded again with the entered cursor.
pub open spec fn section_started(db: IRDb, lid: usize, ir: IR, s: LState) -> (LState, bool) {
    let name = sec_name_of(db, ir);
    let parent = innermost_eff(s.frames);
    let direct = direct_region(db, name);
    let (binding, compatible) = section_binding(parent, direct);
    let contribs = parent_contribs(s.frames) + match direct {
        Some(d) => seq![d],
        None => Seq::empty(),
    };
    let cur = entered(s.cur, direct);
    (
        LState {
            parms: s.parms,
            locs: s.locs.update(lid as int, cur),
            frames: s.frames.push(
                FrameV {
                    parent: s.cur.addr,
                    name,
                    set_addr_seen: false,
                    eff: binding,
                    contribs: if binding is Some {
                        contribs
                    } else {
                        Seq::empty()
                    },
                    entry: s.cur.file_offset,
                },
            ),
            warned: match section_diag(name, parent, direct) {
                Some(d) => mark(s.warned, lid, d.code),
                None => s.warned,
            },
            eff: match binding {
                Some(b) => put_v(s.eff, name, (b, contribs)),
                None => s.eff,
            },
            cur,
            recs: match section_diag(name, parent, direct) {
                Some(d) => if fresh(s.warned, lid, d.code) {
                    s.recs.push(d)
                } else {
                    s.recs
                },
                None => s.recs,
            },
        },
        compatible,
    )
}

/// Leaving a section (see `iterate_section_end`).
pub open spec fn section_ended(s: LState) -> (LState, bool) {
    (
        LState {
            frames: s.frames.drop_last(),
            cur: Location {
                file_offset: s.cur.file_offset,
                addr: addr_advanced(s.frames.last().parent, s.cur.addr.sec_offset),
            },
            ..s
        },
        true,
    )
}

/// `set_addr` (see `iterate_set_addr`).
pub open spec fn addr_set(lid: usize, ir: IR, s: LState) -> (LState, bool) {
    let v = as_u64_spec(s.parms[ir.operands@[0] as int]);
    match set_addr_violation(s.frames, v, ir.src_loc) {
        Some(d) => (
            LState {
                warned: mark(s.warned, lid, d.code),
                recs: if fresh(s.warned, lid, d.code) {
                    s.recs.push(d)
                } else {
                    s.recs
                },
                ..s
            },
            false,
        ),
        None => (
            LState {
                parms: s.parms.update(pad_out(ir) as int, PVal::U64(0)),
                frames: mark_set_addr(s.frames, s.cur),
                cur: rebased(s.cur, v),
                ..s
            },
            true,
        ),
    }
}

/// What writing a string reports.
pub open spec fn wrs_reports(pv: Seq<PVal>, db: IRDb, ir: IR, cur: Location) -> Seq<DiagView> {
    layout_str_errs(pv, db, ir) + if layout_str_errs(pv, db, ir).len() > 0 {
        Seq::<DiagView>::empty()
    } else {
        advance_diags(
            cur,
            encode_utf8(string_expr_text(pv, ir.operands@, ir.operands@.len() as int)).len() as u64,
            ir.src_loc,
        )
    }
}

/// What reserving an extension's output reports.
pub open spec fn ext_reports(pv: Seq<PVal>, exts: Seq<(Seq<char>, usize)>, ir: IR, cur: Location) -> Seq<
    DiagView,
> {
    let name = pv[ir.operands@[0] as int]->Identifier_0;
    match registered_size(exts, name) {
        Some(n) => advance_diags(cur, n as u64, ir.src_loc),
        None => seq![
            err_at(
                "EXEC_50"@,
                "Failed to resolve extension '"@ + name + "' size during layout."@,
                ir.src_loc,
            ),
        ],
    }
}

/// One layout step: record the cursor as the location of instruction
/// `lid`, then run it.  A malformed instruction fails the step and
/// changes nothing else.
#[verifier::opaque]
pub open spec fn step_spec(db: IRDb, exts: Seq<(Seq<char>, usize)>, lid: usize, s0: LState) -> (LState, bool) {
    let ir = db.ir_vec@[lid as int];
    let s = LState { locs: s0.locs.update(lid as int, s0.cur), ..s0 };
    let o = ir.operands@;
    let pv = s.parms;
    if !ready(pv, s.frames.len(), db, ir) {
        (s, false)
    } else if is_binary_op(ir.kind) {
        written(
            binary_value(ir.kind, pv[o[0] as int], pv[o[1] as int], pv[o[2] as int]),
            o[2] as int,
            binary_diag(ir.kind, pv[o[0] as int], pv[o[1] as int], db.parms@[o[0] as int].src_loc,
                db.parms@[o[1] as int].src_loc, ir.src_loc),
            s,
        )
    } else if is_conversion_op(ir.kind) {
        written(
            conversion_value(ir.kind, pv[o[0] as int], pv[o[1] as int]),
            o[1] as int,
            conversion_diag(ir.kind, pv[o[0] as int], db.parms@[o[0] as int].src_loc),
            s,
        )
    } else {
        match ir.kind {
            IRKind::Sizeof => written(sizeof_value(pv, db, s.locs, ir), o[1] as int, sizeof_diag(pv, ir), s),
            IRKind::SizeofExt => written(
                match registered_size(exts, pv[o[0] as int]->Identifier_0) {
                    Some(n) => Some(PVal::U64(n as u64)),
                    None => None,
                },
                o[1] as int,
                err_at("EXEC_53"@, "Unknown extension '"@ + pv[o[0] as int]->Identifier_0 + "' in sizeof()."@,
                    ir.src_loc),
                s,
            ),
            IRKind::BuiltinOutputSize => written(
                output_size_value(db, s.locs),
                o[0] as int,
                err_at("EXEC_57"@, "__OUTPUT_SIZE: output section '"@ + db.output_sec_str@ + "' not found."@,
                    ir.src_loc),
                s,
            ),
            IRKind::BuiltinOutputAddr => written(output_addr_value(db, s.locs), o[0] as int, output_addr_diag(db, ir),
                s),
            IRKind::BuiltinVersionString => (
                LState { parms: pv.update(o[0] as int, PVal::QuotedString(BRINK_VERSION@)), ..s },
                true,
            ),
            IRKind::BuiltinVersionMajor => (
                LState { parms: pv.update(o[0] as int, PVal::U64(version_field(version_parts(BRINK_VERSION@).0))), ..s },
                true,
            ),
            IRKind::BuiltinVersionMinor => (
                LState { parms: pv.update(o[0] as int, PVal::U64(version_field(version_parts(BRINK_VERSION@).1))), ..s },
                true,
            ),
            IRKind::BuiltinVersionPatch => (
                LState { parms: pv.update(o[0] as int, PVal::U64(version_field(version_parts(BRINK_VERSION@).2))), ..s },
                true,
            ),
            IRKind::Addr | IRKind::AddrOffset | IRKind::SecOffset | IRKind::FileOffset => if o.len() == 1 {
                written(
                    match loc_value(ir.kind, s.cur) {
                        Some(v) => Some(PVal::U64(v)),
                        None => None,
                    },
                    o[0] as int,
                    err_at("EXEC_39"@, "Absolute address (abs_base + off) overflow"@, ir.src_loc),
                    s,
                )
            } else {
                written(ident_addr_value(pv, db, s.locs, ir), o[1] as int, ident_addr_diag(pv, db, ir), s)
            },
            IRKind::Wrs => moved_to(wrs_move(pv, db, ir, s.cur), wrs_reports(pv, db, ir, s.cur), s),
            IRKind::SectionStart => section_started(db, lid, ir, s),
            IRKind::SectionEnd => section_ended(s),
            IRKind::Wr(_) => moved_to(wrx_move(pv, ir, s.cur), wrx_diags(pv, db, ir, s.cur), s),
            IRKind::ExtensionCall => moved_to(ext_move(pv, exts, ir, s.cur), ext_reports(pv, exts, ir, s.cur), s),
            IRKind::Align => written(align_value(pv, ir, s.cur), pad_out(ir) as int, align_diag(pv, db, ir), s),
            IRKind::SetSecOffset | IRKind::SetAddrOffset | IRKind::SetFileOffset => {
                let w = checked_after_set_addr(lid, ir, s);
                written(set_value(pv, ir, s.cur), pad_out(ir) as int, set_diag(pv, ir, s.cur), w)
            },
            IRKind::SetAddr => addr_set(lid, ir, s),
            IRKind::Wrf => moved_to(
                wrf_move(pv, db, ir, s.cur),
                advance_diags(s.cur, lookup_key(db.files@, pv[o[0] as int]->QuotedString_0).unwrap().size, ir.src_loc),
                s,
            ),
            _ => (s, true),
        }
    }
}

/// The first `k` steps of a pass from `s`, and whether all succeeded.
pub open spec fn pass_spec(db: IRDb, exts: Seq<(Seq<char>, usize)>, s: LState, k: nat) -> (LState, bool)
    decreases k,
{
    if k == 0 {
        (s, true)
    } else {
        let (t, ok1) = pass_spec(db, exts, s, (k - 1) as nat);
        let (u, ok2) = step_spec(db, exts, (k - 1) as usize, t);
        (u, ok1 && ok2)
    }
}

/// `i` is the first index at which `a` and `b` differ.
pub open spec fn first_diff_at(a: Seq<Location>, b: Seq<Location>, i: int) -> bool {
    0 <= i < a.len() && i < b.len() && a[i] != b[i] && forall|j: int| 0 <= j < i ==> a[j] == b[j]
}

/// The first index at which `a` and `b` differ, 0 when none does.
pub open spec fn first_diff(a: Seq<Location>, b: Seq<Location>) -> int {
    if exists|i: int| first_diff_at(a, b, i) {
        choose|i: int| first_diff_at(a, b, i)
    } else {
        0
    }
}

/// The error when the layout does not settle: reported at the
/// instruction before the first location that still moved.
pub open spec fn cycle_diag(db: IRDb, now: Seq<Location>, before: Seq<Location>) -> DiagView {
    let d = first_diff(now, before);
    let culprit = if d > 0 { d - 1 } else { 0 };
    err_at(
        "EXEC_62"@,
        "Cyclic dependency detected: layout failed to stabilize after maximum iterations."@,
        db.ir_vec@[culprit].src_loc,
    )
}

/// The most passes the layout runs.
pub const MAX_ITERATIONS: usize = 100;

/// Passes from state `s` after `count` passes, `prev` the locations before
/// the last one (empty before the first): a pass that reproduces `prev`
/// ends the run; so does a failed pass, or reaching the pass limit
/// (EXEC_62).  A pass cannot start inside an open section.
pub open spec fn run_spec(db: IRDb, exts: Seq<(Seq<char>, usize)>, s: LState, prev: Seq<Location>, count: nat) -> (
    LState,
    bool,
)
    decreases MAX_ITERATIONS - count,
{
    if count >= MAX_ITERATIONS || s.frames.len() != 0 {
        (s, false)
    } else {
        let (t, ok) = pass_spec(db, exts, LState { cur: origin(), ..s }, db.ir_vec@.len());
        if t.locs == prev {
            (t, ok)
        } else if count + 1 >= MAX_ITERATIONS {
            (LState { recs: t.recs.push(cycle_diag(db, t.locs, prev)), ..t }, false)
        } else if !ok {
            (t, false)
        } else {
            run_spec(db, exts, t, t.locs, count + 1)
        }
    }
}

/// The entry offset of the scope enclosing frame `k` (0 at top level).
pub open spec fn base_entry(frames: Seq<FrameV>, k: int) -> int {
    if k <= 0 {
        0
    } else {
        frames[k - 1].entry as int
    }
}

/// The cursor and the saved scopes agree with the bytes written: offsets
/// never exceed the bytes written since their anchor.
pub open spec fn cursor_ok(frames: Seq<FrameV>, cur: Location) -> bool {
    &&& cur.addr.addr_offset <= cur.file_offset
    &&& base_entry(frames, frames.len() as int) + cur.addr.sec_offset <= cur.file_offset
    &&& forall|i: int|
        0 <= i < frames.len() ==> #[trigger] frames[i].parent.addr_offset <= frames[i].entry && base_entry(frames, i)
            + frames[i].parent.sec_offset <= frames[i].entry
}


/// Writing moves the cursor forward without breaking the cursor
/// invariant.
pub proof fn lemma_moved_cursor(frames: Seq<FrameV>, cur: Location)
    requires
        cursor_ok(frames, cur),
    ensures
        forall|size: u64| #[trigger] cursor_ok(frames, crate::layout_phase::moved(cur, size).0),
{
    assert forall|size: u64| #[trigger] cursor_ok(frames, crate::layout_phase::moved(cur, size).0) by {
        match advance_spec(cur, size) {
            Some(n) => {
                assert(n.addr.sec_offset <= cur.addr.sec_offset + size);
            },
            None => {},
        }
    }
}

/// `set_addr` keeps the cursor invariant.
pub proof fn lemma_rebased_cursor(frames: Seq<FrameV>, cur: Location, v: u64)
    requires
        cursor_ok(frames, cur),
    ensures
        cursor_ok(mark_set_addr(frames, cur), rebased(cur, v)),
{
    let f2 = mark_set_addr(frames, cur);
    assert forall|i: int| 0 <= i < f2.len() implies #[trigger] f2[i].parent == frames[i].parent && f2[i].entry
        == frames[i].entry by {}
    assert forall|k: int| 0 <= k <= f2.len() implies base_entry(f2, k) == base_entry(frames, k) by {
        if k > 0 {
            assert(f2[k - 1].entry == frames[k - 1].entry);
        }
    }
    assert forall|i: int| 0 <= i < f2.len() implies #[trigger] f2[i].parent.addr_offset <= f2[i].entry
        && base_entry(f2, i) + f2[i].parent.sec_offset <= f2[i].entry by {
        assert(f2[i].parent == frames[i].parent && f2[i].entry == frames[i].entry);
        assert(base_entry(f2, i) == base_entry(frames, i));
    }
    assert(base_entry(f2, f2.len() as int) == base_entry(frames, frames.len() as int));
}

/// Entering a section keeps the cursor invariant.
pub proof fn lemma_enter_cursor(frames: Seq<FrameV>, cur: Location, f: FrameV, direct: Option<RegionV>)
    requires
        cursor_ok(frames, cur),
        f.parent == cur.addr,
        f.entry == cur.file_offset,
    ensures
        cursor_ok(frames.push(f), entered(cur, direct)),
{
    let f2 = frames.push(f);
    assert forall|k: int| 0 <= k <= frames.len() implies base_entry(f2, k) == base_entry(frames, k) by {
        if k > 0 {
            assert(f2[k - 1] == frames[k - 1]);
        }
    }
    assert forall|i: int| 0 <= i < f2.len() implies #[trigger] f2[i].parent.addr_offset <= f2[i].entry
        && base_entry(f2, i) + f2[i].parent.sec_offset <= f2[i].entry by {
        if i < frames.len() {
            assert(f2[i] == frames[i]);
            assert(base_entry(f2, i) == base_entry(frames, i));
        } else {
            assert(base_entry(f2, i) == base_entry(frames, frames.len() as int));
        }
    }
    assert(base_entry(f2, f2.len() as int) == cur.file_offset);
}

/// Leaving a section keeps the cursor invariant, and the parent's offset
/// plus the section's size cannot overflow.
pub proof fn lemma_exit_cursor(frames: Seq<FrameV>, cur: Location)
    requires
        cursor_ok(frames, cur),
        frames.len() > 0,
    ensures
        frames.last().parent.addr_offset + cur.addr.sec_offset <= cur.file_offset,
        cursor_ok(
            frames.drop_last(),
            Location { file_offset: cur.file_offset, addr: addr_advanced(frames.last().parent, cur.addr.sec_offset) },
        ),
{
    let n = frames.len() as int;
    let f2 = frames.drop_last();
    assert(frames[n - 1].parent.addr_offset <= frames[n - 1].entry);
    assert forall|k: int| 0 <= k <= f2.len() implies base_entry(f2, k) == base_entry(frames, k) by {
        if k > 0 {
            assert(f2[k - 1] == frames[k - 1]);
        }
    }
    assert forall|i: int| 0 <= i < f2.len() implies #[trigger] f2[i].parent.addr_offset <= f2[i].entry
        && base_entry(f2, i) + f2[i].parent.sec_offset <= f2[i].entry by {
        assert(f2[i] == frames[i]);
        assert(base_entry(f2, i) == base_entry(frames, i));
    }
    assert(base_entry(frames, n - 1) + frames[n - 1].parent.sec_offset <= frames[n - 1].entry);
}

fn is_u64_val(p: &ParameterValue) -> (b: bool)
    ensures
        b == (p@ is U64),
{
    match p {
        ParameterValue::U64(_) => true,
        _ => false,
    }
}

fn is_ident_val(p: &ParameterValue) -> (b: bool)
    ensures
        b == (p@ is Identifier),
{
    match p {
        ParameterValue::Identifier(_) => true,
        _ => false,
    }
}

fn is_quoted_val(p: &ParameterValue) -> (b: bool)
    ensures
        b == (p@ is QuotedString),
{
    match p {
        ParameterValue::QuotedString(_) => true,
        _ => false,
    }
}

fn is_numeric_val(p: &ParameterValue) -> (b: bool)
    ensures
        b == is_numeric(p@),
{
    match p {
        ParameterValue::U64(_) | ParameterValue::I64(_) | ParameterValue::Integer(_) => true,
        _ => false,
    }
}

fn has_piece(p: &ParameterValue) -> (b: bool)
    ensures
        b == (string_piece(p@) is Some),
{
    match p {
        ParameterValue::U64(_) | ParameterValue::I64(_) | ParameterValue::Integer(_) | ParameterValue::QuotedString(
            _,
        ) => true,
        _ => false,
    }
}

/// Whether every operand index of `ir` is below `n`.
fn ops_below_check(ir: &IR, n: usize) -> (b: bool)
    ensures
        b == ops_below(*ir, n as int),
{
    let mut k: usize = 0;
    while k < ir.operands.len()
        invariant
            k <= ir.operands@.len(),
            forall|j: int| 0 <= j < k ==> #[trigger] ir.operands@[j] < n,
        decreases ir.operands@.len() - k,
    {
        if ir.operands[k] >= n {
            return false;
        }
        k = k + 1;
    }
    true
}

/// Whether two location tables are equal.
fn locs_eq(a: &Vec<Location>, b: &Vec<Location>) -> (r: bool)
    ensures
        r == (a@ == b@),
{
    if a.len() != b.len() {
        return false;
    }
    let mut i: usize = 0;
    while i < a.len()
        invariant
            i <= a@.len(),
            a@.len() == b@.len(),
            forall|j: int| 0 <= j < i ==> a@[j] == b@[j],
        decreases a@.len() - i,
    {
        if a[i] != b[i] {
            return false;
        }
        i = i + 1;
    }
    proof {
        assert(a@ =~= b@);
    }
    true
}

/// The first index at which two location tables differ, 0 when none does.
fn first_diff_exec(a: &Vec<Location>, b: &Vec<Location>) -> (r: usize)
    ensures
        r == first_diff(a@, b@),
        r == 0 || r < a@.len(),
{
    let mut i: usize = 0;
    while i < a.len() && i < b.len()
        invariant
            i <= a@.len(),
            forall|j: int| 0 <= j < i ==> j < b@.len() && a@[j] == b@[j],
        decreases a@.len() - i,
    {
        if a[i] != b[i] {
            proof {
                assert(first_diff_at(a@, b@, i as int));
                let c = choose|k: int| first_diff_at(a@, b@, k);
                if c < i {
                    assert(a@[c] == b@[c]);
                } else if c > i {
                    assert(a@[i as int] == b@[i as int]);
                }
            }
            return i;
        }
        i = i + 1;
    }
    proof {
        assert(!exists|k: int| first_diff_at(a@, b@, k)) by {
            if exists|k: int| first_diff_at(a@, b@, k) {
                let c = choose|k: int| first_diff_at(a@, b@, k);
                assert(a@[c] == b@[c]);
            }
        }
    }
    0
}

impl LayoutPhase {
    /// Whether `ir` is well formed for its layout step, see [`ready`].
    pub fn ready_check(&self, ir: &IR, irdb: &IRDb) -> (b: bool)
        ensures
            b == ready(self.parms_view(), self.frames().len(), *irdb, *ir),
    {
        let np = self.parms_len();
        let nd = irdb.parms.len();
        let len = ir.operands.len();
        let below = ops_below_check(ir, np);
        if is_binary_kind(ir.kind) {
            if len != 3 || !below {
                return false;
            }
            let a = ir.operands[0];
            let b = ir.operands[1];
            let c = ir.operands[2];
            proof {
                assert(ir.operands@[0] < np && ir.operands@[1] < np && ir.operands@[2] < np);
            }
            if a >= nd || b >= nd {
                return false;
            }
            return out_slot_check(ir.kind, self.parm(a), self.parm(b), self.parm(c));
        }
        match ir.kind {
            IRKind::ToU64 | IRKind::ToI64 => {
                if len != 2 || !below {
                    return false;
                }
                proof {
                    assert(ir.operands@[0] < np && ir.operands@[1] < np);
                }
                ir.operands[0] < nd && conv_slot_check(ir.kind, self.parm(ir.operands[1]))
            },
            IRKind::Sizeof => {
                if len != 2 || !below {
                    return false;
                }
                proof {
                    assert(ir.operands@[1] < np);
                }
                is_u64_val(self.parm(ir.operands[1]))
            },
            IRKind::SizeofExt => {
                if len != 2 || !below {
                    return false;
                }
                proof {
                    assert(ir.operands@[0] < np && ir.operands@[1] < np);
                }
                is_ident_val(self.parm(ir.operands[0])) && is_u64_val(self.parm(ir.operands[1]))
            },
            IRKind::BuiltinOutputSize | IRKind::BuiltinOutputAddr | IRKind::BuiltinVersionMajor
            | IRKind::BuiltinVersionMinor | IRKind::BuiltinVersionPatch => {
                if len != 1 || !below {
                    return false;
                }
                proof {
                    assert(ir.operands@[0] < np);
                }
                is_u64_val(self.parm(ir.operands[0]))
            },
            IRKind::BuiltinVersionString => len == 1 && below,
            IRKind::Addr | IRKind::AddrOffset | IRKind::SecOffset | IRKind::FileOffset => {
                if !(len == 1 || len == 2) || !below {
                    return false;
                }
                proof {
                    assert(ir.operands@[0] < np && ir.operands@[len - 1] < np);
                }
                if len == 2 && !is_ident_val(self.parm(ir.operands[0])) {
                    return false;
                }
                is_u64_val(self.parm(ir.operands[len - 1]))
            },
            IRKind::Wrs => {
                if !below {
                    return false;
                }
                let mut k: usize = 0;
                while k < len
                    invariant
                        k <= len,
                        ir.kind == IRKind::Wrs,
                        len == ir.operands@.len(),
                        np == self.parms_view().len(),
                        nd == irdb.parms@.len(),
                        ops_below(*ir, np as int),
                        forall|j: int| 0 <= j < k && #[trigger] string_piece(self.parms_view()[ir.operands@[j] as int])
                            is None ==> ir.operands@[j] < nd,
                    decreases len - k,
                {
                    proof {
                        assert(ir.operands@[k as int] < np);
                    }
                    if !has_piece(self.parm(ir.operands[k])) && ir.operands[k] >= nd {
                        proof {
                            assert(string_piece(self.parms_view()[ir.operands@[k as int] as int]) is None);
                        }
                        return false;
                    }
                    k = k + 1;
                }
                true
            },
            IRKind::SectionStart => {
                if len < 1 || ir.operands[0] >= nd {
                    return false;
                }
                is_ident_val(&irdb.parms[ir.operands[0]].val)
            },
            IRKind::SectionEnd => self.scope_depth() > 0,
            IRKind::Wr(_) => (len == 1 || len == 2) && below && ops_below_check(ir, nd),
            IRKind::ExtensionCall => len >= 1 && ir.operands[0] < np && is_ident_val(self.parm(ir.operands[0])),
            IRKind::Align | IRKind::SetSecOffset | IRKind::SetAddrOffset | IRKind::SetFileOffset | IRKind::SetAddr => {
                if !(len == 2 || len == 3) || !below {
                    return false;
                }
                let out = if len == 2 { ir.operands[1] } else { ir.operands[2] };
                proof {
                    assert(ir.operands@[0] < np && ir.operands@[len - 1] < np);
                }
                if ir.kind == IRKind::Align && ir.operands[0] >= nd {
                    return false;
                }
                is_numeric_val(self.parm(ir.operands[0])) && is_u64_val(self.parm(out))
            },
            IRKind::Wrf => {
                if len != 1 || ir.operands[0] >= np || !is_quoted_val(self.parm(ir.operands[0])) {
                    return false;
                }
                find_key(irdb.files.as_slice(), self.parm(ir.operands[0]).to_str()).is_some()
            },
            _ => true,
        }
    }
}


impl LayoutPhase {
    /// One layout step: records the cursor as the location of instruction
    /// `lid`, checks the instruction is well formed, and runs it.
    pub fn step(&mut self, lid: usize, irdb: &IRDb, ext_registry: &ExtensionRegistry, diags: &mut Diags,
        current: &mut Location) -> (ok: bool)
        requires
            lid < irdb.ir_vec@.len(),
            old(self).locs_view().len() == irdb.ir_vec@.len(),
            sized_ok(*irdb, irdb.ir_vec@.len() as nat),
            addressed_ok(*irdb, irdb.ir_vec@.len() as nat),
            cursor_ok(old(self).frames(), *old(current)),
        ensures
            (final(self).lstate(*final(current), final(diags).records()), ok) == step_spec(
                *irdb,
                ext_registry.entries(),
                lid,
                old(self).lstate(*old(current), old(diags).records()),
            ),
            final(self).locs_view().len() == old(self).locs_view().len(),
            cursor_ok(final(self).frames(), *final(current)),
            final(diags).files_view() == old(diags).files_view(),
    {
        proof {
            reveal(step_spec);
        }
        let ir = &irdb.ir_vec[lid];
        self.record_loc(lid, *current);
        if !self.ready_check(ir, irdb) {
            return false;
        }
        proof {
            lemma_moved_cursor(self.frames(), *current);
        }
        let ghost s = self.lstate(*current, diags.records());
        match ir.kind {
            IRKind::Add | IRKind::Subtract | IRKind::RightShift | IRKind::LeftShift | IRKind::BitAnd
            | IRKind::LogicalAnd | IRKind::BitOr | IRKind::LogicalOr | IRKind::Multiply | IRKind::Divide
            | IRKind::Modulo | IRKind::DoubleEq | IRKind::GEq | IRKind::LEq | IRKind::Gt | IRKind::Lt | IRKind::NEq => {
                self.iterate_arithmetic(ir, irdb.parms.as_slice(), ir.kind, diags)
            },
            IRKind::ToI64 | IRKind::ToU64 => self.iterate_type_conversion(ir, irdb.parms.as_slice(), ir.kind, diags),
            IRKind::Sizeof => self.iterate_sizeof(ir, irdb, diags),
            IRKind::SizeofExt => self.iterate_sizeof_ext(ir, diags, ext_registry),
            IRKind::BuiltinOutputSize => self.iterate_output_size(ir, irdb, diags),
            IRKind::BuiltinOutputAddr => self.iterate_output_addr(ir, irdb, diags),
            IRKind::BuiltinVersionString => self.iterate_builtin_version_string(ir),
            IRKind::BuiltinVersionMajor => self.iterate_builtin_version_major(ir),
            IRKind::BuiltinVersionMinor => self.iterate_builtin_version_minor(ir),
            IRKind::BuiltinVersionPatch => self.iterate_builtin_version_patch(ir),
            IRKind::Addr | IRKind::AddrOffset | IRKind::SecOffset | IRKind::FileOffset => {
                self.iterate_address(ir, irdb, diags, current)
            },
            IRKind::Wrs => self.iterate_wrs(ir, irdb, diags, current),
            IRKind::SectionStart => {
                let ghost c0 = *current;
                let ghost f0 = self.frames();
                let ok = self.iterate_section_start(ir, irdb, lid, diags, current);
                self.record_loc(lid, *current);
                proof {
                    lemma_enter_cursor(f0, c0, self.frames().last(), direct_region(*irdb, sec_name_of(*irdb, *ir)));
                    assert(self.frames() == f0.push(self.frames().last()));
                }
                ok
            },
            IRKind::SectionEnd => {
                proof {
                    lemma_exit_cursor(self.frames(), *current);
                }
                self.iterate_section_end(current)
            },
            IRKind::Wr(_) => self.iterate_wrx(ir, irdb, diags, current),
            IRKind::ExtensionCall => self.iterate_ext(ir, current, ext_registry, diags),
            IRKind::Align => self.iterate_align(ir, irdb, diags, current),
            IRKind::SetSecOffset | IRKind::SetAddrOffset | IRKind::SetFileOffset => {
                if ir.kind != IRKind::SetFileOffset && self.innermost_set_addr_seen() {
                    if self.warn_once(lid, "EXEC_54") {
                        let cmd = if ir.kind == IRKind::SetSecOffset {
                            "set_sec_offset"
                        } else {
                            "set_addr_offset"
                        };
                        let mut msg = String::from_str("[EXEC_54] Warning: '");
                        msg = crate::fmt::cat(msg, cmd);
                        msg = crate::fmt::cat(msg, "' follows 'set_addr' in the same section scope.  '");
                        msg = crate::fmt::cat(msg, cmd);
                        msg = crate::fmt::cat(
                            msg,
                            "' pads to a sec/addr_offset value, not to an address.  Consider 'set_addr_offset' after 'set_addr' to pad relative to the address anchor.",
                        );
                        diags.warn1("EXEC_54", msg.as_str(), ir.src_loc);
                    }
                }
                self.iterate_set(ir, diags, current)
            },
            IRKind::SetAddr => {
                proof {
                    lemma_rebased_cursor(self.frames(), *current, as_u64_spec(self.parms_view()[ir.operands@[0] as int]));
                }
                self.iterate_set_addr(ir, lid, diags, current)
            },
            IRKind::Wrf => self.iterate_wrf(ir, irdb, diags, current),
            _ => true,
        }
    }
}


impl LayoutPhase {
    /// Runs layout passes until the locations of all instructions stop
    /// changing (see [`run_spec`]).  Each pass starts the cursor at zero and
    /// steps through every instruction; a failed pass, or a pass that
    /// reproduces the previous locations, ends the run.  After
    /// [`MAX_ITERATIONS`] unsettled passes the layout is reported cyclic
    /// (EXEC_62).
    pub fn iterate(&mut self, irdb: &IRDb, ext_registry: &ExtensionRegistry, diags: &mut Diags) -> (ok: bool)
        requires
            old(self).locs_view().len() == irdb.ir_vec@.len(),
            sized_ok(*irdb, irdb.ir_vec@.len() as nat),
            addressed_ok(*irdb, irdb.ir_vec@.len() as nat),
        ensures
            ({
                let r = run_spec(
                    *irdb,
                    ext_registry.entries(),
                    old(self).lstate(origin(), old(diags).records()),
                    Seq::empty(),
                    0,
                );
                &&& final(self).lstate(r.0.cur, final(diags).records()) == r.0
                &&& ok == r.1
            }),
            final(self).locs_view().len() == old(self).locs_view().len(),
            final(diags).files_view() == old(diags).files_view(),
    {
        proof {
            reveal_strlit("EXEC_62");
            reveal_strlit("Cyclic dependency detected: layout failed to stabilize after maximum iterations.");
        }
        let n = irdb.ir_vec.len();
        let ghost exts = ext_registry.entries();
        let mut result = true;
        let mut stable = false;
        let mut old_locations: Vec<Location> = Vec::new();
        let mut iter_count: usize = 0;
        let mut current = Location { file_offset: 0, addr: AddressState { addr_offset: 0, sec_offset: 0, addr_base: 0 } };
        let ghost target = run_spec(*irdb, exts, self.lstate(current, diags.records()), Seq::empty(), 0);
        while result && !stable
            invariant
                target == run_spec(*irdb, ext_registry.entries(), old(self).lstate(origin(), old(diags).records()),
                    Seq::empty(), 0),
                n == old(self).locs_view().len(),
                n == irdb.ir_vec@.len(),
                self.locs_view().len() == n,
                exts == ext_registry.entries(),
                sized_ok(*irdb, n as nat),
                addressed_ok(*irdb, n as nat),
                iter_count <= MAX_ITERATIONS,
                result && !stable ==> iter_count < MAX_ITERATIONS,
                iter_count > 0 ==> old_locations@.len() == n,
                diags.files_view() == old(diags).files_view(),
                result && !stable ==> run_spec(*irdb, exts, self.lstate(current, diags.records()), old_locations@,
                    iter_count as nat) == target,
                !(result && !stable) ==> (self.lstate(current, diags.records()), result) == target,
            decreases MAX_ITERATIONS - iter_count,
        {
            if self.scope_depth() != 0 {
                return false;
            }
            let ghost s_run = self.lstate(current, diags.records());
            let ghost prev = old_locations@;
            iter_count = iter_count + 1;
            current = Location { file_offset: 0, addr: AddressState { addr_offset: 0, sec_offset: 0, addr_base: 0 } };
            let ghost s_start = self.lstate(current, diags.records());
            proof {
                assert(s_start == LState { cur: origin(), ..s_run });
            }
            let mut lid: usize = 0;
            let mut pass_ok = true;
            while lid < n
                invariant
                    lid <= n,
                    n == irdb.ir_vec@.len(),
                    self.locs_view().len() == n,
                    exts == ext_registry.entries(),
                    sized_ok(*irdb, n as nat),
                    addressed_ok(*irdb, n as nat),
                    (self.lstate(current, diags.records()), pass_ok) == pass_spec(*irdb, exts, s_start, lid as nat),
                    cursor_ok(self.frames(), current),
                    diags.files_view() == old(diags).files_view(),
                decreases n - lid,
            {
                let r = self.step(lid, irdb, ext_registry, diags, &mut current);
                pass_ok = pass_ok && r;
                lid = lid + 1;
            }
            result = pass_ok;
            let now = self.locations();
            if locs_eq(&now, &old_locations) {
                stable = true;
            } else {
                if iter_count >= MAX_ITERATIONS {
                    proof {
                        assert(old_locations@.len() == n);
                        assert(n > 0) by {
                            if n == 0 {
                                assert(now@ =~= old_locations@);
                            }
                        }
                    }
                    let diff_i = first_diff_exec(&now, &old_locations);
                    let culprit = if diff_i > 0 {
                        diff_i - 1
                    } else {
                        0
                    };
                    diags.err1(
                        "EXEC_62",
                        "Cyclic dependency detected: layout failed to stabilize after maximum iterations.",
                        irdb.ir_vec[culprit].src_loc,
                    );
                    return false;
                }
                old_locations = now;
            }
        }
        result
    }
}


/// The label of a contributing region: its name, address and size.
pub open spec fn contrib_label(c: RegionV) -> (crate::diags::SourceSpan, Seq<char>) {
    (c.src_loc, "region '"@ + c.name + "': addr="@ + hex(c.addr) + ", size="@ + digits(c.size as nat, 10))
}

/// The region section `name` must fit in, with the regions that
/// produced it: the recorded effective region, else its direct binding.
pub open spec fn fit_bound(db: IRDb, effs: Seq<(Seq<char>, (RegionV, Seq<RegionV>))>, name: Seq<char>) -> Option<
    (RegionV, Seq<RegionV>),
> {
    match lookup_v(effs, name) {
        Some(e) => Some(e),
        None => match direct_region(db, name) {
            Some(d) => Some((d, seq![d])),
            None => None,
        },
    }
}

/// The size of the section spanning instructions `rng`, from its
/// recorded locations (0 if the end lies before the start).
pub open spec fn span_bytes(locs: Seq<Location>, rng: (usize, usize)) -> u64 {
    if locs[rng.1 as int].file_offset >= locs[rng.0 as int].file_offset {
        (locs[rng.1 as int].file_offset - locs[rng.0 as int].file_offset) as u64
    } else {
        0
    }
}

/// The error when region-bound section `name` outgrows its region
/// (EXEC_73), if it does.
pub open spec fn section_fit(db: IRDb, locs: Seq<Location>, effs: Seq<(Seq<char>, (RegionV, Seq<RegionV>))>,
    name: Seq<char>) -> Option<DiagView> {
    match lookup_key(db.sized_locs@, name) {
        None => None,
        Some(rng) => match fit_bound(db, effs, name) {
            None => None,
            Some((b, cs)) => {
                let size = span_bytes(locs, rng);
                if size > b.size {
                    let msg = "Section '"@ + name + "' size "@ + digits(size as nat, 10) + " bytes exceeds region '"@
                        + b.name + "' effective size "@ + digits(b.size as nat, 10) + " by "@ + digits(
                        (size - b.size) as nat,
                        10,
                    ) + " bytes."@;
                    Some(
                        DiagView {
                            severity: Severity::Error,
                            code: "EXEC_73"@,
                            msg,
                            primary: Some(db.ir_vec@[rng.0 as int].src_loc),
                            secondaries: if cs.len() > 0 {
                                cs.map_values(|c: RegionV| contrib_label(c))
                            } else {
                                seq![(b.src_loc, Seq::<char>::empty())]
                            },
                        },
                    )
                } else {
                    None
                }
            },
        },
    }
}

/// The region errors of the first `k` bound sections, each name checked
/// once.
pub open spec fn fit_reports(db: IRDb, locs: Seq<Location>, effs: Seq<(Seq<char>, (RegionV, Seq<RegionV>))>, k: nat)
    -> Seq<DiagView>
    decreases k,
{
    if k == 0 {
        Seq::empty()
    } else {
        let name = db.section_region_names@[k - 1].0@;
        fit_reports(db, locs, effs, (k - 1) as nat) + if first_key(db.section_region_names@, name, k - 1) {
            match section_fit(db, locs, effs, name) {
                Some(d) => seq![d],
                None => Seq::empty(),
            }
        } else {
            Seq::empty()
        }
    }
}

impl LayoutPhase {
    /// After the layout settles, checks that every region-bound section
    /// fits its effective region (EXEC_73, labelled with each contributing
    /// region).
    pub fn validate_section_regions(&self, irdb: &IRDb, diags: &mut Diags) -> (ok: bool)
        requires
            sized_ok(*irdb, self.locs_view().len()),
            self.locs_view().len() == irdb.ir_vec@.len(),
        ensures
            final(diags).records() == old(diags).records() + fit_reports(*irdb, self.locs_view(), self.eff_regions(),
                irdb.section_region_names@.len() as nat),
            ok == (fit_reports(*irdb, self.locs_view(), self.eff_regions(), irdb.section_region_names@.len() as nat).len()
                == 0),
            final(diags).files_view() == old(diags).files_view(),
    {
        proof {
            reveal_strlit("EXEC_73");
            reveal_strlit("Section '");
            reveal_strlit("' size ");
            reveal_strlit(" bytes exceeds region '");
            reveal_strlit("' effective size ");
            reveal_strlit(" by ");
            reveal_strlit(" bytes.");
            reveal_strlit("region '");
            reveal_strlit("': addr=");
            reveal_strlit(", size=");
        }
        let ghost locs = self.locs_view();
        let ghost effs = self.eff_regions();
        let names = &irdb.section_region_names;
        let mut result = true;
        let mut i: usize = 0;
        while i < names.len()
            invariant
                i <= names@.len(),
                names == &irdb.section_region_names,
                locs == self.locs_view(),
                effs == self.eff_regions(),
                sized_ok(*irdb, locs.len()),
                locs.len() == irdb.ir_vec@.len(),
                diags.records() == old(diags).records() + fit_reports(*irdb, locs, effs, i as nat),
                result == (fit_reports(*irdb, locs, effs, i as nat).len() == 0),
                diags.files_view() == old(diags).files_view(),
            decreases names@.len() - i,
        {
            let name = names[i].0.as_str();
            let ghost before = diags.records();
            let ghost none = fit_reports(*irdb, locs, effs, i as nat);
            let is_first = match find_key(names.as_slice(), name) {
                Some(j) => j == i,
                None => false,
            };
            proof {
                if is_first != first_key(names@, name@, i as int) {
                    let c = choose|k: int| first_key(names@, name@, k);
                    assert(first_key(names@, name@, i as int) ==> c == i) by {
                        if first_key(names@, name@, i as int) && c != i {
                            if c < i {
                                assert(names@[c].0@ != name@);
                            } else {
                                assert(names@[i as int].0@ != name@);
                            }
                        }
                    }
                }
            }
            let mut reported = false;
            if is_first {
                match find_key(irdb.sized_locs.as_slice(), name) {
                    None => {},
                    Some(ri) => {
                        let rng = irdb.sized_locs[ri].1;
                        proof {
                            assert(irdb.sized_locs@[ri as int].1.0 <= irdb.sized_locs@[ri as int].1.1 < locs.len());
                        }
                        let start_loc = self.loc_at(rng.0);
                        let end_loc = self.loc_at(rng.1);
                        let sec_size = end_loc.file_offset.saturating_sub(start_loc.file_offset);
                        let bound: Option<(RegionBinding, Vec<RegionBinding>)> = match self.effective_of(name) {
                            Some(e) => Some((clone_binding(&e.binding), clone_bindings(&e.contributors))),
                            None => match irdb.region_for_section(name) {
                                Some(b) => {
                                    let mut cs: Vec<RegionBinding> = Vec::new();
                                    cs.push(clone_binding(b));
                                    proof {
                                        assert(cs@.map_values(|x: RegionBinding| region_v(x)) =~= seq![region_v(*b)]);
                                    }
                                    Some((clone_binding(b), cs))
                                },
                                None => None,
                            },
                        };
                        match bound {
                            None => {},
                            Some((binding, contributors)) => {
                                proof {
                                    assert(fit_bound(*irdb, effs, name@) == Some((region_v(binding),
                                        contributors@.map_values(|x: RegionBinding| region_v(x)))));
                                }
                                if sec_size > binding.size {
                                    let mut msg = String::from_str("Section '");
                                    msg = cat(msg, name);
                                    msg = cat(msg, "' size ");
                                    msg = cat(msg, u64_to_dec(sec_size).as_str());
                                    msg = cat(msg, " bytes exceeds region '");
                                    msg = cat(msg, binding.name.as_str());
                                    msg = cat(msg, "' effective size ");
                                    msg = cat(msg, u64_to_dec(binding.size).as_str());
                                    msg = cat(msg, " by ");
                                    msg = cat(msg, u64_to_dec(sec_size - binding.size).as_str());
                                    msg = cat(msg, " bytes.");
                                    let primary = irdb.ir_vec[rng.0].src_loc;
                                    if contributors.len() > 0 {
                                        let secondaries = contrib_labels(&contributors);
                                        diags.err_with_locs("EXEC_73", msg.as_str(), primary, secondaries.as_slice());
                                    } else {
                                        diags.err2("EXEC_73", msg.as_str(), primary, binding.src_loc);
                                    }
                                    reported = true;
                                }
                            },
                        }
                    },
                }
            }
            proof {
                assert(fit_reports(*irdb, locs, effs, (i + 1) as nat) == none + if first_key(names@, names@[i as int].0@,
                    i as int) {
                    match section_fit(*irdb, locs, effs, names@[i as int].0@) {
                        Some(d) => seq![d],
                        None => Seq::empty(),
                    }
                } else {
                    Seq::empty()
                });
                if reported {
                    assert(diags.records() =~= old(diags).records() + fit_reports(*irdb, locs, effs, (i + 1) as nat));
                } else {
                    assert(diags.records() =~= old(diags).records() + fit_reports(*irdb, locs, effs, (i + 1) as nat));
                }
            }
            if reported {
                result = false;
            }
            i = i + 1;
        }
        result
    }
}

/// The labels of the contributing regions.
fn contrib_labels(cs: &Vec<RegionBinding>) -> (v: Vec<(crate::diags::SourceSpan, String)>)
    ensures
        v@.map_values(|p: (crate::diags::SourceSpan, String)| (p.0, p.1@)) == cs@.map_values(|x: RegionBinding| region_v(x)).map_values(
            |c: RegionV| contrib_label(c),
        ),
{
    proof {
        reveal_strlit("region '");
        reveal_strlit("': addr=");
        reveal_strlit(", size=");
    }
    let mut v: Vec<(crate::diags::SourceSpan, String)> = Vec::new();
    let mut i: usize = 0;
    while i < cs.len()
        invariant
            i <= cs@.len(),
            v@.map_values(|p: (crate::diags::SourceSpan, String)| (p.0, p.1@)) =~= cs@.take(i as int).map_values(
                |x: RegionBinding| region_v(x),
            ).map_values(|c: RegionV| contrib_label(c)),
        decreases cs@.len() - i,
    {
        let c = &cs[i];
        let mut label = String::from_str("region '");
        label = cat(label, c.name.as_str());
        label = cat(label, "': addr=");
        label = cat(label, u64_to_hex_upper(c.addr).as_str());
        label = cat(label, ", size=");
        label = cat(label, u64_to_dec(c.size).as_str());
        let ghost before = v@;
        let entry = (c.src_loc, label);
        let ghost ev = (entry.0, entry.1@);
        v.push(entry);
        proof {
            assert(ev == contrib_label(region_v(cs@[i as int])));
            assert(v@ == before.push(entry));
            assert(cs@.take(i as int + 1) =~= cs@.take(i as int).push(cs@[i as int]));
            assert(v@.map_values(|p: (crate::diags::SourceSpan, String)| (p.0, p.1@)) =~= before.map_values(
                |p: (crate::diags::SourceSpan, String)| (p.0, p.1@),
            ).push(ev));
        }
        i = i + 1;
    }
    proof {
        assert(cs@.take(i as int) =~= cs@);
    }
    v
}


/// The state the layout starts from: the operand values as written, every
/// location zero, no open section, nothing reported yet beyond `recs`.
pub open spec fn initial_state(db: IRDb, recs: Seq<DiagView>) -> LState {
    LState {
        parms: db.parms@.map_values(|o: crate::ir::IROperand| o.val@),
        locs: Seq::new(db.ir_vec@.len(), |i: int| origin()),
        frames: Seq::empty(),
        warned: Seq::empty(),
        eff: Seq::empty(),
        cur: origin(),
        recs,
    }
}

impl LayoutPhase {
    /// Lays out the image: runs the passes from [`initial_state`] to a
    /// fixed point (see [`run_spec`]), then checks every region-bound
    /// section; on success the final locations and operand values.
    pub fn build(irdb: &IRDb, ext_registry: &ExtensionRegistry, diags: &mut Diags) -> (r: Result<
        (LocationDb, ParmValDb),
        String,
    >)
        requires
            sized_ok(*irdb, irdb.ir_vec@.len() as nat),
            addressed_ok(*irdb, irdb.ir_vec@.len() as nat),
        ensures
            final(diags).files_view() == old(diags).files_view(),
            ({
                let (t, ok) = run_spec(
                    *irdb,
                    ext_registry.entries(),
                    initial_state(*irdb, old(diags).records()),
                    Seq::empty(),
                    0,
                );
                let reports = fit_reports(*irdb, t.locs, t.eff, irdb.section_region_names@.len() as nat);
                if !ok {
                    &&& final(diags).records() == t.recs
                    &&& r matches Err(e) && e@ == "LayoutPhase construction failed."@
                } else {
                    &&& final(diags).records() == t.recs + reports
                    &&& reports.len() > 0 ==> (r matches Err(e) && e@ == "LayoutPhase construction failed."@)
                    &&& reports.len() == 0 ==> (r matches Ok((l, p)) && l.ir_locs@ == t.locs && p.parms@.map_values(
                        |v: ParameterValue| v@,
                    ) == t.parms)
                }
            }),
    {
        let mut lp = LayoutPhase::new_state(irdb.parms.as_slice(), irdb.ir_vec.len());
        proof {
            assert(lp.lstate(origin(), diags.records()) =~= initial_state(*irdb, diags.records()));
        }
        if !lp.iterate(irdb, ext_registry, diags) {
            return Err(String::from_str("LayoutPhase construction failed."));
        }
        if !lp.validate_section_regions(irdb, diags) {
            return Err(String::from_str("LayoutPhase construction failed."));
        }
        Ok(lp.into_parts())
    }
}


/// One full pass started at the origin from the state `u`.
pub open spec fn full_pass(db: IRDb, exts: Seq<(Seq<char>, usize)>, u: LState) -> (LState, bool) {
    pass_spec(db, exts, LState { cur: origin(), ..u }, db.ir_vec@.len())
}

/// A step keeps the number of recorded locations.
pub proof fn lemma_step_keeps_len(db: IRDb, exts: Seq<(Seq<char>, usize)>, lid: usize, s: LState)
    requires
        lid < s.locs.len(),
    ensures
        step_spec(db, exts, lid, s).0.locs.len() == s.locs.len(),
{
    reveal(step_spec);
}

/// A pass keeps the number of recorded locations.
pub proof fn lemma_pass_keeps_len(db: IRDb, exts: Seq<(Seq<char>, usize)>, s: LState, k: nat)
    requires
        k <= s.locs.len(),
    ensures
        pass_spec(db, exts, s, k).0.locs.len() == s.locs.len(),
    decreases k,
{
    if k > 0 {
        lemma_pass_keeps_len(db, exts, s, (k - 1) as nat);
        lemma_step_keeps_len(db, exts, (k - 1) as usize, pass_spec(db, exts, s, (k - 1) as nat).0);
    }
}

/// A layout that succeeds has settled: its last pass succeeded, started
/// outside any section from the state the run had reached, and recorded
/// exactly the instruction locations that state already held.
pub proof fn lemma_run_settles(db: IRDb, exts: Seq<(Seq<char>, usize)>, s: LState, prev: Seq<Location>, count: nat)
    requires
        s.locs.len() == db.ir_vec@.len(),
        count == 0 ==> prev.len() == 0,
        count > 0 ==> prev == s.locs,
        run_spec(db, exts, s, prev, count).1,
    ensures
        exists|u: LState|
            #[trigger] full_pass(db, exts, u) == run_spec(db, exts, s, prev, count) && u.frames.len() == 0 && u.locs
                == run_spec(db, exts, s, prev, count).0.locs,
    decreases MAX_ITERATIONS - count,
{
    let n = db.ir_vec@.len();
    let (t, ok) = pass_spec(db, exts, LState { cur: origin(), ..s }, n);
    lemma_pass_keeps_len(db, exts, LState { cur: origin(), ..s }, n);
    if t.locs == prev {
        if count == 0 {
            assert(s.locs =~= t.locs);
        }
        assert(full_pass(db, exts, s) == run_spec(db, exts, s, prev, count));
    } else {
        lemma_run_settles(db, exts, t, t.locs, count + 1);
    }
}

/// A successful layout build comes from a settled run: its locations are
/// those the last pass reproduced.
pub proof fn lemma_build_settles(db: IRDb, exts: Seq<(Seq<char>, usize)>, recs: Seq<DiagView>)
    requires
        run_spec(db, exts, initial_state(db, recs), Seq::empty(), 0).1,
    ensures
        exists|u: LState|
            #[trigger] full_pass(db, exts, u) == run_spec(db, exts, initial_state(db, recs), Seq::empty(), 0)
                && u.frames.len() == 0 && u.locs == run_spec(db, exts, initial_state(db, recs), Seq::empty(), 0).0.locs,
{
    lemma_run_settles(db, exts, initial_state(db, recs), Seq::empty(), 0);
}

} // verus!
