use brink::diags::{Diags, SourceSpan};
use brink::extension::ExtensionRegistry;
use brink::ir::{IRKind, IROperand, ParameterValue, RegionBinding, IR};
use brink::irdb::IRDb;
use brink::layout_phase::LayoutPhase;

fn span(n: usize) -> SourceSpan {
    SourceSpan::new(0, n, n + 1)
}

fn diags() -> Diags {
    Diags::new("t.brink", "", 0, false)
}

fn op(val: ParameterValue, n: usize) -> IROperand {
    IROperand { ir_lid: None, src_loc: span(n), is_immediate: true, val, param_name: None }
}

fn ident(s: &str, n: usize) -> IROperand {
    op(ParameterValue::Identifier(s.to_string()), n)
}

fn ir(kind: IRKind, operands: Vec<usize>, n: usize) -> IR {
    IR { kind, operands, src_loc: span(n) }
}

fn db(ir_vec: Vec<IR>, parms: Vec<IROperand>) -> IRDb {
    IRDb {
        ir_vec,
        parms,
        files: Vec::new(),
        sized_locs: Vec::new(),
        addressed_locs: Vec::new(),
        output_sec_str: "main".to_string(),
        section_region_names: Vec::new(),
        region_bindings: Vec::new(),
    }
}

/// sizeof(main) comes before the section it measures, so the first pass
/// sees zero and the second the real size; the run settles after it.
fn forward_sizeof() -> IRDb {
    let parms = vec![
        ident("main", 0),
        op(ParameterValue::U64(0), 1),
        ident("main", 2),
        op(ParameterValue::U64(0), 3),
        op(ParameterValue::U64(0), 4),
    ];
    let ir_vec = vec![
        ir(IRKind::Sizeof, vec![0, 1], 10),
        ir(IRKind::SectionStart, vec![2], 11),
        ir(IRKind::Wr(1), vec![3], 12),
        ir(IRKind::Wr(4), vec![4], 13),
        ir(IRKind::SectionEnd, vec![2], 14),
    ];
    let mut d = db(ir_vec, parms);
    d.sized_locs.push(("main".to_string(), (1, 4)));
    d.addressed_locs.push(("main".to_string(), 1));
    d
}

#[test]
fn layout_settles_on_forward_sizeof() {
    let irdb = forward_sizeof();
    let reg = ExtensionRegistry::new();
    let mut d = diags();
    let (locs, parms) = LayoutPhase::build(&irdb, &reg, &mut d).unwrap();
    assert_eq!(d.len(), 0);
    let offsets: Vec<u64> = locs.ir_locs.iter().map(|l| l.file_offset).collect();
    assert_eq!(offsets, vec![0, 0, 0, 1, 5]);
    assert!(matches!(parms.parms[1], ParameterValue::U64(5)));
}

#[test]
fn section_too_large_for_region() {
    let mut irdb = forward_sizeof();
    irdb.section_region_names.push(("main".to_string(), "rom".to_string()));
    irdb.region_bindings.push((
        "rom".to_string(),
        RegionBinding { addr: 0x1000, size: 2, name: "rom".to_string(), src_loc: span(30) },
    ));
    let reg = ExtensionRegistry::new();
    let mut d = diags();
    let r = LayoutPhase::build(&irdb, &reg, &mut d);
    assert_eq!(r.err().unwrap(), "LayoutPhase construction failed.");
    assert_eq!(d.len(), 1);
    assert_eq!(d.get(0).code, "EXEC_73");
    assert_eq!(d.get(0).msg, "Section 'main' size 5 bytes exceeds region 'rom' effective size 2 by 3 bytes.");
}

#[test]
fn bound_section_is_anchored_at_region_start() {
    let mut irdb = forward_sizeof();
    irdb.section_region_names.push(("main".to_string(), "rom".to_string()));
    irdb.region_bindings.push((
        "rom".to_string(),
        RegionBinding { addr: 0x1000, size: 0x100, name: "rom".to_string(), src_loc: span(30) },
    ));
    let reg = ExtensionRegistry::new();
    let mut d = diags();
    let (locs, _) = LayoutPhase::build(&irdb, &reg, &mut d).unwrap();
    assert_eq!(d.len(), 0);
    assert_eq!(locs.ir_locs[1].addr.addr_base, 0x1000);
    assert_eq!(locs.ir_locs[3].addr.addr_offset, 1);
    assert_eq!(locs.ir_locs[4].addr.sec_offset, 5);
}

#[test]
fn nested_regions_must_overlap() {
    let parms = vec![ident("outer", 0), ident("inner", 1), op(ParameterValue::U64(0), 2)];
    let ir_vec = vec![
        ir(IRKind::SectionStart, vec![0], 10),
        ir(IRKind::SectionStart, vec![1], 11),
        ir(IRKind::Wr(1), vec![2], 12),
        ir(IRKind::SectionEnd, vec![1], 13),
        ir(IRKind::SectionEnd, vec![0], 14),
    ];
    let mut irdb = db(ir_vec, parms);
    irdb.section_region_names.push(("outer".to_string(), "a".to_string()));
    irdb.section_region_names.push(("inner".to_string(), "b".to_string()));
    irdb.region_bindings.push((
        "a".to_string(),
        RegionBinding { addr: 0x1000, size: 0x10, name: "a".to_string(), src_loc: span(30) },
    ));
    irdb.region_bindings.push((
        "b".to_string(),
        RegionBinding { addr: 0x2000, size: 0x10, name: "b".to_string(), src_loc: span(31) },
    ));
    let reg = ExtensionRegistry::new();
    let mut d = diags();
    assert!(LayoutPhase::build(&irdb, &reg, &mut d).is_err());
    assert_eq!(d.len(), 1);
    assert_eq!(d.get(0).code, "EXEC_77");
    assert_eq!(
        d.get(0).msg,
        "Section 'inner': region 'b' [0x2000, 0x2010) does not intersect with enclosing region 'a' [0x1000, 0x1010)."
    );
}

#[test]
fn unbalanced_section_end_fails_the_layout() {
    let parms = vec![ident("main", 0)];
    let ir_vec = vec![ir(IRKind::SectionEnd, vec![0], 10)];
    let irdb = db(ir_vec, parms);
    let reg = ExtensionRegistry::new();
    let mut d = diags();
    assert!(LayoutPhase::build(&irdb, &reg, &mut d).is_err());
    assert_eq!(d.len(), 0);
}
