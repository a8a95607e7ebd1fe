use brink::diags::{Diags, SourceSpan};
use brink::extension::{register_test_extensions, ExtensionRegistry};
use brink::ir::{IRKind, IROperand, ParameterValue, IR};
use brink::irdb::{FileMeta, IRDb};

fn span(n: usize) -> SourceSpan {
    SourceSpan::new(0, n, n + 1)
}

fn diags() -> Diags {
    Diags::new("t.brink", "", 0, false)
}

fn op(val: ParameterValue, n: usize) -> IROperand {
    IROperand { ir_lid: None, src_loc: span(n), is_immediate: true, val, param_name: None }
}

fn named(val: ParameterValue, n: usize, name: &str) -> IROperand {
    IROperand { ir_lid: None, src_loc: span(n), is_immediate: true, val, param_name: Some(name.to_string()) }
}

fn ident(s: &str, n: usize) -> IROperand {
    op(ParameterValue::Identifier(s.to_string()), n)
}

fn out(n: usize) -> IROperand {
    IROperand { ir_lid: Some(0), src_loc: span(n), is_immediate: false, val: ParameterValue::Extension, param_name: None }
}

fn ir(kind: IRKind, operands: Vec<usize>, n: usize) -> IR {
    IR { kind, operands, src_loc: span(n) }
}

fn db(parms: Vec<IROperand>) -> IRDb {
    IRDb {
        ir_vec: Vec::new(),
        parms,
        files: Vec::new(),
        sized_locs: Vec::new(),
        addressed_locs: Vec::new(),
        output_sec_str: "main".to_string(),
        section_region_names: Vec::new(),
        region_bindings: Vec::new(),
    }
}

fn registry() -> ExtensionRegistry {
    let mut reg = ExtensionRegistry::new();
    register_test_extensions(&mut reg);
    reg
}

#[test]
fn numeric_1_accepts_one_integer() {
    let d0 = db(vec![op(ParameterValue::U64(1), 1)]);
    let mut d = diags();
    assert!(d0.validate_numeric_1(&ir(IRKind::Assert, vec![0], 0), &mut d));
    assert_eq!(d.len(), 0);
}

#[test]
fn numeric_1_rejects_two_operands() {
    let d0 = db(vec![op(ParameterValue::U64(1), 1), op(ParameterValue::U64(2), 2)]);
    let mut d = diags();
    assert!(!d0.validate_numeric_1(&ir(IRKind::Assert, vec![0, 1], 0), &mut d));
    assert_eq!(d.get(0).code, "IRDB_4");
    assert_eq!(d.get(0).msg, "'Assert' expressions must evaluate to one operand, but found 2.");
}

#[test]
fn numeric_1_rejects_string() {
    let d0 = db(vec![op(ParameterValue::QuotedString("x".to_string()), 1)]);
    let mut d = diags();
    assert!(!d0.validate_numeric_1(&ir(IRKind::Assert, vec![0], 0), &mut d));
    assert_eq!(d.get(0).code, "IRDB_5");
    assert_eq!(d.get(0).msg, "'Assert' expression requires an integer or boolean operand, found 'QuotedString'.");
}

#[test]
fn numeric_1_or_2_checks_count_and_types() {
    let d0 = db(vec![op(ParameterValue::U64(1), 1), op(ParameterValue::I64(2), 2), ident("s", 3)]);
    let mut d = diags();
    assert!(d0.validate_numeric_1_or_2(&ir(IRKind::Wr(1), vec![0, 1], 0), &mut d));
    assert!(!d0.validate_numeric_1_or_2(&ir(IRKind::Wr(1), vec![], 0), &mut d));
    assert_eq!(d.get(0).code, "IRDB_55");
    assert_eq!(d.get(0).msg, "'Wr(1)' takes 1 or 2 arguments, found 0.");
    assert!(!d0.validate_numeric_1_or_2(&ir(IRKind::Align, vec![2], 0), &mut d));
    assert_eq!(d.get(1).code, "IRDB_9");
    assert!(!d0.validate_numeric_1_or_2(&ir(IRKind::Align, vec![0, 2], 0), &mut d));
    assert_eq!(d.get(2).code, "IRDB_15");
    assert_eq!(d.get(2).msg, "'Align' requires an integer for this operand, found 'Identifier'.");
}

#[test]
fn ext_user_args_reject_extension_value() {
    let d0 = db(vec![ident("brink::test_crc", 0), op(ParameterValue::U64(1), 1), out(2), out(3)]);
    let call = ir(IRKind::ExtensionCall, vec![0, 1, 2, 3], 0);
    let mut d = diags();
    assert!(d0.validate_ext_user_args(&call, 1..2, "brink::test_crc", &mut d));
    assert!(!d0.validate_ext_user_args(&call, 1..3, "brink::test_crc", &mut d));
    assert_eq!(d.get(0).code, "IRDB_47");
    assert_eq!(
        d.get(0).msg,
        "Extension 'brink::test_crc': argument 2 must be a numeric, string, or section-name expression, got Extension"
    );
}

#[test]
fn unknown_extension_names_namespace() {
    let reg = registry();
    let mut d0 = db(vec![ident("foo::bar", 0), out(1), ident("plain", 2)]);
    let mut d = diags();
    let meta = Vec::new();
    assert!(!d0.validate_operands(&ir(IRKind::ExtensionCall, vec![0, 1], 0), &mut d, &reg, &Vec::new(), &meta));
    assert_eq!(d.get(0).code, "IRDB_40");
    assert_eq!(d.get(0).msg, "Unknown namespace 'foo'");
    assert!(!d0.validate_operands(&ir(IRKind::ExtensionCall, vec![2, 1], 0), &mut d, &reg, &Vec::new(), &meta));
    assert_eq!(d.get(1).msg, "Unknown function 'plain'");
    assert!(!d0.validate_operands(&ir(IRKind::SizeofExt, vec![2], 0), &mut d, &reg, &Vec::new(), &meta));
    assert_eq!(d.get(2).code, "IRDB_44");
    assert_eq!(d.get(2).msg, "Unknown extension 'plain'");
}

#[test]
fn known_extension_call_is_accepted() {
    let reg = registry();
    let mut d0 = db(vec![ident("brink::test_crc", 0), op(ParameterValue::U64(5), 1), out(2)]);
    let mut d = diags();
    let ok = d0.validate_operands(&ir(IRKind::ExtensionCall, vec![0, 1, 2], 0), &mut d, &reg, &Vec::new(), &Vec::new());
    assert!(ok);
    assert_eq!(d.len(), 0);
}

#[test]
fn wrf_records_regular_file_once() {
    let reg = registry();
    let mut d0 = db(vec![op(ParameterValue::QuotedString("a.bin".to_string()), 1)]);
    let meta = vec![("a.bin".to_string(), FileMeta::File(12))];
    let mut d = diags();
    let wrf = ir(IRKind::Wrf, vec![0], 0);
    assert!(d0.validate_operands(&wrf, &mut d, &reg, &Vec::new(), &meta));
    assert!(d0.validate_operands(&wrf, &mut d, &reg, &Vec::new(), &meta));
    assert_eq!(d0.files.len(), 1);
    assert_eq!(d0.files[0].0, "a.bin");
    assert_eq!(d0.files[0].1.size, 12);
    assert_eq!(d.len(), 0);
}

#[test]
fn wrf_errors() {
    let mut d0 = db(vec![
        op(ParameterValue::U64(1), 1),
        op(ParameterValue::QuotedString("dir".to_string()), 2),
        op(ParameterValue::QuotedString("gone".to_string()), 3),
    ]);
    let meta = vec![
        ("dir".to_string(), FileMeta::NotFile),
        ("gone".to_string(), FileMeta::Failed("not found".to_string(), "/w".to_string())),
    ];
    let mut d = diags();
    assert!(!d0.validate_wrf_operands(&ir(IRKind::Wrf, vec![0], 0), &meta, &mut d));
    assert_eq!(d.get(0).code, "IRDB_11");
    assert_eq!(d.get(0).msg, "'Wrf' operand must be a file path in double-quotes, found 'U64'.");
    assert!(!d0.validate_wrf_operands(&ir(IRKind::Wrf, vec![1], 0), &meta, &mut d));
    assert_eq!(d.get(1).code, "IRDB_14");
    assert_eq!(d.get(1).msg, "'dir' must be a regular file.");
    assert!(!d0.validate_wrf_operands(&ir(IRKind::Wrf, vec![2], 0), &meta, &mut d));
    assert_eq!(d.get(2).code, "IRDB_13");
    assert_eq!(d.get(2).msg, "Error getting metadata for file 'gone'\nOS error is 'not found'\nLooking in directory '/w'");
    assert!(d0.files.is_empty());
}

fn sum8_call(names: &[&str]) -> (IRDb, IR) {
    let mut parms = vec![ident("brink::test_sum8", 0)];
    for (i, n) in names.iter().enumerate() {
        let v = ParameterValue::U64(i as u64);
        parms.push(if n.is_empty() { op(v, i + 1) } else { named(v, i + 1, n) });
    }
    parms.push(out(100));
    let ops: Vec<usize> = (0..parms.len()).collect();
    (db(parms), ir(IRKind::ExtensionCall, ops, 0))
}

#[test]
fn named_args_are_put_in_declaration_order() {
    let reg = registry();
    let (d0, mut call) = sum8_call(&["h", "g", "f", "e", "d", "c", "b", "a"]);
    let mut d = diags();
    assert!(d0.resolve_named_ext_args(&mut call, &reg, &Vec::new(), &mut d));
    assert_eq!(call.operands, vec![0, 8, 7, 6, 5, 4, 3, 2, 1, 9]);
    assert_eq!(d.len(), 0);
}

#[test]
fn named_args_unknown_and_duplicate() {
    let reg = registry();
    let (d0, mut call) = sum8_call(&["a", "zz"]);
    let mut d = diags();
    assert!(!d0.resolve_named_ext_args(&mut call, &reg, &Vec::new(), &mut d));
    assert_eq!(d.get(0).code, "IRDB_48");
    assert_eq!(d.get(0).msg, "Extension 'brink::test_sum8': unknown parameter name 'zz'");
    let (d1, mut call) = sum8_call(&["a", "a"]);
    assert!(!d1.resolve_named_ext_args(&mut call, &reg, &Vec::new(), &mut d));
    assert_eq!(d.get(1).code, "IRDB_49");
    assert_eq!(d.get(1).msg, "Extension 'brink::test_sum8': duplicate parameter name 'a'");
    assert_eq!(call.operands, vec![0, 1, 2, 3]);
}

#[test]
fn named_args_missing_parameter() {
    let reg = registry();
    let (d0, mut call) = sum8_call(&["a", "b", "c", "d", "e", "f", "g"]);
    let mut d = diags();
    assert!(!d0.resolve_named_ext_args(&mut call, &reg, &Vec::new(), &mut d));
    assert_eq!(d.get(0).code, "IRDB_51");
    assert_eq!(d.get(0).msg, "Extension 'brink::test_sum8': missing required parameter 'h'");
}

#[test]
fn positional_count_must_match() {
    let reg = registry();
    let (d0, mut call) = sum8_call(&["", ""]);
    let mut d = diags();
    assert!(!d0.resolve_named_ext_args(&mut call, &reg, &Vec::new(), &mut d));
    assert_eq!(d.get(0).code, "IRDB_53");
    assert_eq!(d.get(0).msg, "Extension 'brink::test_sum8': expected 8 argument(s), got 2");
}

#[test]
fn slice_parameter_needs_section_name() {
    let reg = registry();
    let secs = vec!["main".to_string()];
    let d0 = db(vec![
        ident("brink::test_increment", 0),
        op(ParameterValue::U64(3), 1),
        ident("other", 2),
        ident("main", 3),
        named(ParameterValue::U64(4), 4, "data"),
        out(5),
    ]);
    let mut d = diags();
    let mut call = ir(IRKind::ExtensionCall, vec![0, 1, 5], 0);
    assert!(!d0.resolve_named_ext_args(&mut call, &reg, &secs, &mut d));
    assert_eq!(d.get(0).code, "IRDB_52");
    assert_eq!(
        d.get(0).msg,
        "Extension 'brink::test_increment': parameter 'data' has kind Slice and requires a section name, not a value expression"
    );
    let mut call = ir(IRKind::ExtensionCall, vec![0, 2, 5], 0);
    assert!(!d0.resolve_named_ext_args(&mut call, &reg, &secs, &mut d));
    assert_eq!(d.get(1).code, "IRDB_54");
    assert_eq!(d.get(1).msg, "Extension 'brink::test_increment': parameter 'data' names an unknown section 'other'");
    let mut call = ir(IRKind::ExtensionCall, vec![0, 3, 5], 0);
    assert!(d0.resolve_named_ext_args(&mut call, &reg, &secs, &mut d));
    let mut call = ir(IRKind::ExtensionCall, vec![0, 4, 5], 0);
    assert!(!d0.resolve_named_ext_args(&mut call, &reg, &secs, &mut d));
    assert_eq!(d.get(2).code, "IRDB_52");
    assert_eq!(d.len(), 3);
}

#[test]
fn unknown_extension_is_left_to_operand_checks() {
    let reg = registry();
    let d0 = db(vec![ident("nope", 0), named(ParameterValue::U64(1), 1, "x"), out(2)]);
    let mut call = ir(IRKind::ExtensionCall, vec![0, 1, 2], 0);
    let mut d = diags();
    assert!(d0.resolve_named_ext_args(&mut call, &reg, &Vec::new(), &mut d));
    assert_eq!(d.len(), 0);
}

fn lin(op: IRKind, operand_vec: Vec<usize>, n: usize, nid: indextree::NodeId) -> brink::linearizer::LinIR {
    brink::linearizer::LinIR { nid, src_loc: span(n), op, operand_vec }
}

#[test]
fn linear_ir_builds_typed_instructions() {
    let mut arena: indextree::Arena<u32> = indextree::Arena::new();
    let nid = arena.new_node(0);
    let lin_db = brink::layoutdb::LayoutDb {
        ir_vec: vec![
            lin(IRKind::SectionStart, vec![0], 0, nid),
            lin(IRKind::Wr(1), vec![1], 1, nid),
            lin(IRKind::Label, vec![2], 2, nid),
            lin(IRKind::SectionEnd, vec![0], 3, nid),
            lin(IRKind::Wrf, vec![3], 4, nid),
            lin(IRKind::Assert, vec![4], 5, nid),
        ],
        operand_vec: Vec::new(),
        output_sec_str: "main".to_string(),
        output_sec_loc: span(0),
        section_names: vec!["main".to_string()],
        region_names: Vec::new(),
    };
    let mut d0 = db(vec![
        ident("main", 0),
        op(ParameterValue::U64(5), 1),
        ident("lab", 2),
        op(ParameterValue::QuotedString("f.bin".to_string()), 3),
        op(ParameterValue::QuotedString("no".to_string()), 4),
    ]);
    let meta = vec![("f.bin".to_string(), FileMeta::File(7))];
    let reg = registry();
    let mut d = diags();
    assert!(!d0.process_linear_ir(&lin_db, &mut d, &reg, &meta));
    assert_eq!(d0.ir_vec.len(), 5);
    assert_eq!(d0.ir_vec[4].kind, IRKind::Wrf);
    assert_eq!(d0.addressed_locs, vec![("main".to_string(), 0), ("lab".to_string(), 2)]);
    assert_eq!(d0.sized_locs, vec![("main".to_string(), (0, 3))]);
    assert_eq!(d0.files.len(), 1);
    assert_eq!(d0.files[0].1.size, 7);
    assert_eq!(d.len(), 1);
    assert_eq!(d.get(0).code, "IRDB_5");
}

#[test]
fn linear_ir_reorders_named_extension_arguments() {
    let mut arena: indextree::Arena<u32> = indextree::Arena::new();
    let nid = arena.new_node(0);
    let (d1, call) = sum8_call(&["h", "g", "f", "e", "d", "c", "b", "a"]);
    let lin_db = brink::layoutdb::LayoutDb {
        ir_vec: vec![lin(IRKind::ExtensionCall, call.operands.clone(), 0, nid)],
        operand_vec: Vec::new(),
        output_sec_str: "main".to_string(),
        output_sec_loc: span(0),
        section_names: Vec::new(),
        region_names: Vec::new(),
    };
    let mut d0 = d1;
    let reg = registry();
    let mut d = diags();
    assert!(d0.process_linear_ir(&lin_db, &mut d, &reg, &Vec::new()));
    assert_eq!(d0.ir_vec[0].operands, vec![0, 8, 7, 6, 5, 4, 3, 2, 1, 9]);
    assert_eq!(d.len(), 0);
}
