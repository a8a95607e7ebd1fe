use brink::extension::{
    register_test_extensions, BrinkExtension, ExtensionRegistry, MockCrc, MockIncrement, MockLogger,
    MockRangedSum, MockRejectEmpty, MockSum8, ParamArg,
};

#[test]
fn registry_registers_all_mocks() {
    let mut reg = ExtensionRegistry::new();
    register_test_extensions(&mut reg);
    assert_eq!(reg.len(), 7);
    assert_eq!(reg.get("brink::test_crc").unwrap().cached_size, 4);
    assert_eq!(reg.get("brink::test_increment").unwrap().cached_size, 16);
    assert_eq!(reg.get("brink::test_huge_ext").unwrap().cached_size, usize::MAX);
    assert!(reg.get("brink::nope").is_none());
}

#[test]
fn duplicate_registration_is_refused() {
    let mut reg = ExtensionRegistry::new();
    assert!(reg.register(Box::new(MockCrc::new())).is_ok());
    let r = reg.register(Box::new(MockCrc::new()));
    assert_eq!(r, Err("Extension 'brink::test_crc' is already registered".to_string()));
    assert_eq!(reg.len(), 1);
}

#[test]
fn crc_mock_writes_big_endian() {
    let m = MockCrc::new();
    let mut out = [0u8; 4];
    assert!(m.execute(&[ParamArg::Int(0x0102_0304)], &mut out).is_ok());
    assert_eq!(out, [1, 2, 3, 4]);
    assert_eq!(
        m.execute(&[], &mut out),
        Err("Expected exactly 1 argument for CRC".to_string())
    );
    let mut small = [0u8; 2];
    assert_eq!(
        m.execute(&[ParamArg::Int(1)], &mut small),
        Err("Expected 4 bytes of output space".to_string())
    );
}

#[test]
fn logger_mock_always_fails() {
    let m = MockLogger::new();
    let mut out = [0u8; 0];
    assert_eq!(m.execute(&[], &mut out), Err("Intentional mock fallback error".to_string()));
}

#[test]
fn increment_mock_adds_one() {
    let m = MockIncrement::new();
    let data = [0u8, 1, 255, 7];
    let mut out = [0u8; 3];
    assert!(m.execute(&[ParamArg::Slice { data: &data }], &mut out).is_ok());
    assert_eq!(out, [1, 2, 0]);
    assert_eq!(
        m.execute(&[ParamArg::Int(1)], &mut out),
        Err("MockIncrement: args[0] must be ParamArg::Slice".to_string())
    );
}

#[test]
fn ranged_sum_mock_sums_bytes() {
    let m = MockRangedSum::new();
    let data = [1u8, 2, 3, 250];
    let mut out = [0u8; 8];
    assert!(m.execute(&[ParamArg::Slice { data: &data }], &mut out).is_ok());
    assert_eq!(out, [0x00, 0x01, 0, 0, 0, 0, 0, 0]);
}

#[test]
fn reject_empty_mock() {
    let m = MockRejectEmpty::new();
    let empty: [u8; 0] = [];
    let mut out = [0u8; 4];
    assert_eq!(
        m.execute(&[ParamArg::Slice { data: &empty }], &mut out),
        Err("brink::test_reject_empty: input range must not be empty".to_string())
    );
    let data = [9u8];
    assert!(m.execute(&[ParamArg::Slice { data: &data }], &mut out).is_ok());
    assert_eq!(out, [0xAB; 4]);
}

#[test]
fn sum8_mock_sums_ints() {
    let m = MockSum8;
    let args: Vec<ParamArg> = (1..=8).map(ParamArg::Int).collect();
    let mut out = [0u8; 8];
    assert!(m.execute(&args, &mut out).is_ok());
    assert_eq!(out, [36, 0, 0, 0, 0, 0, 0, 0]);
    assert_eq!(
        m.execute(&args[..3], &mut out),
        Err("brink::test_sum8: expected 8 args, got 3".to_string())
    );
}
