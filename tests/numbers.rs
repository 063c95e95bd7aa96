use duktape_bridge::{AllocShim, JsNumber};

#[test]
fn integers_convert_to_double_bits() {
    assert_eq!(JsNumber::Int(0).to_bits(), 0.0f64.to_bits());
    assert_eq!(JsNumber::Int(2).to_bits(), 2.0f64.to_bits());
    assert_eq!(JsNumber::Int(-3).to_bits(), (-3.0f64).to_bits());
    assert_eq!(JsNumber::Int(9_007_199_254_740_992).to_bits(), 9_007_199_254_740_992.0f64.to_bits());
    assert_eq!(JsNumber::Int(i64::MIN).to_bits(), (i64::MIN as f64).to_bits());
}

#[test]
fn double_bits_read_as_integers() {
    assert_eq!(JsNumber::Bits(3.0f64.to_bits()).as_i64(), Some(3));
    assert_eq!(JsNumber::Bits((-0.0f64).to_bits()).as_i64(), Some(0));
    assert_eq!(JsNumber::Bits(1e18f64.to_bits()).as_i64(), Some(1_000_000_000_000_000_000));
    assert_eq!(JsNumber::Bits(3.5f64.to_bits()).as_i64(), None);
    assert_eq!(JsNumber::Bits(f64::NAN.to_bits()).as_i64(), None);
    assert_eq!(JsNumber::Bits(f64::INFINITY.to_bits()).as_i64(), None);
    assert_eq!(JsNumber::Bits(0.5f64.to_bits()).as_i64(), None);
    assert_eq!(JsNumber::Bits((-2.0f64).to_bits()).as_u64(), None);
    assert_eq!(JsNumber::Bits(2.0f64.to_bits()).as_u64(), Some(2));
    assert_eq!(JsNumber::Int(-1).as_u64(), None);
}

#[test]
fn large_unsigned_becomes_double() {
    assert_eq!(JsNumber::from_u64(5), JsNumber::Int(5));
    assert_eq!(JsNumber::from_u64(u64::MAX), JsNumber::Bits((((u64::MAX >> 11) << 11) as f64).to_bits()));
}

#[test]
fn allocation_accounting_returns_to_zero() {
    let mut shim = AllocShim::new();
    let a = shim.allocate(100);
    let b = shim.allocate(50);
    assert_eq!(shim.total_bytes(), 150);
    assert_eq!(shim.header_size(a), Some(108));
    let a = shim.realloc(Some(a), 10);
    assert_eq!(shim.header_size(a), Some(18));
    assert_eq!(shim.total_bytes(), 60);
    let c = shim.realloc(None, 7);
    assert_eq!(shim.total_bytes(), 67);
    shim.free(Some(b));
    shim.free(None);
    assert_eq!(shim.header_size(b), None);
    assert_eq!(shim.total_bytes(), 17);
    assert_eq!(shim.header_size(c), Some(15));
    shim.release_all();
    assert_eq!(shim.total_bytes(), 0);
}
