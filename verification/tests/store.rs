use bleepscript::store::Store;
use bleepscript::value::{
    bits_of_integer, bits_of_literal, equal_numbers, is_nan, is_zero, number_to_index, RunError,
    Value,
};

fn num(x: f64) -> Value {
    Value::Number(x.to_bits())
}

fn chars(s: &str) -> Vec<char> {
    s.chars().collect()
}

#[test]
fn number_stands_for_the_index_of_its_truncation() {
    let index = |x: f64| number_to_index(x.to_bits(), usize::MAX);
    assert_eq!(index(0.0), Some(0));
    assert_eq!(index(-0.0), Some(0));
    assert_eq!(index(0.99), Some(0));
    assert_eq!(index(-0.99), Some(0));
    assert_eq!(index(5e-324), Some(0));
    assert_eq!(index(1.0), Some(1));
    assert_eq!(index(1.5), Some(1));
    assert_eq!(index(2.999), Some(2));
    assert_eq!(index(255.0), Some(255));
    assert_eq!(index(4503599627370496.0), Some(4503599627370496));
    assert_eq!(index(9007199254740993.0), Some(9007199254740992));
    assert_eq!(index(1e15), Some(1_000_000_000_000_000));
    assert_eq!(index(1e18), Some(1_000_000_000_000_000_000));
    assert_eq!(index(-1.0), None);
    assert_eq!(index(-1e9), None);
    assert_eq!(index(f64::INFINITY), None);
    assert_eq!(index(f64::NEG_INFINITY), None);
    assert_eq!(index(f64::NAN), None);
    assert_eq!(index(1e300), None);
}

#[test]
fn index_is_kept_within_its_limit() {
    assert_eq!(number_to_index(3.0f64.to_bits(), 3), Some(3));
    assert_eq!(number_to_index(3.0f64.to_bits(), 2), None);
    assert_eq!(number_to_index(1e18f64.to_bits(), 1000), None);
    assert_eq!(number_to_index(0.5f64.to_bits(), 0), Some(0));
}

#[test]
fn numbers_are_equal_as_values() {
    assert!(equal_numbers(1.5f64.to_bits(), 1.5f64.to_bits()));
    assert!(!equal_numbers(1.5f64.to_bits(), 2.5f64.to_bits()));
    assert!(equal_numbers(0.0f64.to_bits(), (-0.0f64).to_bits()));
    assert!(!equal_numbers(f64::NAN.to_bits(), f64::NAN.to_bits()));
    assert!(!equal_numbers(f64::NAN.to_bits(), 1.0f64.to_bits()));
    assert!(equal_numbers(f64::INFINITY.to_bits(), f64::INFINITY.to_bits()));
    assert!(is_nan(f64::NAN.to_bits()));
    assert!(!is_nan(f64::INFINITY.to_bits()));
    assert!(!is_nan(0));
    assert!(is_zero(0));
    assert!(is_zero((-0.0f64).to_bits()));
    assert!(!is_zero(5e-324f64.to_bits()));
}

#[test]
fn truth_of_values() {
    assert!(!Value::Null.is_truthy());
    assert!(!num(0.0).is_truthy());
    assert!(!num(-0.0).is_truthy());
    assert!(num(f64::NAN).is_truthy());
    assert!(num(0.1).is_truthy());
    assert!(Value::Str(0).is_truthy());
    assert!(Value::Vector(0).is_truthy());
    assert!(Value::Mapping(0).is_truthy());
    assert!(Value::Closure(0, 0).is_truthy());
    assert!(Value::Native(0).is_truthy());
}

#[test]
fn variable_is_found_up_the_chain() {
    let mut s = Store::new();
    let outer = s.new_frame(vec![num(1.0), num(2.0)], None);
    let inner = s.new_frame(vec![num(3.0)], Some(outer));
    assert_eq!((outer, inner), (0, 1));
    assert_eq!(s.lookup(inner, 0, 0), Some(num(3.0)));
    assert_eq!(s.lookup(inner, 1, 1), Some(num(2.0)));
    assert_eq!(s.lookup(inner, 0, 1), None);
    assert_eq!(s.lookup(inner, 2, 0), None);
    assert_eq!(s.lookup(7, 0, 0), None);
    assert_eq!(s.find_frame(inner, 1), Some(outer));
    assert_eq!(s.find_frame(inner, 2), None);
    assert!(s.assign(inner, 1, 0, num(9.0)));
    assert_eq!(s.lookup(outer, 0, 0), Some(num(9.0)));
    assert!(!s.assign(inner, 1, 2, num(9.0)));
    assert!(!s.assign(inner, 3, 0, num(9.0)));
}

#[test]
fn assignment_through_one_chain_is_read_through_another() {
    let mut s = Store::new();
    let shared = s.new_frame(vec![Value::Null], None);
    let a = s.new_frame(vec![], Some(shared));
    let b = s.new_frame(vec![], Some(a));
    assert!(s.assign(a, 1, 0, num(5.0)));
    assert_eq!(s.lookup(b, 2, 0), Some(num(5.0)));
    let c = s.new_frame(vec![], Some(shared));
    assert_eq!(s.lookup(c, 1, 0), Some(num(5.0)));
}

#[test]
fn frame_grows_by_a_slot() {
    let mut s = Store::new();
    let f = s.new_frame(vec![], None);
    assert_eq!(s.slot_count(f), Some(0));
    assert!(s.push_slot(f, num(1.0)));
    assert_eq!(s.slot_count(f), Some(1));
    assert_eq!(s.lookup(f, 0, 0), Some(num(1.0)));
    assert!(!s.push_slot(3, num(1.0)));
    assert_eq!(s.slot_count(3), None);
}

#[test]
fn vector_takes_indexes_up_to_its_length() {
    let mut s = Store::new();
    let v = s.new_vector(vec![num(1.0), num(2.0)]);
    assert_eq!(v, Value::Vector(0));
    assert_eq!(s.get_element(v, num(1.0)), Ok(num(2.0)));
    assert_eq!(s.get_element(v, num(1.9)), Ok(num(2.0)));
    assert_eq!(s.get_element(v, num(2.0)), Err(RunError::IndexOutOfRange));
    assert_eq!(s.get_element(v, Value::Null), Err(RunError::IndexOutOfRange));
    assert_eq!(s.get_element(v, num(f64::NAN)), Err(RunError::IndexOutOfRange));
    assert_eq!(s.set_element(v, num(0.0), num(7.0)), Ok(()));
    assert_eq!(s.set_element(v, num(2.0), num(8.0)), Ok(()));
    assert_eq!(s.set_element(v, num(4.0), num(9.0)), Err(RunError::IndexOutOfRange));
    assert_eq!(s.vector_len(0), Some(3));
    assert_eq!(s.vector_len(1), None);
    assert_eq!(s.get_element(v, num(0.0)), Ok(num(7.0)));
    assert_eq!(s.get_element(v, num(2.0)), Ok(num(8.0)));
    assert_eq!(s.get_element(Value::Vector(5), num(0.0)), Err(RunError::BadHandle));
    assert_eq!(s.set_element(Value::Vector(5), num(0.0), Value::Null), Err(RunError::BadHandle));
}

#[test]
fn map_keeps_one_value_for_a_key() {
    let mut s = Store::new();
    let m = s.new_map(vec![]);
    let k1 = s.new_string(chars("key"));
    let k2 = s.new_string(chars("key"));
    let other = s.new_string(chars("other"));
    assert_eq!(s.get_element(m, k1), Err(RunError::KeyNotFound));
    assert_eq!(s.set_element(m, k1, num(1.0)), Ok(()));
    assert_eq!(s.set_element(m, k2, num(2.0)), Ok(()));
    assert_eq!(s.get_element(m, k1), Ok(num(2.0)));
    assert_eq!(s.get_element(m, other), Err(RunError::KeyNotFound));
    assert_eq!(s.set_element(m, num(0.0), num(3.0)), Ok(()));
    assert_eq!(s.get_element(m, num(-0.0)), Ok(num(3.0)));
    assert_eq!(s.set_element(m, Value::Null, num(4.0)), Ok(()));
    assert_eq!(s.get_element(m, Value::Null), Ok(num(4.0)));
    assert_eq!(s.set_element(m, m, num(5.0)), Ok(()));
    assert_eq!(s.get_element(m, m), Ok(num(5.0)));
    assert_eq!(s.get_element(Value::Mapping(3), k1), Err(RunError::BadHandle));
}

#[test]
fn nan_key_is_never_found_again() {
    let mut s = Store::new();
    let m = s.new_map(vec![]);
    assert_eq!(s.set_element(m, num(f64::NAN), num(1.0)), Ok(()));
    assert_eq!(s.get_element(m, num(f64::NAN)), Err(RunError::KeyNotFound));
}

#[test]
fn only_vectors_and_maps_have_elements() {
    let mut s = Store::new();
    let text = s.new_string(chars("abc"));
    for v in [Value::Null, num(1.0), text, Value::Closure(0, 0), Value::Native(0)] {
        assert_eq!(s.get_element(v, num(0.0)), Err(RunError::NotIndexable));
        assert_eq!(s.set_element(v, num(0.0), Value::Null), Err(RunError::NotIndexable));
    }
}

#[test]
fn values_are_equal_by_text_or_by_identity() {
    let mut s = Store::new();
    let a = s.new_string(chars("same"));
    let b = s.new_string(chars("same"));
    let c = s.new_string(chars("else"));
    let v = s.new_vector(vec![]);
    let w = s.new_vector(vec![]);
    assert!(s.values_equal(a, b));
    assert!(s.values_equal(a, a));
    assert!(!s.values_equal(a, c));
    assert!(s.values_equal(v, v));
    assert!(!s.values_equal(v, w));
    assert!(s.values_equal(Value::Null, Value::Null));
    assert!(!s.values_equal(Value::Null, num(0.0)));
    assert!(!s.values_equal(num(1.0), a));
    assert!(s.values_equal(Value::Closure(1, 2), Value::Closure(1, 2)));
    assert!(!s.values_equal(Value::Closure(1, 2), Value::Closure(1, 3)));
    assert!(s.values_equal(Value::Str(9), Value::Str(9)));
    assert!(!s.values_equal(Value::Str(9), Value::Str(8)));
    assert_eq!(s.string_text(0), Some(chars("same")));
    assert_eq!(s.string_text(9), None);
}

#[test]
fn whole_numbers_are_encoded_exactly() {
    use_bits(0, 0.0);
    use_bits(1, 1.0);
    use_bits(2, 2.0);
    use_bits(3, 3.0);
    use_bits(10, 10.0);
    use_bits(255, 255.0);
    use_bits(1 << 52, 4503599627370496.0);
    use_bits((1 << 53) - 1, 9007199254740991.0);
    assert_eq!(bits_of_integer(1 << 53), 0);
    assert_eq!(bits_of_integer(u64::MAX), 0);
}

fn use_bits(n: u64, x: f64) {
    assert_eq!(bits_of_integer(n), x.to_bits());
    assert_eq!(number_to_index(bits_of_integer(n), usize::MAX), Some(n as usize));
}

#[test]
fn literals_of_digits_are_encoded() {
    let bits = |s: &str| bits_of_literal(&chars(s));
    assert_eq!(bits("42"), 42.0f64.to_bits());
    assert_eq!(bits("0042"), 42.0f64.to_bits());
    assert_eq!(bits("0"), 0);
    assert_eq!(bits("9007199254740991"), 9007199254740991.0f64.to_bits());
    assert_eq!(bits("9007199254740992"), 0);
    assert_eq!(bits("99999999999999999999999999"), 0);
    assert_eq!(bits("4.5"), 0);
    assert_eq!(bits("x"), 0);
    assert_eq!(bits(""), 0);
}
