use dora_rt::ctxt::Context;
use dora_rt::driver::{failed_tests, is_test_fct, is_valid_main, main_exit_code};
use dora_rt::object::{Array, Str};
use dora_rt::param::{next_param_offset, reserve_stack_for_call};
use dora_rt::stacktrace::{FctId, Stacktrace};
use dora_rt::stdlib::{
    argc, argv, bool_to_int, bool_to_string, ctor_int_array_elem, ctor_int_array_empty,
    int_array_len, int_to_string, parse, str_array_len, strcat, strcmp,
};

fn text(ctxt: &Context, s: dora_rt::object::Handle<Str>) -> Vec<u8> {
    let mut d = Str::data(ctxt, s);
    d.pop();
    d
}

#[test]
fn booleans() {
    let mut ctxt = Context::new(1 << 20);
    assert_eq!(bool_to_int(true), 1);
    assert_eq!(bool_to_int(false), 0);
    let t = bool_to_string(&mut ctxt, true).unwrap();
    let f = bool_to_string(&mut ctxt, false).unwrap();
    assert_eq!(text(&ctxt, t), b"true".to_vec());
    assert_eq!(text(&ctxt, f), b"false".to_vec());
}

#[test]
fn integers_to_text() {
    let mut ctxt = Context::new(1 << 20);
    for (v, s) in [(0, "0"), (7, "7"), (-123, "-123"), (2147483647, "2147483647"), (-2147483648, "-2147483648")] {
        let h = int_to_string(&mut ctxt, v).unwrap();
        assert_eq!(text(&ctxt, h), s.as_bytes().to_vec());
    }
}

#[test]
fn string_comparison() {
    let mut ctxt = Context::new(1 << 20);
    let a = Str::from_buffer(&mut ctxt, b"abc").unwrap();
    let b = Str::from_buffer(&mut ctxt, b"abd").unwrap();
    let c = Str::from_buffer(&mut ctxt, b"ab").unwrap();
    let a2 = Str::from_buffer(&mut ctxt, b"abc").unwrap();
    let z = Str::from_buffer(&mut ctxt, b"ab\0zz").unwrap();
    assert_eq!(strcmp(&ctxt, a, b), -1);
    assert_eq!(strcmp(&ctxt, b, a), 1);
    assert_eq!(strcmp(&ctxt, a, c), 1);
    assert_eq!(strcmp(&ctxt, c, a), -1);
    assert_eq!(strcmp(&ctxt, a, a2), 0);
    assert_eq!(strcmp(&ctxt, z, c), 0);
}

#[test]
fn string_concatenation_and_length() {
    let mut ctxt = Context::new(1 << 20);
    let a = Str::from_buffer(&mut ctxt, b"con").unwrap();
    let b = Str::from_buffer(&mut ctxt, b"cat").unwrap();
    let c = strcat(&mut ctxt, a, b).unwrap();
    assert_eq!(text(&ctxt, c), b"concat".to_vec());
    assert_eq!(str_array_len(&ctxt, c), 6);
}

#[test]
fn generated_array_constructors() {
    let mut ctxt = Context::new(1 << 20);
    let e = ctor_int_array_empty(&mut ctxt).unwrap();
    assert_eq!(int_array_len(&ctxt, e), 0);
    let a = ctor_int_array_elem(&mut ctxt, 5, 42).unwrap();
    assert_eq!(int_array_len(&ctxt, a), 5);
    assert_eq!(Array::get(&ctxt, a, 4), 42);
    assert!(ctor_int_array_elem(&mut ctxt, -1, 0).is_none());
}

#[test]
fn program_arguments() {
    let mut ctxt = Context::new(1 << 20);
    let args = vec![b"one".to_vec(), b"two".to_vec()];
    assert_eq!(argc(&args), 2);
    assert_eq!(argc(&Vec::new()), 0);
    let s = argv(&mut ctxt, &args, 1).unwrap();
    assert_eq!(text(&ctxt, s), b"two".to_vec());
}

#[test]
fn test_functions_are_recognised() {
    assert!(is_test_fct(false, true, 0, b"test_add"));
    assert!(is_test_fct(false, true, 0, b"test"));
    assert!(!is_test_fct(true, true, 0, b"test_add"));
    assert!(!is_test_fct(false, false, 0, b"test_add"));
    assert!(!is_test_fct(false, true, 1, b"test_add"));
    assert!(!is_test_fct(false, true, 0, b"tes"));
    assert!(!is_test_fct(false, true, 0, b"main"));
}

#[test]
fn parameter_layout() {
    assert_eq!(next_param_offset(16), 24);
    assert_eq!(reserve_stack_for_call(0), 0);
    assert_eq!(reserve_stack_for_call(6), 0);
    assert_eq!(reserve_stack_for_call(9), 24);
}

#[test]
fn stack_traces() {
    let mut st = Stacktrace::new();
    assert_eq!(st.len(), 0);
    st.push_entry(FctId(3), 10);
    st.push_entry(FctId(4), 0);
    assert_eq!(st.len(), 2);
    assert_eq!(st.elem(1).fct_id, FctId(4));
    assert_eq!(st.elem(0).lineno, 10);
}

#[test]
fn parsing_integers() {
    assert_eq!(parse(b"42"), 42);
    assert_eq!(parse(b"-17"), -17);
    assert_eq!(parse(b"+5"), 5);
    assert_eq!(parse(b"2147483647"), 2147483647);
    assert_eq!(parse(b"-2147483648"), -2147483648);
    assert_eq!(parse(b"2147483648"), 0);
    assert_eq!(parse(b"99999999999999"), 0);
    assert_eq!(parse(b""), 0);
    assert_eq!(parse(b"-"), 0);
    assert_eq!(parse(b"12a"), 0);
    assert_eq!(parse(b" 1"), 0);
    assert_eq!(parse(b"007"), 7);
}

#[test]
fn program_entry_decisions() {
    assert!(is_valid_main(true, false, 0));
    assert!(is_valid_main(false, true, 0));
    assert!(!is_valid_main(false, false, 0));
    assert!(!is_valid_main(true, false, 1));
    assert_eq!(main_exit_code(true, 7), 0);
    assert_eq!(main_exit_code(false, 7), 7);
    assert_eq!(failed_tests(5, 3), 2);
}
