use vstd::prelude::*;

verus! {

/// Whether `name` begins with "test".
pub open spec fn starts_with_test(name: Seq<u8>) -> bool {
    name.len() >= 4 && name[0] == 116u8 && name[1] == 101u8 && name[2] == 115u8 && name[3] == 116u8
}

/// A function is run as a test when it is a free function (no enclosing
/// class), returns unit, takes no parameters and its name begins with "test".
pub fn is_test_fct(has_parent: bool, returns_unit: bool, param_count: usize, name: &[u8]) -> (r: bool)
    ensures
        r == (!has_parent && returns_unit && param_count == 0 && starts_with_test(name@)),
{
    if has_parent || !returns_unit || param_count != 0 {
        return false;
    }
    name.len() >= 4 && name[0] == 116u8 && name[1] == 101u8 && name[2] == 115u8 && name[3] == 116u8
}

/// A program's `main` may return unit or int and takes no parameters.
pub fn is_valid_main(returns_unit: bool, returns_int: bool, param_count: usize) -> (r: bool)
    ensures
        r == ((returns_unit || returns_int) && param_count == 0),
{
    (returns_unit || returns_int) && param_count == 0
}

/// Exit status of a program run: 0 when `main` returns unit, else the value
/// that `main` returned.
pub fn main_exit_code(returns_unit: bool, result: i32) -> (r: i32)
    ensures
        r == if returns_unit { 0 } else { result },
{
    if returns_unit {
        0
    } else {
        result
    }
}

/// Number of failed tests of a run.
pub fn failed_tests(tests: u32, passed: u32) -> (r: u32)
    requires
        passed <= tests,
    ensures
        r == tests - passed,
{
    tests - passed
}

} // verus!
