use vstd::prelude::*;

verus! {

/// Byte offset from the frame pointer of the first parameter passed on the
/// stack: the saved frame pointer and the return address come first.
pub const PARAM_OFFSET: i32 = 16;

/// Number of parameters passed in registers on x86-64.
pub const REG_PARAMS: usize = 6;

/// Offset of the parameter after the one at `param_offset`: every parameter
/// takes one 8-byte slot.
pub fn next_param_offset(param_offset: i32) -> (r: i32)
    requires
        param_offset + 8 <= i32::MAX,
    ensures
        r == param_offset + 8,
{
    param_offset + 8
}

/// Stack bytes that a caller reserves for a call with `arg_count`
/// arguments: 8 for each argument beyond those passed in registers.
pub fn reserve_stack_for_call(arg_count: usize) -> (r: u32)
    requires
        arg_count <= 0x1000_0000,
    ensures
        r == if arg_count > REG_PARAMS { (arg_count - REG_PARAMS) * 8 } else { 0 },
{
    if arg_count > REG_PARAMS {
        ((arg_count - REG_PARAMS) * 8) as u32
    } else {
        0
    }
}

} // verus!
