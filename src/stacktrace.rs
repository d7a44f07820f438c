use vstd::prelude::*;

verus! {

/// Identifier of a compiled function, as recorded in a stack trace.
#[derive(Clone, Copy, PartialEq, Eq, Structural, Debug)]
pub struct FctId(pub usize);

/// One recorded frame: which function was executing and at which source line
/// (0 when the line is not known).
#[derive(Clone, Copy, Debug)]
pub struct StackElem {
    pub fct_id: FctId,
    pub lineno: i32,
}

/// The frames collected while unwinding, innermost first.
pub struct Stacktrace {
    elems: Vec<StackElem>,
}

impl Stacktrace {
    pub closed spec fn view(&self) -> Seq<StackElem> {
        self.elems@
    }

    pub fn new() -> (r: Stacktrace)
        ensures
            r@ == Seq::<StackElem>::empty(),
    {
        Stacktrace { elems: Vec::new() }
    }

    pub fn len(&self) -> (r: usize)
        ensures
            r == self@.len(),
    {
        self.elems.len()
    }

    pub fn push_entry(&mut self, fct_id: FctId, lineno: i32)
        ensures
            final(self)@ == old(self)@.push(StackElem { fct_id, lineno }),
    {
        self.elems.push(StackElem { fct_id: fct_id, lineno: lineno });
    }

    /// The frame at position `i`, counting from the innermost.
    pub fn elem(&self, i: usize) -> (r: StackElem)
        requires
            i < self@.len(),
        ensures
            r == self@[i as int],
    {
        self.elems[i]
    }
}

/// Frame information that each thread links into a list while it runs
/// generated code; the collector reads its roots from these frames. `last`
/// is the address of the previous record, 0 for none.
#[derive(Clone, Copy, Debug)]
pub struct StackFrameInfo {
    pub last: usize,
    pub sp: usize,
    pub fp: usize,
    pub ra: usize,
    pub xpc: usize,
}

} // verus!
