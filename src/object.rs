use vstd::prelude::*;
use core::marker::PhantomData;

use crate::ctxt::Context;
use crate::gc::{Cell, Space, heap_alloc_result, live};
use crate::class::{
    Class, ClassKind, ElemKind, HEADER_SIZE, PTR_WIDTH, elem_size, elem_size_of, field_count,
    valid_ref_offset, has_kind, ClassId,
};

verus! {

/// The prefix of every object: the class it belongs to, the collector's
/// mark bit and the link to the previously allocated heap object (0 ends
/// the chain).
#[derive(Clone, Copy, Debug)]
pub struct Header {
    pub vtable: usize,
    pub mark: bool,
    pub next: usize,
}

impl Header {
    /// Byte width of the header; every size formula starts with it.
    pub fn size() -> (r: i32)
        ensures
            r == HEADER_SIZE,
    {
        HEADER_SIZE as i32
    }

    /// Registry index of the object's class.
    pub fn vtblptr(&self) -> (r: usize)
        ensures
            r == self.vtable,
    {
        self.vtable
    }

    /// The object's class metadata.
    pub fn vtbl<'a>(&self, classes: &'a Vec<Class>) -> (r: &'a Class)
        requires
            self.vtable < classes@.len(),
        ensures
            *r == classes@[self.vtable as int],
    {
        &classes[self.vtable]
    }

    pub fn set_mark(&mut self, value: bool)
        ensures
            *final(self) == (Header { mark: value, ..*old(self) }),
    {
        self.mark = value;
    }

    pub fn marked(&self) -> (r: bool)
        ensures
            r == self.mark,
    {
        self.mark
    }

    pub fn set_succ(&mut self, addr: usize)
        ensures
            *final(self) == (Header { next: addr, ..*old(self) }),
    {
        self.next = addr;
    }

    pub fn succ(&self) -> (r: usize)
        ensures
            r == self.next,
    {
        self.next
    }
}

/// What follows the header, one variant per instance shape. Plain instances
/// hold pointer-sized fields (field `i` lies at byte offset
/// `HEADER_SIZE + PTR_WIDTH * i`); strings hold their bytes followed by a zero
/// byte; float arrays hold IEEE-754 bit patterns.
pub enum Body {
    Fields(Vec<usize>),
    Str(Vec<u8>),
    Bools(Vec<bool>),
    Bytes(Vec<u8>),
    Chars(Vec<char>),
    Ints(Vec<i32>),
    Longs(Vec<i64>),
    Floats(Vec<u32>),
    Doubles(Vec<u64>),
}

/// Number of elements (for a string: of payload bytes) held by a body.
pub open spec fn body_len(b: Body) -> int {
    match b {
        Body::Fields(v) => v@.len() as int,
        Body::Str(v) => v@.len() - 1,
        Body::Bools(v) => v@.len() as int,
        Body::Bytes(v) => v@.len() as int,
        Body::Chars(v) => v@.len() as int,
        Body::Ints(v) => v@.len() as int,
        Body::Longs(v) => v@.len() as int,
        Body::Floats(v) => v@.len() as int,
        Body::Doubles(v) => v@.len() as int,
    }
}

/// The instance shape that a body has.
pub open spec fn body_kind(b: Body) -> ClassKind {
    match b {
        Body::Fields(_) => ClassKind::Plain,
        Body::Str(_) => ClassKind::Str,
        Body::Bools(_) => ClassKind::Array(ElemKind::Bool),
        Body::Bytes(_) => ClassKind::Array(ElemKind::Byte),
        Body::Chars(_) => ClassKind::Array(ElemKind::Char),
        Body::Ints(_) => ClassKind::Array(ElemKind::Int),
        Body::Longs(_) => ClassKind::Array(ElemKind::Long),
        Body::Floats(_) => ClassKind::Array(ElemKind::Float),
        Body::Doubles(_) => ClassKind::Array(ElemKind::Double),
    }
}

/// Payload bytes of a string body, without the terminating zero.
pub open spec fn str_bytes(b: Body) -> Seq<u8> {
    match b {
        Body::Str(v) => v@.drop_last(),
        _ => Seq::empty(),
    }
}

/// Total byte size of a string of `len` bytes.
pub open spec fn str_size(len: int) -> int {
    HEADER_SIZE + PTR_WIDTH + len + 1
}

/// Total byte size of an array of `len` elements of kind `k`.
pub open spec fn array_size(k: ElemKind, len: int) -> int {
    HEADER_SIZE + PTR_WIDTH + len * elem_size(k)
}

/// The word stored at byte offset `off` of a plain instance (0 where there is none).
pub open spec fn field_word(b: Body, off: usize) -> usize {
    match b {
        Body::Fields(v) => {
            let i = (off - HEADER_SIZE) / (PTR_WIDTH as int);
            if off >= HEADER_SIZE && 0 <= i < v@.len() {
                v@[i]
            } else {
                0
            }
        },
        _ => 0,
    }
}

/// A generic view of any object: header plus body.
pub struct Obj {
    pub header: Header,
    pub body: Body,
}

impl Obj {
    /// The body has the shape of the class; a string body ends with its zero byte.
    pub open spec fn fits(&self, cls: Class) -> bool {
        &&& body_kind(self.body) == cls.kind
        &&& (cls.kind == ClassKind::Plain ==> body_len(self.body) == field_count(cls.size))
        &&& (self.body is Str ==> body_len(self.body) >= 0 && self.body->Str_0@.last() == 0)
    }

    /// Byte size of the object: the class's static size where it is nonzero,
    /// else the size formula of its shape.
    pub open spec fn spec_size(&self, cls: Class) -> int {
        if cls.size > 0 {
            cls.size as int
        } else {
            match cls.kind {
                ClassKind::Str => str_size(body_len(self.body)),
                ClassKind::Array(k) => array_size(k, body_len(self.body)),
                ClassKind::Plain => 0,
            }
        }
    }

    pub fn header(&self) -> (r: &Header)
        ensures
            *r == self.header,
    {
        &self.header
    }

    pub fn header_mut(&mut self) -> (r: &mut Header)
        ensures
            *r == old(self).header,
            *final(self) == (Obj { header: *final(r), body: old(self).body }),
    {
        &mut self.header
    }

    /// Number of elements of the body (payload bytes for a string).
    pub fn data_len(&self) -> (r: usize)
        requires
            body_len(self.body) >= 0,
        ensures
            r == body_len(self.body),
    {
        match &self.body {
            Body::Fields(v) => v.len(),
            Body::Str(v) => v.len() - 1,
            Body::Bools(v) => v.len(),
            Body::Bytes(v) => v.len(),
            Body::Chars(v) => v.len(),
            Body::Ints(v) => v.len(),
            Body::Longs(v) => v.len(),
            Body::Floats(v) => v.len(),
            Body::Doubles(v) => v.len(),
        }
    }

    /// Byte size of the object as the collector and the allocator count it.
    pub fn size(&self, classes: &Vec<Class>) -> (r: usize)
        requires
            self.header.vtable < classes@.len(),
            classes@[self.header.vtable as int].wf(),
            self.fits(classes@[self.header.vtable as int]),
            self.spec_size(classes@[self.header.vtable as int]) <= usize::MAX,
        ensures
            r == self.spec_size(classes@[self.header.vtable as int]),
    {
        let cls = &classes[self.header.vtable];
        if cls.size > 0 {
            return cls.size;
        }
        let n = self.data_len();
        match cls.kind {
            ClassKind::Str => HEADER_SIZE + PTR_WIDTH + n + 1,
            ClassKind::Array(k) => {
                let es = elem_size_of(k);
                proof {
                    assert(0 <= n * es <= n * es + HEADER_SIZE + PTR_WIDTH) by (nonlinear_arith);
                }
                HEADER_SIZE + PTR_WIDTH + n * es
            },
            ClassKind::Plain => 0,
        }
    }

    /// The word held by the field at byte offset `off` of a plain instance.
    pub fn field(&self, cls: &Class, off: usize) -> (r: usize)
        requires
            cls.wf(),
            cls.kind == ClassKind::Plain,
            self.fits(*cls),
            valid_ref_offset(cls.size, off),
        ensures
            r == field_word(self.body, off),
    {
        match &self.body {
            Body::Fields(v) => {
                let i = (off - HEADER_SIZE) / PTR_WIDTH;
                proof {
                    let c = (cls.size - HEADER_SIZE) / (PTR_WIDTH as int);
                    assert(cls.size - HEADER_SIZE == c * 8);
                    assert(off - HEADER_SIZE == i * 8);
                    assert(i * 8 + 8 <= c * 8);
                    assert(i < c) by (nonlinear_arith)
                        requires
                            i * 8 + 8 <= c * 8,
                    ;
                }
                v[i]
            },
            _ => 0,
        }
    }

    /// The values held by the object's reference fields, in the order of the
    /// class's offset list; the collector follows each of them.
    pub fn visit_reference_fields(&self, cls: &Class) -> (r: Vec<usize>)
        requires
            cls.wf(),
            self.fits(*cls),
        ensures
            r@.len() == cls.ref_fields@.len(),
            forall|k: int|
                0 <= k < r@.len() ==> #[trigger] r@[k] == field_word(
                    self.body,
                    cls.ref_fields@[k],
                ),
    {
        let mut r: Vec<usize> = Vec::new();
        let mut k: usize = 0;
        while k < cls.ref_fields.len()
            invariant
                cls.wf(),
                self.fits(*cls),
                k <= cls.ref_fields@.len(),
                r@.len() == k,
                forall|j: int|
                    0 <= j < k ==> #[trigger] r@[j] == field_word(self.body, cls.ref_fields@[j]),
            decreases cls.ref_fields@.len() - k,
        {
            let off = cls.ref_fields[k];
            assert(valid_ref_offset(cls.size, cls.ref_fields@[k as int]));
            let w = self.field(cls, off);
            r.push(w);
            k = k + 1;
        }
        r
    }
}

/// A typed, copyable reference to an object: the object's address in the
/// arena. It owns nothing; the collector owns the storage.
pub struct Handle<T> {
    pub ptr: usize,
    pub phantom: PhantomData<T>,
}

impl<T> Clone for Handle<T> {
    fn clone(&self) -> (r: Handle<T>)
        ensures
            r.ptr == self.ptr,
    {
        Handle { ptr: self.ptr, phantom: PhantomData }
    }
}

impl<T> Copy for Handle<T> {

}

impl<T> Handle<T> {
    pub fn from_raw(ptr: usize) -> (r: Handle<T>)
        ensures
            r.ptr == ptr,
    {
        Handle { ptr: ptr, phantom: PhantomData }
    }

    pub fn raw(&self) -> (r: usize)
        ensures
            r == self.ptr,
    {
        self.ptr
    }
}

/// All bytes of a string body: the payload followed by its zero byte.
pub open spec fn str_data(b: Body) -> Seq<u8> {
    match b {
        Body::Str(v) => v@,
        _ => Seq::empty(),
    }
}

/// Appends the first `n` bytes of `src` to `out`.
fn append_prefix(out: &mut Vec<u8>, src: &[u8], n: usize)
    requires
        n <= src@.len(),
    ensures
        final(out)@ == old(out)@ + src@.take(n as int),
{
    let ghost start = out@;
    let mut i: usize = 0;
    while i < n
        invariant
            n <= src@.len(),
            i <= n,
            out@ == start + src@.take(i as int),
        decreases n - i,
    {
        out.push(src[i]);
        i = i + 1;
        proof {
            assert(src@.take(i as int) =~= src@.take(i - 1).push(src@[i - 1]));
            assert(out@ =~= start + src@.take(i as int));
        }
    }
}

/// The object at `a` is a string.
pub open spec fn str_at(ctxt: &Context, a: usize) -> bool {
    live(ctxt.gc.cells(), a as int) && ctxt.gc.cells()[a as int]->0.obj.body is Str
}

/// Payload bytes of the string at `a`.
pub open spec fn str_bytes_at(ctxt: &Context, a: usize) -> Seq<u8> {
    str_bytes(ctxt.gc.cells()[a as int]->0.obj.body)
}

/// The object made by a string constructor: class `cls`, unmarked, holding
/// `bytes` followed by a zero byte.
pub open spec fn new_str_at(ctxt: &Context, a: usize, space: Space, bytes: Seq<u8>) -> bool {
    &&& live(ctxt.gc.cells(), a as int)
    &&& ctxt.gc.cells()[a as int]->0.space == space
    &&& ctxt.gc.cells()[a as int]->0.obj.header.vtable == ctxt.primitive_classes.str_class.0
    &&& !ctxt.gc.cells()[a as int]->0.obj.header.mark
    &&& ctxt.gc.cells()[a as int]->0.obj.body is Str
    &&& str_data(ctxt.gc.cells()[a as int]->0.obj.body) == bytes.push(0)
}

/// The string shape: header, length and inline bytes. Its objects live in
/// the arena and are reached through a `Handle<Str>`.
#[derive(Clone, Copy, Debug)]
pub struct Str;

impl Str {
    /// Builds the unattached string object holding `buf`.
    fn build(ctxt: &Context, buf: &[u8]) -> (r: Obj)
        requires
            ctxt.wf(),
            str_size(buf@.len() as int) <= usize::MAX,
        ensures
            r.header.vtable == ctxt.primitive_classes.str_class.0,
            r.body is Str,
            str_data(r.body) == buf@.push(0),
            r.spec_size(ctxt.classes@[r.header.vtable as int]) == str_size(buf@.len() as int),
            cell_wf_any(ctxt, r),
    {
        let mut data: Vec<u8> = Vec::new();
        append_prefix(&mut data, buf, buf.len());
        data.push(0);
        proof {
            assert(buf@.take(buf@.len() as int) =~= buf@);
            assert(data@.drop_last() =~= buf@);
        }
        let r = Obj {
            header: Header { vtable: ctxt.primitive_classes.str_class.0, mark: false, next: 0 },
            body: Body::Str(data),
        };
        proof {
            assert(has_kind(ctxt.classes@, ctxt.primitive_classes.str_class, ClassKind::Str));
            assert(ctxt.classes@[r.header.vtable as int].wf());
        }
        r
    }

    /// Allocates a string holding `buf` in the collected heap; `None` when
    /// the heap has no room for it even after a collection.
    pub fn from_buffer(ctxt: &mut Context, buf: &[u8]) -> (r: Option<Handle<Str>>)
        requires
            old(ctxt).wf(),
            str_size(buf@.len() as int) <= usize::MAX,
        ensures
            final(ctxt).wf(),
            final(ctxt).classes@ == old(ctxt).classes@,
            final(ctxt).primitive_classes == old(ctxt).primitive_classes,
            final(ctxt).gc.root_set() == old(ctxt).gc.root_set(),
            final(ctxt).gc.limit_bytes() == old(ctxt).gc.limit_bytes(),
            heap_alloc_result(
                old(ctxt).classes@,
                old(ctxt).gc.cells(),
                final(ctxt).gc.cells(),
                old(ctxt).gc.root_set(),
                match r {
                    Some(h) => Some(h.ptr),
                    None => None,
                },
            ),
            old(ctxt).gc.used_bytes() + str_size(buf@.len() as int) <= old(ctxt).gc.limit_bytes() ==> r is Some && final(ctxt).gc.used_bytes() == old(ctxt).gc.used_bytes() + str_size(buf@.len() as int),
            r matches Some(h) ==> new_str_at(&*final(ctxt), h.ptr, Space::Heap, buf@),
    {
        let obj = Str::build(ctxt, buf);
        match ctxt.gc.allocate(&ctxt.classes, obj) {
            Some(a) => Some(Handle::from_raw(a)),
            None => None,
        }
    }

    /// Allocates a string holding `buf` in the permanent space.
    pub fn from_buffer_in_perm(ctxt: &mut Context, buf: &[u8]) -> (r: Handle<Str>)
        requires
            old(ctxt).wf(),
            str_size(buf@.len() as int) <= usize::MAX,
        ensures
            final(ctxt).wf(),
            final(ctxt).classes@ == old(ctxt).classes@,
            final(ctxt).primitive_classes == old(ctxt).primitive_classes,
            final(ctxt).gc.root_set() == old(ctxt).gc.root_set(),
            final(ctxt).gc.limit_bytes() == old(ctxt).gc.limit_bytes(),
            final(ctxt).gc.used_bytes() == old(ctxt).gc.used_bytes(),
            r.ptr == old(ctxt).gc.cells().len(),
            final(ctxt).gc.cells().len() == r.ptr + 1,
            final(ctxt).gc.cells().take(r.ptr as int) == old(ctxt).gc.cells(),
            new_str_at(&*final(ctxt), r.ptr, Space::Perm, buf@),
    {
        let obj = Str::build(ctxt, buf);
        let a = ctxt.gc.alloc_perm(&ctxt.classes, obj);
        Handle::from_raw(a)
    }

    /// Number of payload bytes of the string.
    pub fn len(ctxt: &Context, h: Handle<Str>) -> (r: usize)
        requires
            ctxt.wf(),
            str_at(ctxt, h.ptr),
        ensures
            r == str_bytes_at(ctxt, h.ptr).len(),
    {
        proof {
            ctxt.gc.lemma_wf_facts(ctxt.classes@);
        }
        ctxt.gc.obj(h.ptr).data_len()
    }

    /// The string's bytes followed by its zero byte.
    pub fn data(ctxt: &Context, h: Handle<Str>) -> (r: Vec<u8>)
        requires
            ctxt.wf(),
            str_at(ctxt, h.ptr),
        ensures
            r@ == str_data(ctxt.gc.cells()[h.ptr as int]->0.obj.body),
            r@ == str_bytes_at(ctxt, h.ptr).push(0),
    {
        proof {
            ctxt.gc.lemma_wf_facts(ctxt.classes@);
        }
        let o = ctxt.gc.obj(h.ptr);
        let mut r: Vec<u8> = Vec::new();
        match &o.body {
            Body::Str(v) => {
                append_prefix(&mut r, v.as_slice(), v.len());
                proof {
                    assert(v@.take(v@.len() as int) =~= v@);
                    assert(v@.drop_last().push(v@.last()) =~= v@);
                }
            },
            _ => {},
        }
        r
    }

    /// The string's header.
    pub fn header(ctxt: &Context, h: Handle<Str>) -> (r: Header)
        requires
            ctxt.wf(),
            str_at(ctxt, h.ptr),
        ensures
            r == ctxt.gc.cells()[h.ptr as int]->0.obj.header,
    {
        ctxt.gc.obj(h.ptr).header
    }

    /// Byte size of the string object.
    pub fn size(ctxt: &Context, h: Handle<Str>) -> (r: usize)
        requires
            ctxt.wf(),
            str_at(ctxt, h.ptr),
        ensures
            r == str_size(str_bytes_at(ctxt, h.ptr).len() as int),
    {
        proof {
            ctxt.gc.lemma_wf_facts(ctxt.classes@);
            let vt = ctxt.gc.cells()[h.ptr as int]->0.obj.header.vtable as int;
            assert(ctxt.classes@[vt].wf());
        }
        ctxt.gc.obj(h.ptr).size(&ctxt.classes)
    }

    /// Allocates in the collected heap the string made of `lhs`'s bytes
    /// followed by `rhs`'s; `None` when the heap has no room for it even
    /// after a collection.
    pub fn concat(ctxt: &mut Context, lhs: Handle<Str>, rhs: Handle<Str>) -> (r: Option<Handle<Str>>)
        requires
            old(ctxt).wf(),
            str_at(&*old(ctxt), lhs.ptr),
            str_at(&*old(ctxt), rhs.ptr),
            str_size((str_bytes_at(&*old(ctxt), lhs.ptr).len() + str_bytes_at(&*old(ctxt), rhs.ptr).len()) as int)
                <= usize::MAX,
        ensures
            final(ctxt).wf(),
            final(ctxt).classes@ == old(ctxt).classes@,
            final(ctxt).primitive_classes == old(ctxt).primitive_classes,
            final(ctxt).gc.root_set() == old(ctxt).gc.root_set(),
            final(ctxt).gc.limit_bytes() == old(ctxt).gc.limit_bytes(),
            heap_alloc_result(
                old(ctxt).classes@,
                old(ctxt).gc.cells(),
                final(ctxt).gc.cells(),
                old(ctxt).gc.root_set(),
                match r {
                    Some(h) => Some(h.ptr),
                    None => None,
                },
            ),
            ({
                let size = str_size(
                    (str_bytes_at(&*old(ctxt), lhs.ptr).len() + str_bytes_at(&*old(ctxt), rhs.ptr).len()) as int,
                );
                old(ctxt).gc.used_bytes() + size <= old(ctxt).gc.limit_bytes() ==> r is Some
                    && final(ctxt).gc.used_bytes() == old(ctxt).gc.used_bytes() + size
            }),
            r matches Some(h) ==> new_str_at(
                &*final(ctxt),
                h.ptr,
                Space::Heap,
                str_bytes_at(&*old(ctxt), lhs.ptr) + str_bytes_at(&*old(ctxt), rhs.ptr),
            ),
    {
        let a = Str::data(ctxt, lhs);
        let b = Str::data(ctxt, rhs);
        let mut buf: Vec<u8> = Vec::new();
        append_prefix(&mut buf, a.as_slice(), a.len() - 1);
        append_prefix(&mut buf, b.as_slice(), b.len() - 1);
        proof {
            assert(a@.take(a@.len() - 1) =~= str_bytes_at(&*old(ctxt), lhs.ptr));
            assert(b@.take(b@.len() - 1) =~= str_bytes_at(&*old(ctxt), rhs.ptr));
        }
        Str::from_buffer(ctxt, buf.as_slice())
    }
}

/// An element type of primitive arrays, tied to the body variant that holds it.
pub trait ArrayElem: Copy + Sized {
    spec fn kind() -> ElemKind;

    /// The elements of `b`, where `b` is an array body of this element type.
    spec fn elems(b: Body) -> Option<Seq<Self>>;

    proof fn lemma_elems(b: Body)
        ensures
            (body_kind(b) == ClassKind::Array(Self::kind())) == (Self::elems(b) is Some),
            Self::elems(b) is Some ==> Self::elems(b)->0.len() == body_len(b),
    ;

    fn elem_kind() -> (r: ElemKind)
        ensures
            r == Self::kind(),
    ;

    fn into_body(v: Vec<Self>) -> (b: Body)
        ensures
            Self::elems(b) == Some(v@),
            body_kind(b) == ClassKind::Array(Self::kind()),
    ;

    fn read(b: &Body, i: usize) -> (r: Self)
        requires
            Self::elems(*b) is Some,
            i < Self::elems(*b)->0.len(),
        ensures
            r == Self::elems(*b)->0[i as int],
    ;

    fn write(b: &mut Body, i: usize, v: Self)
        requires
            Self::elems(*old(b)) is Some,
            i < Self::elems(*old(b))->0.len(),
        ensures
            Self::elems(*final(b)) == Some(Self::elems(*old(b))->0.update(i as int, v)),
    ;
}

impl ArrayElem for bool {
    open spec fn kind() -> ElemKind {
        ElemKind::Bool
    }

    open spec fn elems(b: Body) -> Option<Seq<bool>> {
        match b {
            Body::Bools(v) => Some(v@),
            _ => None,
        }
    }

    proof fn lemma_elems(b: Body) {
    }

    fn elem_kind() -> (r: ElemKind) {
        ElemKind::Bool
    }

    fn into_body(v: Vec<bool>) -> (b: Body) {
        Body::Bools(v)
    }

    fn write(b: &mut Body, i: usize, v: bool) {
        match b {
            Body::Bools(e) => {
                e.set(i, v);
            },
            _ => {},
        }
    }

    fn read(b: &Body, i: usize) -> (r: bool) {
        let unreached: bool = false;
        match b {
            Body::Bools(v) => v[i],
            _ => {
                unreached
            },
        }
    }
}

impl ArrayElem for u8 {
    open spec fn kind() -> ElemKind {
        ElemKind::Byte
    }

    open spec fn elems(b: Body) -> Option<Seq<u8>> {
        match b {
            Body::Bytes(v) => Some(v@),
            _ => None,
        }
    }

    proof fn lemma_elems(b: Body) {
    }

    fn elem_kind() -> (r: ElemKind) {
        ElemKind::Byte
    }

    fn into_body(v: Vec<u8>) -> (b: Body) {
        Body::Bytes(v)
    }

    fn write(b: &mut Body, i: usize, v: u8) {
        match b {
            Body::Bytes(e) => {
                e.set(i, v);
            },
            _ => {},
        }
    }

    fn read(b: &Body, i: usize) -> (r: u8) {
        let unreached: u8 = 0;
        match b {
            Body::Bytes(v) => v[i],
            _ => {
                unreached
            },
        }
    }
}

impl ArrayElem for char {
    open spec fn kind() -> ElemKind {
        ElemKind::Char
    }

    open spec fn elems(b: Body) -> Option<Seq<char>> {
        match b {
            Body::Chars(v) => Some(v@),
            _ => None,
        }
    }

    proof fn lemma_elems(b: Body) {
    }

    fn elem_kind() -> (r: ElemKind) {
        ElemKind::Char
    }

    fn into_body(v: Vec<char>) -> (b: Body) {
        Body::Chars(v)
    }

    fn write(b: &mut Body, i: usize, v: char) {
        match b {
            Body::Chars(e) => {
                e.set(i, v);
            },
            _ => {},
        }
    }

    fn read(b: &Body, i: usize) -> (r: char) {
        let unreached: char = '\0';
        match b {
            Body::Chars(v) => v[i],
            _ => {
                unreached
            },
        }
    }
}

impl ArrayElem for i32 {
    open spec fn kind() -> ElemKind {
        ElemKind::Int
    }

    open spec fn elems(b: Body) -> Option<Seq<i32>> {
        match b {
            Body::Ints(v) => Some(v@),
            _ => None,
        }
    }

    proof fn lemma_elems(b: Body) {
    }

    fn elem_kind() -> (r: ElemKind) {
        ElemKind::Int
    }

    fn into_body(v: Vec<i32>) -> (b: Body) {
        Body::Ints(v)
    }

    fn write(b: &mut Body, i: usize, v: i32) {
        match b {
            Body::Ints(e) => {
                e.set(i, v);
            },
            _ => {},
        }
    }

    fn read(b: &Body, i: usize) -> (r: i32) {
        let unreached: i32 = 0;
        match b {
            Body::Ints(v) => v[i],
            _ => {
                unreached
            },
        }
    }
}

impl ArrayElem for i64 {
    open spec fn kind() -> ElemKind {
        ElemKind::Long
    }

    open spec fn elems(b: Body) -> Option<Seq<i64>> {
        match b {
            Body::Longs(v) => Some(v@),
            _ => None,
        }
    }

    proof fn lemma_elems(b: Body) {
    }

    fn elem_kind() -> (r: ElemKind) {
        ElemKind::Long
    }

    fn into_body(v: Vec<i64>) -> (b: Body) {
        Body::Longs(v)
    }

    fn write(b: &mut Body, i: usize, v: i64) {
        match b {
            Body::Longs(e) => {
                e.set(i, v);
            },
            _ => {},
        }
    }

    fn read(b: &Body, i: usize) -> (r: i64) {
        let unreached: i64 = 0;
        match b {
            Body::Longs(v) => v[i],
            _ => {
                unreached
            },
        }
    }
}

impl ArrayElem for u32 {
    open spec fn kind() -> ElemKind {
        ElemKind::Float
    }

    open spec fn elems(b: Body) -> Option<Seq<u32>> {
        match b {
            Body::Floats(v) => Some(v@),
            _ => None,
        }
    }

    proof fn lemma_elems(b: Body) {
    }

    fn elem_kind() -> (r: ElemKind) {
        ElemKind::Float
    }

    fn into_body(v: Vec<u32>) -> (b: Body) {
        Body::Floats(v)
    }

    fn write(b: &mut Body, i: usize, v: u32) {
        match b {
            Body::Floats(e) => {
                e.set(i, v);
            },
            _ => {},
        }
    }

    fn read(b: &Body, i: usize) -> (r: u32) {
        let unreached: u32 = 0;
        match b {
            Body::Floats(v) => v[i],
            _ => {
                unreached
            },
        }
    }
}

impl ArrayElem for u64 {
    open spec fn kind() -> ElemKind {
        ElemKind::Double
    }

    open spec fn elems(b: Body) -> Option<Seq<u64>> {
        match b {
            Body::Doubles(v) => Some(v@),
            _ => None,
        }
    }

    proof fn lemma_elems(b: Body) {
    }

    fn elem_kind() -> (r: ElemKind) {
        ElemKind::Double
    }

    fn into_body(v: Vec<u64>) -> (b: Body) {
        Body::Doubles(v)
    }

    fn write(b: &mut Body, i: usize, v: u64) {
        match b {
            Body::Doubles(e) => {
                e.set(i, v);
            },
            _ => {},
        }
    }

    fn read(b: &Body, i: usize) -> (r: u64) {
        let unreached: u64 = 0;
        match b {
            Body::Doubles(v) => v[i],
            _ => {
                unreached
            },
        }
    }
}

/// The object at `a` is an array of `T`.
pub open spec fn array_at<T: ArrayElem>(ctxt: &Context, a: usize) -> bool {
    live(ctxt.gc.cells(), a as int) && T::elems(ctxt.gc.cells()[a as int]->0.obj.body) is Some
}

/// The elements of the array at `a`.
pub open spec fn array_elems<T: ArrayElem>(ctxt: &Context, a: usize) -> Seq<T> {
    T::elems(ctxt.gc.cells()[a as int]->0.obj.body)->0
}

/// The object made by an array constructor: class `cls`, unmarked, in the
/// collected heap, `len` elements all equal to `elem`.
pub open spec fn new_array_at<T: ArrayElem>(ctxt: &Context, a: usize, cls: ClassId, len: nat, elem: T) -> bool {
    &&& array_at::<T>(ctxt, a)
    &&& ctxt.gc.cells()[a as int]->0.space == Space::Heap
    &&& ctxt.gc.cells()[a as int]->0.obj.header.vtable == cls.0
    &&& !ctxt.gc.cells()[a as int]->0.obj.header.mark
    &&& array_elems::<T>(ctxt, a).len() == len
    &&& forall|i: int| 0 <= i < len ==> #[trigger] array_elems::<T>(ctxt, a)[i] == elem
}

/// The array shape: header, length and inline elements of `T`. Its objects
/// live in the arena and are reached through a `Handle<Array<T>>`.
pub struct Array<T> {
    phantom: PhantomData<T>,
}

impl<T: ArrayElem> Array<T> {
    /// Allocates in the collected heap an array of class `clsid` with `len`
    /// elements, each set to `elem` before the array is handed out; `None`
    /// when the heap has no room for it even after a collection.
    pub fn allocate(ctxt: &mut Context, len: usize, elem: T, clsid: ClassId) -> (r: Option<Handle<Array<T>>>)
        requires
            old(ctxt).wf(),
            has_kind(old(ctxt).classes@, clsid, ClassKind::Array(T::kind())),
            array_size(T::kind(), len as int) <= usize::MAX,
        ensures
            final(ctxt).wf(),
            final(ctxt).classes@ == old(ctxt).classes@,
            final(ctxt).primitive_classes == old(ctxt).primitive_classes,
            final(ctxt).gc.root_set() == old(ctxt).gc.root_set(),
            final(ctxt).gc.limit_bytes() == old(ctxt).gc.limit_bytes(),
            heap_alloc_result(
                old(ctxt).classes@,
                old(ctxt).gc.cells(),
                final(ctxt).gc.cells(),
                old(ctxt).gc.root_set(),
                match r {
                    Some(h) => Some(h.ptr),
                    None => None,
                },
            ),
            old(ctxt).gc.used_bytes() + array_size(T::kind(), len as int) <= old(ctxt).gc.limit_bytes() ==> r is Some && final(ctxt).gc.used_bytes() == old(ctxt).gc.used_bytes() + array_size(T::kind(), len as int),
            r matches Some(h) ==> new_array_at(&*final(ctxt), h.ptr, clsid, len as nat, elem),
    {
        let mut v: Vec<T> = Vec::new();
        let mut i: usize = 0;
        while i < len
            invariant
                i <= len,
                v@.len() == i,
                forall|j: int| 0 <= j < i ==> #[trigger] v@[j] == elem,
            decreases len - i,
        {
            v.push(elem);
            i = i + 1;
        }
        let body = T::into_body(v);
        let obj = Obj { header: Header { vtable: clsid.0, mark: false, next: 0 }, body: body };
        proof {
            T::lemma_elems(body);
            assert(ctxt.classes@[clsid.0 as int].wf());
        }
        match ctxt.gc.allocate(&ctxt.classes, obj) {
            Some(a) => Some(Handle::from_raw(a)),
            None => None,
        }
    }

    /// Number of elements of the array.
    pub fn len(ctxt: &Context, h: Handle<Array<T>>) -> (r: usize)
        requires
            ctxt.wf(),
            array_at::<T>(ctxt, h.ptr),
        ensures
            r == array_elems::<T>(ctxt, h.ptr).len(),
    {
        proof {
            T::lemma_elems(ctxt.gc.cells()[h.ptr as int]->0.obj.body);
        }
        ctxt.gc.obj(h.ptr).data_len()
    }

    /// The element at index `i`; the index is the caller's to check.
    pub fn get(ctxt: &Context, h: Handle<Array<T>>, i: usize) -> (r: T)
        requires
            ctxt.wf(),
            array_at::<T>(ctxt, h.ptr),
            i < array_elems::<T>(ctxt, h.ptr).len(),
        ensures
            r == array_elems::<T>(ctxt, h.ptr)[i as int],
    {
        T::read(&ctxt.gc.obj(h.ptr).body, i)
    }

    /// The array's header.
    pub fn header(ctxt: &Context, h: Handle<Array<T>>) -> (r: Header)
        requires
            ctxt.wf(),
            array_at::<T>(ctxt, h.ptr),
        ensures
            r == ctxt.gc.cells()[h.ptr as int]->0.obj.header,
    {
        ctxt.gc.obj(h.ptr).header
    }

    /// A copy of the array's elements.
    pub fn data(ctxt: &Context, h: Handle<Array<T>>) -> (r: Vec<T>)
        requires
            ctxt.wf(),
            array_at::<T>(ctxt, h.ptr),
        ensures
            r@ == array_elems::<T>(ctxt, h.ptr),
    {
        let n = Array::<T>::len(ctxt, h);
        let mut r: Vec<T> = Vec::new();
        let mut i: usize = 0;
        while i < n
            invariant
                ctxt.wf(),
                array_at::<T>(ctxt, h.ptr),
                n == array_elems::<T>(ctxt, h.ptr).len(),
                i <= n,
                r@ == array_elems::<T>(ctxt, h.ptr).take(i as int),
            decreases n - i,
        {
            let x = Array::<T>::get(ctxt, h, i);
            r.push(x);
            i = i + 1;
            proof {
                assert(r@ =~= array_elems::<T>(ctxt, h.ptr).take(i as int));
            }
        }
        proof {
            assert(r@ =~= array_elems::<T>(ctxt, h.ptr));
        }
        r
    }

    /// Stores `v` at index `i`; the index is the caller's to check.
    pub fn set(ctxt: &mut Context, h: Handle<Array<T>>, i: usize, v: T)
        requires
            old(ctxt).wf(),
            array_at::<T>(&*old(ctxt), h.ptr),
            i < array_elems::<T>(&*old(ctxt), h.ptr).len(),
        ensures
            final(ctxt).wf(),
            final(ctxt).classes@ == old(ctxt).classes@,
            final(ctxt).primitive_classes == old(ctxt).primitive_classes,
            final(ctxt).gc.root_set() == old(ctxt).gc.root_set(),
            final(ctxt).gc.limit_bytes() == old(ctxt).gc.limit_bytes(),
            final(ctxt).gc.used_bytes() == old(ctxt).gc.used_bytes(),
            final(ctxt).gc.cells().len() == old(ctxt).gc.cells().len(),
            forall|j: int| 0 <= j < old(ctxt).gc.cells().len() && j != h.ptr ==> final(ctxt).gc.cells()[j] == old(ctxt).gc.cells()[j],
            array_at::<T>(&*final(ctxt), h.ptr),
            final(ctxt).gc.cells()[h.ptr as int]->0.space == old(ctxt).gc.cells()[h.ptr as int]->0.space,
            final(ctxt).gc.cells()[h.ptr as int]->0.obj.header == old(ctxt).gc.cells()[h.ptr as int]->0.obj.header,
            array_elems::<T>(&*final(ctxt), h.ptr) == array_elems::<T>(&*old(ctxt), h.ptr).update(i as int, v),
    {
        ctxt.gc.write_elem(&ctxt.classes, h.ptr, i, v);
    }

    /// Byte size of the array object.
    pub fn size(ctxt: &Context, h: Handle<Array<T>>) -> (r: usize)
        requires
            ctxt.wf(),
            array_at::<T>(ctxt, h.ptr),
        ensures
            r == array_size(T::kind(), array_elems::<T>(ctxt, h.ptr).len() as int),
    {
        proof {
            ctxt.gc.lemma_wf_facts(ctxt.classes@);
            let vt = ctxt.gc.cells()[h.ptr as int]->0.obj.header.vtable as int;
            assert(ctxt.classes@[vt].wf());
            T::lemma_elems(ctxt.gc.cells()[h.ptr as int]->0.obj.body);
        }
        ctxt.gc.obj(h.ptr).size(&ctxt.classes)
    }
}

/// Byte offset of an array's length field, for generated code.
pub fn offset_of_array_length() -> (r: i32)
    ensures
        r == HEADER_SIZE,
{
    HEADER_SIZE as i32
}

/// Byte offset of an array's first element, for generated code.
pub fn offset_of_array_data() -> (r: i32)
    ensures
        r == HEADER_SIZE + PTR_WIDTH,
{
    (HEADER_SIZE + PTR_WIDTH) as i32
}

pub type BoolArray = Array<bool>;

pub type ByteArray = Array<u8>;

pub type CharArray = Array<char>;

pub type IntArray = Array<i32>;

pub type LongArray = Array<i64>;

/// Float elements are held as their IEEE-754 bit patterns.
pub type FloatArray = Array<u32>;

/// Double elements are held as their IEEE-754 bit patterns.
pub type DoubleArray = Array<u64>;

/// An empty char array. `None` when the heap has no room for it even after a collection.
pub fn char_array_empty(ctxt: &mut Context) -> (r: Option<Handle<CharArray>>)
    requires
        old(ctxt).wf(),
    ensures
        final(ctxt).wf(),
        final(ctxt).classes@ == old(ctxt).classes@,
        final(ctxt).primitive_classes == old(ctxt).primitive_classes,
        final(ctxt).gc.root_set() == old(ctxt).gc.root_set(),
        heap_alloc_result(
            old(ctxt).classes@,
            old(ctxt).gc.cells(),
            final(ctxt).gc.cells(),
            old(ctxt).gc.root_set(),
            match r {
                Some(h) => Some(h.ptr),
                None => None,
            },
        ),
        old(ctxt).gc.used_bytes() + array_size(ElemKind::Char, 0) <= old(ctxt).gc.limit_bytes() ==> r is Some && final(ctxt).gc.used_bytes() == old(ctxt).gc.used_bytes() + array_size(ElemKind::Char, 0),
        r matches Some(h) ==> new_array_at(&*final(ctxt), h.ptr, old(ctxt).primitive_classes.char_array, 0 as nat, '\0'),
{
    let clsid = ctxt.primitive_classes.char_array;
    Array::allocate(ctxt, 0, '\0', clsid)
}

/// A char array of `len` elements, each `elem`. `None` when the heap has no room for it even after a collection.
pub fn char_array_with(ctxt: &mut Context, len: usize, elem: char) -> (r: Option<Handle<CharArray>>)
    requires
        old(ctxt).wf(),
            array_size(ElemKind::Char, len as int) <= usize::MAX,
    ensures
        final(ctxt).wf(),
        final(ctxt).classes@ == old(ctxt).classes@,
        final(ctxt).primitive_classes == old(ctxt).primitive_classes,
        final(ctxt).gc.root_set() == old(ctxt).gc.root_set(),
        heap_alloc_result(
            old(ctxt).classes@,
            old(ctxt).gc.cells(),
            final(ctxt).gc.cells(),
            old(ctxt).gc.root_set(),
            match r {
                Some(h) => Some(h.ptr),
                None => None,
            },
        ),
        old(ctxt).gc.used_bytes() + array_size(ElemKind::Char, len as int) <= old(ctxt).gc.limit_bytes() ==> r is Some && final(ctxt).gc.used_bytes() == old(ctxt).gc.used_bytes() + array_size(ElemKind::Char, len as int),
        r matches Some(h) ==> new_array_at(&*final(ctxt), h.ptr, old(ctxt).primitive_classes.char_array, len as nat, elem),
{
    let clsid = ctxt.primitive_classes.char_array;
    Array::allocate(ctxt, len, elem, clsid)
}

/// An empty int array. `None` when the heap has no room for it even after a collection.
pub fn int_array_empty(ctxt: &mut Context) -> (r: Option<Handle<IntArray>>)
    requires
        old(ctxt).wf(),
    ensures
        final(ctxt).wf(),
        final(ctxt).classes@ == old(ctxt).classes@,
        final(ctxt).primitive_classes == old(ctxt).primitive_classes,
        final(ctxt).gc.root_set() == old(ctxt).gc.root_set(),
        heap_alloc_result(
            old(ctxt).classes@,
            old(ctxt).gc.cells(),
            final(ctxt).gc.cells(),
            old(ctxt).gc.root_set(),
            match r {
                Some(h) => Some(h.ptr),
                None => None,
            },
        ),
        old(ctxt).gc.used_bytes() + array_size(ElemKind::Int, 0) <= old(ctxt).gc.limit_bytes() ==> r is Some && final(ctxt).gc.used_bytes() == old(ctxt).gc.used_bytes() + array_size(ElemKind::Int, 0),
        r matches Some(h) ==> new_array_at(&*final(ctxt), h.ptr, old(ctxt).primitive_classes.int_array, 0 as nat, 0i32),
{
    let clsid = ctxt.primitive_classes.int_array;
    Array::allocate(ctxt, 0, 0i32, clsid)
}

/// A int array of `len` elements, each `elem`. `None` when the heap has no room for it even after a collection.
pub fn int_array_with(ctxt: &mut Context, len: usize, elem: i32) -> (r: Option<Handle<IntArray>>)
    requires
        old(ctxt).wf(),
            array_size(ElemKind::Int, len as int) <= usize::MAX,
    ensures
        final(ctxt).wf(),
        final(ctxt).classes@ == old(ctxt).classes@,
        final(ctxt).primitive_classes == old(ctxt).primitive_classes,
        final(ctxt).gc.root_set() == old(ctxt).gc.root_set(),
        heap_alloc_result(
            old(ctxt).classes@,
            old(ctxt).gc.cells(),
            final(ctxt).gc.cells(),
            old(ctxt).gc.root_set(),
            match r {
                Some(h) => Some(h.ptr),
                None => None,
            },
        ),
        old(ctxt).gc.used_bytes() + array_size(ElemKind::Int, len as int) <= old(ctxt).gc.limit_bytes() ==> r is Some && final(ctxt).gc.used_bytes() == old(ctxt).gc.used_bytes() + array_size(ElemKind::Int, len as int),
        r matches Some(h) ==> new_array_at(&*final(ctxt), h.ptr, old(ctxt).primitive_classes.int_array, len as nat, elem),
{
    let clsid = ctxt.primitive_classes.int_array;
    Array::allocate(ctxt, len, elem, clsid)
}

/// An empty byte array. `None` when the heap has no room for it even after a collection.
pub fn byte_array_empty(ctxt: &mut Context) -> (r: Option<Handle<ByteArray>>)
    requires
        old(ctxt).wf(),
    ensures
        final(ctxt).wf(),
        final(ctxt).classes@ == old(ctxt).classes@,
        final(ctxt).primitive_classes == old(ctxt).primitive_classes,
        final(ctxt).gc.root_set() == old(ctxt).gc.root_set(),
        heap_alloc_result(
            old(ctxt).classes@,
            old(ctxt).gc.cells(),
            final(ctxt).gc.cells(),
            old(ctxt).gc.root_set(),
            match r {
                Some(h) => Some(h.ptr),
                None => None,
            },
        ),
        old(ctxt).gc.used_bytes() + array_size(ElemKind::Byte, 0) <= old(ctxt).gc.limit_bytes() ==> r is Some && final(ctxt).gc.used_bytes() == old(ctxt).gc.used_bytes() + array_size(ElemKind::Byte, 0),
        r matches Some(h) ==> new_array_at(&*final(ctxt), h.ptr, old(ctxt).primitive_classes.byte_array, 0 as nat, 0u8),
{
    let clsid = ctxt.primitive_classes.byte_array;
    Array::allocate(ctxt, 0, 0u8, clsid)
}

/// A byte array of `len` elements, each `elem`. `None` when the heap has no room for it even after a collection.
pub fn byte_array_with(ctxt: &mut Context, len: usize, elem: u8) -> (r: Option<Handle<ByteArray>>)
    requires
        old(ctxt).wf(),
            array_size(ElemKind::Byte, len as int) <= usize::MAX,
    ensures
        final(ctxt).wf(),
        final(ctxt).classes@ == old(ctxt).classes@,
        final(ctxt).primitive_classes == old(ctxt).primitive_classes,
        final(ctxt).gc.root_set() == old(ctxt).gc.root_set(),
        heap_alloc_result(
            old(ctxt).classes@,
            old(ctxt).gc.cells(),
            final(ctxt).gc.cells(),
            old(ctxt).gc.root_set(),
            match r {
                Some(h) => Some(h.ptr),
                None => None,
            },
        ),
        old(ctxt).gc.used_bytes() + array_size(ElemKind::Byte, len as int) <= old(ctxt).gc.limit_bytes() ==> r is Some && final(ctxt).gc.used_bytes() == old(ctxt).gc.used_bytes() + array_size(ElemKind::Byte, len as int),
        r matches Some(h) ==> new_array_at(&*final(ctxt), h.ptr, old(ctxt).primitive_classes.byte_array, len as nat, elem),
{
    let clsid = ctxt.primitive_classes.byte_array;
    Array::allocate(ctxt, len, elem, clsid)
}

/// An empty bool array. `None` when the heap has no room for it even after a collection.
pub fn bool_array_empty(ctxt: &mut Context) -> (r: Option<Handle<BoolArray>>)
    requires
        old(ctxt).wf(),
    ensures
        final(ctxt).wf(),
        final(ctxt).classes@ == old(ctxt).classes@,
        final(ctxt).primitive_classes == old(ctxt).primitive_classes,
        final(ctxt).gc.root_set() == old(ctxt).gc.root_set(),
        heap_alloc_result(
            old(ctxt).classes@,
            old(ctxt).gc.cells(),
            final(ctxt).gc.cells(),
            old(ctxt).gc.root_set(),
            match r {
                Some(h) => Some(h.ptr),
                None => None,
            },
        ),
        old(ctxt).gc.used_bytes() + array_size(ElemKind::Bool, 0) <= old(ctxt).gc.limit_bytes() ==> r is Some && final(ctxt).gc.used_bytes() == old(ctxt).gc.used_bytes() + array_size(ElemKind::Bool, 0),
        r matches Some(h) ==> new_array_at(&*final(ctxt), h.ptr, old(ctxt).primitive_classes.bool_array, 0 as nat, false),
{
    let clsid = ctxt.primitive_classes.bool_array;
    Array::allocate(ctxt, 0, false, clsid)
}

/// A bool array of `len` elements, each `elem`. `None` when the heap has no room for it even after a collection.
pub fn bool_array_with(ctxt: &mut Context, len: usize, elem: bool) -> (r: Option<Handle<BoolArray>>)
    requires
        old(ctxt).wf(),
            array_size(ElemKind::Bool, len as int) <= usize::MAX,
    ensures
        final(ctxt).wf(),
        final(ctxt).classes@ == old(ctxt).classes@,
        final(ctxt).primitive_classes == old(ctxt).primitive_classes,
        final(ctxt).gc.root_set() == old(ctxt).gc.root_set(),
        heap_alloc_result(
            old(ctxt).classes@,
            old(ctxt).gc.cells(),
            final(ctxt).gc.cells(),
            old(ctxt).gc.root_set(),
            match r {
                Some(h) => Some(h.ptr),
                None => None,
            },
        ),
        old(ctxt).gc.used_bytes() + array_size(ElemKind::Bool, len as int) <= old(ctxt).gc.limit_bytes() ==> r is Some && final(ctxt).gc.used_bytes() == old(ctxt).gc.used_bytes() + array_size(ElemKind::Bool, len as int),
        r matches Some(h) ==> new_array_at(&*final(ctxt), h.ptr, old(ctxt).primitive_classes.bool_array, len as nat, elem),
{
    let clsid = ctxt.primitive_classes.bool_array;
    Array::allocate(ctxt, len, elem, clsid)
}

/// An empty long array. `None` when the heap has no room for it even after a collection.
pub fn long_array_empty(ctxt: &mut Context) -> (r: Option<Handle<LongArray>>)
    requires
        old(ctxt).wf(),
    ensures
        final(ctxt).wf(),
        final(ctxt).classes@ == old(ctxt).classes@,
        final(ctxt).primitive_classes == old(ctxt).primitive_classes,
        final(ctxt).gc.root_set() == old(ctxt).gc.root_set(),
        heap_alloc_result(
            old(ctxt).classes@,
            old(ctxt).gc.cells(),
            final(ctxt).gc.cells(),
            old(ctxt).gc.root_set(),
            match r {
                Some(h) => Some(h.ptr),
                None => None,
            },
        ),
        old(ctxt).gc.used_bytes() + array_size(ElemKind::Long, 0) <= old(ctxt).gc.limit_bytes() ==> r is Some && final(ctxt).gc.used_bytes() == old(ctxt).gc.used_bytes() + array_size(ElemKind::Long, 0),
        r matches Some(h) ==> new_array_at(&*final(ctxt), h.ptr, old(ctxt).primitive_classes.long_array, 0 as nat, 0i64),
{
    let clsid = ctxt.primitive_classes.long_array;
    Array::allocate(ctxt, 0, 0i64, clsid)
}

/// A long array of `len` elements, each `elem`. `None` when the heap has no room for it even after a collection.
pub fn long_array_with(ctxt: &mut Context, len: usize, elem: i64) -> (r: Option<Handle<LongArray>>)
    requires
        old(ctxt).wf(),
            array_size(ElemKind::Long, len as int) <= usize::MAX,
    ensures
        final(ctxt).wf(),
        final(ctxt).classes@ == old(ctxt).classes@,
        final(ctxt).primitive_classes == old(ctxt).primitive_classes,
        final(ctxt).gc.root_set() == old(ctxt).gc.root_set(),
        heap_alloc_result(
            old(ctxt).classes@,
            old(ctxt).gc.cells(),
            final(ctxt).gc.cells(),
            old(ctxt).gc.root_set(),
            match r {
                Some(h) => Some(h.ptr),
                None => None,
            },
        ),
        old(ctxt).gc.used_bytes() + array_size(ElemKind::Long, len as int) <= old(ctxt).gc.limit_bytes() ==> r is Some && final(ctxt).gc.used_bytes() == old(ctxt).gc.used_bytes() + array_size(ElemKind::Long, len as int),
        r matches Some(h) ==> new_array_at(&*final(ctxt), h.ptr, old(ctxt).primitive_classes.long_array, len as nat, elem),
{
    let clsid = ctxt.primitive_classes.long_array;
    Array::allocate(ctxt, len, elem, clsid)
}

/// An empty float array. `None` when the heap has no room for it even after a collection.
pub fn float_array_empty(ctxt: &mut Context) -> (r: Option<Handle<FloatArray>>)
    requires
        old(ctxt).wf(),
    ensures
        final(ctxt).wf(),
        final(ctxt).classes@ == old(ctxt).classes@,
        final(ctxt).primitive_classes == old(ctxt).primitive_classes,
        final(ctxt).gc.root_set() == old(ctxt).gc.root_set(),
        heap_alloc_result(
            old(ctxt).classes@,
            old(ctxt).gc.cells(),
            final(ctxt).gc.cells(),
            old(ctxt).gc.root_set(),
            match r {
                Some(h) => Some(h.ptr),
                None => None,
            },
        ),
        old(ctxt).gc.used_bytes() + array_size(ElemKind::Float, 0) <= old(ctxt).gc.limit_bytes() ==> r is Some && final(ctxt).gc.used_bytes() == old(ctxt).gc.used_bytes() + array_size(ElemKind::Float, 0),
        r matches Some(h) ==> new_array_at(&*final(ctxt), h.ptr, old(ctxt).primitive_classes.float_array, 0 as nat, 0u32),
{
    let clsid = ctxt.primitive_classes.float_array;
    Array::allocate(ctxt, 0, 0u32, clsid)
}

/// A float array of `len` elements, each `elem` (its bit pattern). `None` when the heap has no room for it even after a collection.
pub fn float_array_with(ctxt: &mut Context, len: usize, elem: u32) -> (r: Option<Handle<FloatArray>>)
    requires
        old(ctxt).wf(),
            array_size(ElemKind::Float, len as int) <= usize::MAX,
    ensures
        final(ctxt).wf(),
        final(ctxt).classes@ == old(ctxt).classes@,
        final(ctxt).primitive_classes == old(ctxt).primitive_classes,
        final(ctxt).gc.root_set() == old(ctxt).gc.root_set(),
        heap_alloc_result(
            old(ctxt).classes@,
            old(ctxt).gc.cells(),
            final(ctxt).gc.cells(),
            old(ctxt).gc.root_set(),
            match r {
                Some(h) => Some(h.ptr),
                None => None,
            },
        ),
        old(ctxt).gc.used_bytes() + array_size(ElemKind::Float, len as int) <= old(ctxt).gc.limit_bytes() ==> r is Some && final(ctxt).gc.used_bytes() == old(ctxt).gc.used_bytes() + array_size(ElemKind::Float, len as int),
        r matches Some(h) ==> new_array_at(&*final(ctxt), h.ptr, old(ctxt).primitive_classes.float_array, len as nat, elem),
{
    let clsid = ctxt.primitive_classes.float_array;
    Array::allocate(ctxt, len, elem, clsid)
}

/// An empty double array. `None` when the heap has no room for it even after a collection.
pub fn double_array_empty(ctxt: &mut Context) -> (r: Option<Handle<DoubleArray>>)
    requires
        old(ctxt).wf(),
    ensures
        final(ctxt).wf(),
        final(ctxt).classes@ == old(ctxt).classes@,
        final(ctxt).primitive_classes == old(ctxt).primitive_classes,
        final(ctxt).gc.root_set() == old(ctxt).gc.root_set(),
        heap_alloc_result(
            old(ctxt).classes@,
            old(ctxt).gc.cells(),
            final(ctxt).gc.cells(),
            old(ctxt).gc.root_set(),
            match r {
                Some(h) => Some(h.ptr),
                None => None,
            },
        ),
        old(ctxt).gc.used_bytes() + array_size(ElemKind::Double, 0) <= old(ctxt).gc.limit_bytes() ==> r is Some && final(ctxt).gc.used_bytes() == old(ctxt).gc.used_bytes() + array_size(ElemKind::Double, 0),
        r matches Some(h) ==> new_array_at(&*final(ctxt), h.ptr, old(ctxt).primitive_classes.double_array, 0 as nat, 0u64),
{
    let clsid = ctxt.primitive_classes.double_array;
    Array::allocate(ctxt, 0, 0u64, clsid)
}

/// A double array of `len` elements, each `elem` (its bit pattern). `None` when the heap has no room for it even after a collection.
pub fn double_array_with(ctxt: &mut Context, len: usize, elem: u64) -> (r: Option<Handle<DoubleArray>>)
    requires
        old(ctxt).wf(),
            array_size(ElemKind::Double, len as int) <= usize::MAX,
    ensures
        final(ctxt).wf(),
        final(ctxt).classes@ == old(ctxt).classes@,
        final(ctxt).primitive_classes == old(ctxt).primitive_classes,
        final(ctxt).gc.root_set() == old(ctxt).gc.root_set(),
        heap_alloc_result(
            old(ctxt).classes@,
            old(ctxt).gc.cells(),
            final(ctxt).gc.cells(),
            old(ctxt).gc.root_set(),
            match r {
                Some(h) => Some(h.ptr),
                None => None,
            },
        ),
        old(ctxt).gc.used_bytes() + array_size(ElemKind::Double, len as int) <= old(ctxt).gc.limit_bytes() ==> r is Some && final(ctxt).gc.used_bytes() == old(ctxt).gc.used_bytes() + array_size(ElemKind::Double, len as int),
        r matches Some(h) ==> new_array_at(&*final(ctxt), h.ptr, old(ctxt).primitive_classes.double_array, len as nat, elem),
{
    let clsid = ctxt.primitive_classes.double_array;
    Array::allocate(ctxt, len, elem, clsid)
}

/// The object fits its class in a well-formed runtime.
pub open spec fn cell_wf_any(ctxt: &Context, o: Obj) -> bool {
    &&& crate::gc::cell_wf(ctxt.classes@, Cell { space: Space::Heap, obj: o })
    &&& crate::gc::cell_wf(ctxt.classes@, Cell { space: Space::Perm, obj: o })
}

} // verus!
