use vstd::prelude::*;

use crate::class::{ClassId, ClassKind, ElemKind, HEADER_SIZE, PTR_WIDTH, field_count, has_kind};
use crate::ctxt::Context;
use crate::gc::{Space, heap_alloc_result, live};
use crate::object::{
    Array, Body, Handle, Header, IntArray, Obj, Str, array_at, array_elems, array_size, body_kind,
    body_len, field_word, new_array_at, new_str_at, str_at, str_bytes_at, str_data, str_size,
};

verus! {

pub fn bool_to_int(val: bool) -> (r: i32)
    ensures
        r == (if val { 1i32 } else { 0i32 }),
{
    if val {
        1
    } else {
        0
    }
}

/// The text of a boolean: "true" or "false".
pub open spec fn bool_text(val: bool) -> Seq<u8> {
    if val {
        seq![116u8, 114u8, 117u8, 101u8]
    } else {
        seq![102u8, 97u8, 108u8, 115u8, 101u8]
    }
}

/// Decimal digits of `n`, most significant first.
pub open spec fn digits(n: nat) -> Seq<u8>
    decreases n,
{
    if n < 10 {
        seq![(48 + n) as u8]
    } else {
        digits(n / 10).push((48 + n % 10) as u8)
    }
}

/// Decimal text of `v`, with a leading '-' when negative.
pub open spec fn decimal(v: int) -> Seq<u8> {
    if v < 0 {
        seq![45u8] + digits((-v) as nat)
    } else {
        digits(v as nat)
    }
}

/// The effect of a string-allocating library call on the runtime.
pub open spec fn str_result(old_ctxt: &Context, new_ctxt: &Context, r: Option<Handle<Str>>, bytes: Seq<u8>) -> bool {
    &&& new_ctxt.wf()
    &&& new_ctxt.classes@ == old_ctxt.classes@
    &&& new_ctxt.primitive_classes == old_ctxt.primitive_classes
    &&& new_ctxt.gc.root_set() == old_ctxt.gc.root_set()
    &&& heap_alloc_result(
        old_ctxt.classes@,
        old_ctxt.gc.cells(),
        new_ctxt.gc.cells(),
        old_ctxt.gc.root_set(),
        match r {
            Some(h) => Some(h.ptr),
            None => None,
        },
    )
    &&& old_ctxt.gc.used_bytes() + str_size(bytes.len() as int) <= old_ctxt.gc.limit_bytes() ==> r is Some
        && new_ctxt.gc.used_bytes() == old_ctxt.gc.used_bytes() + str_size(bytes.len() as int)
    &&& r matches Some(h) ==> new_str_at(new_ctxt, h.ptr, Space::Heap, bytes)
}

fn push_digits(out: &mut Vec<u8>, n: u32)
    ensures
        final(out)@ == old(out)@ + digits(n as nat),
    decreases n,
{
    if n >= 10 {
        push_digits(out, n / 10);
    }
    out.push((48 + n % 10) as u8);
    assert(final(out)@ =~= old(out)@ + digits(n as nat)) by {
        if n >= 10 {
            assert(digits(n as nat) == digits((n / 10) as nat).push((48 + n % 10) as u8));
        }
    }
}

/// A string holding the decimal text of `val`.
pub fn int_to_string(ctxt: &mut Context, val: i32) -> (r: Option<Handle<Str>>)
    requires
        old(ctxt).wf(),
    ensures
        str_result(&*old(ctxt), &*final(ctxt), r, decimal(val as int)),
{
    let mut buf: Vec<u8> = Vec::new();
    let n: u32;
    if val < 0 {
        buf.push(45);
        n = (0 - (val as i64)) as u32;
    } else {
        n = val as u32;
    }
    push_digits(&mut buf, n);
    proof {
        assert(buf@ =~= decimal(val as int));
        reveal_with_fuel(pow10, 11);
        assert(pow10(10) == 10000000000nat);
        lemma_digits_len(n as nat, 10);
    }
    Str::from_buffer(ctxt, buf.as_slice())
}

/// A string holding "true" or "false".
pub fn bool_to_string(ctxt: &mut Context, val: bool) -> (r: Option<Handle<Str>>)
    requires
        old(ctxt).wf(),
    ensures
        str_result(&*old(ctxt), &*final(ctxt), r, bool_text(val)),
{
    let mut buf: Vec<u8> = Vec::new();
    if val {
        buf.push(116);
        buf.push(114);
        buf.push(117);
        buf.push(101);
    } else {
        buf.push(102);
        buf.push(97);
        buf.push(108);
        buf.push(115);
        buf.push(101);
    }
    proof {
        assert(buf@ =~= bool_text(val));
    }
    Str::from_buffer(ctxt, buf.as_slice())
}

/// How C's `strcmp` orders two zero-terminated byte strings, from index `i`
/// on: -1, 0 or 1.
pub open spec fn cmp_from(a: Seq<u8>, b: Seq<u8>, i: int) -> int
    decreases a.len() - i,
{
    if i < 0 || i >= a.len() || i >= b.len() {
        0
    } else if a[i] != b[i] {
        if a[i] < b[i] {
            -1
        } else {
            1
        }
    } else if a[i] == 0 {
        0
    } else {
        cmp_from(a, b, i + 1)
    }
}

/// Compares two strings as C's `strcmp` does, up to the first zero byte:
/// -1 when `lhs` sorts first, 1 when `rhs` does, 0 when they are equal.
pub fn strcmp(ctxt: &Context, lhs: Handle<Str>, rhs: Handle<Str>) -> (r: i32)
    requires
        ctxt.wf(),
        str_at(ctxt, lhs.ptr),
        str_at(ctxt, rhs.ptr),
    ensures
        r == cmp_from(
            str_data(ctxt.gc.cells()[lhs.ptr as int]->0.obj.body),
            str_data(ctxt.gc.cells()[rhs.ptr as int]->0.obj.body),
            0,
        ),
{
    let a = Str::data(ctxt, lhs);
    let b = Str::data(ctxt, rhs);
    let ghost sa = a@;
    let ghost sb = b@;
    let mut i: usize = 0;
    while a[i] == b[i] && a[i] != 0
        invariant
            a@ == sa,
            b@ == sb,
            sa.len() >= 1,
            sb.len() >= 1,
            sa.last() == 0,
            sb.last() == 0,
            i < sa.len(),
            i < sb.len(),
            cmp_from(sa, sb, 0) == cmp_from(sa, sb, i as int),
        decreases sa.len() - i,
    {
        i = i + 1;
    }
    if a[i] < b[i] {
        -1
    } else if a[i] > b[i] {
        1
    } else {
        0
    }
}

/// The string made of `lhs`'s bytes followed by `rhs`'s.
pub fn strcat(ctxt: &mut Context, lhs: Handle<Str>, rhs: Handle<Str>) -> (r: Option<Handle<Str>>)
    requires
        old(ctxt).wf(),
        str_at(&*old(ctxt), lhs.ptr),
        str_at(&*old(ctxt), rhs.ptr),
        str_size((str_bytes_at(&*old(ctxt), lhs.ptr).len() + str_bytes_at(&*old(ctxt), rhs.ptr).len()) as int)
            <= usize::MAX,
    ensures
        str_result(
            &*old(ctxt),
            &*final(ctxt),
            r,
            str_bytes_at(&*old(ctxt), lhs.ptr) + str_bytes_at(&*old(ctxt), rhs.ptr),
        ),
{
    Str::concat(ctxt, lhs, rhs)
}

/// Allocates an instance of the plain class `cls` with every field zero;
/// `None` when the heap has no room for it even after a collection.
pub fn gc_alloc(ctxt: &mut Context, cls: ClassId) -> (r: Option<usize>)
    requires
        old(ctxt).wf(),
        has_kind(old(ctxt).classes@, cls, ClassKind::Plain),
    ensures
        final(ctxt).wf(),
        final(ctxt).classes@ == old(ctxt).classes@,
        final(ctxt).primitive_classes == old(ctxt).primitive_classes,
        final(ctxt).gc.root_set() == old(ctxt).gc.root_set(),
        heap_alloc_result(old(ctxt).classes@, old(ctxt).gc.cells(), final(ctxt).gc.cells(), old(ctxt).gc.root_set(), r),
        old(ctxt).gc.used_bytes() + old(ctxt).classes@[cls.0 as int].size <= old(ctxt).gc.limit_bytes() ==> r is Some && final(ctxt).gc.used_bytes() == old(ctxt).gc.used_bytes() + old(ctxt).classes@[cls.0 as int].size,
        r matches Some(a) ==> {
            &&& live(final(ctxt).gc.cells(), a as int)
            &&& final(ctxt).gc.cells()[a as int]->0.space == Space::Heap
            &&& final(ctxt).gc.cells()[a as int]->0.obj.header.vtable == cls.0
            &&& !final(ctxt).gc.cells()[a as int]->0.obj.header.mark
            &&& body_kind(final(ctxt).gc.cells()[a as int]->0.obj.body) == ClassKind::Plain
            &&& forall|off: usize| #[trigger] field_word(final(ctxt).gc.cells()[a as int]->0.obj.body, off) == 0
        },
{
    let size = ctxt.classes[cls.0].size;
    proof {
        assert(ctxt.classes@[cls.0 as int].wf());
    }
    let n = (size - HEADER_SIZE) / PTR_WIDTH;
    let mut fields: Vec<usize> = Vec::new();
    let mut i: usize = 0;
    while i < n
        invariant
            i <= n,
            fields@.len() == i,
            forall|j: int| 0 <= j < i ==> #[trigger] fields@[j] == 0,
        decreases n - i,
    {
        fields.push(0);
        i = i + 1;
    }
    let obj = Obj { header: Header { vtable: cls.0, mark: false, next: 0 }, body: Body::Fields(fields) };
    proof {
        assert(body_len(obj.body) == field_count(size));
    }
    ctxt.gc.allocate(&ctxt.classes, obj)
}

/// Runs a full collection.
pub fn gc_collect(ctxt: &mut Context)
    requires
        old(ctxt).wf(),
    ensures
        final(ctxt).wf(),
        final(ctxt).classes@ == old(ctxt).classes@,
        final(ctxt).primitive_classes == old(ctxt).primitive_classes,
        final(ctxt).gc.root_set() == old(ctxt).gc.root_set(),
        crate::gc::collected(old(ctxt).classes@, old(ctxt).gc.cells(), final(ctxt).gc.cells(), old(ctxt).gc.root_set()),
{
    ctxt.gc.collect(&ctxt.classes);
}

/// An empty int array, for generated constructor code.
pub fn ctor_int_array_empty(ctxt: &mut Context) -> (r: Option<Handle<IntArray>>)
    requires
        old(ctxt).wf(),
    ensures
        final(ctxt).wf(),
        final(ctxt).gc.root_set() == old(ctxt).gc.root_set(),
        heap_alloc_result(
            old(ctxt).classes@,
            old(ctxt).gc.cells(),
            final(ctxt).gc.cells(),
            old(ctxt).gc.root_set(),
            match r {
                Some(h) => Some(h.ptr),
                None => None,
            },
        ),
        old(ctxt).gc.used_bytes() + array_size(ElemKind::Int, 0) <= old(ctxt).gc.limit_bytes() ==> r is Some && final(ctxt).gc.used_bytes() == old(ctxt).gc.used_bytes() + array_size(ElemKind::Int, 0),
        r matches Some(h) ==> new_array_at(&*final(ctxt), h.ptr, old(ctxt).primitive_classes.int_array, 0, 0i32),
{
    let clsid = ctxt.primitive_classes.int_array;
    Array::allocate(ctxt, 0, 0i32, clsid)
}

/// An int array of `len` elements, each `value`, for generated constructor
/// code. `None` for a negative length, or when the heap has no room.
pub fn ctor_int_array_elem(ctxt: &mut Context, len: i32, value: i32) -> (r: Option<Handle<IntArray>>)
    requires
        old(ctxt).wf(),
        array_size(ElemKind::Int, len as int) <= usize::MAX,
    ensures
        final(ctxt).wf(),
        final(ctxt).gc.root_set() == old(ctxt).gc.root_set(),
        len < 0 ==> r is None && final(ctxt).gc.cells() == old(ctxt).gc.cells(),
        len >= 0 ==> heap_alloc_result(
            old(ctxt).classes@,
            old(ctxt).gc.cells(),
            final(ctxt).gc.cells(),
            old(ctxt).gc.root_set(),
            match r {
                Some(h) => Some(h.ptr),
                None => None,
            },
        ),
        len >= 0 && old(ctxt).gc.used_bytes() + array_size(ElemKind::Int, len as int) <= old(ctxt).gc.limit_bytes()
            ==> r is Some && final(ctxt).gc.used_bytes() == old(ctxt).gc.used_bytes() + array_size(ElemKind::Int, len as int),
        r matches Some(h) ==> new_array_at(&*final(ctxt), h.ptr, old(ctxt).primitive_classes.int_array, len as nat, value),
{
    if len < 0 {
        return None;
    }
    let clsid = ctxt.primitive_classes.int_array;
    Array::allocate(ctxt, len as usize, value, clsid)
}

/// Length of an int array, as generated code reads it.
pub fn int_array_len(ctxt: &Context, h: Handle<IntArray>) -> (r: i32)
    requires
        ctxt.wf(),
        array_at::<i32>(ctxt, h.ptr),
    ensures
        array_elems::<i32>(ctxt, h.ptr).len() <= i32::MAX ==> r == array_elems::<i32>(ctxt, h.ptr).len(),
{
    let n = Array::<i32>::len(ctxt, h);
    #[verifier::truncate]
    (n as i32)
}

/// Byte length of a string, as generated code reads it.
pub fn str_array_len(ctxt: &Context, s: Handle<Str>) -> (r: i32)
    requires
        ctxt.wf(),
        str_at(ctxt, s.ptr),
    ensures
        str_bytes_at(ctxt, s.ptr).len() <= i32::MAX ==> r == str_bytes_at(ctxt, s.ptr).len(),
{
    let n = Str::len(ctxt, s);
    #[verifier::truncate]
    (n as i32)
}

/// Number of program arguments.
pub fn argc(args: &Vec<Vec<u8>>) -> (r: i32)
    ensures
        args@.len() <= i32::MAX ==> r == args@.len(),
{
    #[verifier::truncate]
    (args.len() as i32)
}

/// Program argument `ind` as a string.
pub fn argv(ctxt: &mut Context, args: &Vec<Vec<u8>>, ind: i32) -> (r: Option<Handle<Str>>)
    requires
        old(ctxt).wf(),
        0 <= ind < args@.len(),
        str_size(args@[ind as int]@.len() as int) <= usize::MAX,
    ensures
        str_result(&*old(ctxt), &*final(ctxt), r, args@[ind as int]@),
{
    Str::from_buffer(ctxt, args[ind as usize].as_slice())
}

pub open spec fn is_digit(b: u8) -> bool {
    48 <= b <= 57
}

pub open spec fn all_digits(s: Seq<u8>) -> bool {
    forall|i: int| 0 <= i < s.len() ==> is_digit(#[trigger] s[i])
}

/// Value of a run of decimal digits.
pub open spec fn digits_value(s: Seq<u8>) -> int
    decreases s.len(),
{
    if s.len() == 0 {
        0
    } else {
        digits_value(s.drop_last()) * 10 + (s.last() - 48)
    }
}

/// 1 when `s` starts with a sign, else 0.
pub open spec fn sign_len(s: Seq<u8>) -> int {
    if s.len() > 0 && (s[0] == 45u8 || s[0] == 43u8) {
        1
    } else {
        0
    }
}

/// What `i32`'s `FromStr` makes of the text `s`: an optional sign, then one
/// or more decimal digits, with a value in range.
pub open spec fn parsed_i32(s: Seq<u8>) -> Option<int> {
    let body = s.subrange(sign_len(s), s.len() as int);
    let v = if s.len() > 0 && s[0] == 45u8 { -digits_value(body) } else { digits_value(body) };
    if body.len() == 0 || !all_digits(body) || v < i32::MIN || v > i32::MAX {
        None
    } else {
        Some(v)
    }
}

proof fn lemma_digits_prefix(s: Seq<u8>, k: int)
    requires
        all_digits(s),
        0 <= k <= s.len(),
    ensures
        0 <= digits_value(s.take(k)) <= digits_value(s),
    decreases s.len(),
{
    if s.len() > 0 {
        let d = s.drop_last();
        assert(all_digits(d)) by {
            assert forall|i: int| 0 <= i < d.len() implies is_digit(#[trigger] d[i]) by {
                assert(d[i] == s[i]);
            }
        }
        assert(is_digit(s[s.len() - 1]));
        if k == s.len() {
            assert(s.take(k) =~= s);
            lemma_digits_prefix(d, d.len() as int);
            assert(d.take(d.len() as int) =~= d);
        } else {
            assert(s.take(k) =~= d.take(k));
            lemma_digits_prefix(d, k);
            lemma_digits_prefix(d, d.len() as int);
            assert(d.take(d.len() as int) =~= d);
        }
    }
}

/// The number that the text `s` spells, as `i32`'s `FromStr` reads it; 0
/// where it spells none.
pub fn parse(s: &[u8]) -> (r: i32)
    ensures
        r == match parsed_i32(s@) {
            Some(v) => v,
            None => 0,
        },
{
    let n = s.len();
    let mut start: usize = 0;
    let mut neg = false;
    if n > 0 && (s[0] == 45 || s[0] == 43) {
        neg = s[0] == 45;
        start = 1;
    }
    let ghost body = s@.subrange(start as int, n as int);
    proof {
        assert(start == sign_len(s@));
        assert(neg == (s@.len() > 0 && s@[0] == 45u8));
    }
    if start == n {
        return 0;
    }
    let mut j: usize = start;
    while j < n
        invariant
            start <= j <= n,
            n == s@.len(),
            body == s@.subrange(start as int, n as int),
            start == sign_len(s@),
            neg == (s@.len() > 0 && s@[0] == 45u8),
            forall|i: int| 0 <= i < j - start ==> is_digit(#[trigger] body[i]),
        decreases n - j,
    {
        if s[j] < 48 || s[j] > 57 {
            proof {
                assert(!is_digit(body[j - start]));
                assert(!all_digits(body));
                assert(parsed_i32(s@) is None);
            }
            return 0;
        }
        j = j + 1;
    }
    proof {
        assert(all_digits(body));
    }
    let mut acc: i64 = 0;
    let mut k: usize = start;
    while k < n
        invariant
            start <= k <= n,
            n == s@.len(),
            body == s@.subrange(start as int, n as int),
            start == sign_len(s@),
            neg == (s@.len() > 0 && s@[0] == 45u8),
            all_digits(body),
            acc == digits_value(body.take(k - start)),
            0 <= acc <= 2147483648,
        decreases n - k,
    {
        proof {
            assert(body.take(k - start + 1).drop_last() =~= body.take(k - start));
            assert(body.take(k - start + 1).last() == s[k as int]);
            assert(is_digit(body[k - start]));
        }
        acc = acc * 10 + (s[k] - 48) as i64;
        k = k + 1;
        if acc > 2147483648 {
            proof {
                lemma_digits_prefix(body, k - start);
                assert(digits_value(body) > 2147483648);
                assert(parsed_i32(s@) is None);
            }
            return 0;
        }
    }
    proof {
        assert(body.take(n - start) =~= body);
    }
    let v: i64 = if neg {
        -acc
    } else {
        acc
    };
    if v > 2147483647 {
        0
    } else {
        v as i32
    }
}

pub open spec fn pow10(k: nat) -> nat
    decreases k,
{
    if k == 0 {
        1
    } else {
        10 * pow10((k - 1) as nat)
    }
}

proof fn lemma_digits_len(n: nat, k: nat)
    requires
        k >= 1,
        n < pow10(k),
    ensures
        digits(n).len() <= k,
    decreases n,
{
    if n >= 10 {
        if k == 1 {
            assert(pow10(1) == 10 * pow10(0));
        }
        let p = pow10((k - 1) as nat);
        assert(pow10(k) == 10 * p);
        assert(n / 10 < p) by (nonlinear_arith)
            requires
                n < 10 * p,
        ;
        lemma_digits_len(n / 10, (k - 1) as nat);
    }
}

} // verus!
