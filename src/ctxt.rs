use vstd::prelude::*;

use crate::class::{
    Class, ClassId, ClassKind, ElemKind, HEADER_SIZE, PTR_WIDTH, PrimitiveClasses, classes_wf,
    valid_ref_offset,
};
use crate::gc::Gc;

verus! {

/// Whether `size` and `ref_fields` describe a well-formed plain class.
fn plain_class_ok(size: usize, ref_fields: &Vec<usize>) -> (r: bool)
    ensures
        r == (HEADER_SIZE <= size && (size - HEADER_SIZE) % (PTR_WIDTH as int) == 0 && forall|k: int|
            0 <= k < ref_fields@.len() ==> #[trigger] valid_ref_offset(size, ref_fields@[k])),
{
    if size < HEADER_SIZE || (size - HEADER_SIZE) % PTR_WIDTH != 0 {
        return false;
    }
    let mut k: usize = 0;
    while k < ref_fields.len()
        invariant
            HEADER_SIZE <= size,
            k <= ref_fields@.len(),
            forall|j: int| 0 <= j < k ==> #[trigger] valid_ref_offset(size, ref_fields@[j]),
        decreases ref_fields@.len() - k,
    {
        let off = ref_fields[k];
        if off < HEADER_SIZE || (off - HEADER_SIZE) % PTR_WIDTH != 0 || off > size - PTR_WIDTH {
            proof {
                assert(!valid_ref_offset(size, ref_fields@[k as int]));
            }
            return false;
        }
        k = k + 1;
    }
    true
}

/// The runtime state that allocation works on: the class registry, the ids
/// of the built-in classes, and the memory manager.
pub struct Context {
    pub classes: Vec<Class>,
    pub primitive_classes: PrimitiveClasses,
    pub gc: Gc,
}

impl Context {
    pub open spec fn wf(&self) -> bool {
        &&& classes_wf(self.classes@)
        &&& self.primitive_classes.wf(self.classes@)
        &&& self.gc.wf(self.classes@)
    }

    /// A runtime with the built-in string and array classes registered (ids 0
    /// to 7) and an empty heap that may hold `heap_limit` bytes.
    pub fn new(heap_limit: usize) -> (r: Context)
        ensures
            r.wf(),
            r.classes@.len() == 8,
            r.gc.cells() == seq![Option::<crate::gc::Cell>::None],
            r.gc.root_set() == Seq::<usize>::empty(),
            r.gc.used_bytes() == 0,
            r.gc.limit_bytes() == heap_limit,
    {
        let mut classes: Vec<Class> = Vec::new();
        classes.push(Class { size: 0, ref_fields: Vec::new(), kind: ClassKind::Str });
        classes.push(Class { size: 0, ref_fields: Vec::new(), kind: ClassKind::Array(ElemKind::Bool) });
        classes.push(Class { size: 0, ref_fields: Vec::new(), kind: ClassKind::Array(ElemKind::Byte) });
        classes.push(Class { size: 0, ref_fields: Vec::new(), kind: ClassKind::Array(ElemKind::Char) });
        classes.push(Class { size: 0, ref_fields: Vec::new(), kind: ClassKind::Array(ElemKind::Int) });
        classes.push(Class { size: 0, ref_fields: Vec::new(), kind: ClassKind::Array(ElemKind::Long) });
        classes.push(Class { size: 0, ref_fields: Vec::new(), kind: ClassKind::Array(ElemKind::Float) });
        classes.push(Class { size: 0, ref_fields: Vec::new(), kind: ClassKind::Array(ElemKind::Double) });
        let primitive_classes = PrimitiveClasses {
            str_class: ClassId(0),
            bool_array: ClassId(1),
            byte_array: ClassId(2),
            char_array: ClassId(3),
            int_array: ClassId(4),
            long_array: ClassId(5),
            float_array: ClassId(6),
            double_array: ClassId(7),
        };
        let gc = Gc::new(heap_limit);
        proof {
            assert(gc.wf(classes@));
        }
        Context { classes: classes, primitive_classes: primitive_classes, gc: gc }
    }

    /// Registers a plain class whose instances are `size` bytes and hold
    /// references at the byte offsets `ref_fields`. `None` when the size or
    /// an offset does not describe whole, word-aligned fields.
    pub fn add_class(&mut self, size: usize, ref_fields: Vec<usize>) -> (r: Option<ClassId>)
        requires
            old(self).wf(),
        ensures
            final(self).wf(),
            final(self).primitive_classes == old(self).primitive_classes,
            final(self).gc.cells() == old(self).gc.cells(),
            final(self).gc.root_set() == old(self).gc.root_set(),
            final(self).gc.used_bytes() == old(self).gc.used_bytes(),
            final(self).gc.limit_bytes() == old(self).gc.limit_bytes(),
            r is Some <==> (Class { size: size, ref_fields: ref_fields, kind: ClassKind::Plain }).wf(),
            match r {
                Some(id) => {
                    &&& id.0 == old(self).classes@.len()
                    &&& final(self).classes@ == old(self).classes@.push(
                        Class { size: size, ref_fields: ref_fields, kind: ClassKind::Plain },
                    )
                },
                None => final(self).classes@ == old(self).classes@,
            },
    {
        if !plain_class_ok(size, &ref_fields) {
            proof {
                let c = Class { size: size, ref_fields: ref_fields, kind: ClassKind::Plain };
                assert(c.ref_fields@ == ref_fields@);
                if c.wf() {
                    assert forall|k: int| 0 <= k < ref_fields@.len() implies #[trigger] valid_ref_offset(size, ref_fields@[k]) by {
                        assert(valid_ref_offset(c.size, c.ref_fields@[k]));
                    }
                }
            }
            return None;
        }
        let id = ClassId(self.classes.len());
        let ghost c1 = self.classes@;
        self.classes.push(Class { size: size, ref_fields: ref_fields, kind: ClassKind::Plain });
        proof {
            self.gc.lemma_wf_more_classes(c1, self.classes@);
            assert forall|i: int| 0 <= i < self.classes@.len() implies #[trigger] self.classes@[i].wf() by {
                if i < c1.len() {
                    assert(self.classes@[i] == c1[i]);
                }
            }
        }
        Some(id)
    }
}

} // verus!
