use vstd::prelude::*;

verus! {

/// Byte width of an object header: vtable reference, info word, successor link.
pub const HEADER_SIZE: usize = 24;

/// Byte width of a pointer-sized word (an array or string length, a field).
pub const PTR_WIDTH: usize = 8;

/// Index of a class in the class registry.
#[derive(Clone, Copy, PartialEq, Eq, Structural, Debug)]
pub struct ClassId(pub usize);

/// Element type of a primitive array.
#[derive(Clone, Copy, PartialEq, Eq, Structural, Debug)]
pub enum ElemKind {
    Bool,
    Byte,
    Char,
    Int,
    Long,
    Float,
    Double,
}

/// The shape of a class's instances, fixed when the class is registered.
#[derive(Clone, Copy, PartialEq, Eq, Structural, Debug)]
pub enum ClassKind {
    /// Fixed-size instance made of pointer-sized fields.
    Plain,
    /// A string: length plus inline bytes.
    Str,
    /// A primitive array: length plus inline elements.
    Array(ElemKind),
}

/// Class metadata as consumed by the object model: the static instance size
/// (0 for variable-sized shapes), the byte offsets of the fields that hold
/// references, and the instance shape.
pub struct Class {
    pub size: usize,
    pub ref_fields: Vec<usize>,
    pub kind: ClassKind,
}

pub open spec fn elem_size(k: ElemKind) -> nat {
    match k {
        ElemKind::Bool => 1,
        ElemKind::Byte => 1,
        ElemKind::Char => 4,
        ElemKind::Int => 4,
        ElemKind::Long => 8,
        ElemKind::Float => 4,
        ElemKind::Double => 8,
    }
}

/// Byte width of one element of the given kind.
pub fn elem_size_of(k: ElemKind) -> (r: usize)
    ensures
        r == elem_size(k),
{
    match k {
        ElemKind::Bool => 1,
        ElemKind::Byte => 1,
        ElemKind::Char => 4,
        ElemKind::Int => 4,
        ElemKind::Long => 8,
        ElemKind::Float => 4,
        ElemKind::Double => 8,
    }
}

/// A reference field lies word-aligned inside the fields of an instance.
pub open spec fn valid_ref_offset(size: usize, off: usize) -> bool {
    &&& HEADER_SIZE <= off
    &&& (off - HEADER_SIZE) % (PTR_WIDTH as int) == 0
    &&& off + PTR_WIDTH <= size
}

/// Number of pointer-sized fields of a plain instance of the given size.
pub open spec fn field_count(size: usize) -> nat {
    ((size - HEADER_SIZE) / (PTR_WIDTH as int)) as nat
}

impl Class {
    /// Plain classes have a nonzero static size made of whole fields, and their
    /// reference offsets name fields; variable-sized classes have size 0 and no
    /// reference fields.
    pub open spec fn wf(&self) -> bool {
        match self.kind {
            ClassKind::Plain => {
                &&& HEADER_SIZE <= self.size
                &&& (self.size - HEADER_SIZE) % (PTR_WIDTH as int) == 0
                &&& forall|k: int|
                    0 <= k < self.ref_fields@.len() ==> #[trigger] valid_ref_offset(
                        self.size,
                        self.ref_fields@[k],
                    )
            },
            _ => self.size == 0 && self.ref_fields@.len() == 0,
        }
    }
}

/// Every class of the registry is well formed.
pub open spec fn classes_wf(classes: Seq<Class>) -> bool {
    forall|i: int| 0 <= i < classes.len() ==> #[trigger] classes[i].wf()
}

/// Registry ids of the built-in string and array classes.
#[derive(Clone, Copy, Debug)]
pub struct PrimitiveClasses {
    pub str_class: ClassId,
    pub bool_array: ClassId,
    pub byte_array: ClassId,
    pub char_array: ClassId,
    pub int_array: ClassId,
    pub long_array: ClassId,
    pub float_array: ClassId,
    pub double_array: ClassId,
}

pub open spec fn has_kind(classes: Seq<Class>, id: ClassId, k: ClassKind) -> bool {
    id.0 < classes.len() && classes[id.0 as int].kind == k
}

impl PrimitiveClasses {
    /// Each id names a registered class of the matching shape.
    pub open spec fn wf(&self, classes: Seq<Class>) -> bool {
        &&& has_kind(classes, self.str_class, ClassKind::Str)
        &&& has_kind(classes, self.bool_array, ClassKind::Array(ElemKind::Bool))
        &&& has_kind(classes, self.byte_array, ClassKind::Array(ElemKind::Byte))
        &&& has_kind(classes, self.char_array, ClassKind::Array(ElemKind::Char))
        &&& has_kind(classes, self.int_array, ClassKind::Array(ElemKind::Int))
        &&& has_kind(classes, self.long_array, ClassKind::Array(ElemKind::Long))
        &&& has_kind(classes, self.float_array, ClassKind::Array(ElemKind::Float))
        &&& has_kind(classes, self.double_array, ClassKind::Array(ElemKind::Double))
    }
}

} // verus!
