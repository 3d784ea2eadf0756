//! The declaration model: the shape of an annotated record type as the
//! generator sees it, before any capability is built.

use vstd::prelude::*;

verus! {

/// The integer shapes a record field may declare. Pointer-sized fields are
/// treated as 64-bit, which is how instance values reach the proof path.
#[derive(Clone, Copy, PartialEq, Eq, Structural, Debug)]
pub enum IntTy {
    I8,
    I16,
    I32,
    I64,
    I128,
    Isize,
    U8,
    U16,
    U32,
    U64,
    U128,
    Usize,
}

impl IntTy {
    /// Whether values of this type carry a sign.
    pub open spec fn spec_signed(self) -> bool {
        match self {
            IntTy::I8 | IntTy::I16 | IntTy::I32 | IntTy::I64 | IntTy::I128 | IntTy::Isize => true,
            _ => false,
        }
    }

    /// Number of bytes in the type's little-endian representation; the
    /// pointer-sized types count as 8.
    pub open spec fn spec_width(self) -> nat {
        match self {
            IntTy::I8 | IntTy::U8 => 1,
            IntTy::I16 | IntTy::U16 => 2,
            IntTy::I32 | IntTy::U32 => 4,
            IntTy::I64 | IntTy::U64 | IntTy::Isize | IntTy::Usize => 8,
            IntTy::I128 | IntTy::U128 => 16,
        }
    }

    pub fn signed(self) -> (s: bool)
        ensures
            s == self.spec_signed(),
    {
        match self {
            IntTy::I8 | IntTy::I16 | IntTy::I32 | IntTy::I64 | IntTy::I128 | IntTy::Isize => true,
            _ => false,
        }
    }

    pub fn width(self) -> (w: usize)
        ensures
            w == self.spec_width(),
    {
        match self {
            IntTy::I8 | IntTy::U8 => 1,
            IntTy::I16 | IntTy::U16 => 2,
            IntTy::I32 | IntTy::U32 => 4,
            IntTy::I64 | IntTy::U64 | IntTy::Isize | IntTy::Usize => 8,
            IntTy::I128 | IntTy::U128 => 16,
        }
    }
}

/// A field's declared type, as far as the generator cares: one of the
/// supported integer types, or anything else. Only integer fields are visible
/// to the formal-verification path; fields of other types may still carry
/// invariants.
#[derive(Clone, Copy, PartialEq, Eq, Structural, Debug)]
pub enum FieldTy {
    Integer(IntTy),
    Other,
}

/// One field of the annotated record: its name, its declared type, and its
/// attached invariant texts, in attribute-declaration order.
pub struct FieldDecl {
    pub name: String,
    pub ty: FieldTy,
    pub invariants: Vec<String>,
}

/// Mathematical image of a [`FieldDecl`].
pub struct FieldDeclV {
    pub name: Seq<char>,
    pub ty: FieldTy,
    pub invariants: Seq<Seq<char>>,
}

impl View for FieldDecl {
    type V = FieldDeclV;

    open spec fn view(&self) -> FieldDeclV {
        FieldDeclV { name: self.name@, ty: self.ty, invariants: self.invariants.deep_view() }
    }
}

impl DeepView for FieldDecl {
    type V = FieldDeclV;

    open spec fn deep_view(&self) -> FieldDeclV {
        self.view()
    }
}

/// The annotated record type: its fields in declaration order.
pub struct RecordDecl {
    pub fields: Vec<FieldDecl>,
}

impl View for RecordDecl {
    type V = Seq<FieldDeclV>;

    open spec fn view(&self) -> Seq<FieldDeclV> {
        self.fields@.map_values(|f: FieldDecl| f@)
    }
}

/// A record declaration is well formed when its field names are distinct, as
/// the host language requires of a record type.
pub open spec fn distinct_field_names(fields: Seq<FieldDeclV>) -> bool {
    forall|i: int, j: int|
        0 <= i < j < fields.len() ==> fields[i].name != fields[j].name
}

/// Character-for-character string equality, decided over the views.
pub fn str_eq(a: &str, b: &str) -> (r: bool)
    ensures
        r == (a@ == b@),
{
    let a_len = a.unicode_len();
    let b_len = b.unicode_len();
    if a_len != b_len {
        assert(a@ != b@) by {
            assert(a@.len() != b@.len());
        }
        return false;
    }
    let mut i: usize = 0;
    while i < a_len
        invariant
            i <= a_len,
            a_len == a@.len(),
            b_len == b@.len(),
            a_len == b_len,
            forall|k: int| 0 <= k < i ==> a@[k] == b@[k],
        decreases a_len - i,
    {
        if a.get_char(i) != b.get_char(i) {
            return false;
        }
        i += 1;
    }
    proof {
        assert(a@ =~= b@);
    }
    true
}

/// Whether a type's final path segment names one of the supported integer
/// types; such fields, and only such fields, feed the proof path.
pub fn is_integer_type(ident: &str) -> (r: bool)
    ensures
        r == (spec_int_ty_of(ident@) is Some),
{
    classify_int_ty(ident).is_some()
}

/// The integer type that a type name denotes, if any.
pub open spec fn spec_int_ty_of(s: Seq<char>) -> Option<IntTy> {
    if s == "i8"@ {
        Some(IntTy::I8)
    } else if s == "i16"@ {
        Some(IntTy::I16)
    } else if s == "i32"@ {
        Some(IntTy::I32)
    } else if s == "i64"@ {
        Some(IntTy::I64)
    } else if s == "i128"@ {
        Some(IntTy::I128)
    } else if s == "isize"@ {
        Some(IntTy::Isize)
    } else if s == "u8"@ {
        Some(IntTy::U8)
    } else if s == "u16"@ {
        Some(IntTy::U16)
    } else if s == "u32"@ {
        Some(IntTy::U32)
    } else if s == "u64"@ {
        Some(IntTy::U64)
    } else if s == "u128"@ {
        Some(IntTy::U128)
    } else if s == "usize"@ {
        Some(IntTy::Usize)
    } else {
        None
    }
}

/// Classifies a type name into the integer type it denotes, if any.
pub fn classify_int_ty(ident: &str) -> (r: Option<IntTy>)
    ensures
        r == spec_int_ty_of(ident@),
{
    if str_eq(ident, "i8") {
        Some(IntTy::I8)
    } else if str_eq(ident, "i16") {
        Some(IntTy::I16)
    } else if str_eq(ident, "i32") {
        Some(IntTy::I32)
    } else if str_eq(ident, "i64") {
        Some(IntTy::I64)
    } else if str_eq(ident, "i128") {
        Some(IntTy::I128)
    } else if str_eq(ident, "isize") {
        Some(IntTy::Isize)
    } else if str_eq(ident, "u8") {
        Some(IntTy::U8)
    } else if str_eq(ident, "u16") {
        Some(IntTy::U16)
    } else if str_eq(ident, "u32") {
        Some(IntTy::U32)
    } else if str_eq(ident, "u64") {
        Some(IntTy::U64)
    } else if str_eq(ident, "u128") {
        Some(IntTy::U128)
    } else if str_eq(ident, "usize") {
        Some(IntTy::Usize)
    } else {
        None
    }
}

} // verus!
