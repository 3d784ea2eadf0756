//! The formal-verification surface: tagged field values, the data
//! fingerprint, the field-value provider, and the hand-off to an external
//! proof context.
//!
//! Where the Runtime Check stops at the first violated condition, this path
//! always works with the complete invariant set: the proof context receives
//! every canonical text and every integer field's binding, whatever a prior
//! runtime check found. The two paths are deliberately independent.

use vstd::prelude::*;

use crate::constitution::{
    int_fields_view, lookup_value, lookup_x, texts_of, Constitution, ConstitutionV, IntField,
    IntFieldV,
};
use crate::decl::IntTy;

verus! {

/// A record field's value as the proof path sees it: widened to 64 bits and
/// tagged with the declared type's signedness. Fields wider than 64 bits are
/// narrowed to 64 without a range check; that precision limit is accepted,
/// and the fingerprint below is computed over these widened values.
#[derive(Clone, Copy, PartialEq, Eq, Structural, Debug)]
pub enum FieldValue {
    Int(i64),
    UInt(u64),
}

/// The integer a field value stands for.
pub open spec fn fv_int(v: FieldValue) -> int {
    match v {
        FieldValue::Int(x) => x as int,
        FieldValue::UInt(x) => x as int,
    }
}

/// A failure of the formal-verification path: an unresolved field name, or
/// any failure of the external solving engine, carried through unchanged.
#[derive(Debug, PartialEq, Eq)]
pub enum ProofError {
    ParseError(String),
    Solver(String),
}

pub enum ProofErrorV {
    ParseError(Seq<char>),
    Solver(Seq<char>),
}

impl View for ProofError {
    type V = ProofErrorV;

    open spec fn view(&self) -> ProofErrorV {
        match self {
            ProofError::ParseError(m) => ProofErrorV::ParseError(m@),
            ProofError::Solver(m) => ProofErrorV::Solver(m@),
        }
    }
}

/// The opaque witness an external proof context returns when it proves every
/// submitted invariant under the submitted bindings.
pub struct VerificationToken {}

/// One field binding as submitted to the proof context: a field's name and
/// its tagged 64-bit value.
pub struct Binding {
    pub name: String,
    pub value: FieldValue,
}

pub struct BindingV {
    pub name: Seq<char>,
    pub value: FieldValue,
}

impl View for Binding {
    type V = BindingV;

    open spec fn view(&self) -> BindingV {
        BindingV { name: self.name@, value: self.value }
    }
}

pub open spec fn bindings_view(s: Seq<Binding>) -> Seq<BindingV> {
    s.map_values(|b: Binding| b@)
}

/// The bindings an instance induces: each integer field's name paired with
/// its value, in declaration order.
pub open spec fn spec_bindings(fs: Seq<IntFieldV>, vs: Seq<FieldValue>) -> Seq<BindingV> {
    Seq::new(fs.len(), |i: int| BindingV { name: fs[i].name, value: vs[i] })
}

pub open spec fn verify_matches(
    r: Result<VerificationToken, ProofError>,
    sp: Result<VerificationToken, ProofErrorV>,
) -> bool {
    match (r, sp) {
        (Ok(_), Ok(_)) => true,
        (Err(e), Err(ev)) => e@ == ev,
        _ => false,
    }
}

/// The external constraint-solving engine, supplied by the caller: given a
/// list of boolean expressions over named numeric bindings, and the bindings,
/// it either proves them all simultaneously and returns a token, or reports
/// why it could not. What it decides is a function of the submitted lists
/// alone — captured by `outcome` — so a caller of
/// [`Constitution::verify_with_context`] knows exactly which lists the
/// context judged. Cancellation, timeouts and retry policy belong to the
/// context; this library only relays its answer.
pub trait ProofContext {
    /// The context's verdict on a submitted invariant list and binding list.
    spec fn outcome(
        &self,
        invariants: Seq<Seq<char>>,
        bindings: Seq<BindingV>,
    ) -> Result<VerificationToken, ProofErrorV>;

    /// Attempts to prove every submitted invariant under the submitted
    /// bindings.
    fn verify_invariants(&self, bindings: &Vec<Binding>, invariants: &Vec<String>) -> (r: Result<
        VerificationToken,
        ProofError,
    >)
        ensures
            verify_matches(r, self.outcome(invariants.deep_view(), bindings_view(bindings@))),
    ;
}

impl Constitution {
    /// The field-value provider: the tagged value of the integer field named
    /// `name`, or a parse failure naming the field for any other name —
    /// non-integer fields and unknown names alike.
    pub fn get_field_value(&self, values: &Vec<FieldValue>, name: &str) -> (r: Result<
        FieldValue,
        ProofError,
    >)
        requires
            self.matches_values(values@),
        ensures
            match lookup_value(self@.int_fields, values@, name@) {
                Some(v) => r == Ok::<FieldValue, ProofError>(v),
                None => r is Err && r->Err_0@ == ProofErrorV::ParseError(
                    "Unknown field: "@ + name@,
                ),
            },
    {
        match lookup_x(&self.int_fields, values, name) {
            Some(v) => Ok(v),
            None => {
                let msg = String::from_str("Unknown field: ").concat(name);
                Err(ProofError::ParseError(msg))
            },
        }
    }

    /// Every integer field's binding, in declaration order: what
    /// [`Constitution::verify_with_context`] hands the proof context.
    pub fn field_values(&self, values: &Vec<FieldValue>) -> (r: Vec<Binding>)
        requires
            self.matches_values(values@),
        ensures
            bindings_view(r@) == spec_bindings(self@.int_fields, values@),
    {
        let mut r: Vec<Binding> = Vec::new();
        let mut i: usize = 0;
        while i < self.int_fields.len()
            invariant
                i <= self.int_fields.len(),
                self.matches_values(values@),
                self@.int_fields.len() == self.int_fields.len(),
                r@.len() == i,
                forall|k: int|
                    0 <= k < i ==> #[trigger] r@[k]@ == (BindingV {
                        name: self@.int_fields[k].name,
                        value: values@[k],
                    }),
            decreases self.int_fields.len() - i,
        {
            r.push(Binding { name: self.int_fields[i].name.clone(), value: values[i] });
            i += 1;
        }
        proof {
            assert(bindings_view(r@) =~= spec_bindings(self@.int_fields, values@));
        }
        r
    }

    /// The asynchronous hand-off, reduced to its decision core: builds the
    /// instance's bindings, submits them with the complete invariant list to
    /// the caller's proof context, and relays the context's answer unchanged.
    /// Suspension, if any, lives in the context the caller supplies.
    pub fn verify_with_context<C: ProofContext>(&self, values: &Vec<FieldValue>, ctx: &C) -> (r:
        Result<VerificationToken, ProofError>)
        requires
            self.matches_values(values@),
        ensures
            verify_matches(
                r,
                ctx.outcome(texts_of(self@.clauses), spec_bindings(self@.int_fields, values@)),
            ),
    {
        let bindings = self.field_values(values);
        let invariants = self.invariant_expressions();
        ctx.verify_invariants(&bindings, &invariants)
    }
}

/// The formal path never filters: the submitted invariant list is the texts
/// of all the clauses, in declaration order, whatever any runtime check of
/// any instance returned — the two paths never short-circuit each other.
pub proof fn lemma_complete_submission(c: ConstitutionV)
    ensures
        texts_of(c.clauses).len() == c.clauses.len(),
        forall|k: int|
            0 <= k < c.clauses.len() ==> texts_of(c.clauses)[k] == #[trigger] c.clauses[k].text,
{
}


// ------------------------------------------------------------------
// The data fingerprint
// ------------------------------------------------------------------

/// Whether a field value is the faithful widening of a value of the declared
/// type: the tag matches the type's signedness and the value lies in the
/// type's range. Instances built from a real record satisfy this by
/// construction; for fields wider than 64 bits every widened value qualifies.
pub open spec fn fits(ty: IntTy, v: FieldValue) -> bool {
    match ty {
        IntTy::I8 => v is Int && -128 <= v->Int_0 <= 127,
        IntTy::I16 => v is Int && -32768 <= v->Int_0 <= 32767,
        IntTy::I32 => v is Int && -2147483648 <= v->Int_0 <= 2147483647,
        IntTy::I64 | IntTy::Isize | IntTy::I128 => v is Int,
        IntTy::U8 => v is UInt && v->UInt_0 <= 255,
        IntTy::U16 => v is UInt && v->UInt_0 <= 65535,
        IntTy::U32 => v is UInt && v->UInt_0 <= 4294967295,
        IntTy::U64 | IntTy::Usize | IntTy::U128 => v is UInt,
    }
}

/// An instance's values are valid for a constitution when there is one per
/// integer field and each fits its field's declared type.
pub open spec fn valid_values(fs: Seq<IntFieldV>, vs: Seq<FieldValue>) -> bool {
    &&& vs.len() == fs.len()
    &&& forall|i: int| 0 <= i < fs.len() ==> fits(#[trigger] fs[i].ty, vs[i])
}

/// The value's 64 bits, two's complement for the signed tag.
pub open spec fn fv_bits(v: FieldValue) -> u64 {
    match v {
        FieldValue::Int(x) => x as u64,
        FieldValue::UInt(x) => x,
    }
}

/// The byte that extends a 64-bit value to a 128-bit field's width.
pub open spec fn ext_byte(v: FieldValue) -> u8 {
    match v {
        FieldValue::Int(x) => if x < 0 {
            255
        } else {
            0
        },
        FieldValue::UInt(_) => 0,
    }
}

/// Byte `j` of the value's little-endian representation.
pub open spec fn le_byte(v: FieldValue, j: int) -> u8 {
    if j < 8 {
        (fv_bits(v) >> ((8 * j) as u64)) as u8
    } else {
        ext_byte(v)
    }
}

/// The little-endian byte representation of a field's value, at the declared
/// type's width.
pub open spec fn le_bytes(ty: IntTy, v: FieldValue) -> Seq<u8> {
    Seq::new(ty.spec_width(), |j: int| le_byte(v, j))
}

/// The byte stream the fingerprint hashes: every integer field's
/// little-endian bytes, in declaration order.
pub open spec fn ser_fields(fs: Seq<IntFieldV>, vs: Seq<FieldValue>) -> Seq<u8>
    decreases fs.len(),
{
    if fs.len() == 0 || vs.len() == 0 {
        Seq::empty()
    } else {
        le_bytes(fs[0].ty, vs[0]) + ser_fields(fs.skip(1), vs.skip(1))
    }
}

/// The 256-bit digest of a byte stream, as the external hash computes it.
pub uninterp spec fn sha256_of(bytes: Seq<u8>) -> Seq<u8>;

/// Relies on sha2::Sha256, the 256-bit member of the SHA-2 family: the digest
/// is a function of the input bytes alone, and is 32 bytes long.
#[verifier::external_body]
fn sha256(bytes: &Vec<u8>) -> (r: Vec<u8>)
    ensures
        r@ == sha256_of(bytes@),
        r@.len() == 32,
{
    let digest = <sha2::Sha256 as sha2::digest::Digest>::digest(bytes.as_slice());
    digest.to_vec()
}

fn push_le_bytes(out: &mut Vec<u8>, ty: IntTy, v: FieldValue)
    ensures
        final(out)@ == old(out)@ + le_bytes(ty, v),
{
    let w = ty.width();
    let bits: u64 = match v {
        FieldValue::Int(x) => x as u64,
        FieldValue::UInt(x) => x,
    };
    let mut j: usize = 0;
    while j < w
        invariant
            j <= w,
            w == ty.spec_width(),
            bits == fv_bits(v),
            out@ == old(out)@ + le_bytes(ty, v).take(j as int),
        decreases w - j,
    {
        let b: u8 = if j < 8 {
            (bits >> ((8 * j) as u64)) as u8
        } else {
            match v {
                FieldValue::Int(x) => if x < 0 {
                    255
                } else {
                    0
                },
                FieldValue::UInt(_) => 0,
            }
        };
        assert(b == le_byte(v, j as int));
        out.push(b);
        proof {
            assert(le_bytes(ty, v).take(j as int).push(le_byte(v, j as int)) =~= le_bytes(
                ty,
                v,
            ).take(j as int + 1));
        }
        j += 1;
    }
    proof {
        assert(le_bytes(ty, v).take(w as int) =~= le_bytes(ty, v));
    }
}

fn serialize_fields(fs: &Vec<IntField>, vs: &Vec<FieldValue>) -> (r: Vec<u8>)
    requires
        fs@.len() == vs@.len(),
    ensures
        r@ == ser_fields(int_fields_view(fs@), vs@),
{
    let ghost fsv = int_fields_view(fs@);
    let mut out: Vec<u8> = Vec::new();
    let mut i: usize = 0;
    proof {
        assert(fsv.skip(0) =~= fsv);
        assert(vs@.skip(0) =~= vs@);
        assert(out@ + ser_fields(fsv, vs@) =~= ser_fields(fsv, vs@));
    }
    while i < fs.len()
        invariant
            i <= fs.len(),
            fs@.len() == vs@.len(),
            fsv == int_fields_view(fs@),
            fsv.len() == fs@.len(),
            out@ + ser_fields(fsv.skip(i as int), vs@.skip(i as int)) == ser_fields(fsv, vs@),
        decreases fs.len() - i,
    {
        proof {
            assert(fsv.skip(i as int)[0] == fsv[i as int]);
            assert(fsv.skip(i as int).skip(1) =~= fsv.skip(i as int + 1));
            assert(vs@.skip(i as int).skip(1) =~= vs@.skip(i as int + 1));
        }
        let ghost before = out@;
        push_le_bytes(&mut out, fs[i].ty, vs[i]);
        proof {
            assert(fsv[i as int].ty == fs@[i as int].ty);
            assert(before + (le_bytes(fsv[i as int].ty, vs@[i as int]) + ser_fields(
                fsv.skip(i as int + 1),
                vs@.skip(i as int + 1),
            )) =~= out@ + ser_fields(fsv.skip(i as int + 1), vs@.skip(i as int + 1)));
        }
        i += 1;
    }
    proof {
        assert(ser_fields(fsv.skip(fs@.len() as int), vs@.skip(fs@.len() as int)) =~= Seq::<
            u8,
        >::empty());
        assert(out@ + Seq::<u8>::empty() =~= out@);
    }
    out
}

impl Constitution {
    /// The Data Fingerprint: the 256-bit digest of the little-endian bytes of
    /// every integer field's value, in declaration order, identifying this
    /// snapshot of the instance's numeric state.
    pub fn compute_data_hash(&self, values: &Vec<FieldValue>) -> (r: Vec<u8>)
        requires
            self.matches_values(values@),
        ensures
            r@ == sha256_of(ser_fields(self@.int_fields, values@)),
            r@.len() == 32,
    {
        let bytes = serialize_fields(&self.int_fields, values);
        sha256(&bytes)
    }
}

/// Determinism of the fingerprint: two instances with identical integer-field
/// values hash the identical byte stream, hence carry the identical digest.
pub proof fn lemma_hash_deterministic(
    fs: Seq<IntFieldV>,
    vs1: Seq<FieldValue>,
    vs2: Seq<FieldValue>,
)
    requires
        vs1 == vs2,
    ensures
        sha256_of(ser_fields(fs, vs1)) == sha256_of(ser_fields(fs, vs2)),
{
}


proof fn lemma_le_bytes_injective(ty: IntTy, a: FieldValue, b: FieldValue)
    requires
        fits(ty, a),
        fits(ty, b),
        le_bytes(ty, a) == le_bytes(ty, b),
    ensures
        a == b,
{
    let w = ty.spec_width() as int;
    let bits1 = fv_bits(a);
    let bits2 = fv_bits(b);
    assert forall|j: int| 0 <= j < w implies le_byte(a, j) == le_byte(b, j) by {
        assert(le_bytes(ty, a)[j] == le_byte(a, j));
        assert(le_bytes(ty, b)[j] == le_byte(b, j));
        assert(le_bytes(ty, a)[j] == le_bytes(ty, b)[j]);
    }
    if w >= 8 {
        assert(le_byte(a, 0) == (bits1 >> 0u64) as u8 && le_byte(b, 0) == (bits2 >> 0u64) as u8);
        assert(le_byte(a, 1) == (bits1 >> 8u64) as u8 && le_byte(b, 1) == (bits2 >> 8u64) as u8);
        assert(le_byte(a, 2) == (bits1 >> 16u64) as u8 && le_byte(b, 2) == (bits2 >> 16u64) as u8);
        assert(le_byte(a, 3) == (bits1 >> 24u64) as u8 && le_byte(b, 3) == (bits2 >> 24u64) as u8);
        assert(le_byte(a, 4) == (bits1 >> 32u64) as u8 && le_byte(b, 4) == (bits2 >> 32u64) as u8);
        assert(le_byte(a, 5) == (bits1 >> 40u64) as u8 && le_byte(b, 5) == (bits2 >> 40u64) as u8);
        assert(le_byte(a, 6) == (bits1 >> 48u64) as u8 && le_byte(b, 6) == (bits2 >> 48u64) as u8);
        assert(le_byte(a, 7) == (bits1 >> 56u64) as u8 && le_byte(b, 7) == (bits2 >> 56u64) as u8);
        assert(bits1 == bits2) by (bit_vector)
            requires
                (bits1 >> 0u64) as u8 == (bits2 >> 0u64) as u8,
                (bits1 >> 8u64) as u8 == (bits2 >> 8u64) as u8,
                (bits1 >> 16u64) as u8 == (bits2 >> 16u64) as u8,
                (bits1 >> 24u64) as u8 == (bits2 >> 24u64) as u8,
                (bits1 >> 32u64) as u8 == (bits2 >> 32u64) as u8,
                (bits1 >> 40u64) as u8 == (bits2 >> 40u64) as u8,
                (bits1 >> 48u64) as u8 == (bits2 >> 48u64) as u8,
                (bits1 >> 56u64) as u8 == (bits2 >> 56u64) as u8,
        ;
        if ty.spec_signed() {
            let x1 = a->Int_0;
            let x2 = b->Int_0;
            assert(x1 == x2) by (bit_vector)
                requires
                    x1 as u64 == x2 as u64,
            ;
        }
    } else {
        if ty.spec_signed() {
            let x1 = a->Int_0;
            let x2 = b->Int_0;
            assert(le_byte(a, 0) == (bits1 >> 0u64) as u8 && le_byte(b, 0) == (bits2 >> 0u64)
                as u8);
            if w == 1 {
                assert(x1 == x2) by (bit_vector)
                    requires
                        -128 <= x1 <= 127,
                        -128 <= x2 <= 127,
                        ((x1 as u64) >> 0u64) as u8 == ((x2 as u64) >> 0u64) as u8,
                ;
            } else if w == 2 {
                assert(le_byte(a, 1) == (bits1 >> 8u64) as u8 && le_byte(b, 1) == (bits2 >> 8u64)
                    as u8);
                assert(x1 == x2) by (bit_vector)
                    requires
                        -32768 <= x1 <= 32767,
                        -32768 <= x2 <= 32767,
                        ((x1 as u64) >> 0u64) as u8 == ((x2 as u64) >> 0u64) as u8,
                        ((x1 as u64) >> 8u64) as u8 == ((x2 as u64) >> 8u64) as u8,
                ;
            } else {
                assert(le_byte(a, 1) == (bits1 >> 8u64) as u8 && le_byte(b, 1) == (bits2 >> 8u64)
                    as u8);
                assert(le_byte(a, 2) == (bits1 >> 16u64) as u8 && le_byte(b, 2) == (bits2 >> 16u64)
                    as u8);
                assert(le_byte(a, 3) == (bits1 >> 24u64) as u8 && le_byte(b, 3) == (bits2 >> 24u64)
                    as u8);
                assert(x1 == x2) by (bit_vector)
                    requires
                        -2147483648 <= x1 <= 2147483647,
                        -2147483648 <= x2 <= 2147483647,
                        ((x1 as u64) >> 0u64) as u8 == ((x2 as u64) >> 0u64) as u8,
                        ((x1 as u64) >> 8u64) as u8 == ((x2 as u64) >> 8u64) as u8,
                        ((x1 as u64) >> 16u64) as u8 == ((x2 as u64) >> 16u64) as u8,
                        ((x1 as u64) >> 24u64) as u8 == ((x2 as u64) >> 24u64) as u8,
                ;
            }
        } else {
            let x1 = a->UInt_0;
            let x2 = b->UInt_0;
            assert(le_byte(a, 0) == (bits1 >> 0u64) as u8 && le_byte(b, 0) == (bits2 >> 0u64)
                as u8);
            if w == 1 {
                assert(x1 == x2) by (bit_vector)
                    requires
                        x1 <= 255,
                        x2 <= 255,
                        (x1 >> 0u64) as u8 == (x2 >> 0u64) as u8,
                ;
            } else if w == 2 {
                assert(le_byte(a, 1) == (bits1 >> 8u64) as u8 && le_byte(b, 1) == (bits2 >> 8u64)
                    as u8);
                assert(x1 == x2) by (bit_vector)
                    requires
                        x1 <= 65535,
                        x2 <= 65535,
                        (x1 >> 0u64) as u8 == (x2 >> 0u64) as u8,
                        (x1 >> 8u64) as u8 == (x2 >> 8u64) as u8,
                ;
            } else {
                assert(le_byte(a, 1) == (bits1 >> 8u64) as u8 && le_byte(b, 1) == (bits2 >> 8u64)
                    as u8);
                assert(le_byte(a, 2) == (bits1 >> 16u64) as u8 && le_byte(b, 2) == (bits2 >> 16u64)
                    as u8);
                assert(le_byte(a, 3) == (bits1 >> 24u64) as u8 && le_byte(b, 3) == (bits2 >> 24u64)
                    as u8);
                assert(x1 == x2) by (bit_vector)
                    requires
                        x1 <= 4294967295,
                        x2 <= 4294967295,
                        (x1 >> 0u64) as u8 == (x2 >> 0u64) as u8,
                        (x1 >> 8u64) as u8 == (x2 >> 8u64) as u8,
                        (x1 >> 16u64) as u8 == (x2 >> 16u64) as u8,
                        (x1 >> 24u64) as u8 == (x2 >> 24u64) as u8,
                ;
            }
        }
    }
}

/// What the library can promise of collision resistance: the hashed byte
/// stream is injective in the instance's field values, so two valid
/// instances of the same type with differing values hand the hash function
/// differing inputs. That their digests then differ rests on the external
/// hash alone.
pub proof fn lemma_fingerprint_injective(
    fs: Seq<IntFieldV>,
    vs1: Seq<FieldValue>,
    vs2: Seq<FieldValue>,
)
    requires
        valid_values(fs, vs1),
        valid_values(fs, vs2),
        ser_fields(fs, vs1) == ser_fields(fs, vs2),
    ensures
        vs1 == vs2,
    decreases fs.len(),
{
    if fs.len() == 0 {
        assert(vs1 =~= vs2);
    } else {
        let ty = fs[0].ty;
        let w = ty.spec_width() as int;
        let s1 = ser_fields(fs, vs1);
        let s2 = ser_fields(fs, vs2);
        assert(le_bytes(ty, vs1[0]) =~= s1.subrange(0, w));
        assert(le_bytes(ty, vs2[0]) =~= s2.subrange(0, w));
        lemma_le_bytes_injective(ty, vs1[0], vs2[0]);
        assert(ser_fields(fs.skip(1), vs1.skip(1)) =~= s1.subrange(w, s1.len() as int));
        assert(ser_fields(fs.skip(1), vs2.skip(1)) =~= s2.subrange(w, s2.len() as int));
        assert(forall|i: int|
            0 <= i < fs.skip(1).len() ==> fits(#[trigger] fs.skip(1)[i].ty, vs1.skip(1)[i]));
        assert(forall|i: int|
            0 <= i < fs.skip(1).len() ==> fits(#[trigger] fs.skip(1)[i].ty, vs2.skip(1)[i]));
        lemma_fingerprint_injective(fs.skip(1), vs1.skip(1), vs2.skip(1));
        assert forall|i: int| 0 <= i < vs1.len() implies vs1[i] == vs2[i] by {
            if i > 0 {
                assert(vs1.skip(1)[i - 1] == vs2.skip(1)[i - 1]);
            }
        }
        assert(vs1 =~= vs2);
    }
}

} // verus!
