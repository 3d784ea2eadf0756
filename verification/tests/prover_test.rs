use praborrow_defense::constitution::generate;
use praborrow_defense::decl::{is_integer_type, FieldDecl, FieldTy, IntTy, RecordDecl};
use praborrow_defense::prover::{
    Binding, BindingV, FieldValue, ProofContext, ProofError, ProofErrorV, VerificationToken,
};
use vstd::seq::Seq;
use sha2::Digest;

fn sample_decl() -> RecordDecl {
    RecordDecl {
        fields: vec![
            FieldDecl {
                name: "count".to_string(),
                ty: FieldTy::Integer(IntTy::U16),
                invariants: vec!["self.count > 0".to_string()],
            },
            FieldDecl {
                name: "label".to_string(),
                ty: FieldTy::Other,
                invariants: vec![],
            },
            FieldDecl {
                name: "delta".to_string(),
                ty: FieldTy::Integer(IntTy::I32),
                invariants: vec!["self.delta >= -10".to_string()],
            },
        ],
    }
}

#[test]
fn field_provider_returns_tagged_values() {
    let c = generate(&sample_decl()).ok().unwrap();
    let vs = vec![FieldValue::UInt(258), FieldValue::Int(-2)];
    assert_eq!(c.get_field_value(&vs, "count"), Ok(FieldValue::UInt(258)));
    assert_eq!(c.get_field_value(&vs, "delta"), Ok(FieldValue::Int(-2)));
    for name in ["label", "missing", ""] {
        match c.get_field_value(&vs, name) {
            Err(ProofError::ParseError(msg)) => {
                assert_eq!(msg, format!("Unknown field: {}", name));
            },
            _ => panic!("only integer fields have a value"),
        }
    }
}

#[test]
fn fingerprint_matches_the_hash_of_the_declared_bytes() {
    let c = generate(&sample_decl()).ok().unwrap();
    let vs = vec![FieldValue::UInt(258), FieldValue::Int(-2)];
    let digest = c.compute_data_hash(&vs);
    assert_eq!(digest.len(), 32);

    let mut bytes: Vec<u8> = Vec::new();
    bytes.extend_from_slice(&258u16.to_le_bytes());
    bytes.extend_from_slice(&(-2i32).to_le_bytes());
    let expected = sha2::Sha256::digest(&bytes);
    assert_eq!(digest.as_slice(), expected.as_slice());
}

#[test]
fn fingerprint_is_deterministic_and_value_sensitive() {
    let c = generate(&sample_decl()).ok().unwrap();
    let vs = vec![FieldValue::UInt(7), FieldValue::Int(3)];
    let again = vec![FieldValue::UInt(7), FieldValue::Int(3)];
    assert_eq!(c.compute_data_hash(&vs), c.compute_data_hash(&again));
    let changed = vec![FieldValue::UInt(7), FieldValue::Int(4)];
    assert_ne!(c.compute_data_hash(&vs), c.compute_data_hash(&changed));
    let changed_first = vec![FieldValue::UInt(8), FieldValue::Int(3)];
    assert_ne!(c.compute_data_hash(&vs), c.compute_data_hash(&changed_first));
}

struct RecordingContext;

impl ProofContext for RecordingContext {
    fn outcome(
        &self,
        _invariants: Seq<Seq<char>>,
        _bindings: Seq<BindingV>,
    ) -> Result<VerificationToken, ProofErrorV> {
        panic!("ghost member; never called at runtime")
    }

    fn verify_invariants(
        &self,
        bindings: &Vec<Binding>,
        invariants: &Vec<String>,
    ) -> Result<VerificationToken, ProofError> {
        let mut summary = String::new();
        for inv in invariants {
            summary.push_str(inv);
            summary.push(';');
        }
        for b in bindings {
            summary.push_str(&b.name);
            summary.push(',');
        }
        Err(ProofError::Solver(summary))
    }
}

struct AcceptingContext;

impl ProofContext for AcceptingContext {
    fn outcome(
        &self,
        _invariants: Seq<Seq<char>>,
        _bindings: Seq<BindingV>,
    ) -> Result<VerificationToken, ProofErrorV> {
        panic!("ghost member; never called at runtime")
    }

    fn verify_invariants(
        &self,
        _bindings: &Vec<Binding>,
        _invariants: &Vec<String>,
    ) -> Result<VerificationToken, ProofError> {
        Ok(VerificationToken {})
    }
}

#[test]
fn verification_submits_the_complete_invariant_list() {
    let c = generate(&sample_decl()).ok().unwrap();
    // count = 0 violates the first invariant at runtime; the formal path must
    // still submit both invariants and both bindings.
    let vs = vec![FieldValue::UInt(0), FieldValue::Int(-50)];
    assert!(c.enforce_law(&vs).is_err());
    match c.verify_with_context(&vs, &RecordingContext) {
        Err(ProofError::Solver(summary)) => {
            assert_eq!(summary, "self.count > 0;self.delta >= -10;count,delta,");
        },
        _ => panic!("the recording context always reports what it was given"),
    }
    assert!(c.verify_with_context(&vs, &AcceptingContext).is_ok());
}

#[test]
fn invariant_expressions_lists_every_text_in_order() {
    let c = generate(&sample_decl()).ok().unwrap();
    let texts = c.invariant_expressions();
    assert_eq!(texts, vec!["self.count > 0".to_string(), "self.delta >= -10".to_string()]);
}

#[test]
fn integer_type_names_are_recognised() {
    for name in ["i8", "i16", "i32", "i64", "i128", "isize", "u8", "u16", "u32", "u64", "u128",
        "usize"] {
        assert!(is_integer_type(name));
    }
    for name in ["f32", "f64", "bool", "String", "i65", "u", ""] {
        assert!(!is_integer_type(name));
    }
}
