use praborrow_defense::constitution::{generate, Constitution, ConstitutionError, GenError};
use praborrow_defense::decl::{FieldDecl, FieldTy, IntTy, RecordDecl};
use praborrow_defense::prover::FieldValue;

fn test_struct_decl() -> RecordDecl {
    RecordDecl {
        fields: vec![FieldDecl {
            name: "val".to_string(),
            ty: FieldTy::Integer(IntTy::I32),
            invariants: vec!["self.val > 10".to_string()],
        }],
    }
}

fn test_struct() -> Constitution {
    match generate(&test_struct_decl()) {
        Ok(c) => c,
        Err(_) => panic!("generation must accept a valid invariant"),
    }
}

#[test]
fn test_no_panic() {
    let t = test_struct();
    let result = t.enforce_law(&vec![FieldValue::Int(5)]);
    assert!(result.is_err());
    let err = result.err().unwrap();
    assert!(err.message().contains("Invariant 'self.val > 10' breached"));
}

#[test]
fn test_ok() {
    let t = test_struct();
    assert!(t.enforce_law(&vec![FieldValue::Int(15)]).is_ok());
}

#[test]
fn violation_message_is_exact() {
    let t = test_struct();
    let err = t.enforce_law(&vec![FieldValue::Int(-3)]).err().unwrap();
    assert_eq!(err.message(), "Invariant 'self.val > 10' breached");
    let ConstitutionError::InvariantViolation { expression, values } = err;
    assert_eq!(expression, "self.val > 10");
    assert!(values.is_empty());
}

#[test]
fn no_invariants_always_succeeds() {
    let decl = RecordDecl {
        fields: vec![
            FieldDecl {
                name: "a".to_string(),
                ty: FieldTy::Integer(IntTy::U8),
                invariants: vec![],
            },
            FieldDecl {
                name: "b".to_string(),
                ty: FieldTy::Integer(IntTy::I64),
                invariants: vec![],
            },
        ],
    };
    let c = generate(&decl).ok().unwrap();
    for a in [0u64, 1, 255] {
        for b in [i64::MIN, -1, 0, i64::MAX] {
            let vs = vec![FieldValue::UInt(a), FieldValue::Int(b)];
            assert!(c.enforce_law(&vs).is_ok());
        }
    }
}

#[test]
fn first_failure_is_reported_in_order() {
    let decl = RecordDecl {
        fields: vec![
            FieldDecl {
                name: "x".to_string(),
                ty: FieldTy::Integer(IntTy::I32),
                invariants: vec!["self.x >= 0".to_string(), "self.x < 100".to_string()],
            },
            FieldDecl {
                name: "y".to_string(),
                ty: FieldTy::Integer(IntTy::I32),
                invariants: vec!["self.y != 7".to_string()],
            },
        ],
    };
    let c = generate(&decl).ok().unwrap();

    // x = 250 violates the second clause first; y = 7 would violate the
    // third, but the check must stop at the second.
    let err = c
        .enforce_law(&vec![FieldValue::Int(250), FieldValue::Int(7)])
        .err()
        .unwrap();
    let ConstitutionError::InvariantViolation { expression, .. } = err;
    assert_eq!(expression, "self.x < 100");

    // Only the third clause fails.
    let err = c
        .enforce_law(&vec![FieldValue::Int(50), FieldValue::Int(7)])
        .err()
        .unwrap();
    let ConstitutionError::InvariantViolation { expression, .. } = err;
    assert_eq!(expression, "self.y != 7");

    // All hold.
    assert!(c
        .enforce_law(&vec![FieldValue::Int(50), FieldValue::Int(8)])
        .is_ok());
}

#[test]
fn repeated_checks_agree() {
    let t = test_struct();
    let vs = vec![FieldValue::Int(5)];
    let first = t.enforce_law(&vs);
    let second = t.enforce_law(&vs);
    assert_eq!(first.is_err(), second.is_err());
    let ConstitutionError::InvariantViolation { expression: e1, .. } = first.err().unwrap();
    let ConstitutionError::InvariantViolation { expression: e2, .. } = second.err().unwrap();
    assert_eq!(e1, e2);
    assert!(t.enforce_law(&vec![FieldValue::Int(15)]).is_ok());
    assert!(t.enforce_law(&vec![FieldValue::Int(15)]).is_ok());
}

#[test]
fn invalid_syntax_aborts_generation() {
    let decl = RecordDecl {
        fields: vec![FieldDecl {
            name: "value".to_string(),
            ty: FieldTy::Integer(IntTy::I32),
            invariants: vec!["this is not a valid expression >>>".to_string()],
        }],
    };
    match generate(&decl) {
        Ok(_) => panic!("an unparsable invariant must abort generation"),
        Err(GenError::Syntax { field, text }) => {
            assert_eq!(field, "value");
            assert_eq!(text, "this is not a valid expression >>>");
        },
        Err(_) => panic!("an unparsable invariant is a syntax error"),
    }
}

#[test]
fn unknown_name_aborts_generation() {
    let decl = RecordDecl {
        fields: vec![
            FieldDecl {
                name: "tag".to_string(),
                ty: FieldTy::Other,
                invariants: vec![],
            },
            FieldDecl {
                name: "n".to_string(),
                ty: FieldTy::Integer(IntTy::U32),
                invariants: vec!["self.tag > 0".to_string()],
            },
        ],
    };
    match generate(&decl) {
        Err(GenError::UnknownName { field, text }) => {
            assert_eq!(field, "n");
            assert_eq!(text, "self.tag > 0");
        },
        _ => panic!("a condition on a non-integer field cannot be compiled"),
    }
}

#[test]
fn grammar_covers_boolean_combinations() {
    let decl = RecordDecl {
        fields: vec![
            FieldDecl {
                name: "a".to_string(),
                ty: FieldTy::Integer(IntTy::I32),
                invariants: vec![
                    "(self.a > 1 && self.b < 5) || self.a == -2".to_string(),
                    "!(self.b == 3)".to_string(),
                ],
            },
            FieldDecl {
                name: "b".to_string(),
                ty: FieldTy::Integer(IntTy::I32),
                invariants: vec![],
            },
        ],
    };
    let c = generate(&decl).ok().unwrap();
    // a = 2, b = 4: both clauses hold.
    assert!(c
        .enforce_law(&vec![FieldValue::Int(2), FieldValue::Int(4)])
        .is_ok());
    // a = -2, b = 9: first clause holds through the right disjunct.
    assert!(c
        .enforce_law(&vec![FieldValue::Int(-2), FieldValue::Int(9)])
        .is_ok());
    // a = 0, b = 4: first clause fails.
    let ConstitutionError::InvariantViolation { expression, .. } = c
        .enforce_law(&vec![FieldValue::Int(0), FieldValue::Int(4)])
        .err()
        .unwrap();
    assert_eq!(expression, "(self.a > 1 && self.b < 5) || self.a == -2");
    // a = 2, b = 3: second clause fails.
    let ConstitutionError::InvariantViolation { expression, .. } = c
        .enforce_law(&vec![FieldValue::Int(2), FieldValue::Int(3)])
        .err()
        .unwrap();
    assert_eq!(expression, "!(self.b == 3)");
}

#[test]
fn oversized_literal_is_a_syntax_error() {
    let decl = RecordDecl {
        fields: vec![FieldDecl {
            name: "n".to_string(),
            ty: FieldTy::Integer(IntTy::U64),
            invariants: vec!["self.n < 99999999999999999999999999".to_string()],
        }],
    };
    assert!(matches!(generate(&decl), Err(GenError::Syntax { .. })));
    let ok = RecordDecl {
        fields: vec![FieldDecl {
            name: "n".to_string(),
            ty: FieldTy::Integer(IntTy::U64),
            invariants: vec!["self.n <= 18446744073709551615".to_string()],
        }],
    };
    let c = generate(&ok).ok().unwrap();
    assert!(c.enforce_law(&vec![FieldValue::UInt(u64::MAX)]).is_ok());
}
