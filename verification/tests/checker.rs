use dnlib::checker::{CheckUpResult, Proof, ReadError, SemanticError};
use dnlib::record::{Record, RecordError, Statement};

/// Reads and checks a proof given by its lines.
fn checked(lines: &[&str]) -> Proof {
    let mut proof = Proof::read_proof(&lines.join("\n")).unwrap();
    assert_eq!(proof.check(), Ok(()));
    proof
}

fn errors_of(lines: &[&str]) -> (usize, Vec<(usize, SemanticError)>) {
    let proof = checked(lines);
    match proof.state() {
        CheckUpResult::SemanticErrors {
            first_error,
            errors,
        } => (*first_error, errors.clone()),
        other => panic!("no error: {:?}", other),
    }
}

/// The proof made of `valid`, which is one, and of a last record that is not.
fn last_fails_with(valid: &[&str], last: &str, expected: SemanticError) {
    if !valid.is_empty() {
        assert_eq!(*checked(valid).state(), CheckUpResult::Valid, "{:?}", valid);
    }
    let mut lines = valid.to_vec();
    lines.push(last);
    let (first, errors) = errors_of(&lines);
    assert_eq!(errors, vec![(valid.len(), expected)], "{:?}", last);
    assert_eq!(first, valid.len());
}

fn last_is_valid(valid: &[&str], last: &str) {
    let mut lines = valid.to_vec();
    lines.push(last);
    assert_eq!(*checked(&lines).state(), CheckUpResult::Valid, "{:?}", last);
}

const AND: [&str; 3] = [
    "0;0;Supposons a∧b;Hyp",
    "1;0;a;EAndL 0",
    "2;0;b;EAndR 0",
];

/// Three valid records, the last of which closes the hypothesis of the
/// first, followed by a new hypothesis: the records 0 and 1 cannot be
/// referred to from record 4 on.
const CLOSED: [&str; 4] = [
    "0;0;Supposons a∧b;Hyp",
    "1;0;a;EAndL 0",
    "2;;Donc a∧b⇒a;IImpl",
    "3;3;Supposons c∧d;Hyp",
];

const OR: [&str; 5] = [
    "0;0;Supposons (a⇒c)∧((b⇒c)∧(a∨b));Hyp",
    "1;0;a⇒c;EAndL 0",
    "2;0;(b⇒c)∧(a∨b);EAndR 0",
    "3;0;b⇒c;EAndL 2",
    "4;0;a∨b;EAndR 2",
];

const IMPL: [&str; 3] = [
    "0;0;Supposons a∧(a⇒b);Hyp",
    "1;0;a;EAndL 0",
    "2;0;a⇒b;EAndR 0",
];

#[test]
fn a_proof_is_not_checked_when_read() {
    let proof = Proof::read_proof("0;0;Supposons a;Hyp").unwrap();
    assert_eq!(*proof.state(), CheckUpResult::NotChecked);
}

#[test]
fn valid_proof_with_a_discharge() {
    let proof = checked(&[
        "0;0;Supposons a∧b;Hyp",
        "1;0;a;EAndL 0",
        "2;;Donc a∧b⇒a;IImpl",
    ]);
    assert_eq!(*proof.state(), CheckUpResult::Valid);
}

#[test]
fn hypothesis_repeated_as_a_plain_statement() {
    // A plain statement is never justified by `Hyp`, so the second record of
    // this proof of `a⇒a` fails; the discharge after it is judged on its own.
    let (first, errors) = errors_of(&[
        "0;0;Supposons a;Hyp",
        "1;0;a;Hyp",
        "2;;Donc a⇒a;IImpl",
    ]);
    assert_eq!(first, 1);
    assert_eq!(errors, vec![(1, SemanticError::HypNotSimple)]);
}

#[test]
fn discharge_right_after_its_hypothesis() {
    let (first, errors) = errors_of(&["0;0;Supposons a;Hyp", "1;;Donc a⇒a;IImpl"]);
    assert_eq!(first, 1);
    assert_eq!(errors, vec![(1, SemanticError::DoncHypDifCons)]);
}

#[test]
fn invalid_id() {
    let (first, errors) = errors_of(&["0;0;Supposons a;Hyp", "2;0,2;a;Hyp"]);
    assert_eq!(first, 1);
    assert_eq!(errors, vec![(1, SemanticError::IncorrectId)]);
}

#[test]
fn modus_ponens() {
    last_is_valid(&IMPL, "3;0;b;EImpl 1 2");
    last_fails_with(&IMPL, "3;0;c;EImpl 1 2", SemanticError::EImplImplNotMatching);
    let proof = checked(&[
        "0;0;Supposons a∧(a⇒b);Hyp",
        "1;0;a;EAndL 0",
        "2;0;a⇒b;EAndR 0",
        "3;0;b;EImpl 1 2",
        "4;;Donc a∧(a⇒b)⇒b;IImpl",
    ]);
    assert_eq!(*proof.state(), CheckUpResult::Valid);
}

#[test]
fn modus_ponens_under_a_second_hypothesis() {
    // Record 2 stands under the hypotheses 0 and 1, record 0 under 0 only:
    // the context of record 2 is no prefix of that of record 0.
    for formula in ["b", "c"] {
        let last = format!("2;0,1;{};EImpl 0 1", formula);
        let (first, errors) = errors_of(&[
            "0;0;Supposons a;Hyp",
            "1;0,1;Supposons a⇒b;Hyp",
            &last,
        ]);
        assert_eq!(first, 2);
        assert_eq!(errors, vec![(2, SemanticError::EImplHypIncompatibleCtxt)]);
    }
}

#[test]
fn every_failing_record_is_listed() {
    let (first, errors) = errors_of(&[
        "0;0;Supposons a∧b;Hyp",
        "5;0;a;EAndL 0",
        "2;0;b;EAndR 0",
        "3;0;c;EAndL 0",
        "4;0;b;Hyp",
        "5;0;a;EAndL 0",
    ]);
    assert_eq!(first, 1);
    assert_eq!(
        errors,
        vec![
            (1, SemanticError::IncorrectId),
            (3, SemanticError::EAndNotMatching),
            (4, SemanticError::HypNotSimple),
        ]
    );
}

#[test]
fn the_id_is_looked_at_first() {
    let (_, errors) = errors_of(&["1;;a;Hyp"]);
    assert_eq!(errors, vec![(0, SemanticError::IncorrectId)]);
}

#[test]
fn hypotheses() {
    last_is_valid(&[], "0;0;Supposons a;Hyp");
    last_is_valid(&AND, "3;0,3;Supposons c;Hyp");
    last_is_valid(&CLOSED[..3], "3;3;Supposons c∧d;Hyp");
    last_fails_with(&[], "0;;Supposons a;Hyp", SemanticError::SuppCtxtOneMoreThenBefore);
    last_fails_with(&[], "0;0,0;Supposons a;Hyp", SemanticError::SuppCtxtOneMoreThenBefore);
    last_fails_with(&[], "0;7;Supposons a;Hyp", SemanticError::SuppCtxtLastIsId);
    last_fails_with(&[], "0;0;Supposons a;IImpl", SemanticError::SuppJustIsHyp);
    last_fails_with(&[], "0;0;Supposons a;Efq 0", SemanticError::SuppJustIsHyp);
    last_fails_with(&AND, "3;0;Supposons c;Hyp", SemanticError::SuppCtxtOneMoreThenBefore);
    last_fails_with(&AND, "3;3;Supposons c;Hyp", SemanticError::SuppCtxtOneMoreThenBefore);
    last_fails_with(&AND, "3;1,3;Supposons c;Hyp", SemanticError::SuppCtxtSameAsBefore);
    last_fails_with(&AND, "3;0,2;Supposons c;Hyp", SemanticError::SuppCtxtLastIsId);
    last_fails_with(&AND, "3;0,3;Supposons c;EAndL 0", SemanticError::SuppJustIsHyp);
    // The context is looked at before the justification.
    last_fails_with(&AND, "3;0;Supposons c;IImpl", SemanticError::SuppCtxtOneMoreThenBefore);
}

#[test]
fn discharges() {
    last_is_valid(&AND, "3;;Donc a∧b⇒b;IImpl");
    last_is_valid(&AND[..2], "2;;Donc a∧b⇒a;IImpl");
    last_fails_with(&[], "0;;Donc a⇒a;IImpl", SemanticError::DoncNotFirst);
    // The justification is looked at first.
    last_fails_with(&[], "0;;Donc a⇒a;Hyp", SemanticError::DoncJustifIsIImpl);
    last_fails_with(&AND, "3;;Donc a∧b⇒b;Hyp", SemanticError::DoncJustifIsIImpl);
    last_fails_with(&AND, "3;0;Donc a∧b⇒b;IImpl", SemanticError::DoncCtxtOneLessThenBefore);
    last_fails_with(&CLOSED[..3], "3;;Donc a∧b⇒b;IImpl", SemanticError::DoncCtxtOneLessThenBefore);
    last_fails_with(&AND[..1], "1;;Donc a∧b⇒a∧b;IImpl", SemanticError::DoncHypDifCons);
    last_fails_with(&AND, "3;;Donc b⇒b;IImpl", SemanticError::DoncHypNotMatching);
    last_fails_with(&AND, "3;;Donc a∧b⇒a;IImpl", SemanticError::DoncConsNotMatching);
    last_fails_with(&AND, "3;;Donc b;IImpl", SemanticError::DoncFormulaIsImplies);
    last_fails_with(&AND, "3;;Donc a∧b⇐b;IImpl", SemanticError::DoncFormulaIsImplies);
}

#[test]
fn discharge_of_the_inner_hypothesis() {
    let nested = [
        "0;0;Supposons a∧b;Hyp",
        "1;0,1;Supposons c∧d;Hyp",
        "2;0,1;c;EAndL 1",
    ];
    last_is_valid(&nested, "3;0;Donc c∧d⇒c;IImpl");
    last_fails_with(&nested, "3;1;Donc c∧d⇒c;IImpl", SemanticError::DoncCtxtSameAsBefore);
    last_fails_with(&nested, "3;;Donc c∧d⇒c;IImpl", SemanticError::DoncCtxtOneLessThenBefore);
    last_fails_with(&nested, "3;0;Donc a∧b⇒c;IImpl", SemanticError::DoncHypNotMatching);
    // The hypothesis is the one named last in the context of the record
    // before, here the first record.
    let renamed = [
        "0;0;Supposons a∧b;Hyp",
        "1;0;a;EAndL 0",
        "2;0;b;EAndR 0",
    ];
    last_is_valid(&renamed, "3;;Donc a∧b⇒b;IImpl");
}

#[test]
fn plain_statements() {
    last_fails_with(&[], "0;;a;Hyp", SemanticError::SimpleIsFirst);
    last_fails_with(&[], "0;0;a;EAndL 0", SemanticError::SimpleIsFirst);
    last_fails_with(&AND, "3;;a;EAndL 0", SemanticError::SimpleCtxtSameAsBefore);
    last_fails_with(&AND, "3;0,3;a;EAndL 0", SemanticError::SimpleCtxtSameAsBefore);
    last_fails_with(&AND, "3;1;a;EAndL 0", SemanticError::SimpleCtxtSameAsBefore);
    last_fails_with(&AND, "3;0;a;Hyp", SemanticError::HypNotSimple);
    last_fails_with(&AND, "3;0;a;IImpl", SemanticError::IImplNotSimple);
}

#[test]
fn or_introduction_on_the_left() {
    last_is_valid(&AND, "3;0;c∨a;IOrL 1 c");
    last_is_valid(&AND, "3;0;(c⇒d)∨(a∧b);IOrL 0 c⇒d");
    last_fails_with(&AND, "3;0;c∨a;IOrL 3 c", SemanticError::IOrLPosLesser);
    last_fails_with(&AND, "3;0;c∨a;IOrL 4 c", SemanticError::IOrLPosLesser);
    last_fails_with(&CLOSED, "4;3;e∨a;IOrL 1 e", SemanticError::IOrLIncompatibleCtxt);
    last_fails_with(&AND, "3;0;c∨a;IOrL 1 d", SemanticError::IOrLLeftNotMatching);
    last_fails_with(&AND, "3;0;c∨b;IOrL 1 c", SemanticError::IOrLRightNotMatching);
    last_fails_with(&AND, "3;0;a∨c;IOrL 1 c", SemanticError::IOrLLeftNotMatching);
    last_fails_with(&AND, "3;0;c∧a;IOrL 1 c", SemanticError::IOrLFormulaIsOr);
    last_fails_with(&AND, "3;0;a;IOrL 1 c", SemanticError::IOrLFormulaIsOr);
}

#[test]
fn or_introduction_on_the_right() {
    last_is_valid(&AND, "3;0;a∨c;IOrR 1 c");
    last_is_valid(&AND, "3;0;a∧b∨¬c;IOrR 0 ¬c");
    last_fails_with(&AND, "3;0;a∨c;IOrR 3 c", SemanticError::IOrRPosLesser);
    last_fails_with(&CLOSED, "4;3;a∨e;IOrR 1 e", SemanticError::IOrRIncompatibleCtxt);
    last_fails_with(&AND, "3;0;a∨c;IOrR 1 d", SemanticError::IOrRRightNotMatching);
    last_fails_with(&AND, "3;0;b∨c;IOrR 1 c", SemanticError::IOrRLeftNotMatching);
    last_fails_with(&AND, "3;0;c∨a;IOrR 1 c", SemanticError::IOrRRightNotMatching);
    last_fails_with(&AND, "3;0;a⇒c;IOrR 1 c", SemanticError::IOrRFormulaIsOr);
}

#[test]
fn or_elimination() {
    last_is_valid(&OR, "5;0;c;EOr 1 3 4");
    let proof = checked(&[
        OR[0],
        OR[1],
        OR[2],
        OR[3],
        OR[4],
        "5;0;c;EOr 1 3 4",
        "6;;Donc (a⇒c)∧((b⇒c)∧(a∨b))⇒c;IImpl",
    ]);
    assert_eq!(*proof.state(), CheckUpResult::Valid);
    last_fails_with(&OR, "5;0;c;EOr 5 3 4", SemanticError::EOrA2CPosLesser);
    last_fails_with(&OR, "5;0;c;EOr 1 5 4", SemanticError::EOrB2CPosLesser);
    last_fails_with(&OR, "5;0;c;EOr 1 3 5", SemanticError::EOrAOBPosLesser);
    last_fails_with(&OR, "5;0;c;EOr 9 9 9", SemanticError::EOrA2CPosLesser);
    last_fails_with(&OR, "5;0;c;EOr 1 3 3", SemanticError::EOrFormulasNotRightKind);
    last_fails_with(&OR, "5;0;c;EOr 4 3 4", SemanticError::EOrFormulasNotRightKind);
    last_fails_with(&OR, "5;0;c;EOr 1 0 4", SemanticError::EOrFormulasNotRightKind);
    last_fails_with(&OR, "5;0;c;EOr 3 3 4", SemanticError::EOrAFormulaNotMatching);
    last_fails_with(&OR, "5;0;c;EOr 1 1 4", SemanticError::EOrBFormulaNotMatching);
    last_fails_with(&OR, "5;0;d;EOr 1 3 4", SemanticError::EOrCFormulaNotMatchingEliminated);
    last_fails_with(
        &[
            "0;0;Supposons (a⇒c)∧((b⇒d)∧(a∨b));Hyp",
            "1;0;a⇒c;EAndL 0",
            "2;0;(b⇒d)∧(a∨b);EAndR 0",
            "3;0;b⇒d;EAndL 2",
            "4;0;a∨b;EAndR 2",
        ],
        "5;0;c;EOr 1 3 4",
        SemanticError::EOrCFormulaNotMatchingConsequences,
    );
}

#[test]
fn or_elimination_across_contexts() {
    let closed = [
        OR[0],
        OR[1],
        OR[2],
        OR[3],
        OR[4],
        "5;0;c;EOr 1 3 4",
        "6;;Donc (a⇒c)∧((b⇒c)∧(a∨b))⇒c;IImpl",
        "7;7;Supposons (a⇒c)∧((b⇒c)∧(a∨b));Hyp",
        "8;7;a⇒c;EAndL 7",
        "9;7;(b⇒c)∧(a∨b);EAndR 7",
        "10;7;b⇒c;EAndL 9",
        "11;7;a∨b;EAndR 9",
    ];
    last_is_valid(&closed, "12;7;c;EOr 8 10 11");
    last_fails_with(&closed, "12;7;c;EOr 1 10 11", SemanticError::EOrA2CIncompatibleCtxt);
    last_fails_with(&closed, "12;7;c;EOr 8 3 11", SemanticError::EOrB2CIncompatibleCtxt);
    last_fails_with(&closed, "12;7;c;EOr 8 10 4", SemanticError::EOrAOBIncompatibleCtxt);
    // The positions are looked at before the contexts.
    last_fails_with(&closed, "12;7;c;EOr 1 10 12", SemanticError::EOrAOBPosLesser);
}

#[test]
fn and_introduction() {
    last_is_valid(&AND, "3;0;b∧a;IAnd 2 1");
    last_is_valid(&AND, "3;0;a∧a;IAnd 1 1");
    last_fails_with(&AND, "3;0;b∧a;IAnd 3 1", SemanticError::IAndLeftPosLesser);
    last_fails_with(&AND, "3;0;b∧a;IAnd 2 3", SemanticError::IAndRightPosLesser);
    last_fails_with(&AND, "3;0;a∧a;IAnd 2 1", SemanticError::IAndLeftNotMatching);
    last_fails_with(&AND, "3;0;b∧b;IAnd 2 1", SemanticError::IAndRightNotMatching);
    last_fails_with(&AND, "3;0;b∨a;IAnd 2 1", SemanticError::IAndFormulaIsAnd);
    last_fails_with(&CLOSED, "4;3;a∧c;IAnd 1 3", SemanticError::IAndLeftIncompatibleCtxt);
    last_fails_with(&CLOSED, "4;3;c∧a;IAnd 3 1", SemanticError::IAndRightIncompatibleCtxt);
}

#[test]
fn and_elimination() {
    last_is_valid(&AND, "3;0;a;EAndL 0");
    last_is_valid(&AND, "3;0;b;EAndR 0");
    last_fails_with(&AND, "3;0;a;EAndL 3", SemanticError::EAndPosLesser);
    last_fails_with(&AND, "3;0;b;EAndR 3", SemanticError::EAndPosLesser);
    last_fails_with(&AND, "3;0;b;EAndL 0", SemanticError::EAndNotMatching);
    last_fails_with(&AND, "3;0;a;EAndR 0", SemanticError::EAndNotMatching);
    last_fails_with(&AND, "3;0;a;EAndL 1", SemanticError::EAndFormulaIsAnd);
    last_fails_with(&AND, "3;0;a;EAndR 1", SemanticError::EAndFormulaIsAnd);
    last_fails_with(&CLOSED, "4;3;a;EAndL 0", SemanticError::EAndIncompatibleCtxt);
    last_fails_with(&CLOSED, "4;3;b;EAndR 0", SemanticError::EAndIncompatibleCtxt);
    last_is_valid(&CLOSED, "4;3;c;EAndL 3");
}

#[test]
fn implication_elimination() {
    last_is_valid(&IMPL, "3;0;b;EImpl 1 2");
    last_fails_with(&IMPL, "3;0;b;EImpl 3 2", SemanticError::EImplHypPosLesser);
    last_fails_with(&IMPL, "3;0;b;EImpl 1 3", SemanticError::EImplImplPosLesser);
    last_fails_with(&IMPL, "3;0;b;EImpl 0 2", SemanticError::EImplHypNotMatching);
    last_fails_with(&IMPL, "3;0;a;EImpl 1 2", SemanticError::EImplImplNotMatching);
    last_fails_with(&IMPL, "3;0;b;EImpl 1 1", SemanticError::EImplFormulaIsImpl);
    last_fails_with(&IMPL, "3;0;b;EImpl 2 1", SemanticError::EImplFormulaIsImpl);
    let closed = [
        IMPL[0],
        IMPL[1],
        IMPL[2],
        "3;0;b;EImpl 1 2",
        "4;;Donc a∧(a⇒b)⇒b;IImpl",
        "5;5;Supposons a∧(a⇒b);Hyp",
        "6;5;a;EAndL 5",
        "7;5;a⇒b;EAndR 5",
    ];
    last_is_valid(&closed, "8;5;b;EImpl 6 7");
    last_fails_with(&closed, "8;5;b;EImpl 1 7", SemanticError::EImplHypIncompatibleCtxt);
    last_fails_with(&closed, "8;5;b;EImpl 6 2", SemanticError::EImplImplIncompatibleCtxt);
}

#[test]
fn a_record_without_hypothesis_may_refer_to_any_earlier_record() {
    // The empty context is a prefix of every context.
    let closed = [
        IMPL[0],
        IMPL[1],
        IMPL[2],
        "3;0;b;EImpl 1 2",
        "4;;Donc a∧(a⇒b)⇒b;IImpl",
    ];
    last_is_valid(&closed, "5;;b;EImpl 1 2");
    last_is_valid(&closed, "5;;a;EAndL 0");
}

#[test]
fn ex_falso_quodlibet() {
    let bottom = ["0;0;Supposons ⊥;Hyp"];
    last_is_valid(&bottom, "1;0;a⇒b;Efq 0");
    last_is_valid(&bottom, "1;0;⊥;Efq 0");
    last_fails_with(&bottom, "1;0;a;Efq 1", SemanticError::EfqPosLesser);
    last_fails_with(&AND, "3;0;c;Efq 1", SemanticError::EfqFormulaIsBot);
    last_fails_with(&["0;0;Supposons ⊤;Hyp"], "1;0;c;Efq 0", SemanticError::EfqFormulaIsBot);
    last_fails_with(
        &[
            "0;0;Supposons ⊥;Hyp",
            "1;0;a;Efq 0",
            "2;;Donc ⊥⇒a;IImpl",
            "3;3;Supposons ⊥;Hyp",
        ],
        "4;3;b;Efq 0",
        SemanticError::EfqIncompatibleCtxt,
    );
}

#[test]
fn reductio_ad_absurdum() {
    let double = ["0;0;Supposons ¬¬a;Hyp"];
    last_is_valid(&double, "1;0;a;Raa 0");
    last_is_valid(&["0;0;Supposons ¬¬(a∧b);Hyp"], "1;0;a∧b;Raa 0");
    last_fails_with(&double, "1;0;a;Raa 1", SemanticError::RaaPosLesser);
    last_fails_with(&double, "1;0;b;Raa 0", SemanticError::RaaNotMatching);
    last_fails_with(&double, "1;0;¬a;Raa 0", SemanticError::RaaNotMatching);
    last_fails_with(&["0;0;Supposons ¬a;Hyp"], "1;0;a;Raa 0", SemanticError::RaaFormulaIsNotNot);
    last_fails_with(&["0;0;Supposons a;Hyp"], "1;0;a;Raa 0", SemanticError::RaaFormulaIsNotNot);
    last_fails_with(
        &[
            "0;0;Supposons ¬¬a;Hyp",
            "1;0;a;Raa 0",
            "2;;Donc ¬¬a⇒a;IImpl",
            "3;3;Supposons ¬¬a;Hyp",
        ],
        "4;3;a;Raa 0",
        SemanticError::RaaIncompatibleCtxt,
    );
}

#[test]
fn check_up_to_a_position() {
    let mut proof = Proof::read_proof(&AND.join("\n")).unwrap();
    assert_eq!(proof.check_up_to(0), Ok(()));
    assert_eq!(*proof.state(), CheckUpResult::ValidUntil(1));
    assert_eq!(proof.check_up_to(1), Ok(()));
    assert_eq!(*proof.state(), CheckUpResult::ValidUntil(2));
    assert_eq!(proof.check_up_to(2), Ok(()));
    assert_eq!(*proof.state(), CheckUpResult::Valid);
    assert_eq!(proof.check_up_to(0), Ok(()));
    assert_eq!(*proof.state(), CheckUpResult::ValidUntil(1));
}

#[test]
fn check_up_to_a_position_that_does_not_exist() {
    let mut proof = Proof::read_proof(&AND.join("\n")).unwrap();
    assert_eq!(proof.check_up_to(3), Err(()));
    assert_eq!(*proof.state(), CheckUpResult::NotChecked);
    assert_eq!(proof.check_up_to(1), Ok(()));
    assert_eq!(proof.check_up_to(usize::MAX), Err(()));
    assert_eq!(*proof.state(), CheckUpResult::ValidUntil(2));
}

#[test]
fn errors_beyond_the_position_are_not_seen() {
    let lines = [AND[0], AND[1], "2;0;c;EAndR 0", "3;0;a;Hyp"];
    let mut proof = Proof::read_proof(&lines.join("\n")).unwrap();
    assert_eq!(proof.check_up_to(1), Ok(()));
    assert_eq!(*proof.state(), CheckUpResult::ValidUntil(2));
    assert_eq!(proof.check_up_to(2), Ok(()));
    assert_eq!(
        *proof.state(),
        CheckUpResult::SemanticErrors {
            first_error: 2,
            errors: vec![(2, SemanticError::EAndNotMatching)]
        }
    );
    assert_eq!(proof.check(), Ok(()));
    assert_eq!(
        *proof.state(),
        CheckUpResult::SemanticErrors {
            first_error: 2,
            errors: vec![
                (2, SemanticError::EAndNotMatching),
                (3, SemanticError::HypNotSimple)
            ]
        }
    );
    // A check of fewer records starts afresh.
    assert_eq!(proof.check_up_to(0), Ok(()));
    assert_eq!(*proof.state(), CheckUpResult::ValidUntil(1));
}

#[test]
fn checking_twice_gives_the_same_outcome() {
    for lines in [&AND[..], &CLOSED[..], &[AND[0], "1;0;b;EAndL 0", "2;0;a;Hyp"][..]] {
        let mut proof = Proof::read_proof(&lines.join("\n")).unwrap();
        assert_eq!(proof.check(), Ok(()));
        let first = format!("{:?}", proof.state());
        assert_eq!(proof.check(), Ok(()));
        assert_eq!(format!("{:?}", proof.state()), first);
    }
}

#[test]
fn no_error_up_to_a_position_means_none_before() {
    let lines = [AND[0], AND[1], AND[2], "3;0;c;EAndL 0", "4;0;b∧a;IAnd 2 1"];
    let mut proof = Proof::read_proof(&lines.join("\n")).unwrap();
    assert_eq!(proof.check_up_to(2), Ok(()));
    assert_eq!(*proof.state(), CheckUpResult::ValidUntil(3));
    for earlier in 0..2 {
        assert_eq!(proof.check_up_to(earlier), Ok(()));
        assert_eq!(*proof.state(), CheckUpResult::ValidUntil(earlier + 1));
    }
}

#[test]
fn contexts_of_a_valid_proof_increase() {
    let lines = [
        "0;0;Supposons a∧b;Hyp",
        "1;0,1;Supposons c∧d;Hyp",
        "2;0,1;c;EAndL 1",
        "3;0,1,3;Supposons e∧f;Hyp",
        "4;0,1,3;e;EAndL 3",
        "5;0,1;Donc e∧f⇒e;IImpl",
        "6;0;Donc c∧d⇒(e∧f⇒e);IImpl",
        "7;0;a;EAndL 0",
        "8;;Donc a∧b⇒a;IImpl",
    ];
    assert_eq!(*checked(&lines).state(), CheckUpResult::Valid);
    for (position, line) in lines.iter().enumerate() {
        let record = Record::read_record(line).unwrap();
        assert!(record.ctxt.windows(2).all(|w| w[0] < w[1]));
        assert!(record.ctxt.iter().all(|&h| h <= record.id));
        if !matches!(record.stmt, Statement::Supposons(_)) {
            assert!(record.ctxt.iter().all(|&h| h < record.id));
        }
        assert_eq!(record.id, position);
    }
}

#[test]
fn adding_a_record_to_a_valid_proof() {
    let mut proof = checked(&AND);
    assert_eq!(*proof.state(), CheckUpResult::Valid);
    proof.add_record(Record::read_record("3;0;b∧a;IAnd 2 1").unwrap());
    assert_eq!(*proof.state(), CheckUpResult::ValidUntil(3));
    proof.add_record(Record::read_record("9;0;b∧a;IAnd 2 1").unwrap());
    assert_eq!(*proof.state(), CheckUpResult::ValidUntil(3));
    assert_eq!(proof.check_up_to(3), Ok(()));
    assert_eq!(*proof.state(), CheckUpResult::ValidUntil(4));
    assert_eq!(proof.check(), Ok(()));
    assert_eq!(
        *proof.state(),
        CheckUpResult::SemanticErrors {
            first_error: 4,
            errors: vec![(4, SemanticError::IncorrectId)]
        }
    );
}

#[test]
fn adding_a_record_keeps_the_other_outcomes() {
    let mut proof = Proof::read_proof(&AND.join("\n")).unwrap();
    proof.add_record(Record::read_record("3;0;b∧a;IAnd 2 1").unwrap());
    assert_eq!(*proof.state(), CheckUpResult::NotChecked);
    assert_eq!(proof.check(), Ok(()));
    assert_eq!(*proof.state(), CheckUpResult::Valid);

    let mut wrong = checked(&[AND[0], "1;0;b;EAndL 0"]);
    let before = format!("{:?}", wrong.state());
    wrong.add_record(Record::read_record("2;0;b;EAndR 0").unwrap());
    assert_eq!(format!("{:?}", wrong.state()), before);
    assert_eq!(
        *wrong.state(),
        CheckUpResult::SemanticErrors {
            first_error: 1,
            errors: vec![(1, SemanticError::EAndNotMatching)]
        }
    );
}

#[test]
fn importing_a_record() {
    let mut proof = checked(&AND);
    assert_eq!(proof.import_record("3;0;b∧a;IAnd 2 1"), Ok(()));
    assert_eq!(*proof.state(), CheckUpResult::ValidUntil(3));
    assert_eq!(proof.check(), Ok(()));
    assert_eq!(*proof.state(), CheckUpResult::Valid);
    assert_eq!(
        proof.import_record("4;0;b∧a;IAnd 2 1;"),
        Err(ReadError {
            stmt: 0,
            content: RecordError::TooMuch
        })
    );
    assert_eq!(*proof.state(), CheckUpResult::Valid);
    assert_eq!(proof.check_up_to(4), Err(()));
    assert_eq!(proof.check_up_to(3), Ok(()));
}

#[test]
fn reading_a_proof_stops_at_the_first_line_that_is_no_record() {
    assert_eq!(
        Proof::read_proof("0;0;Supposons a;Hyp\n1;0;a∧;Hyp\nx").err(),
        Some(ReadError {
            stmt: 1,
            content: RecordError::InvalidFormula(
                dnlib::formula::TokenizationError::OperatorWithoutRightHandside
            )
        })
    );
    assert_eq!(
        Proof::read_proof("x\ny").err(),
        Some(ReadError {
            stmt: 0,
            content: RecordError::InvalidId
        })
    );
}

#[test]
fn a_last_empty_line_is_no_record() {
    assert_eq!(
        Proof::read_proof("0;0;Supposons a;Hyp\n").err(),
        Some(ReadError {
            stmt: 1,
            content: RecordError::InvalidId
        })
    );
    assert_eq!(
        Proof::read_proof("").err(),
        Some(ReadError {
            stmt: 0,
            content: RecordError::InvalidId
        })
    );
    assert_eq!(
        Proof::read_proof("0;0;Supposons a;Hyp\r\n1;0;a;Hyp").err(),
        Some(ReadError {
            stmt: 0,
            content: RecordError::InvalidJustif(dnlib::justif::ReadError::UnknownRule)
        })
    );
}
