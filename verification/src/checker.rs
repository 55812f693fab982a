//! The proof checker.
//!
//! A proof is a sequence of records. Each record is judged on its own, from
//! its position, its context, its statement, its justification, and the
//! records before it that it refers to: [`record_verdict`] gives the first
//! constraint that it breaks, and [`record_valid`] says in one formula when
//! there is none. A [`Proof`] holds the records together with the outcome of
//! the last check.

use crate::formula::Formula;
use crate::justif::Jusitification;
use crate::record::{parse_record, Record, RecordError, RecordView, Statement};
use crate::text::{chars_of, fields_view, lemma_fields_view, split, split_spec};
use vstd::prelude::*;

verus! {

/// Why a text is not a proof: the first line that is not a record, by its
/// 0-based number, and what is wrong with it.
#[derive(Debug, PartialEq)]
pub struct ReadError {
    pub stmt: usize,
    pub content: RecordError,
}

/// The constraint that a record breaks.
#[derive(Clone, Copy, Debug, PartialEq, Eq)]
pub enum SemanticError {
    /// There is no record at the position asked for.
    InternalError,
    /// The id differs from the record's position.
    IncorrectId,
    /// A Supposons has one more term in its context than the record before.
    SuppCtxtOneMoreThenBefore,
    /// But for its last term, the context of a Supposons is that of the
    /// record before.
    SuppCtxtSameAsBefore,
    /// The last term of the context of a Supposons is its own id.
    SuppCtxtLastIsId,
    /// A Supposons is justified by Hyp.
    SuppJustIsHyp,
    /// A proof does not start with a Donc.
    DoncNotFirst,
    /// A Donc has one term less in its context than the record before.
    DoncCtxtOneLessThenBefore,
    /// The context of a Donc is that of the record before without its last
    /// term.
    DoncCtxtSameAsBefore,
    /// The hypothesis that a Donc discharges is another record than the
    /// consequence.
    DoncHypDifCons,
    /// The left side of a Donc is the discharged hypothesis.
    DoncHypNotMatching,
    /// The right side of a Donc is the formula of the record before.
    DoncConsNotMatching,
    /// The formula of a Donc is an implication.
    DoncFormulaIsImplies,
    /// A Donc is justified by IImpl.
    DoncJustifIsIImpl,
    /// A proof does not start with a plain statement.
    SimpleIsFirst,
    /// A plain statement has the context of the record before.
    SimpleCtxtSameAsBefore,
    /// IOrL refers to an earlier record.
    IOrLPosLesser,
    /// IOrL refers to a record of a compatible context.
    IOrLIncompatibleCtxt,
    /// The left disjunct is the formula given to IOrL.
    IOrLLeftNotMatching,
    /// The right disjunct is the formula that IOrL refers to.
    IOrLRightNotMatching,
    /// IOrL justifies a disjunction.
    IOrLFormulaIsOr,
    /// IOrR refers to an earlier record.
    IOrRPosLesser,
    /// IOrR refers to a record of a compatible context.
    IOrRIncompatibleCtxt,
    /// The left disjunct is the formula that IOrR refers to.
    IOrRLeftNotMatching,
    /// The right disjunct is the formula given to IOrR.
    IOrRRightNotMatching,
    /// IOrR justifies a disjunction.
    IOrRFormulaIsOr,
    /// The `a⇒c` of EOr is an earlier record.
    EOrA2CPosLesser,
    /// The `b⇒c` of EOr is an earlier record.
    EOrB2CPosLesser,
    /// The `a∨b` of EOr is an earlier record.
    EOrAOBPosLesser,
    /// The `a⇒c` of EOr has a compatible context.
    EOrA2CIncompatibleCtxt,
    /// The `b⇒c` of EOr has a compatible context.
    EOrB2CIncompatibleCtxt,
    /// The `a∨b` of EOr has a compatible context.
    EOrAOBIncompatibleCtxt,
    /// Kept for callers that match on it; the checker never reports it.
    EOrLeftNotMatching,
    /// Kept for callers that match on it; the checker never reports it.
    EOrRightNotMatching,
    /// Kept for callers that match on it; the checker never reports it.
    EOrFormulaIsOr,
    /// `a` is the same in `a∨b` and in `a⇒c`.
    EOrAFormulaNotMatching,
    /// `b` is the same in `a∨b` and in `b⇒c`.
    EOrBFormulaNotMatching,
    /// `c` is the same in `a⇒c` and in `b⇒c`.
    EOrCFormulaNotMatchingConsequences,
    /// `c` is the formula that EOr justifies.
    EOrCFormulaNotMatchingEliminated,
    /// The three formulas of EOr are two implications and a disjunction.
    EOrFormulasNotRightKind,
    /// The left conjunct of IAnd is an earlier record.
    IAndLeftPosLesser,
    /// The right conjunct of IAnd is an earlier record.
    IAndRightPosLesser,
    /// The left conjunct of IAnd has a compatible context.
    IAndLeftIncompatibleCtxt,
    /// The right conjunct of IAnd has a compatible context.
    IAndRightIncompatibleCtxt,
    /// The left conjunct is the formula that IAnd refers to first.
    IAndLeftNotMatching,
    /// The right conjunct is the formula that IAnd refers to second.
    IAndRightNotMatching,
    /// IAnd justifies a conjunction.
    IAndFormulaIsAnd,
    /// EAndL and EAndR refer to an earlier record.
    EAndPosLesser,
    /// EAndL and EAndR refer to a record of a compatible context.
    EAndIncompatibleCtxt,
    /// The formula is the conjunct that the rule keeps.
    EAndNotMatching,
    /// EAndL and EAndR refer to a conjunction.
    EAndFormulaIsAnd,
    /// Hyp does not justify a plain statement.
    HypNotSimple,
    /// IImpl does not justify a plain statement.
    IImplNotSimple,
    /// The hypothesis of EImpl is an earlier record.
    EImplHypPosLesser,
    /// The implication of EImpl is an earlier record.
    EImplImplPosLesser,
    /// The hypothesis of EImpl has a compatible context.
    EImplHypIncompatibleCtxt,
    /// The implication of EImpl has a compatible context.
    EImplImplIncompatibleCtxt,
    /// The left side of the implication is the hypothesis.
    EImplHypNotMatching,
    /// The right side of the implication is the formula that EImpl justifies.
    EImplImplNotMatching,
    /// The second record of EImpl is an implication.
    EImplFormulaIsImpl,
    /// Efq refers to an earlier record.
    EfqPosLesser,
    /// Efq refers to a record of a compatible context.
    EfqIncompatibleCtxt,
    /// Efq refers to `⊥`.
    EfqFormulaIsBot,
    /// Raa refers to an earlier record.
    RaaPosLesser,
    /// Raa refers to a record of a compatible context.
    RaaIncompatibleCtxt,
    /// Raa refers to a double negation.
    RaaFormulaIsNotNot,
    /// Raa justifies the doubly negated formula.
    RaaNotMatching,
}

impl SemanticError {
    /// Whether the error names a constraint that a record can break. The
    /// others are kept for callers that match on them.
    pub open spec fn constraint(self) -> bool {
        !(self is InternalError || self is EOrLeftNotMatching || self is EOrRightNotMatching
            || self is EOrFormulaIsOr)
    }
}

/// The outcome of the last check of a proof.
#[derive(Debug, PartialEq)]
pub enum CheckUpResult {
    /// No check was made yet.
    NotChecked,
    /// Every record is a legitimate step.
    Valid,
    /// The records before the given position are legitimate steps; those
    /// from it on were not looked at.
    ValidUntil(usize),
    /// Some records fail: the position of the first of them, and each of
    /// them with the constraint that it breaks.
    SemanticErrors { first_error: usize, errors: Vec<(usize, SemanticError)> },
}

/// The outcome of a check as a mathematical value.
pub enum CheckUpView {
    NotChecked,
    Valid,
    ValidUntil(usize),
    SemanticErrors { first_error: usize, errors: Seq<(usize, SemanticError)> },
}

impl View for CheckUpResult {
    type V = CheckUpView;

    open spec fn view(&self) -> CheckUpView {
        match self {
            CheckUpResult::NotChecked => CheckUpView::NotChecked,
            CheckUpResult::Valid => CheckUpView::Valid,
            CheckUpResult::ValidUntil(k) => CheckUpView::ValidUntil(*k),
            CheckUpResult::SemanticErrors { first_error, errors } => CheckUpView::SemanticErrors {
                first_error: *first_error,
                errors: errors@,
            },
        }
    }
}

/// A proof: its records, and the outcome of its last check.
pub struct Proof {
    records: Vec<Record>,
    valid: CheckUpResult,
}

/// A proof as a mathematical value.
pub struct ProofView {
    pub records: Seq<RecordView>,
    pub state: CheckUpView,
}

/// The views of the records of a vector of records.
pub open spec fn records_view(records: Seq<Record>) -> Seq<RecordView> {
    records.map_values(|r: Record| r@)
}

/// A vector of records has as many records as its view, and the same ones.
pub proof fn lemma_records_view(records: Seq<Record>)
    ensures
        records_view(records).len() == records.len(),
        forall|i: int|
            0 <= i < records.len() ==> (#[trigger] records_view(records)[i]) == records[i]@,
{
}

/// A record may refer to another when its own open hypotheses are among
/// those of the other, in the same order and from the outermost on: its
/// context is a prefix of the other's.
pub open spec fn compatible(current: Seq<usize>, cited: Seq<usize>) -> bool {
    current.is_prefix_of(cited)
}

/// Record `i` refers to record `j`: an earlier record, proved under at least
/// the hypotheses that are open at `i`.
pub open spec fn may_cite(records: Seq<RecordView>, i: int, j: usize) -> bool {
    j < i && compatible(records[i].ctxt, records[j as int].ctxt)
}

/// The formula of record `j`.
pub open spec fn formula_at(records: Seq<RecordView>, j: usize) -> Formula {
    records[j as int].stmt.formula()
}

/// The context in force just before record `i`: that of the record before,
/// and none at the start.
pub open spec fn context_before(records: Seq<RecordView>, i: int) -> Seq<usize> {
    if i <= 0 {
        Seq::empty()
    } else {
        records[i - 1].ctxt
    }
}

/// When the rule `justif` proves the plain statement `f` at position `i`.
pub open spec fn rule_applies(
    records: Seq<RecordView>,
    i: int,
    f: Formula,
    justif: Jusitification,
) -> bool {
    match justif {
        Jusitification::IOrL(right_pos, new_left) => {
            &&& may_cite(records, i, right_pos)
            &&& f == Formula::Or(Box::new(new_left), Box::new(formula_at(records, right_pos)))
        },
        Jusitification::IOrR(left_pos, new_right) => {
            &&& may_cite(records, i, left_pos)
            &&& f == Formula::Or(Box::new(formula_at(records, left_pos)), Box::new(new_right))
        },
        Jusitification::EOr { a_to_c, b_to_c, a_or_b } => {
            &&& may_cite(records, i, a_to_c)
            &&& may_cite(records, i, b_to_c)
            &&& may_cite(records, i, a_or_b)
            &&& formula_at(records, a_or_b) matches Formula::Or(a, b)
            &&& formula_at(records, a_to_c) == Formula::Implies(a, Box::new(f))
            &&& formula_at(records, b_to_c) == Formula::Implies(b, Box::new(f))
        },
        Jusitification::IAnd { left, right } => {
            &&& may_cite(records, i, left)
            &&& may_cite(records, i, right)
            &&& f == Formula::And(
                Box::new(formula_at(records, left)),
                Box::new(formula_at(records, right)),
            )
        },
        Jusitification::EAndL(pos) => {
            &&& may_cite(records, i, pos)
            &&& formula_at(records, pos) matches Formula::And(left, _)
            &&& *left == f
        },
        Jusitification::EAndR(pos) => {
            &&& may_cite(records, i, pos)
            &&& formula_at(records, pos) matches Formula::And(_, right)
            &&& *right == f
        },
        Jusitification::Hyp => false,
        Jusitification::IImpl => false,
        Jusitification::EImpl { hyp, implication } => {
            &&& may_cite(records, i, hyp)
            &&& may_cite(records, i, implication)
            &&& formula_at(records, implication) == Formula::Implies(
                Box::new(formula_at(records, hyp)),
                Box::new(f),
            )
        },
        Jusitification::Efq(pos) => {
            &&& may_cite(records, i, pos)
            &&& formula_at(records, pos) == Formula::Bottom
        },
        Jusitification::Raa(pos) => {
            &&& may_cite(records, i, pos)
            &&& formula_at(records, pos) == Formula::Not(Box::new(Formula::Not(Box::new(f))))
        },
    }
}

/// When the record at position `i` is a legitimate step of the proof.
///
/// - Its id is its position.
/// - A hypothesis is justified by `Hyp` and adds its own id to the context
///   in force.
/// - A discharge is justified by `IImpl`, comes after a record whose context
///   is its own with one more hypothesis `h`, which lies at least two
///   records back, and states that the formula of `h` implies the formula of
///   the record before.
/// - A plain statement keeps the context of the record before and follows
///   by its rule from the records that it refers to.
pub open spec fn record_valid(records: Seq<RecordView>, i: int) -> bool {
    &&& 0 <= i < records.len()
    &&& records[i].id == i
    &&& match records[i].stmt {
        Statement::Supposons(_) => {
            &&& records[i].justif == Jusitification::Hyp
            &&& records[i].ctxt == context_before(records, i).push(records[i].id)
        },
        Statement::Donc(f) => {
            &&& records[i].justif == Jusitification::IImpl
            &&& i > 0
            &&& records[i - 1].ctxt.len() > 0
            &&& records[i - 1].ctxt == records[i].ctxt.push(records[i - 1].ctxt.last())
            &&& records[i - 1].ctxt.last() + 2 <= i
            &&& f == Formula::Implies(
                Box::new(formula_at(records, records[i - 1].ctxt.last())),
                Box::new(records[i - 1].stmt.formula()),
            )
        },
        Statement::Simple(f) => {
            &&& i > 0
            &&& records[i].ctxt == records[i - 1].ctxt
            &&& rule_applies(records, i, f, records[i].justif)
        },
    }
}

/// The verdict on a hypothesis.
pub open spec fn supposons_verdict(records: Seq<RecordView>, i: int) -> Result<
    (),
    SemanticError,
> {
    let rec = records[i];
    let before = context_before(records, i);
    if rec.ctxt.len() != before.len() + 1 {
        Err(SemanticError::SuppCtxtOneMoreThenBefore)
    } else if rec.ctxt.drop_last() != before {
        Err(SemanticError::SuppCtxtSameAsBefore)
    } else if rec.ctxt.last() != rec.id {
        Err(SemanticError::SuppCtxtLastIsId)
    } else if rec.justif != Jusitification::Hyp {
        Err(SemanticError::SuppJustIsHyp)
    } else {
        Ok(())
    }
}

/// The verdict on a discharge of formula `conclusion`.
pub open spec fn donc_verdict(records: Seq<RecordView>, i: int, conclusion: Formula) -> Result<
    (),
    SemanticError,
> {
    let rec = records[i];
    if rec.justif != Jusitification::IImpl {
        Err(SemanticError::DoncJustifIsIImpl)
    } else if i == 0 {
        Err(SemanticError::DoncNotFirst)
    } else {
        let cons = records[i - 1];
        if cons.ctxt.len() != rec.ctxt.len() + 1 {
            Err(SemanticError::DoncCtxtOneLessThenBefore)
        } else if cons.ctxt.drop_last() != rec.ctxt {
            Err(SemanticError::DoncCtxtSameAsBefore)
        } else if cons.ctxt.last() + 2 > i {
            Err(SemanticError::DoncHypDifCons)
        } else {
            match conclusion {
                Formula::Implies(hyp_formula, cons_formula) => {
                    if *hyp_formula != formula_at(records, cons.ctxt.last()) {
                        Err(SemanticError::DoncHypNotMatching)
                    } else if *cons_formula != cons.stmt.formula() {
                        Err(SemanticError::DoncConsNotMatching)
                    } else {
                        Ok(())
                    }
                },
                _ => Err(SemanticError::DoncFormulaIsImplies),
            }
        }
    }
}

/// The verdict on a reference from record `i` to record `j`: the first of
/// the two errors if `j` is not an earlier record, the second if its
/// context is not compatible.
pub open spec fn citation_verdict(
    records: Seq<RecordView>,
    i: int,
    j: usize,
    not_before: SemanticError,
    incompatible: SemanticError,
) -> Result<(), SemanticError> {
    if j >= i {
        Err(not_before)
    } else if !compatible(records[i].ctxt, records[j as int].ctxt) {
        Err(incompatible)
    } else {
        Ok(())
    }
}

/// The verdict on `IOrL`: the statement is the disjunction of the formula
/// given and of the formula referred to.
pub open spec fn i_or_l_verdict(
    records: Seq<RecordView>,
    i: int,
    f: Formula,
    right_pos: usize,
    new_left: Formula,
) -> Result<(), SemanticError> {
    match citation_verdict(
        records,
        i,
        right_pos,
        SemanticError::IOrLPosLesser,
        SemanticError::IOrLIncompatibleCtxt,
    ) {
        Err(e) => Err(e),
        Ok(()) => match f {
            Formula::Or(left, right) => {
                if *left != new_left {
                    Err(SemanticError::IOrLLeftNotMatching)
                } else if *right != formula_at(records, right_pos) {
                    Err(SemanticError::IOrLRightNotMatching)
                } else {
                    Ok(())
                }
            },
            _ => Err(SemanticError::IOrLFormulaIsOr),
        },
    }
}

/// The verdict on `IOrR`: the statement is the disjunction of the formula
/// referred to and of the formula given.
pub open spec fn i_or_r_verdict(
    records: Seq<RecordView>,
    i: int,
    f: Formula,
    left_pos: usize,
    new_right: Formula,
) -> Result<(), SemanticError> {
    match citation_verdict(
        records,
        i,
        left_pos,
        SemanticError::IOrRPosLesser,
        SemanticError::IOrRIncompatibleCtxt,
    ) {
        Err(e) => Err(e),
        Ok(()) => match f {
            Formula::Or(left, right) => {
                if *right != new_right {
                    Err(SemanticError::IOrRRightNotMatching)
                } else if *left != formula_at(records, left_pos) {
                    Err(SemanticError::IOrRLeftNotMatching)
                } else {
                    Ok(())
                }
            },
            _ => Err(SemanticError::IOrRFormulaIsOr),
        },
    }
}

/// The verdict on `EOr`: from `a⇒c`, `b⇒c` and `a∨b`, the statement `c`.
pub open spec fn e_or_verdict(
    records: Seq<RecordView>,
    i: int,
    f: Formula,
    a_to_c: usize,
    b_to_c: usize,
    a_or_b: usize,
) -> Result<(), SemanticError> {
    let ctxt = records[i].ctxt;
    if a_to_c >= i {
        Err(SemanticError::EOrA2CPosLesser)
    } else if b_to_c >= i {
        Err(SemanticError::EOrB2CPosLesser)
    } else if a_or_b >= i {
        Err(SemanticError::EOrAOBPosLesser)
    } else if !compatible(ctxt, records[a_to_c as int].ctxt) {
        Err(SemanticError::EOrA2CIncompatibleCtxt)
    } else if !compatible(ctxt, records[b_to_c as int].ctxt) {
        Err(SemanticError::EOrB2CIncompatibleCtxt)
    } else if !compatible(ctxt, records[a_or_b as int].ctxt) {
        Err(SemanticError::EOrAOBIncompatibleCtxt)
    } else {
        match (
            formula_at(records, a_to_c),
            formula_at(records, b_to_c),
            formula_at(records, a_or_b),
        ) {
            (
                Formula::Implies(atc_a, atc_c),
                Formula::Implies(btc_b, btc_c),
                Formula::Or(aob_a, aob_b),
            ) => {
                if *aob_a != *atc_a {
                    Err(SemanticError::EOrAFormulaNotMatching)
                } else if *aob_b != *btc_b {
                    Err(SemanticError::EOrBFormulaNotMatching)
                } else if *atc_c != *btc_c {
                    Err(SemanticError::EOrCFormulaNotMatchingConsequences)
                } else if *atc_c != f {
                    Err(SemanticError::EOrCFormulaNotMatchingEliminated)
                } else {
                    Ok(())
                }
            },
            _ => Err(SemanticError::EOrFormulasNotRightKind),
        }
    }
}

/// The verdict on `IAnd`: the statement is the conjunction of the two
/// formulas referred to.
pub open spec fn i_and_verdict(
    records: Seq<RecordView>,
    i: int,
    f: Formula,
    left: usize,
    right: usize,
) -> Result<(), SemanticError> {
    let ctxt = records[i].ctxt;
    if left >= i {
        Err(SemanticError::IAndLeftPosLesser)
    } else if right >= i {
        Err(SemanticError::IAndRightPosLesser)
    } else if !compatible(ctxt, records[left as int].ctxt) {
        Err(SemanticError::IAndLeftIncompatibleCtxt)
    } else if !compatible(ctxt, records[right as int].ctxt) {
        Err(SemanticError::IAndRightIncompatibleCtxt)
    } else {
        match f {
            Formula::And(left_formula, right_formula) => {
                if *left_formula != formula_at(records, left) {
                    Err(SemanticError::IAndLeftNotMatching)
                } else if *right_formula != formula_at(records, right) {
                    Err(SemanticError::IAndRightNotMatching)
                } else {
                    Ok(())
                }
            },
            _ => Err(SemanticError::IAndFormulaIsAnd),
        }
    }
}

/// The verdict on `EAndL` (`keep_left`) and on `EAndR`.
pub open spec fn e_and_verdict(
    records: Seq<RecordView>,
    i: int,
    f: Formula,
    and_pos: usize,
    keep_left: bool,
) -> Result<(), SemanticError> {
    match citation_verdict(
        records,
        i,
        and_pos,
        SemanticError::EAndPosLesser,
        SemanticError::EAndIncompatibleCtxt,
    ) {
        Err(e) => Err(e),
        Ok(()) => match formula_at(records, and_pos) {
            Formula::And(left, right) => {
                if (if keep_left {
                    *left
                } else {
                    *right
                }) != f {
                    Err(SemanticError::EAndNotMatching)
                } else {
                    Ok(())
                }
            },
            _ => Err(SemanticError::EAndFormulaIsAnd),
        },
    }
}

/// The verdict on `EImpl`: from `h` and `h⇒c`, the statement `c`.
pub open spec fn e_impl_verdict(
    records: Seq<RecordView>,
    i: int,
    f: Formula,
    hyp: usize,
    implication: usize,
) -> Result<(), SemanticError> {
    let ctxt = records[i].ctxt;
    if hyp >= i {
        Err(SemanticError::EImplHypPosLesser)
    } else if implication >= i {
        Err(SemanticError::EImplImplPosLesser)
    } else if !compatible(ctxt, records[hyp as int].ctxt) {
        Err(SemanticError::EImplHypIncompatibleCtxt)
    } else if !compatible(ctxt, records[implication as int].ctxt) {
        Err(SemanticError::EImplImplIncompatibleCtxt)
    } else {
        match formula_at(records, implication) {
            Formula::Implies(i_hyp, i_cons) => {
                if *i_hyp != formula_at(records, hyp) {
                    Err(SemanticError::EImplHypNotMatching)
                } else if *i_cons != f {
                    Err(SemanticError::EImplImplNotMatching)
                } else {
                    Ok(())
                }
            },
            _ => Err(SemanticError::EImplFormulaIsImpl),
        }
    }
}

/// The verdict on `Efq`: from `⊥`, any statement.
pub open spec fn efq_verdict(records: Seq<RecordView>, i: int, bot_pos: usize) -> Result<
    (),
    SemanticError,
> {
    match citation_verdict(
        records,
        i,
        bot_pos,
        SemanticError::EfqPosLesser,
        SemanticError::EfqIncompatibleCtxt,
    ) {
        Err(e) => Err(e),
        Ok(()) => if formula_at(records, bot_pos) != Formula::Bottom {
            Err(SemanticError::EfqFormulaIsBot)
        } else {
            Ok(())
        },
    }
}

/// The verdict on `Raa`: from `¬¬f`, the statement `f`.
pub open spec fn raa_verdict(records: Seq<RecordView>, i: int, f: Formula, nn_pos: usize) -> Result<
    (),
    SemanticError,
> {
    match citation_verdict(
        records,
        i,
        nn_pos,
        SemanticError::RaaPosLesser,
        SemanticError::RaaIncompatibleCtxt,
    ) {
        Err(e) => Err(e),
        Ok(()) => match formula_at(records, nn_pos) {
            Formula::Not(n_formula) => match *n_formula {
                Formula::Not(nn_formula) => {
                    if *nn_formula != f {
                        Err(SemanticError::RaaNotMatching)
                    } else {
                        Ok(())
                    }
                },
                _ => Err(SemanticError::RaaFormulaIsNotNot),
            },
            _ => Err(SemanticError::RaaFormulaIsNotNot),
        },
    }
}

/// The verdict on the rule of a plain statement of formula `f`.
pub open spec fn rule_verdict(
    records: Seq<RecordView>,
    i: int,
    f: Formula,
    justif: Jusitification,
) -> Result<(), SemanticError> {
    match justif {
        Jusitification::IOrL(right_pos, new_left) => i_or_l_verdict(
            records,
            i,
            f,
            right_pos,
            new_left,
        ),
        Jusitification::IOrR(left_pos, new_right) => i_or_r_verdict(
            records,
            i,
            f,
            left_pos,
            new_right,
        ),
        Jusitification::EOr { a_to_c, b_to_c, a_or_b } => e_or_verdict(
            records,
            i,
            f,
            a_to_c,
            b_to_c,
            a_or_b,
        ),
        Jusitification::IAnd { left, right } => i_and_verdict(records, i, f, left, right),
        Jusitification::EAndL(and_pos) => e_and_verdict(records, i, f, and_pos, true),
        Jusitification::EAndR(and_pos) => e_and_verdict(records, i, f, and_pos, false),
        Jusitification::Hyp => Err(SemanticError::HypNotSimple),
        Jusitification::IImpl => Err(SemanticError::IImplNotSimple),
        Jusitification::EImpl { hyp, implication } => e_impl_verdict(
            records,
            i,
            f,
            hyp,
            implication,
        ),
        Jusitification::Efq(bot_pos) => efq_verdict(records, i, bot_pos),
        Jusitification::Raa(nn_pos) => raa_verdict(records, i, f, nn_pos),
    }
}

/// The verdict on a plain statement of formula `f`.
pub open spec fn simple_verdict(records: Seq<RecordView>, i: int, f: Formula) -> Result<
    (),
    SemanticError,
> {
    if i == 0 {
        Err(SemanticError::SimpleIsFirst)
    } else if records[i].ctxt != records[i - 1].ctxt {
        Err(SemanticError::SimpleCtxtSameAsBefore)
    } else {
        rule_verdict(records, i, f, records[i].justif)
    }
}

/// The verdict on the record at position `i`: `Ok` if it is a legitimate
/// step, else the first constraint that it breaks, in the order in which
/// the checker looks at them.
pub open spec fn record_verdict(records: Seq<RecordView>, i: int) -> Result<(), SemanticError> {
    if !(0 <= i < records.len()) {
        Err(SemanticError::InternalError)
    } else if records[i].id != i {
        Err(SemanticError::IncorrectId)
    } else {
        match records[i].stmt {
            Statement::Supposons(_) => supposons_verdict(records, i),
            Statement::Donc(conclusion) => donc_verdict(records, i, conclusion),
            Statement::Simple(f) => simple_verdict(records, i, f),
        }
    }
}

/// The records that fail among the first `n`, each with its position and
/// the constraint that it breaks, in the order of the proof.
pub open spec fn failures(records: Seq<RecordView>, n: int) -> Seq<(usize, SemanticError)>
    decreases n,
{
    if n <= 0 {
        Seq::empty()
    } else {
        let before = failures(records, n - 1);
        match record_verdict(records, n - 1) {
            Ok(()) => before,
            Err(e) => before.push(((n - 1) as usize, e)),
        }
    }
}

/// Whether each of the first `n` records is a legitimate step.
pub open spec fn all_valid(records: Seq<RecordView>, n: int) -> bool {
    forall|i: int| 0 <= i < n ==> record_valid(records, i)
}

/// The outcome of checking the records at positions `0` to `id`: the list of
/// those that fail and the position of the first, or, where none fails,
/// `Valid` if `id` is the last position and `ValidUntil(id + 1)` if not.
pub open spec fn check_outcome(records: Seq<RecordView>, id: int) -> CheckUpView {
    let errors = failures(records, id + 1);
    if errors.len() > 0 {
        CheckUpView::SemanticErrors { first_error: errors[0].0, errors }
    } else if id + 1 == records.len() {
        CheckUpView::Valid
    } else {
        CheckUpView::ValidUntil((id + 1) as usize)
    }
}

/// What the outcome kept in a proof says of its records.
///
/// - `Valid`: there are records, and every one is a legitimate step.
/// - `ValidUntil(k)`: the first `k` records are legitimate steps.
/// - `SemanticErrors`: the list holds exactly the failing records among the
///   first `n` records, for some `n`, and the position of the first of them.
pub open spec fn state_sound(records: Seq<RecordView>, state: CheckUpView) -> bool {
    match state {
        CheckUpView::NotChecked => true,
        CheckUpView::Valid => records.len() > 0 && all_valid(records, records.len() as int),
        CheckUpView::ValidUntil(k) => 0 < k <= records.len() && all_valid(records, k as int),
        CheckUpView::SemanticErrors { first_error, errors } => {
            &&& errors.len() > 0
            &&& first_error == errors[0].0
            &&& exists|n: int| 0 <= n <= records.len() && errors == #[trigger] failures(records, n)
        },
    }
}

impl ProofView {
    /// The proof after a check of the records at positions `0` to `id`.
    pub open spec fn check_up_to(self, id: int) -> ProofView {
        ProofView { state: check_outcome(self.records, id), ..self }
    }

    /// The proof after a check of all its records. A proof without records
    /// is left as it is.
    pub open spec fn check(self) -> ProofView {
        if self.records.len() == 0 {
            self
        } else {
            self.check_up_to(self.records.len() - 1)
        }
    }

    /// The proof with one more record. The new record is not checked: a
    /// proof that was `Valid` is now valid until the new record, and any
    /// other outcome stays.
    pub open spec fn add_record(self, record: RecordView) -> ProofView {
        ProofView {
            records: self.records.push(record),
            state: if self.state is Valid {
                CheckUpView::ValidUntil(self.records.len() as usize)
            } else {
                self.state
            },
        }
    }
}

/// The records that the first `n` lines denote, or the first line among
/// them that is not a record.
pub open spec fn parse_lines(lines: Seq<Seq<char>>, n: int) -> Result<Seq<RecordView>, ReadError>
    decreases n,
{
    if n <= 0 {
        Ok(Seq::empty())
    } else {
        match parse_lines(lines, n - 1) {
            Err(e) => Err(e),
            Ok(before) => match parse_record(lines[n - 1]) {
                Ok(record) => Ok(before.push(record)),
                Err(e) => Err(ReadError { stmt: (n - 1) as usize, content: e }),
            },
        }
    }
}

/// The records that a text denotes, one per line. The lines are separated
/// by `\n`, so that a text which ends in `\n` has an empty last line, which
/// is not a record.
pub open spec fn parse_proof(s: Seq<char>) -> Result<Seq<RecordView>, ReadError> {
    let lines = split_spec(s, '\n');
    parse_lines(lines, lines.len() as int)
}

/// Once a line is not a record, the lines that follow do not matter.
pub proof fn lemma_parse_lines_fault(lines: Seq<Seq<char>>, n: int, m: int)
    requires
        n <= m,
        parse_lines(lines, n) is Err,
    ensures
        parse_lines(lines, m) == parse_lines(lines, n),
    decreases m - n,
{
    if n < m {
        lemma_parse_lines_fault(lines, n, m - 1);
    }
}

/// A record of the proof that fails breaks a constraint.
pub proof fn lemma_verdict_constraint(records: Seq<RecordView>, i: int)
    requires
        0 <= i < records.len(),
    ensures
        record_verdict(records, i) matches Err(e) ==> e.constraint(),
{
}

/// The list of failures holds the failing records among the first `n` and
/// no others, each once, with its verdict, in increasing order of position.
pub proof fn lemma_failures(records: Seq<RecordView>, n: int)
    requires
        0 <= n <= records.len(),
        n <= usize::MAX + 1,
    ensures
        forall|j: int|
            0 <= j < failures(records, n).len() ==> {
                &&& (#[trigger] failures(records, n)[j]).0 < n
                &&& record_verdict(records, failures(records, n)[j].0 as int) == Err::<
                    (),
                    SemanticError,
                >(failures(records, n)[j].1)
                &&& failures(records, n)[j].1.constraint()
            },
        forall|j: int, k: int|
            0 <= j < k < failures(records, n).len() ==> (#[trigger] failures(records, n)[j]).0 < (
            #[trigger] failures(records, n)[k]).0,
        forall|i: int|
            0 <= i < n && record_verdict(records, i) is Err ==> exists|j: int|
                0 <= j < failures(records, n).len() && (#[trigger] failures(records, n)[j]).0 == i,
        failures(records, n).len() == 0 <==> all_valid(records, n),
        failures(records, n).len() <= n,
    decreases n,
{
    if n > 0 {
        lemma_failures(records, n - 1);
        lemma_verdict_ok_iff_valid(records, n - 1);
        lemma_verdict_constraint(records, n - 1);
        let before = failures(records, n - 1);
        let now = failures(records, n);
        assert forall|i: int| 0 <= i < n && record_verdict(records, i) is Err implies exists|j: int|

            0 <= j < now.len() && (#[trigger] now[j]).0 == i by {
            if i < n - 1 {
                let j = choose|j: int| 0 <= j < before.len() && (#[trigger] before[j]).0 == i;
                assert(now[j] == before[j]);
            } else {
                assert(now[now.len() - 1].0 == i);
            }
        }
        if now.len() == 0 {
            assert forall|i: int| 0 <= i < n implies record_valid(records, i) by {
                if i < n - 1 {
                    assert(all_valid(records, n - 1));
                }
            }
        }
        if all_valid(records, n) {
            assert(record_valid(records, n - 1));
            assert(all_valid(records, n - 1));
        }
    } else {
        assert(all_valid(records, n));
    }
}

/// What a record refers to lies before it: its verdict stays the same
/// whatever is appended to the proof.
pub proof fn lemma_verdict_append(records: Seq<RecordView>, record: RecordView, i: int)
    requires
        0 <= i < records.len(),
    ensures
        record_verdict(records.push(record), i) == record_verdict(records, i),
{
    let more = records.push(record);
    assert forall|j: int| 0 <= j < records.len() implies more[j] == records[j] by {}
    assert(more[i] == records[i]);
    if i > 0 {
        assert(more[i - 1] == records[i - 1]);
    }
    assert(context_before(more, i) == context_before(records, i));
    if records[i].id == i {
        match records[i].stmt {
            Statement::Supposons(_) => {},
            Statement::Donc(c) => {
                if i > 0 && records[i - 1].ctxt.len() > 0 && records[i - 1].ctxt.last() + 2 <= i {
                    let h = records[i - 1].ctxt.last();
                    assert(more[h as int] == records[h as int]);
                }
            },
            Statement::Simple(f) => {
                lemma_rule_verdict_append(records, record, i, f, records[i].justif);
            },
        }
    }
}

/// The verdict on a rule stays the same whatever is appended to the proof.
pub proof fn lemma_rule_verdict_append(
    records: Seq<RecordView>,
    record: RecordView,
    i: int,
    f: Formula,
    justif: Jusitification,
)
    requires
        0 <= i < records.len(),
    ensures
        rule_verdict(records.push(record), i, f, justif) == rule_verdict(records, i, f, justif),
{
    let more = records.push(record);
    assert forall|j: int| 0 <= j < records.len() implies #[trigger] more[j] == records[j] by {}
}

/// The failures among the first `n` records stay the same whatever is
/// appended to the proof.
pub proof fn lemma_failures_append(records: Seq<RecordView>, record: RecordView, n: int)
    requires
        0 <= n <= records.len(),
    ensures
        failures(records.push(record), n) == failures(records, n),
    decreases n,
{
    if n > 0 {
        lemma_failures_append(records, record, n - 1);
        lemma_verdict_append(records, record, n - 1);
    }
}

/// A legitimate step stays one whatever is appended to the proof.
pub proof fn lemma_all_valid_append(records: Seq<RecordView>, record: RecordView, n: int)
    requires
        0 <= n <= records.len(),
        all_valid(records, n),
    ensures
        all_valid(records.push(record), n),
{
    assert forall|i: int| 0 <= i < n implies record_valid(records.push(record), i) by {
        assert(record_valid(records, i));
        lemma_verdict_ok_iff_valid(records, i);
        lemma_verdict_append(records, record, i);
        lemma_verdict_ok_iff_valid(records.push(record), i);
    }
}

/// The outcome of a check says the truth about the records.
pub proof fn lemma_check_outcome_sound(records: Seq<RecordView>, id: int)
    requires
        0 <= id < records.len(),
        id < usize::MAX,
    ensures
        state_sound(records, check_outcome(records, id)),
{
    lemma_failures(records, id + 1);
}

/// Appending a record keeps the outcome truthful.
pub proof fn lemma_add_record_sound(p: ProofView, record: RecordView)
    requires
        state_sound(p.records, p.state),
        p.records.len() <= usize::MAX,
    ensures
        state_sound(p.add_record(record).records, p.add_record(record).state),
{
    let more = p.records.push(record);
    match p.state {
        CheckUpView::NotChecked => {},
        CheckUpView::Valid => {
            lemma_all_valid_append(p.records, record, p.records.len() as int);
        },
        CheckUpView::ValidUntil(k) => {
            lemma_all_valid_append(p.records, record, k as int);
        },
        CheckUpView::SemanticErrors { first_error, errors } => {
            let n = choose|n: int|
                0 <= n <= p.records.len() && errors == #[trigger] failures(p.records, n);
            lemma_failures_append(p.records, record, n);
            assert(errors == failures(more, n));
        },
    }
}

/// A record gets the verdict `Ok` exactly when it is a legitimate step.
pub proof fn lemma_verdict_ok_iff_valid(records: Seq<RecordView>, i: int)
    ensures
        record_verdict(records, i) is Ok <==> record_valid(records, i),
{
    if 0 <= i < records.len() && records[i].id == i {
        let rec = records[i];
        match rec.stmt {
            Statement::Supposons(_) => {
                let before = context_before(records, i);
                if rec.ctxt.len() == before.len() + 1 {
                    assert(rec.ctxt == before.push(rec.id) <==> rec.ctxt.drop_last() == before
                        && rec.ctxt.last() == rec.id) by {
                        if rec.ctxt.drop_last() == before && rec.ctxt.last() == rec.id {
                            assert(rec.ctxt =~= before.push(rec.id));
                        }
                        if rec.ctxt == before.push(rec.id) {
                            assert(rec.ctxt.drop_last() =~= before);
                        }
                    }
                }
            },
            Statement::Donc(f) => {
                if i > 0 {
                    let cons = records[i - 1];
                    if cons.ctxt.len() > 0 {
                        assert(cons.ctxt == rec.ctxt.push(cons.ctxt.last()) <==> cons.ctxt.len()
                            == rec.ctxt.len() + 1 && cons.ctxt.drop_last() == rec.ctxt) by {
                            if cons.ctxt.len() == rec.ctxt.len() + 1 && cons.ctxt.drop_last()
                                == rec.ctxt {
                                assert(cons.ctxt =~= rec.ctxt.push(cons.ctxt.last()));
                            }
                            if cons.ctxt == rec.ctxt.push(cons.ctxt.last()) {
                                assert(cons.ctxt.drop_last() =~= rec.ctxt);
                            }
                        }
                    }
                }
            },
            Statement::Simple(f) => {
                if i > 0 && rec.ctxt == records[i - 1].ctxt {
                    lemma_rule_verdict_ok_iff_applies(records, i, f, rec.justif);
                }
            },
        }
    }
}

/// A rule gets the verdict `Ok` exactly when it applies.
pub proof fn lemma_rule_verdict_ok_iff_applies(
    records: Seq<RecordView>,
    i: int,
    f: Formula,
    justif: Jusitification,
)
    ensures
        rule_verdict(records, i, f, justif) is Ok <==> rule_applies(records, i, f, justif),
{
}

/// Whether a record of context `current` may refer to one of context
/// `cited`: whether the first is a prefix of the second.
fn check_ctxt_compatibility(current: &[usize], cited: &[usize]) -> (b: bool)
    ensures
        b == compatible(current@, cited@),
{
    if current.len() > cited.len() {
        return false;
    }
    let n: usize = current.len();
    let mut k: usize = 0;
    while k < n
        invariant
            k <= n,
            n == current@.len(),
            n <= cited@.len(),
            forall|j: int| 0 <= j < k ==> current@[j] == cited@[j],
        decreases n - k,
    {
        if current[k] != cited[k] {
            assert(cited@.subrange(0, n as int)[k as int] != current@[k as int]);
            return false;
        }
        k = k + 1;
    }
    assert(current@ =~= cited@.subrange(0, n as int));
    true
}

/// Whether `longer` is `shorter` with one more term at its end.
fn extends_by_one(longer: &[usize], shorter: &[usize]) -> (b: bool)
    ensures
        b == (longer@.len() == shorter@.len() + 1 && longer@.drop_last() == shorter@),
{
    if longer.len() == 0 || longer.len() - 1 != shorter.len() {
        return false;
    }
    let b = check_ctxt_compatibility(shorter, longer);
    proof {
        if b {
            assert(longer@.drop_last() =~= shorter@);
        } else {
            if longer@.drop_last() == shorter@ {
                assert(shorter@ =~= longer@.subrange(0, shorter@.len() as int));
            }
        }
    }
    b
}

impl View for Proof {
    type V = ProofView;

    closed spec fn view(&self) -> ProofView {
        ProofView { records: records_view(self.records@), state: self.valid@ }
    }
}

impl Proof {
    /// The outcome kept in a proof is truthful about its records.
    #[verifier::type_invariant]
    spec fn sound(self) -> bool {
        state_sound(self@.records, self@.state)
    }

    /// A proof holds no more records than a machine word counts.
    pub proof fn lemma_len(&self)
        ensures
            self@.records.len() <= usize::MAX,
    {
        assert(self.records.len() == self.records@.len());
    }

    /// Reads a proof from a string, one record per line.
    pub fn read_proof(input: &str) -> (r: Result<Self, ReadError>)
        ensures
            match parse_proof(input@) {
                Ok(records) => r matches Ok(p) && p@.records == records && p@.state
                    == CheckUpView::NotChecked,
                Err(e) => r matches Err(f) && f == e,
            },
            r matches Ok(p) ==> p@.records.len() <= usize::MAX,
    {
        let chars = chars_of(input);
        let lines = split(chars.as_slice(), '\n');
        let mut records: Vec<Record> = Vec::new();
        let n: usize = lines.len();
        let mut stmt_no: usize = 0;
        proof {
            lemma_fields_view(lines@);
            assert(records_view(records@) =~= Seq::<RecordView>::empty());
        }
        while stmt_no < n
            invariant
                stmt_no <= n,
                n == lines@.len(),
                fields_view(lines@) == split_spec(input@, '\n'),
                parse_lines(fields_view(lines@), stmt_no as int) == Ok::<
                    Seq<RecordView>,
                    ReadError,
                >(records_view(records@)),
            decreases n - stmt_no,
        {
            proof {
                lemma_fields_view(lines@);
            }
            match Record::read_record_chars(lines[stmt_no].as_slice()) {
                Ok(r) => {
                    let ghost before = records_view(records@);
                    records.push(r);
                    assert(records_view(records@) =~= before.push(r@));
                },
                Err(e) => {
                    proof {
                        lemma_parse_lines_fault(fields_view(lines@), stmt_no + 1, n as int);
                    }
                    return Err(ReadError { stmt: stmt_no, content: e });
                },
            }
            stmt_no = stmt_no + 1;
        }
        proof {
            assert(records.len() == records@.len());
        }
        Ok(Self { records, valid: CheckUpResult::NotChecked })
    }

    /// Reads a record from a string and adds it to the proof.
    pub fn import_record(&mut self, input: &str) -> (r: Result<(), ReadError>)
        ensures
            match parse_record(input@) {
                Ok(record) => r is Ok && final(self)@ == old(self)@.add_record(record),
                Err(e) => r matches Err(f) && f == (ReadError { stmt: 0, content: e })
                    && final(self)@ == old(self)@,
            },
            final(self)@.records.len() <= usize::MAX,
    {
        proof {
            self.lemma_len();
        }
        match Record::read_record(input) {
            Ok(r) => {
                self.add_record(r);
                Ok(())
            },
            Err(e) => Err(ReadError { stmt: 0, content: e }),
        }
    }

    /// Adds a record to the proof.
    pub fn add_record(&mut self, record: Record)
        ensures
            final(self)@ == old(self)@.add_record(record@),
            final(self)@.records.len() <= usize::MAX,
    {
        proof {
            use_type_invariant(&*self);
        }
        let ghost before = self@;
        // The outcome is set aside while the records change, and put back
        // once it is known to be truthful about them.
        let mut valid = CheckUpResult::NotChecked;
        core::mem::swap(&mut self.valid, &mut valid);
        let mut records: Vec<Record> = Vec::new();
        core::mem::swap(&mut self.records, &mut records);
        if let CheckUpResult::Valid = valid {
            valid = CheckUpResult::ValidUntil(records.len());
        }
        records.push(record);
        core::mem::swap(&mut self.records, &mut records);
        proof {
            assert(self.records.len() == self.records@.len());
            assert(records_view(self.records@) =~= before.records.push(record@));
            lemma_add_record_sound(before, record@);
        }
        self.valid = valid;
    }

    /// Checks the records at positions `0` to `id`, whatever was checked
    /// before. The outcome is kept in the proof; `Err` says that there is no
    /// record at position `id`, and the proof is then left as it was.
    pub fn check_up_to(&mut self, id: usize) -> (r: Result<(), ()>)
        ensures
            id < old(self)@.records.len() ==> r is Ok && final(self)@ == old(self)@.check_up_to(
                id as int,
            ),
            id >= old(self)@.records.len() ==> r is Err && final(self)@ == old(self)@,
            final(self)@.records.len() <= usize::MAX,
    {
        proof {
            lemma_records_view(self.records@);
        }
        if id >= self.records.len() {
            return Err(());
        }
        let mut erred = false;
        let mut until: usize = 0;
        let mut errors: Vec<(usize, SemanticError)> = Vec::new();
        let mut k: usize = 0;
        while k <= id
            invariant
                k <= id + 1,
                id < self@.records.len(),
                self@.records.len() <= usize::MAX,
                *self == *old(self),
                errors@ == failures(self@.records, k as int),
                erred == (errors@.len() > 0),
                erred ==> until == errors@[0].0,
            decreases id + 1 - k,
        {
            match self.check_single_record(k) {
                Ok(()) => (),
                Err(e) => {
                    if !erred {
                        until = k;
                        erred = true;
                    };
                    errors.push((k, e))
                },
            }
            k = k + 1;
        }
        proof {
            lemma_check_outcome_sound(self@.records, id as int);
        }
        self.valid = if erred {
            CheckUpResult::SemanticErrors { first_error: until, errors }
        } else if id + 1 == self.records.len() {
            CheckUpResult::Valid
        } else {
            CheckUpResult::ValidUntil(id + 1)
        };
        Ok(())
    }

    /// Checks all the records of the proof.
    pub fn check(&mut self) -> (r: Result<(), ()>)
        ensures
            r is Ok,
            final(self)@ == old(self)@.check(),
            final(self)@.records.len() <= usize::MAX,
    {
        proof {
            lemma_records_view(self.records@);
        }
        if !self.records.is_empty() {
            self.check_up_to(self.records.len() - 1)
        } else {
            Ok(())
        }
    }

    /// The outcome of the last check.
    pub fn state(&self) -> (r: &CheckUpResult)
        ensures
            r@ == self@.state,
            state_sound(self@.records, r@),
            self@.records.len() <= usize::MAX,
    {
        proof {
            use_type_invariant(self);
            self.lemma_len();
        }
        &self.valid
    }

    /// The verdict on the record at position `id`.
    fn check_single_record(&self, id: usize) -> (r: Result<(), SemanticError>)
        ensures
            r == record_verdict(self@.records, id as int),
            r is Ok <==> record_valid(self@.records, id as int),
    {
        proof {
            lemma_records_view(self.records@);
            lemma_verdict_ok_iff_valid(self@.records, id as int);
        }
        if id >= self.records.len() {
            return Err(SemanticError::InternalError);
        }
        let rec = &self.records[id];
        if rec.id != id {
            return Err(SemanticError::IncorrectId);
        }
        match &rec.stmt {
            Statement::Supposons(_) => Self::check_supposons(&self.records, id),
            Statement::Donc(conclusion) => Self::check_donc(&self.records, id, conclusion),
            Statement::Simple(formula) => Self::check_simple(&self.records, id, formula),
        }
    }

    /// The verdict on a hypothesis.
    fn check_supposons(records: &Vec<Record>, id: usize) -> (r: Result<(), SemanticError>)
        requires
            id < records@.len(),
        ensures
            r == supposons_verdict(records_view(records@), id as int),
    {
        proof {
            lemma_records_view(records@);
        }
        let rec = &records[id];
        if id != 0 {
            let ante = &records[id - 1];
            if rec.ctxt.len() == 0 || rec.ctxt.len() - 1 != ante.ctxt.len() {
                return Err(SemanticError::SuppCtxtOneMoreThenBefore);
            } else if !extends_by_one(rec.ctxt.as_slice(), ante.ctxt.as_slice()) {
                return Err(SemanticError::SuppCtxtSameAsBefore);
            } else if rec.ctxt[rec.ctxt.len() - 1] != rec.id {
                return Err(SemanticError::SuppCtxtLastIsId);
            }
        } else {
            if rec.ctxt.len() != 1 {
                return Err(SemanticError::SuppCtxtOneMoreThenBefore);
            }
            assert(rec.ctxt@.drop_last() =~= Seq::<usize>::empty());
            if rec.ctxt[0] != rec.id {
                return Err(SemanticError::SuppCtxtLastIsId);
            }
        }
        match rec.justif {
            Jusitification::Hyp => Ok(()),
            _ => Err(SemanticError::SuppJustIsHyp),
        }
    }

    /// The verdict on a discharge.
    fn check_donc(records: &Vec<Record>, id: usize, conclusion: &Formula) -> (r: Result<
        (),
        SemanticError,
    >)
        requires
            id < records@.len(),
        ensures
            r == donc_verdict(records_view(records@), id as int, *conclusion),
    {
        proof {
            lemma_records_view(records@);
        }
        let rec = &records[id];
        match rec.justif {
            Jusitification::IImpl => {
                if id == 0 {
                    return Err(SemanticError::DoncNotFirst);
                }
                let cons = &records[id - 1];
                if cons.ctxt.len() == 0 || cons.ctxt.len() - 1 != rec.ctxt.len() {
                    return Err(SemanticError::DoncCtxtOneLessThenBefore);
                }
                if !extends_by_one(cons.ctxt.as_slice(), rec.ctxt.as_slice()) {
                    return Err(SemanticError::DoncCtxtSameAsBefore);
                }
                let hyp_pos: usize = cons.ctxt[cons.ctxt.len() - 1];
                // The hypothesis lies before the consequence, which lies
                // before this record.
                if hyp_pos >= id - 1 {
                    return Err(SemanticError::DoncHypDifCons);
                }
                let hyp = &records[hyp_pos];
                match conclusion {
                    Formula::Implies(hyp_formula, cons_formula) => {
                        if **hyp_formula != *hyp.stmt.get_formula() {
                            Err(SemanticError::DoncHypNotMatching)
                        } else if **cons_formula != *cons.stmt.get_formula() {
                            Err(SemanticError::DoncConsNotMatching)
                        } else {
                            Ok(())
                        }
                    },
                    _ => Err(SemanticError::DoncFormulaIsImplies),
                }
            },
            _ => Err(SemanticError::DoncJustifIsIImpl),
        }
    }

    /// The verdict on a plain statement.
    fn check_simple(records: &Vec<Record>, id: usize, formula: &Formula) -> (r: Result<
        (),
        SemanticError,
    >)
        requires
            id < records@.len(),
        ensures
            r == simple_verdict(records_view(records@), id as int, *formula),
    {
        proof {
            lemma_records_view(records@);
        }
        let rec = &records[id];
        if id == 0 {
            return Err(SemanticError::SimpleIsFirst);
        }
        let ante = &records[id - 1];
        if rec.ctxt.len() != ante.ctxt.len() || !check_ctxt_compatibility(
            rec.ctxt.as_slice(),
            ante.ctxt.as_slice(),
        ) {
            proof {
                if rec.ctxt@ == ante.ctxt@ {
                    assert(rec.ctxt@ =~= ante.ctxt@.subrange(0, rec.ctxt@.len() as int));
                }
            }
            return Err(SemanticError::SimpleCtxtSameAsBefore);
        }
        assert(rec.ctxt@ =~= ante.ctxt@);
        match &rec.justif {
            Jusitification::IOrL(right_pos, new_left_formula) => Self::check_i_or_l(
                records,
                id,
                formula,
                *right_pos,
                new_left_formula,
            ),
            Jusitification::IOrR(left_pos, new_right_formula) => Self::check_i_or_r(
                records,
                id,
                formula,
                *left_pos,
                new_right_formula,
            ),
            Jusitification::EOr { a_to_c, b_to_c, a_or_b } => Self::check_e_or(
                records,
                id,
                formula,
                *a_to_c,
                *b_to_c,
                *a_or_b,
            ),
            Jusitification::IAnd { left, right } => Self::check_i_and(
                records,
                id,
                formula,
                *left,
                *right,
            ),
            Jusitification::EAndL(and_pos) => Self::check_e_and(
                records,
                id,
                formula,
                *and_pos,
                true,
            ),
            Jusitification::EAndR(and_pos) => Self::check_e_and(
                records,
                id,
                formula,
                *and_pos,
                false,
            ),
            Jusitification::Hyp => Err(SemanticError::HypNotSimple),
            Jusitification::IImpl => Err(SemanticError::IImplNotSimple),
            Jusitification::EImpl { hyp, implication } => Self::check_e_impl(
                records,
                id,
                formula,
                *hyp,
                *implication,
            ),
            Jusitification::Efq(bot_pos) => Self::check_efq(records, id, *bot_pos),
            Jusitification::Raa(nn_pos) => Self::check_raa(records, id, formula, *nn_pos),
        }
    }

    /// The verdict on a reference from record `id` to record `pos`.
    fn check_citation(
        records: &Vec<Record>,
        id: usize,
        pos: usize,
        not_before: SemanticError,
        incompatible: SemanticError,
    ) -> (r: Result<(), SemanticError>)
        requires
            id < records@.len(),
        ensures
            r == citation_verdict(
                records_view(records@),
                id as int,
                pos,
                not_before,
                incompatible,
            ),
    {
        proof {
            lemma_records_view(records@);
        }
        if pos >= id {
            return Err(not_before);
        }
        if !check_ctxt_compatibility(records[id].ctxt.as_slice(), records[pos].ctxt.as_slice()) {
            return Err(incompatible);
        }
        Ok(())
    }

    /// The verdict on `IOrL`.
    fn check_i_or_l(
        records: &Vec<Record>,
        id: usize,
        formula: &Formula,
        right_pos: usize,
        new_left_formula: &Formula,
    ) -> (r: Result<(), SemanticError>)
        requires
            id < records@.len(),
        ensures
            r == i_or_l_verdict(
                records_view(records@),
                id as int,
                *formula,
                right_pos,
                *new_left_formula,
            ),
    {
        proof {
            lemma_records_view(records@);
        }
        Self::check_citation(
            records,
            id,
            right_pos,
            SemanticError::IOrLPosLesser,
            SemanticError::IOrLIncompatibleCtxt,
        )?;
        let right_rec = &records[right_pos];
        match formula {
            Formula::Or(left_formula, right_formula) => {
                if **left_formula != *new_left_formula {
                    Err(SemanticError::IOrLLeftNotMatching)
                } else if **right_formula != *right_rec.stmt.get_formula() {
                    Err(SemanticError::IOrLRightNotMatching)
                } else {
                    Ok(())
                }
            },
            _ => Err(SemanticError::IOrLFormulaIsOr),
        }
    }

    /// The verdict on `IOrR`.
    fn check_i_or_r(
        records: &Vec<Record>,
        id: usize,
        formula: &Formula,
        left_pos: usize,
        new_right_formula: &Formula,
    ) -> (r: Result<(), SemanticError>)
        requires
            id < records@.len(),
        ensures
            r == i_or_r_verdict(
                records_view(records@),
                id as int,
                *formula,
                left_pos,
                *new_right_formula,
            ),
    {
        proof {
            lemma_records_view(records@);
        }
        Self::check_citation(
            records,
            id,
            left_pos,
            SemanticError::IOrRPosLesser,
            SemanticError::IOrRIncompatibleCtxt,
        )?;
        let left_rec = &records[left_pos];
        match formula {
            Formula::Or(left_formula, right_formula) => {
                if **right_formula != *new_right_formula {
                    Err(SemanticError::IOrRRightNotMatching)
                } else if **left_formula != *left_rec.stmt.get_formula() {
                    Err(SemanticError::IOrRLeftNotMatching)
                } else {
                    Ok(())
                }
            },
            _ => Err(SemanticError::IOrRFormulaIsOr),
        }
    }

    /// The verdict on `EOr`.
    fn check_e_or(
        records: &Vec<Record>,
        id: usize,
        formula: &Formula,
        a_to_c: usize,
        b_to_c: usize,
        a_or_b: usize,
    ) -> (r: Result<(), SemanticError>)
        requires
            id < records@.len(),
        ensures
            r == e_or_verdict(records_view(records@), id as int, *formula, a_to_c, b_to_c, a_or_b),
    {
        proof {
            lemma_records_view(records@);
        }
        if a_to_c >= id {
            return Err(SemanticError::EOrA2CPosLesser);
        }
        if b_to_c >= id {
            return Err(SemanticError::EOrB2CPosLesser);
        }
        if a_or_b >= id {
            return Err(SemanticError::EOrAOBPosLesser);
        }
        let rec = &records[id];
        let a_to_c = &records[a_to_c];
        let b_to_c = &records[b_to_c];
        let a_or_b = &records[a_or_b];
        if !check_ctxt_compatibility(rec.ctxt.as_slice(), a_to_c.ctxt.as_slice()) {
            return Err(SemanticError::EOrA2CIncompatibleCtxt);
        }
        if !check_ctxt_compatibility(rec.ctxt.as_slice(), b_to_c.ctxt.as_slice()) {
            return Err(SemanticError::EOrB2CIncompatibleCtxt);
        }
        if !check_ctxt_compatibility(rec.ctxt.as_slice(), a_or_b.ctxt.as_slice()) {
            return Err(SemanticError::EOrAOBIncompatibleCtxt);
        }
        match (a_to_c.stmt.get_formula(), b_to_c.stmt.get_formula(), a_or_b.stmt.get_formula()) {
            (
                Formula::Implies(atc_a, atc_c),
                Formula::Implies(btc_b, btc_c),
                Formula::Or(aob_a, aob_b),
            ) => {
                if **aob_a != **atc_a {
                    Err(SemanticError::EOrAFormulaNotMatching)
                } else if **aob_b != **btc_b {
                    Err(SemanticError::EOrBFormulaNotMatching)
                } else if **atc_c != **btc_c {
                    Err(SemanticError::EOrCFormulaNotMatchingConsequences)
                } else if **atc_c != *formula {
                    Err(SemanticError::EOrCFormulaNotMatchingEliminated)
                } else {
                    Ok(())
                }
            },
            _ => Err(SemanticError::EOrFormulasNotRightKind),
        }
    }

    /// The verdict on `IAnd`.
    fn check_i_and(
        records: &Vec<Record>,
        id: usize,
        formula: &Formula,
        left: usize,
        right: usize,
    ) -> (r: Result<(), SemanticError>)
        requires
            id < records@.len(),
        ensures
            r == i_and_verdict(records_view(records@), id as int, *formula, left, right),
    {
        proof {
            lemma_records_view(records@);
        }
        if left >= id {
            return Err(SemanticError::IAndLeftPosLesser);
        }
        if right >= id {
            return Err(SemanticError::IAndRightPosLesser);
        }
        let rec = &records[id];
        let left = &records[left];
        let right = &records[right];
        if !check_ctxt_compatibility(rec.ctxt.as_slice(), left.ctxt.as_slice()) {
            return Err(SemanticError::IAndLeftIncompatibleCtxt);
        }
        if !check_ctxt_compatibility(rec.ctxt.as_slice(), right.ctxt.as_slice()) {
            return Err(SemanticError::IAndRightIncompatibleCtxt);
        }
        match formula {
            Formula::And(left_formula, right_formula) => {
                if **left_formula != *left.stmt.get_formula() {
                    Err(SemanticError::IAndLeftNotMatching)
                } else if **right_formula != *right.stmt.get_formula() {
                    Err(SemanticError::IAndRightNotMatching)
                } else {
                    Ok(())
                }
            },
            _ => Err(SemanticError::IAndFormulaIsAnd),
        }
    }

    /// The verdict on `EAndL` (`keep_left`) and on `EAndR`.
    fn check_e_and(
        records: &Vec<Record>,
        id: usize,
        formula: &Formula,
        and_pos: usize,
        keep_left: bool,
    ) -> (r: Result<(), SemanticError>)
        requires
            id < records@.len(),
        ensures
            r == e_and_verdict(records_view(records@), id as int, *formula, and_pos, keep_left),
    {
        proof {
            lemma_records_view(records@);
        }
        Self::check_citation(
            records,
            id,
            and_pos,
            SemanticError::EAndPosLesser,
            SemanticError::EAndIncompatibleCtxt,
        )?;
        let and = &records[and_pos];
        match and.stmt.get_formula() {
            Formula::And(left_formula, right_formula) => {
                let kept = if keep_left {
                    left_formula
                } else {
                    right_formula
                };
                if **kept != *formula {
                    Err(SemanticError::EAndNotMatching)
                } else {
                    Ok(())
                }
            },
            _ => Err(SemanticError::EAndFormulaIsAnd),
        }
    }

    /// The verdict on `EImpl`.
    fn check_e_impl(
        records: &Vec<Record>,
        id: usize,
        formula: &Formula,
        hyp: usize,
        implication: usize,
    ) -> (r: Result<(), SemanticError>)
        requires
            id < records@.len(),
        ensures
            r == e_impl_verdict(records_view(records@), id as int, *formula, hyp, implication),
    {
        proof {
            lemma_records_view(records@);
        }
        if hyp >= id {
            return Err(SemanticError::EImplHypPosLesser);
        }
        if implication >= id {
            return Err(SemanticError::EImplImplPosLesser);
        }
        let rec = &records[id];
        let hyp = &records[hyp];
        let implication = &records[implication];
        if !check_ctxt_compatibility(rec.ctxt.as_slice(), hyp.ctxt.as_slice()) {
            return Err(SemanticError::EImplHypIncompatibleCtxt);
        }
        if !check_ctxt_compatibility(rec.ctxt.as_slice(), implication.ctxt.as_slice()) {
            return Err(SemanticError::EImplImplIncompatibleCtxt);
        }
        match implication.stmt.get_formula() {
            Formula::Implies(i_hyp, i_cons) => {
                if **i_hyp != *hyp.stmt.get_formula() {
                    Err(SemanticError::EImplHypNotMatching)
                } else if **i_cons != *formula {
                    Err(SemanticError::EImplImplNotMatching)
                } else {
                    Ok(())
                }
            },
            _ => Err(SemanticError::EImplFormulaIsImpl),
        }
    }

    /// The verdict on `Efq`.
    fn check_efq(records: &Vec<Record>, id: usize, bot_pos: usize) -> (r: Result<
        (),
        SemanticError,
    >)
        requires
            id < records@.len(),
        ensures
            r == efq_verdict(records_view(records@), id as int, bot_pos),
    {
        proof {
            lemma_records_view(records@);
        }
        Self::check_citation(
            records,
            id,
            bot_pos,
            SemanticError::EfqPosLesser,
            SemanticError::EfqIncompatibleCtxt,
        )?;
        let bot = &records[bot_pos];
        match bot.stmt.get_formula() {
            Formula::Bottom => Ok(()),
            _ => Err(SemanticError::EfqFormulaIsBot),
        }
    }

    /// The verdict on `Raa`.
    fn check_raa(records: &Vec<Record>, id: usize, formula: &Formula, nn_pos: usize) -> (r: Result<
        (),
        SemanticError,
    >)
        requires
            id < records@.len(),
        ensures
            r == raa_verdict(records_view(records@), id as int, *formula, nn_pos),
    {
        proof {
            lemma_records_view(records@);
        }
        Self::check_citation(
            records,
            id,
            nn_pos,
            SemanticError::RaaPosLesser,
            SemanticError::RaaIncompatibleCtxt,
        )?;
        let nn = &records[nn_pos];
        match nn.stmt.get_formula() {
            Formula::Not(n_formula) => match &**n_formula {
                Formula::Not(nn_formula) => {
                    if **nn_formula != *formula {
                        Err(SemanticError::RaaNotMatching)
                    } else {
                        Ok(())
                    }
                },
                _ => Err(SemanticError::RaaFormulaIsNotNot),
            },
            _ => Err(SemanticError::RaaFormulaIsNotNot),
        }
    }
}

} // verus!
