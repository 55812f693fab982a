//! What holds of the parser whatever it reads.
//!
//! Between two symbols, and at every step of the reducer, the state of the
//! parser agrees with its stacks ([`coherent`]). It follows that the errors
//! which stand for an impossible configuration are never reported, and that
//! a formula that was read holds letters only as variables.

use crate::formula::{
    apply_operator, feed, initial_parser, is_letter, lemma_reduce_at_end,
    lemma_reduce_step_shrinks, lemma_reduce_unfold, lemma_tokenize_spec, lexeme_of,
    parse_formula, parse_lexemes, peek2, reduce, reduce_step, shift, tokenize_spec, Formula,
    Lexemes, Operators, ParseState, Parser, Regime, TokenizationError, ZOT,
};
use vstd::prelude::*;

verus! {

impl Formula {
    /// Whether every variable of the formula is an ASCII letter.
    pub open spec fn well_formed(self) -> bool
        decreases self,
    {
        match self {
            Formula::Top => true,
            Formula::Bottom => true,
            Formula::Variable(c) => is_letter(c),
            Formula::Not(f) => f.well_formed(),
            Formula::Or(l, r) => l.well_formed() && r.well_formed(),
            Formula::And(l, r) => l.well_formed() && r.well_formed(),
            Formula::Implies(l, r) => l.well_formed() && r.well_formed(),
            Formula::RLImplies(l, r) => l.well_formed() && r.well_formed(),
            Formula::Equiv(l, r) => l.well_formed() && r.well_formed(),
        }
    }
}

impl Lexemes {
    /// Whether the symbol is one that a character denotes: a variable is a
    /// letter.
    pub open spec fn proper(self) -> bool {
        self matches Lexemes::Variable(c) ==> is_letter(c)
    }
}

impl TokenizationError {
    /// Whether the error is a fault in the way the symbols of the line
    /// follow each other.
    pub open spec fn syntax_fault(self) -> bool {
        match self {
            TokenizationError::UnmatchedClosingParenthesis => true,
            TokenizationError::UnmatchedOpeningParenthesis => true,
            TokenizationError::AFormulaIsMissing => true,
            TokenizationError::TooManyFormulas => true,
            TokenizationError::EmptyParenthesis => true,
            TokenizationError::OperatorWithoutRightHandside => true,
            TokenizationError::InvalidCharacter(_, _) => false,
            TokenizationError::InputIsTooLong => false,
            TokenizationError::InternalError(_) => false,
            TokenizationError::InvalidSubFormula => false,
            TokenizationError::BinaryOperatorWithoutRightHandside => false,
        }
    }

    /// Whether the error is a fault of the line that was read, and not the
    /// mark of a configuration that the parser never reaches.
    pub open spec fn input_fault(self) -> bool {
        self is InvalidCharacter || self.syntax_fault()
    }
}

/// Whether every character of the line belongs to the alphabet.
pub open spec fn in_alphabet(s: Seq<char>) -> bool {
    forall|i: int| 0 <= i < s.len() ==> (#[trigger] lexeme_of(s[i])) is Some
}

/// The state of the parser agrees with its stacks: after an operator, the
/// operator is on top of the stack; at the start of a group, no operator is
/// visible; after an operand, there is a formula. And every formula built
/// so far is well formed.
pub open spec fn coherent(p: Parser) -> bool {
    &&& p.state == ParseState::Operator ==> p.stack.len() > 0 && p.stack.last() is Operator
    &&& p.state == ParseState::BeginingANewGroup ==> peek2(p.stack) == ZOT::Zero
    &&& p.state == ParseState::Constant ==> p.formulas.len() > 0
    &&& forall|i: int| 0 <= i < p.formulas.len() ==> (#[trigger] p.formulas[i]).well_formed()
}

/// A step to the good: the parser is coherent again, or the line is at
/// fault.
pub open spec fn sound_outcome(r: Result<Parser, TokenizationError>) -> bool {
    match r {
        Ok(q) => coherent(q),
        Err(e) => e.syntax_fault(),
    }
}

/// Applying an operator keeps the formulas well formed, and at least one.
pub proof fn lemma_apply_operator_well_formed(op: Operators, formulas: Seq<Formula>)
    requires
        forall|i: int| 0 <= i < formulas.len() ==> (#[trigger] formulas[i]).well_formed(),
    ensures
        match apply_operator(op, formulas) {
            Ok(built) => {
                &&& built.len() > 0
                &&& forall|i: int| 0 <= i < built.len() ==> (#[trigger] built[i]).well_formed()
            },
            Err(e) => e == TokenizationError::AFormulaIsMissing,
        },
{
    match apply_operator(op, formulas) {
        Ok(built) => {
            let n = formulas.len() as int;
            assert(formulas[n - 1].well_formed());
            if !op.unary() {
                assert(formulas[n - 2].well_formed());
            }
            assert forall|i: int| 0 <= i < built.len() implies
                (#[trigger] built[i]).well_formed() by {
                if i < built.len() - 1 {
                    assert(built[i] == formulas[i]);
                }
            }
        },
        Err(e) => {},
    }
}

/// Taking a symbol in keeps the parser coherent.
pub proof fn lemma_shift_coherent(p: Parser, l: Lexemes)
    requires
        coherent(p),
        l.proper(),
    ensures
        coherent(shift(p, l)),
        shift(p, l).regime != Regime::Stop,
{
    let q = shift(p, l);
    assert forall|i: int| 0 <= i < q.formulas.len() implies
        (#[trigger] q.formulas[i]).well_formed() by {
        if i < p.formulas.len() {
            assert(q.formulas[i] == p.formulas[i]);
        }
    }
}

/// A step of the reducer keeps the parser coherent, or reports a fault of
/// the line.
pub proof fn lemma_reduce_step_coherent(p: Parser)
    requires
        coherent(p),
    ensures
        sound_outcome(reduce_step(p)),
{
    lemma_apply_operator_well_formed(Operators::Not, p.formulas);
    match peek2(p.stack) {
        ZOT::Zero => {},
        ZOT::One(o) => {
            lemma_apply_operator_well_formed(o, p.formulas);
        },
        ZOT::Two(left, right) => {
            lemma_apply_operator_well_formed(right, p.formulas);
            lemma_apply_operator_well_formed(left, p.formulas);
            if p.formulas.len() > 0 {
                let below = p.formulas.drop_last();
                assert forall|i: int| 0 <= i < below.len() implies
                    (#[trigger] below[i]).well_formed() by {
                    assert(below[i] == p.formulas[i]);
                }
                lemma_apply_operator_well_formed(left, below);
                match apply_operator(left, below) {
                    Ok(built) => {
                        let again = built.push(p.formulas.last());
                        assert forall|i: int| 0 <= i < again.len() implies (
                        #[trigger] again[i]).well_formed() by {
                            if i < built.len() {
                                assert(again[i] == built[i]);
                            }
                        }
                    },
                    Err(_) => {},
                }
            }
        },
    }
}

/// The reducer stops in a coherent parser, or reports a fault of the line.
pub proof fn lemma_reduce_coherent(p: Parser)
    requires
        coherent(p),
    ensures
        sound_outcome(reduce(p)),
        reduce(p) matches Ok(q) ==> q.regime == Regime::Stop,
    decreases
            (if p.regime == Regime::Stop {
                0
            } else {
                p.stack.len() + 1
            }),
{
    lemma_reduce_unfold(p);
    if p.regime != Regime::Stop {
        lemma_reduce_step_coherent(p);
        lemma_reduce_step_shrinks(p);
        match reduce_step(p) {
            Ok(q) => {
                lemma_reduce_coherent(q);
            },
            Err(_) => {},
        }
    }
}

/// Whatever symbols the parser takes in, it stays coherent or reports a
/// fault of the line.
pub proof fn lemma_feed_coherent(symbols: Seq<Lexemes>)
    requires
        forall|i: int| 0 <= i < symbols.len() ==> (#[trigger] symbols[i]).proper(),
    ensures
        sound_outcome(feed(initial_parser(), symbols)),
    decreases symbols.len(),
{
    if symbols.len() > 0 {
        let before = symbols.drop_last();
        assert forall|i: int| 0 <= i < before.len() implies (#[trigger] before[i]).proper() by {
            assert(before[i] == symbols[i]);
        }
        lemma_feed_coherent(before);
        match feed(initial_parser(), before) {
            Ok(q) => {
                assert(symbols.last() == symbols[symbols.len() - 1]);
                lemma_shift_coherent(q, symbols.last());
                lemma_reduce_coherent(shift(q, symbols.last()));
            },
            Err(_) => {},
        }
    }
}

/// The parser reports faults of the line only, and what it reads is well
/// formed.
pub proof fn lemma_parse_lexemes_sound(symbols: Seq<Lexemes>)
    requires
        forall|i: int| 0 <= i < symbols.len() ==> (#[trigger] symbols[i]).proper(),
    ensures
        match parse_lexemes(symbols) {
            Ok(f) => f.well_formed(),
            Err(e) => e.syntax_fault(),
        },
{
    lemma_feed_coherent(symbols);
    match feed(initial_parser(), symbols) {
        Ok(p) => {
            let last = Parser { regime: Regime::EndEat, ..p };
            lemma_reduce_coherent(last);
            lemma_reduce_at_end(last);
            match reduce(last) {
                Ok(q) => {
                    assert(q.formulas[0].well_formed());
                },
                Err(_) => {},
            }
        },
        Err(_) => {},
    }
}

/// Reading a line gives a well-formed formula or a fault of the line: the
/// parser is total, and never reports one of its impossible configurations.
/// A character outside the alphabet is reported whenever there is one, with
/// the position of the first; any other fault is one of syntax.
pub proof fn lemma_parse_formula_sound(s: Seq<char>)
    requires
        s.len() <= usize::MAX,
    ensures
        match parse_formula(s) {
            Ok(f) => f.well_formed() && in_alphabet(s),
            Err(TokenizationError::InvalidCharacter(pos, c)) => {
                &&& pos < s.len()
                &&& c == s[pos as int]
                &&& lexeme_of(c) is None
                &&& in_alphabet(s.take(pos as int))
            },
            Err(e) => e.syntax_fault() && in_alphabet(s),
        },
{
    lemma_tokenize_spec(s);
    match tokenize_spec(s) {
        Ok(symbols) => {
            assert forall|i: int| 0 <= i < symbols.len() implies
                (#[trigger] symbols[i]).proper() by {
                assert(lexeme_of(s[i]) == Some(symbols[i]));
            }
            assert forall|i: int| 0 <= i < s.len() implies (#[trigger] lexeme_of(s[i])) is Some by {
                assert(lexeme_of(s[i]) == Some(symbols[i]));
            }
            lemma_parse_lexemes_sound(symbols);
        },
        Err(e) => {
            let pos = e->InvalidCharacter_0;
            assert forall|i: int| 0 <= i < pos implies (#[trigger] lexeme_of(
                s.take(pos as int)[i],
            )) is Some by {
                assert(s.take(pos as int)[i] == s[i]);
                assert(lexeme_of(s[i]) is Some);
            }
        },
    }
}

} // verus!
