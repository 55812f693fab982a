//! Formulas of propositional logic and the parser of their surface syntax.
//!
//! The parser is a shift/reduce automaton over two stacks. Its meaning is
//! given here as a transition system on [`Parser`] values: [`shift`] takes
//! one symbol in, [`reduce`] applies pending operators as far as the current
//! [`Regime`] asks for, and [`parse_formula`] runs both over a whole line.
//! The executable parser [`Formula::read`] is proved to compute
//! [`parse_formula`].

use crate::parser_invariant::{in_alphabet, lemma_parse_formula_sound};
use crate::text::chars_of;
use vstd::prelude::*;
use vstd::std_specs::cmp::PartialEqSpecImpl;

verus! {

/// A formula of propositional logic.
#[derive(Debug)]
pub enum Formula {
    Top,
    Bottom,
    Variable(char),
    Not(Box<Formula>),
    Or(Box<Formula>, Box<Formula>),
    And(Box<Formula>, Box<Formula>),
    Implies(Box<Formula>, Box<Formula>),
    RLImplies(Box<Formula>, Box<Formula>),
    Equiv(Box<Formula>, Box<Formula>),
}

/// One symbol of the surface syntax.
#[derive(Clone, Copy, Debug, PartialEq, Eq)]
pub enum Lexemes {
    Top,
    Bottom,
    Variable(char),
    Not,
    Or,
    And,
    Implies,
    RLImplies,
    Equiv,
    OpeningParenthesis,
    ClosingParenthesis,
}

/// The connectives.
#[derive(Clone, Copy, Debug, PartialEq, Eq)]
pub enum Operators {
    Not,
    Or,
    And,
    Implies,
    RLImplies,
    Equiv,
}

/// What the operator stack holds.
#[derive(Clone, Copy, Debug, PartialEq, Eq)]
pub enum ParseStackItem {
    Operator(Operators),
    Parenthesis,
}

/// What the parser has just read.
#[derive(Clone, Copy, Debug, PartialEq, Eq)]
pub enum ParseState {
    /// Nothing yet, or an opening parenthesis.
    BeginingANewGroup,
    /// An operand: an atom, or a group that has just been closed.
    Constant,
    /// An operator.
    Operator,
}

/// Whether the upper of two stacked operators is applied before the lower.
#[derive(Clone, Copy, Debug, PartialEq, Eq)]
pub enum Priority {
    /// The upper operator binds first.
    Less,
    /// The lower operator is complete and is applied first.
    More,
}

/// Why a line is not a formula.
#[derive(Clone, Copy, Debug, PartialEq, Eq)]
pub enum TokenizationError {
    /// A character outside the alphabet, with its 0-based position.
    InvalidCharacter(usize, char),
    UnmatchedClosingParenthesis,
    UnmatchedOpeningParenthesis,
    /// Kept for callers that match on it; the parser never reports it.
    InputIsTooLong,
    AFormulaIsMissing,
    TooManyFormulas,
    /// The automaton reached a configuration that no input leads to.
    InternalError(usize),
    EmptyParenthesis,
    /// An operator at the start of a group when the line ends: like
    /// `InternalError`, the mark of a configuration that no input leads to.
    InvalidSubFormula,
    OperatorWithoutRightHandside,
    /// Kept for callers that match on it; the parser never reports it.
    BinaryOperatorWithoutRightHandside,
}

/// How hard the parser currently tries to apply the stacked operators.
#[derive(Clone, Copy, Debug, PartialEq, Eq)]
pub enum Regime {
    /// Nothing more to apply before the next symbol.
    Stop,
    /// Apply what the priorities allow.
    Eat,
    /// A closing parenthesis was read: apply everything down to its opening one.
    ForceEat,
    /// The line has ended: apply everything.
    EndEat,
}

/// The operators that are visible on top of the stack: none, one or two.
/// An opening parenthesis hides whatever lies below it.
#[derive(Clone, Copy, Debug, PartialEq, Eq)]
pub enum ZOT {
    Zero,
    One(Operators),
    Two(Operators, Operators),
}

/// The parser between two symbols.
pub struct Parser {
    /// Operators and opening parentheses that wait, the latest last.
    pub stack: Seq<ParseStackItem>,
    /// Completed sub-formulas, the latest last.
    pub formulas: Seq<Formula>,
    pub state: ParseState,
    pub regime: Regime,
}

impl Operators {
    pub open spec fn unary(self) -> bool {
        self == Operators::Not
    }

    /// How tightly an operator binds: `¬`, `∧`, `∨`, `⇒`, `⇐`, `⇔` from the
    /// tightest to the loosest.
    pub open spec fn tightness(self) -> nat {
        match self {
            Operators::Not => 5,
            Operators::And => 4,
            Operators::Or => 3,
            Operators::Implies => 2,
            Operators::RLImplies => 1,
            Operators::Equiv => 0,
        }
    }

    /// `¬` and `⇒` group to the right, the other operators to the left.
    pub open spec fn right_associative(self) -> bool {
        self == Operators::Not || self == Operators::Implies
    }

    /// The priority of `right`, stacked above `left`: `Less` when `right`
    /// binds tighter, or as tightly and to the right.
    pub open spec fn priority(left: Operators, right: Operators) -> Priority {
        if right.tightness() > left.tightness() || (right == left && left.right_associative()) {
            Priority::Less
        } else {
            Priority::More
        }
    }

    /// The formula that a binary operator builds from its two operands.
    pub open spec fn node(self, left: Formula, right: Formula) -> Formula
        recommends
            !self.unary(),
    {
        match self {
            Operators::Not => Formula::Not(Box::new(right)),
            Operators::Or => Formula::Or(Box::new(left), Box::new(right)),
            Operators::And => Formula::And(Box::new(left), Box::new(right)),
            Operators::Implies => Formula::Implies(Box::new(left), Box::new(right)),
            Operators::RLImplies => Formula::RLImplies(Box::new(left), Box::new(right)),
            Operators::Equiv => Formula::Equiv(Box::new(left), Box::new(right)),
        }
    }

    /// Whether `right`, stacked above `left`, is applied before it.
    fn cmp(left: &Self, right: &Self) -> (p: Priority)
        ensures
            p == Operators::priority(*left, *right),
    {
        match (left, right) {
            (Operators::Not, Operators::Not) => Priority::Less,
            (Operators::Not, _) => Priority::More,
            (Operators::And, Operators::Not) => Priority::Less,
            (Operators::And, _) => Priority::More,
            (Operators::Or, Operators::Not | Operators::And) => Priority::Less,
            (Operators::Or, _) => Priority::More,
            (
                Operators::Implies,
                Operators::Not | Operators::And | Operators::Or | Operators::Implies,
            ) => Priority::Less,
            (Operators::Implies, _) => Priority::More,
            (
                Operators::RLImplies,
                Operators::Not | Operators::And | Operators::Or | Operators::Implies,
            ) => Priority::Less,
            (Operators::RLImplies, _) => Priority::More,
            (Operators::Equiv, Operators::Equiv) => Priority::More,
            (Operators::Equiv, _) => Priority::Less,
        }
    }

    fn is_unary(&self) -> (b: bool)
        ensures
            b == self.unary(),
    {
        match self {
            Self::Not => true,
            _ => false,
        }
    }
}

impl Lexemes {
    /// The atom that a symbol stands for, if it is one.
    pub open spec fn atom(self) -> Option<Formula> {
        match self {
            Lexemes::Top => Some(Formula::Top),
            Lexemes::Bottom => Some(Formula::Bottom),
            Lexemes::Variable(c) => Some(Formula::Variable(c)),
            _ => None,
        }
    }

    /// The operator that a symbol stands for, if it is one.
    pub open spec fn operator(self) -> Option<Operators> {
        match self {
            Lexemes::Not => Some(Operators::Not),
            Lexemes::Or => Some(Operators::Or),
            Lexemes::And => Some(Operators::And),
            Lexemes::Implies => Some(Operators::Implies),
            Lexemes::RLImplies => Some(Operators::RLImplies),
            Lexemes::Equiv => Some(Operators::Equiv),
            _ => None,
        }
    }
}

pub open spec fn is_letter(c: char) -> bool {
    ('a' <= c && c <= 'z') || ('A' <= c && c <= 'Z')
}

/// The symbol that a character denotes, if it belongs to the alphabet.
pub open spec fn lexeme_of(c: char) -> Option<Lexemes> {
    if c == '⊤' {
        Some(Lexemes::Top)
    } else if c == '⊥' {
        Some(Lexemes::Bottom)
    } else if is_letter(c) {
        Some(Lexemes::Variable(c))
    } else if c == '¬' {
        Some(Lexemes::Not)
    } else if c == '∨' {
        Some(Lexemes::Or)
    } else if c == '∧' {
        Some(Lexemes::And)
    } else if c == '⇒' {
        Some(Lexemes::Implies)
    } else if c == '⇐' {
        Some(Lexemes::RLImplies)
    } else if c == '⇔' {
        Some(Lexemes::Equiv)
    } else if c == '(' {
        Some(Lexemes::OpeningParenthesis)
    } else if c == ')' {
        Some(Lexemes::ClosingParenthesis)
    } else {
        None
    }
}

/// The symbols of a line, or its first character outside the alphabet.
pub open spec fn tokenize_spec(s: Seq<char>) -> Result<Seq<Lexemes>, TokenizationError>
    decreases s.len(),
{
    if s.len() == 0 {
        Ok(Seq::empty())
    } else {
        match tokenize_spec(s.drop_last()) {
            Err(e) => Err(e),
            Ok(symbols) => match lexeme_of(s.last()) {
                None => Err(TokenizationError::InvalidCharacter((s.len() - 1) as usize, s.last())),
                Some(l) => Ok(symbols.push(l)),
            },
        }
    }
}

/// The visible top of the operator stack.
pub open spec fn peek2(stack: Seq<ParseStackItem>) -> ZOT {
    if stack.len() == 0 {
        ZOT::Zero
    } else {
        match stack.last() {
            ParseStackItem::Parenthesis => ZOT::Zero,
            ParseStackItem::Operator(right) => if stack.len() == 1 {
                ZOT::One(right)
            } else {
                match stack[stack.len() - 2] {
                    ParseStackItem::Parenthesis => ZOT::One(right),
                    ParseStackItem::Operator(left) => ZOT::Two(left, right),
                }
            },
        }
    }
}

/// Applies an operator to the latest formulas: `¬` replaces the last one,
/// a binary operator replaces the last two, the earlier one on its left.
pub open spec fn apply_operator(op: Operators, formulas: Seq<Formula>) -> Result<
    Seq<Formula>,
    TokenizationError,
> {
    if op.unary() {
        if formulas.len() < 1 {
            Err(TokenizationError::AFormulaIsMissing)
        } else {
            Ok(formulas.drop_last().push(Formula::Not(Box::new(formulas.last()))))
        }
    } else {
        if formulas.len() < 2 {
            Err(TokenizationError::AFormulaIsMissing)
        } else {
            Ok(
                formulas.drop_last().drop_last().push(
                    op.node(formulas[formulas.len() - 2], formulas.last()),
                ),
            )
        }
    }
}

/// Takes one symbol in. An atom joins the formulas, an operator or an
/// opening parenthesis joins the stack, and a closing parenthesis only asks
/// for its group to be reduced.
pub open spec fn shift(p: Parser, l: Lexemes) -> Parser {
    match l {
        Lexemes::OpeningParenthesis => Parser {
            stack: p.stack.push(ParseStackItem::Parenthesis),
            state: ParseState::BeginingANewGroup,
            regime: Regime::Eat,
            ..p
        },
        Lexemes::ClosingParenthesis => Parser { regime: Regime::ForceEat, ..p },
        _ => match l.atom() {
            Some(f) => Parser {
                formulas: p.formulas.push(f),
                state: ParseState::Constant,
                regime: Regime::Eat,
                ..p
            },
            None => Parser {
                stack: p.stack.push(ParseStackItem::Operator(l.operator().unwrap())),
                state: ParseState::Operator,
                regime: Regime::Eat,
                ..p
            },
        },
    }
}

/// Pops the operator on top of the stack and applies it.
pub open spec fn apply_top(p: Parser, top: Operators, next: Regime) -> Result<
    Parser,
    TokenizationError,
> {
    match apply_operator(top, p.formulas) {
        Err(e) => Err(e),
        Ok(formulas) => Ok(Parser { stack: p.stack.drop_last(), formulas, regime: next, ..p }),
    }
}

/// Applies the operator `left` that lies below `right`, with the operand
/// that `right` has already received set aside meanwhile.
pub open spec fn apply_below_operand(
    p: Parser,
    left: Operators,
    right: Operators,
    missing: TokenizationError,
    next: Regime,
) -> Result<Parser, TokenizationError> {
    if p.formulas.len() == 0 {
        Err(missing)
    } else {
        match apply_operator(left, p.formulas.drop_last()) {
            Err(e) => Err(e),
            Ok(formulas) => Ok(
                Parser {
                    stack: p.stack.drop_last().drop_last().push(ParseStackItem::Operator(right)),
                    formulas: formulas.push(p.formulas.last()),
                    regime: next,
                    ..p
                },
            ),
        }
    }
}

/// Applies the operator `left` that lies below `right`, which has not
/// received its right operand yet.
pub open spec fn apply_below(p: Parser, left: Operators, right: Operators) -> Result<
    Parser,
    TokenizationError,
> {
    match apply_operator(left, p.formulas) {
        Err(e) => Err(e),
        Ok(formulas) => Ok(
            Parser {
                stack: p.stack.drop_last().drop_last().push(ParseStackItem::Operator(right)),
                formulas,
                regime: Regime::Eat,
                ..p
            },
        ),
    }
}

/// One step under `Eat`: apply what the priorities allow, else stop.
pub open spec fn eat_step(p: Parser) -> Result<Parser, TokenizationError> {
    let stop = Parser { regime: Regime::Stop, ..p };
    match peek2(p.stack) {
        ZOT::Zero => match p.state {
            ParseState::BeginingANewGroup => Ok(stop),
            ParseState::Operator => Err(TokenizationError::InternalError(0)),
            ParseState::Constant => Ok(stop),
        },
        ZOT::One(o) => match p.state {
            ParseState::BeginingANewGroup => if o.unary() {
                Ok(stop)
            } else {
                Err(TokenizationError::TooManyFormulas)
            },
            ParseState::Operator => Ok(stop),
            ParseState::Constant => if o.unary() {
                apply_top(p, o, Regime::Stop)
            } else {
                Ok(stop)
            },
        },
        ZOT::Two(left, right) => match p.state {
            ParseState::BeginingANewGroup => Err(TokenizationError::InternalError(1)),
            ParseState::Constant => match Operators::priority(left, right) {
                Priority::Less => apply_top(p, right, Regime::Eat),
                Priority::More => apply_below_operand(
                    p,
                    left,
                    right,
                    TokenizationError::InternalError(2),
                    Regime::Eat,
                ),
            },
            ParseState::Operator => match Operators::priority(left, right) {
                Priority::Less => Ok(stop),
                Priority::More => if right.unary() {
                    Ok(stop)
                } else {
                    apply_below(p, left, right)
                },
            },
        },
    }
}

/// One step under `ForceEat`: the group that a closing parenthesis ends
/// must hold an operand, and is reduced down to its opening parenthesis,
/// which must be there.
pub open spec fn force_eat_step(p: Parser) -> Result<Parser, TokenizationError> {
    match peek2(p.stack) {
        ZOT::Zero => match p.state {
            ParseState::BeginingANewGroup => Err(TokenizationError::EmptyParenthesis),
            ParseState::Operator => Err(TokenizationError::OperatorWithoutRightHandside),
            ParseState::Constant => if p.stack.len() == 0 {
                Err(TokenizationError::UnmatchedClosingParenthesis)
            } else {
                Ok(Parser { stack: p.stack.drop_last(), regime: Regime::Eat, ..p })
            },
        },
        ZOT::One(op) => match p.state {
            ParseState::BeginingANewGroup | ParseState::Operator => Err(
                TokenizationError::OperatorWithoutRightHandside,
            ),
            ParseState::Constant => if p.stack.len() < 2 {
                Err(TokenizationError::UnmatchedClosingParenthesis)
            } else {
                apply_top(Parser { stack: p.stack.drop_last(), ..p }, op, Regime::Eat)
            },
        },
        ZOT::Two(left, right) => match p.state {
            ParseState::BeginingANewGroup => Err(TokenizationError::InternalError(3)),
            ParseState::Operator => Err(TokenizationError::OperatorWithoutRightHandside),
            ParseState::Constant => match Operators::priority(left, right) {
                Priority::Less => apply_top(p, right, Regime::Eat),
                Priority::More => apply_below_operand(
                    p,
                    left,
                    right,
                    TokenizationError::AFormulaIsMissing,
                    Regime::ForceEat,
                ),
            },
        },
    }
}

/// One step under `EndEat`: at the end of the line every operator must have
/// its operands, and all of them are applied. The reducer stops only when
/// the whole stack is reduced: no parenthesis is still open, and exactly one
/// formula is left.
pub open spec fn end_eat_step(p: Parser) -> Result<Parser, TokenizationError> {
    match peek2(p.stack) {
        ZOT::Zero => match p.state {
            ParseState::BeginingANewGroup => if p.stack.len() == 0 {
                Err(TokenizationError::AFormulaIsMissing)
            } else {
                Err(TokenizationError::EmptyParenthesis)
            },
            ParseState::Operator => Err(TokenizationError::OperatorWithoutRightHandside),
            ParseState::Constant => if p.stack.len() > 0 {
                Err(TokenizationError::UnmatchedOpeningParenthesis)
            } else if p.formulas.len() == 0 {
                Err(TokenizationError::AFormulaIsMissing)
            } else if p.formulas.len() > 1 {
                Err(TokenizationError::TooManyFormulas)
            } else {
                Ok(Parser { regime: Regime::Stop, ..p })
            },
        },
        ZOT::One(op) => match p.state {
            ParseState::BeginingANewGroup => Err(TokenizationError::InvalidSubFormula),
            ParseState::Operator => Err(TokenizationError::OperatorWithoutRightHandside),
            ParseState::Constant => apply_top(p, op, Regime::EndEat),
        },
        ZOT::Two(left, right) => match p.state {
            ParseState::BeginingANewGroup => Err(TokenizationError::InternalError(4)),
            ParseState::Operator => Err(TokenizationError::OperatorWithoutRightHandside),
            ParseState::Constant => match Operators::priority(left, right) {
                Priority::Less => apply_top(p, right, Regime::EndEat),
                Priority::More => apply_below_operand(
                    p,
                    left,
                    right,
                    TokenizationError::AFormulaIsMissing,
                    Regime::EndEat,
                ),
            },
        },
    }
}

/// One step of the reducer under the current regime.
pub open spec fn reduce_step(p: Parser) -> Result<Parser, TokenizationError> {
    match p.regime {
        Regime::Stop => Ok(p),
        Regime::Eat => eat_step(p),
        Regime::ForceEat => force_eat_step(p),
        Regime::EndEat => end_eat_step(p),
    }
}

/// Every step that does not stop the reducer takes an item off the stack.
pub proof fn lemma_reduce_step_shrinks(p: Parser)
    requires
        p.regime != Regime::Stop,
    ensures
        reduce_step(p) matches Ok(q) ==> q.regime == Regime::Stop || q.stack.len() < p.stack.len(),
{
}

/// Runs the reducer until it stops or fails.
pub open spec fn reduce(p: Parser) -> Result<Parser, TokenizationError>
    decreases
            (if p.regime == Regime::Stop {
                0
            } else {
                p.stack.len() + 1
            }),
{
    if p.regime == Regime::Stop {
        Ok(p)
    } else {
        match reduce_step(p) {
            Err(e) => Err(e),
            Ok(q) => {
                proof {
                    lemma_reduce_step_shrinks(p);
                }
                reduce(q)
            },
        }
    }
}

/// The reducer, one step unfolded.
pub proof fn lemma_reduce_unfold(p: Parser)
    ensures
        p.regime == Regime::Stop ==> reduce(p) == Ok::<Parser, TokenizationError>(p),
        p.regime != Regime::Stop ==> reduce(p) == match reduce_step(p) {
            Err(e) => Err(e),
            Ok(q) => reduce(q),
        },
{
}

/// At the end of a line the reducer succeeds only with the whole stack
/// reduced: no operator and no parenthesis is left, and exactly one formula.
pub proof fn lemma_reduce_at_end(p: Parser)
    requires
        p.regime == Regime::EndEat,
    ensures
        reduce(p) matches Ok(q) ==> q.regime == Regime::Stop && q.stack.len() == 0
            && q.formulas.len() == 1,
    decreases p.stack.len(),
{
    lemma_reduce_unfold(p);
    lemma_reduce_step_shrinks(p);
    match reduce_step(p) {
        Ok(q) => {
            lemma_reduce_unfold(q);
            if q.regime != Regime::Stop {
                lemma_reduce_at_end(q);
            }
        },
        Err(_) => {},
    }
}

/// Takes the symbols in one after the other, reducing after each.
pub open spec fn feed(p: Parser, symbols: Seq<Lexemes>) -> Result<Parser, TokenizationError>
    decreases symbols.len(),
{
    if symbols.len() == 0 {
        Ok(p)
    } else {
        match feed(p, symbols.drop_last()) {
            Err(e) => Err(e),
            Ok(q) => reduce(shift(q, symbols.last())),
        }
    }
}

/// The parser before the first symbol.
pub open spec fn initial_parser() -> Parser {
    Parser {
        stack: Seq::empty(),
        formulas: Seq::empty(),
        state: ParseState::BeginingANewGroup,
        regime: Regime::Stop,
    }
}

/// Ends the line: everything is reduced, and the one formula that is left
/// is the formula of the line.
pub open spec fn finish(p: Parser) -> Result<Formula, TokenizationError> {
    match reduce(Parser { regime: Regime::EndEat, ..p }) {
        Err(e) => Err(e),
        Ok(q) => Ok(q.formulas[0]),
    }
}

/// The formula that a sequence of symbols denotes.
pub open spec fn parse_lexemes(symbols: Seq<Lexemes>) -> Result<Formula, TokenizationError> {
    match feed(initial_parser(), symbols) {
        Err(e) => Err(e),
        Ok(p) => finish(p),
    }
}

/// The formula that a line denotes.
pub open spec fn parse_formula(s: Seq<char>) -> Result<Formula, TokenizationError> {
    match tokenize_spec(s) {
        Err(e) => Err(e),
        Ok(symbols) => parse_lexemes(symbols),
    }
}

/// The parser whose two stacks, state and regime are the given values.
pub open spec fn parser_of(
    stack: Seq<ParseStackItem>,
    formulas: Seq<Formula>,
    state: ParseState,
    regime: Regime,
) -> Parser {
    Parser { stack, formulas, state, regime }
}

/// Once a character outside the alphabet is met, the rest of the line does
/// not matter.
pub proof fn lemma_tokenize_fault(s: Seq<char>, n: int)
    requires
        0 <= n <= s.len(),
        tokenize_spec(s.take(n)) is Err,
    ensures
        tokenize_spec(s) == tokenize_spec(s.take(n)),
    decreases s.len() - n,
{
    if n < s.len() {
        assert(s.take(n + 1).drop_last() == s.take(n));
        lemma_tokenize_fault(s, n + 1);
    } else {
        assert(s.take(n) == s);
    }
}

/// The symbols of a line are those of its characters, one for one; a line
/// has none exactly when one of its characters is outside the alphabet, and
/// the error then names the first such character and its position.
pub proof fn lemma_tokenize_spec(s: Seq<char>)
    requires
        s.len() <= usize::MAX,
    ensures
        match tokenize_spec(s) {
            Ok(symbols) => {
                &&& symbols.len() == s.len()
                &&& forall|i: int|
                    0 <= i < s.len() ==> lexeme_of(s[i]) == Some(#[trigger] symbols[i])
            },
            Err(e) => {
                &&& e matches TokenizationError::InvalidCharacter(pos, c)
                &&& pos < s.len()
                &&& c == s[pos as int]
                &&& lexeme_of(c) is None
                &&& forall|i: int| 0 <= i < pos ==> (#[trigger] lexeme_of(s[i])) is Some
            },
        },
    decreases s.len(),
{
    if s.len() > 0 {
        let head = s.drop_last();
        lemma_tokenize_spec(head);
        assert forall|i: int| 0 <= i < head.len() implies head[i] == s[i] by {}
        match tokenize_spec(head) {
            Ok(before) => {
                match lexeme_of(s.last()) {
                    Some(l) => {
                        let symbols = before.push(l);
                        assert forall|i: int| 0 <= i < s.len() implies lexeme_of(s[i]) == Some(
                            #[trigger] symbols[i],
                        ) by {
                            if i < head.len() {
                                assert(symbols[i] == before[i]);
                                assert(head[i] == s[i]);
                            }
                        }
                    },
                    None => {
                        assert forall|i: int| 0 <= i < s.len() - 1 implies (#[trigger] lexeme_of(
                            s[i],
                        )) is Some by {
                            assert(head[i] == s[i]);
                            assert(lexeme_of(head[i]) == Some(before[i]));
                        }
                    },
                }
            },
            Err(e) => {
                let pos = e->InvalidCharacter_0;
                assert(head[pos as int] == s[pos as int]);
                assert forall|i: int| 0 <= i < pos implies (#[trigger] lexeme_of(s[i])) is Some by {
                    assert(head[i] == s[i]);
                }
            },
        }
    }
}

/// Once the parser has failed, the symbols that follow do not matter.
pub proof fn lemma_feed_fault(p: Parser, symbols: Seq<Lexemes>, n: int)
    requires
        0 <= n <= symbols.len(),
        feed(p, symbols.take(n)) is Err,
    ensures
        feed(p, symbols) == feed(p, symbols.take(n)),
    decreases symbols.len() - n,
{
    if n < symbols.len() {
        assert(symbols.take(n + 1).drop_last() == symbols.take(n));
        lemma_feed_fault(p, symbols, n + 1);
    } else {
        assert(symbols.take(n) == symbols);
    }
}

impl Formula {
    /// Maps each character of the line to its symbol.
    fn tokenize(input: &[char]) -> (r: Result<Vec<Lexemes>, TokenizationError>)
        ensures
            match tokenize_spec(input@) {
                Ok(symbols) => r matches Ok(flow) && flow@ == symbols,
                Err(e) => r matches Err(f) && f == e,
            },
    {
        let mut flow: Vec<Lexemes> = Vec::new();
        let n: usize = input.len();
        let mut pos: usize = 0;
        assert(input@.take(0) =~= Seq::<char>::empty());
        while pos < n
            invariant
                pos <= n,
                n == input@.len(),
                tokenize_spec(input@.take(pos as int)) == Ok::<Seq<Lexemes>, TokenizationError>(
                    flow@,
                ),
            decreases n - pos,
        {
            let c: char = input[pos];
            proof {
                let upto = input@.take(pos + 1);
                assert(upto.drop_last() == input@.take(pos as int));
                assert(upto.last() == c);
            }
            let l: Lexemes = match c {
                '⊤' => Lexemes::Top,
                '⊥' => Lexemes::Bottom,
                'a'..='z' | 'A'..='Z' => Lexemes::Variable(c),
                '¬' => Lexemes::Not,
                '∨' => Lexemes::Or,
                '∧' => Lexemes::And,
                '⇒' => Lexemes::Implies,
                '⇐' => Lexemes::RLImplies,
                '⇔' => Lexemes::Equiv,
                '(' => Lexemes::OpeningParenthesis,
                ')' => Lexemes::ClosingParenthesis,
                _ => {
                    proof {
                        lemma_tokenize_fault(input@, pos + 1);
                    }
                    return Err(TokenizationError::InvalidCharacter(pos, c));
                },
            };
            flow.push(l);
            pos = pos + 1;
        }
        assert(input@.take(n as int) == input@);
        Ok(flow)
    }

    /// Reads a formula from a string.
    ///
    /// Every string is read to the end: the result is the formula that the
    /// string denotes, which holds letters only as variables, or the fault
    /// that keeps it from denoting one.
    pub fn read(input: &str) -> (r: Result<Self, TokenizationError>)
        ensures
            r == parse_formula(input@),
            r matches Ok(f) ==> f.well_formed(),
            r matches Err(e) ==> e.input_fault(),
            r matches Err(TokenizationError::InvalidCharacter(_, _)) <==> !in_alphabet(input@),
            r matches Err(TokenizationError::InvalidCharacter(pos, c)) ==> pos < input@.len() && c
                == input@[pos as int] && lexeme_of(c) is None && in_alphabet(
                input@.take(pos as int),
            ),
    {
        let chars = chars_of(input);
        Self::read_chars(chars.as_slice())
    }

    /// Reads a formula from the characters of a line.
    pub fn read_chars(input: &[char]) -> (r: Result<Self, TokenizationError>)
        ensures
            r == parse_formula(input@),
            r matches Ok(f) ==> f.well_formed(),
            r matches Err(e) ==> e.input_fault(),
            r matches Err(TokenizationError::InvalidCharacter(_, _)) <==> !in_alphabet(input@),
            r matches Err(TokenizationError::InvalidCharacter(pos, c)) ==> pos < input@.len() && c
                == input@[pos as int] && lexeme_of(c) is None && in_alphabet(
                input@.take(pos as int),
            ),
    {
        proof {
            assert(input.len() == input@.len());
            lemma_parse_formula_sound(input@);
        }
        let lexemes: Vec<Lexemes> = Self::tokenize(input)?;
        let mut stack: Vec<ParseStackItem> = Vec::new();
        let mut formulas: Vec<Formula> = Vec::new();
        let mut regime = Regime::Stop;
        let mut state = ParseState::BeginingANewGroup;
        let n: usize = lexemes.len();
        let mut i: usize = 0;
        assert(lexemes@.take(0) =~= Seq::<Lexemes>::empty());
        while i < n
            invariant
                i <= n,
                n == lexemes@.len(),
                input@.len() <= usize::MAX,
                tokenize_spec(input@) == Ok::<Seq<Lexemes>, TokenizationError>(lexemes@),
                feed(initial_parser(), lexemes@.take(i as int)) == Ok::<Parser, TokenizationError>(
                    parser_of(stack@, formulas@, state, regime),
                ),
            decreases n - i,
        {
            let l: Lexemes = lexemes[i];
            proof {
                let upto = lexemes@.take(i + 1);
                assert(upto.drop_last() == lexemes@.take(i as int));
                assert(upto.last() == l);
            }
            Self::read_lexeme(l, &mut regime, &mut state, &mut stack, &mut formulas)?;
            match Self::eat(&mut stack, &mut state, &mut regime, &mut formulas) {
                Ok(()) => {},
                Err(e) => {
                    proof {
                        lemma_feed_fault(initial_parser(), lexemes@, i + 1);
                        lemma_parse_formula_sound(input@);
                    }
                    return Err(e);
                },
            }
            i = i + 1;
        }
        assert(lexemes@.take(n as int) == lexemes@);
        regime = Regime::EndEat;
        Self::eat(&mut stack, &mut state, &mut regime, &mut formulas)?;
        Ok(formulas.pop().unwrap())
    }

    /// Takes one symbol in.
    fn read_lexeme(
        l: Lexemes,
        regime: &mut Regime,
        state: &mut ParseState,
        stack: &mut Vec<ParseStackItem>,
        formulas: &mut Vec<Formula>,
    ) -> (r: Result<(), TokenizationError>)
        ensures
            r is Ok,
            parser_of(final(stack)@, final(formulas)@, *final(state), *final(regime)) == shift(
                parser_of(old(stack)@, old(formulas)@, *old(state), *old(regime)),
                l,
            ),
    {
        *regime = Regime::Eat;
        match l {
            Lexemes::OpeningParenthesis => {
                stack.push(ParseStackItem::Parenthesis);
                *state = ParseState::BeginingANewGroup
            },
            Lexemes::Variable(v) => {
                formulas.push(Formula::Variable(v));
                *state = ParseState::Constant
            },
            Lexemes::Top => {
                formulas.push(Formula::Top);
                *state = ParseState::Constant
            },
            Lexemes::Bottom => {
                formulas.push(Formula::Bottom);
                *state = ParseState::Constant
            },
            Lexemes::ClosingParenthesis => {
                *regime = Regime::ForceEat;
            },
            Lexemes::Or => {
                stack.push(ParseStackItem::Operator(Operators::Or));
                *state = ParseState::Operator
            },
            Lexemes::And => {
                stack.push(ParseStackItem::Operator(Operators::And));
                *state = ParseState::Operator
            },
            Lexemes::Not => {
                stack.push(ParseStackItem::Operator(Operators::Not));
                *state = ParseState::Operator
            },
            Lexemes::Implies => {
                stack.push(ParseStackItem::Operator(Operators::Implies));
                *state = ParseState::Operator
            },
            Lexemes::RLImplies => {
                stack.push(ParseStackItem::Operator(Operators::RLImplies));
                *state = ParseState::Operator
            },
            Lexemes::Equiv => {
                stack.push(ParseStackItem::Operator(Operators::Equiv));
                *state = ParseState::Operator
            },
        };
        Ok(())
    }

    /// The operators that are visible on top of the stack.
    fn get_last_two_ops_from_stack(stack: &Vec<ParseStackItem>) -> (z: ZOT)
        ensures
            z == peek2(stack@),
    {
        let n: usize = stack.len();
        if n == 0 {
            return ZOT::Zero;
        }
        match stack[n - 1] {
            ParseStackItem::Parenthesis => ZOT::Zero,
            ParseStackItem::Operator(right) => {
                if n == 1 {
                    ZOT::One(right)
                } else {
                    match stack[n - 2] {
                        ParseStackItem::Parenthesis => ZOT::One(right),
                        ParseStackItem::Operator(left) => ZOT::Two(left, right),
                    }
                }
            },
        }
    }

    /// Pops `right`, sets its operand aside, pops and applies `left`, then
    /// puts the operand and `right` back.
    fn swap_with_operand(
        left: Operators,
        right: Operators,
        missing: TokenizationError,
        stack: &mut Vec<ParseStackItem>,
        formulas: &mut Vec<Formula>,
    ) -> (r: Result<(), TokenizationError>)
        requires
            peek2(old(stack)@) == ZOT::Two(left, right),
        ensures
            match apply_below_operand(
                parser_of(old(stack)@, old(formulas)@, ParseState::Constant, Regime::Eat),
                left,
                right,
                missing,
                Regime::Eat,
            ) {
                Ok(q) => r is Ok && final(stack)@ == q.stack && final(formulas)@ == q.formulas,
                Err(e) => r matches Err(f) && f == e,
            },
    {
        stack.pop();
        let rightest = match formulas.pop() {
            Some(f) => f,
            None => {
                return Err(missing);
            },
        };
        stack.pop();
        Self::build_from_operator(left, formulas)?;
        formulas.push(rightest);
        stack.push(ParseStackItem::Operator(right));
        Ok(())
    }

    /// Applies the stacked operators as far as the regime asks for. At the
    /// end of the line it succeeds only with the whole stack reduced.
    fn eat(
        stack: &mut Vec<ParseStackItem>,
        state: &mut ParseState,
        regime: &mut Regime,
        formulas: &mut Vec<Formula>,
    ) -> (r: Result<(), TokenizationError>)
        ensures
            match reduce(parser_of(old(stack)@, old(formulas)@, *old(state), *old(regime))) {
                Ok(q) => r is Ok && parser_of(
                    final(stack)@,
                    final(formulas)@,
                    *final(state),
                    *final(regime),
                ) == q,
                Err(e) => r matches Err(f) && f == e,
            },
            r is Ok ==> *final(regime) == Regime::Stop,
            *old(regime) == Regime::EndEat && r is Ok ==> final(stack)@.len() == 0
                && final(formulas)@.len() == 1,
    {
        let ghost start = parser_of(stack@, formulas@, *state, *regime);
        loop
            invariant
                start == parser_of(old(stack)@, old(formulas)@, *old(state), *old(regime)),
                reduce(parser_of(stack@, formulas@, *state, *regime)) == reduce(start),
            ensures
                *regime == Regime::Stop,
                reduce(start) == Ok::<Parser, TokenizationError>(
                    parser_of(stack@, formulas@, *state, *regime),
                ),
            decreases
                    (if *regime == Regime::Stop {
                        0
                    } else {
                        stack@.len() + 1
                    }),
        {
            let ghost now = parser_of(stack@, formulas@, *state, *regime);
            proof {
                lemma_reduce_unfold(now);
                if now.regime != Regime::Stop {
                    lemma_reduce_step_shrinks(now);
                }
            }
            let step = match *regime {
                Regime::Stop => {
                    break ;
                },
                Regime::Eat => Self::eat_under_eat(stack, state, regime, formulas),
                Regime::ForceEat => Self::eat_under_force_eat(stack, state, regime, formulas),
                Regime::EndEat => Self::eat_under_end_eat(stack, state, regime, formulas),
            };
            step?;
        }
        proof {
            if start.regime == Regime::EndEat {
                lemma_reduce_at_end(start);
            }
        }
        Ok(())
    }

    /// One step of [`Formula::eat`] under `Eat`.
    fn eat_under_eat(
        stack: &mut Vec<ParseStackItem>,
        state: &mut ParseState,
        regime: &mut Regime,
        formulas: &mut Vec<Formula>,
    ) -> (r: Result<(), TokenizationError>)
        requires
            *old(regime) == Regime::Eat,
        ensures
            match eat_step(parser_of(old(stack)@, old(formulas)@, *old(state), *old(regime))) {
                Ok(q) => r is Ok && parser_of(
                    final(stack)@,
                    final(formulas)@,
                    *final(state),
                    *final(regime),
                ) == q,
                Err(e) => r matches Err(f) && f == e,
            },
    {
        match Self::get_last_two_ops_from_stack(stack) {
            ZOT::Zero => match *state {
                ParseState::BeginingANewGroup => {
                    *regime = Regime::Stop;
                },
                ParseState::Operator => {
                    return Err(TokenizationError::InternalError(0));
                },
                ParseState::Constant => {
                    *regime = Regime::Stop;
                },
            },
            ZOT::One(o) => match *state {
                ParseState::BeginingANewGroup => {
                    if o.is_unary() {
                        *regime = Regime::Stop;
                    } else {
                        return Err(TokenizationError::TooManyFormulas);
                    }
                },
                ParseState::Operator => {
                    *regime = Regime::Stop;
                },
                ParseState::Constant => {
                    if o.is_unary() {
                        Self::build_from_operator(o, formulas)?;
                        stack.pop();
                    }
                    *regime = Regime::Stop;
                },
            },
            ZOT::Two(left, right) => match *state {
                ParseState::BeginingANewGroup => {
                    return Err(TokenizationError::InternalError(1));
                },
                ParseState::Constant => match Operators::cmp(&left, &right) {
                    Priority::Less => {
                        Self::build_from_operator(right, formulas)?;
                        stack.pop();
                    },
                    Priority::More => {
                        Self::swap_with_operand(
                            left,
                            right,
                            TokenizationError::InternalError(2),
                            stack,
                            formulas,
                        )?;
                    },
                },
                ParseState::Operator => match Operators::cmp(&left, &right) {
                    Priority::Less => {
                        *regime = Regime::Stop;
                    },
                    Priority::More => {
                        if right.is_unary() {
                            *regime = Regime::Stop;
                        } else {
                            Self::build_from_operator(left, formulas)?;
                            stack.pop();
                            stack.pop();
                            stack.push(ParseStackItem::Operator(right));
                            *regime = Regime::Eat;
                        }
                    },
                },
            },
        }
        Ok(())
    }

    /// One step of [`Formula::eat`] under `ForceEat`.
    fn eat_under_force_eat(
        stack: &mut Vec<ParseStackItem>,
        state: &mut ParseState,
        regime: &mut Regime,
        formulas: &mut Vec<Formula>,
    ) -> (r: Result<(), TokenizationError>)
        requires
            *old(regime) == Regime::ForceEat,
        ensures
            match force_eat_step(
                parser_of(old(stack)@, old(formulas)@, *old(state), *old(regime)),
            ) {
                Ok(q) => r is Ok && parser_of(
                    final(stack)@,
                    final(formulas)@,
                    *final(state),
                    *final(regime),
                ) == q,
                Err(e) => r matches Err(f) && f == e,
            },
    {
        match Self::get_last_two_ops_from_stack(stack) {
            ZOT::Zero => match *state {
                ParseState::BeginingANewGroup => {
                    return Err(TokenizationError::EmptyParenthesis);
                },
                ParseState::Operator => {
                    return Err(TokenizationError::OperatorWithoutRightHandside);
                },
                ParseState::Constant => {
                    match stack.pop() {
                        Some(_) => {},
                        None => {
                            return Err(TokenizationError::UnmatchedClosingParenthesis);
                        },
                    }
                    *regime = Regime::Eat;
                },
            },
            ZOT::One(op) => match *state {
                ParseState::BeginingANewGroup | ParseState::Operator => {
                    return Err(TokenizationError::OperatorWithoutRightHandside);
                },
                ParseState::Constant => {
                    if stack.len() < 2 {
                        return Err(TokenizationError::UnmatchedClosingParenthesis);
                    }
                    Self::build_from_operator(op, formulas)?;
                    stack.pop();
                    stack.pop();
                    *regime = Regime::Eat;
                },
            },
            ZOT::Two(left, right) => match *state {
                ParseState::BeginingANewGroup => {
                    return Err(TokenizationError::InternalError(3));
                },
                ParseState::Operator => {
                    return Err(TokenizationError::OperatorWithoutRightHandside);
                },
                ParseState::Constant => {
                    match Operators::cmp(&left, &right) {
                        Priority::Less => {
                            Self::build_from_operator(right, formulas)?;
                            stack.pop();
                            *regime = Regime::Eat;
                        },
                        Priority::More => {
                            Self::swap_with_operand(
                                left,
                                right,
                                TokenizationError::AFormulaIsMissing,
                                stack,
                                formulas,
                            )?;
                            *regime = Regime::ForceEat;
                        },
                    }
                },
            },
        }
        Ok(())
    }

    /// One step of [`Formula::eat`] under `EndEat`.
    fn eat_under_end_eat(
        stack: &mut Vec<ParseStackItem>,
        state: &mut ParseState,
        regime: &mut Regime,
        formulas: &mut Vec<Formula>,
    ) -> (r: Result<(), TokenizationError>)
        requires
            *old(regime) == Regime::EndEat,
        ensures
            match end_eat_step(parser_of(old(stack)@, old(formulas)@, *old(state), *old(regime))) {
                Ok(q) => r is Ok && parser_of(
                    final(stack)@,
                    final(formulas)@,
                    *final(state),
                    *final(regime),
                ) == q,
                Err(e) => r matches Err(f) && f == e,
            },
    {
        match Self::get_last_two_ops_from_stack(stack) {
            ZOT::Zero => match *state {
                ParseState::BeginingANewGroup => {
                    if stack.len() == 0 {
                        return Err(TokenizationError::AFormulaIsMissing);
                    }
                    return Err(TokenizationError::EmptyParenthesis);
                },
                ParseState::Operator => {
                    return Err(TokenizationError::OperatorWithoutRightHandside);
                },
                ParseState::Constant => {
                    if stack.len() > 0 {
                        return Err(TokenizationError::UnmatchedOpeningParenthesis);
                    }
                    if formulas.len() == 0 {
                        return Err(TokenizationError::AFormulaIsMissing);
                    }
                    if formulas.len() > 1 {
                        return Err(TokenizationError::TooManyFormulas);
                    }
                    *regime = Regime::Stop;
                },
            },
            ZOT::One(op) => match *state {
                ParseState::BeginingANewGroup => {
                    return Err(TokenizationError::InvalidSubFormula);
                },
                ParseState::Operator => {
                    return Err(TokenizationError::OperatorWithoutRightHandside);
                },
                ParseState::Constant => {
                    Self::build_from_operator(op, formulas)?;
                    stack.pop();
                    *regime = Regime::EndEat;
                },
            },
            ZOT::Two(left, right) => match *state {
                ParseState::BeginingANewGroup => {
                    return Err(TokenizationError::InternalError(4));
                },
                ParseState::Operator => {
                    return Err(TokenizationError::OperatorWithoutRightHandside);
                },
                ParseState::Constant => match Operators::cmp(&left, &right) {
                    Priority::Less => {
                        Self::build_from_operator(right, formulas)?;
                        stack.pop();
                        *regime = Regime::EndEat;
                    },
                    Priority::More => {
                        Self::swap_with_operand(
                            left,
                            right,
                            TokenizationError::AFormulaIsMissing,
                            stack,
                            formulas,
                        )?;
                        *regime = Regime::EndEat;
                    },
                },
            },
        }
        Ok(())
    }

    /// The two latest formulas, taken off the stack of formulas.
    fn take_operands(formulas: &mut Vec<Formula>) -> (r: Result<
        (Formula, Formula),
        TokenizationError,
    >)
        ensures
            old(formulas)@.len() < 2 ==> r == Err::<(Formula, Formula), TokenizationError>(
                TokenizationError::AFormulaIsMissing,
            ) && final(formulas)@ == old(formulas)@,
            old(formulas)@.len() >= 2 ==> r == Ok::<(Formula, Formula), TokenizationError>(
                (old(formulas)@[old(formulas)@.len() - 2], old(formulas)@.last()),
            ) && final(formulas)@ == old(formulas)@.drop_last().drop_last(),
    {
        if formulas.len() < 2 {
            return Err(TokenizationError::AFormulaIsMissing);
        }
        let right = formulas.pop().unwrap();
        let left = formulas.pop().unwrap();
        Ok((left, right))
    }

    /// Replaces the latest formulas by the one that `operator` builds from
    /// them. Where a formula is missing, nothing is changed.
    fn build_from_operator(operator: Operators, formulas: &mut Vec<Formula>) -> (r: Result<
        (),
        TokenizationError,
    >)
        ensures
            match apply_operator(operator, old(formulas)@) {
                Ok(built) => r is Ok && final(formulas)@ == built,
                Err(e) => r matches Err(f) && f == e && final(formulas)@ == old(formulas)@,
            },
    {
        match operator {
            Operators::Not => {
                let f = match formulas.pop() {
                    Some(f) => f,
                    None => {
                        return Err(TokenizationError::AFormulaIsMissing);
                    },
                };
                formulas.push(Formula::Not(Box::new(f)));
            },
            Operators::And => {
                let (left, right) = Self::take_operands(formulas)?;
                formulas.push(Formula::And(Box::new(left), Box::new(right)));
            },
            Operators::Or => {
                let (left, right) = Self::take_operands(formulas)?;
                formulas.push(Formula::Or(Box::new(left), Box::new(right)));
            },
            Operators::Implies => {
                let (left, right) = Self::take_operands(formulas)?;
                formulas.push(Formula::Implies(Box::new(left), Box::new(right)));
            },
            Operators::RLImplies => {
                let (left, right) = Self::take_operands(formulas)?;
                formulas.push(Formula::RLImplies(Box::new(left), Box::new(right)));
            },
            Operators::Equiv => {
                let (left, right) = Self::take_operands(formulas)?;
                formulas.push(Formula::Equiv(Box::new(left), Box::new(right)));
            },
        };
        Ok(())
    }
}

impl Clone for Formula {
    fn clone(&self) -> (r: Self)
        ensures
            r == *self,
        decreases self,
    {
        match self {
            Formula::Top => Formula::Top,
            Formula::Bottom => Formula::Bottom,
            Formula::Variable(c) => Formula::Variable(*c),
            Formula::Not(a) => Formula::Not(Box::new((**a).clone())),
            Formula::Or(a, b) => Formula::Or(Box::new((**a).clone()), Box::new((**b).clone())),
            Formula::And(a, b) => Formula::And(Box::new((**a).clone()), Box::new((**b).clone())),
            Formula::Implies(a, b) => Formula::Implies(
                Box::new((**a).clone()),
                Box::new((**b).clone()),
            ),
            Formula::RLImplies(a, b) => Formula::RLImplies(
                Box::new((**a).clone()),
                Box::new((**b).clone()),
            ),
            Formula::Equiv(a, b) => Formula::Equiv(
                Box::new((**a).clone()),
                Box::new((**b).clone()),
            ),
        }
    }
}

impl PartialEq for Formula {
    /// Structural equality: the same connectives over the same atoms.
    fn eq(&self, other: &Self) -> (r: bool)
        decreases self,
    {
        match (self, other) {
            (Formula::Top, Formula::Top) => true,
            (Formula::Bottom, Formula::Bottom) => true,
            (Formula::Variable(a), Formula::Variable(b)) => *a == *b,
            (Formula::Not(a), Formula::Not(b)) => **a == **b,
            (Formula::Or(a, b), Formula::Or(c, d)) => **a == **c && **b == **d,
            (Formula::And(a, b), Formula::And(c, d)) => **a == **c && **b == **d,
            (Formula::Implies(a, b), Formula::Implies(c, d)) => **a == **c && **b == **d,
            (Formula::RLImplies(a, b), Formula::RLImplies(c, d)) => **a == **c && **b == **d,
            (Formula::Equiv(a, b), Formula::Equiv(c, d)) => **a == **c && **b == **d,
            _ => false,
        }
    }
}

impl PartialEqSpecImpl for Formula {
    open spec fn obeys_eq_spec() -> bool {
        true
    }

    open spec fn eq_spec(&self, other: &Self) -> bool {
        *self == *other
    }
}

} // verus!
