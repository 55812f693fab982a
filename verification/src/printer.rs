//! The printer of formulas, and the proof that the parser reads back what
//! the printer writes.
//!
//! The printer puts every compound formula between parentheses: `(¬f)` for
//! a negation, `(l∘r)` for a binary connective `∘`. Nothing is left to the
//! priorities of the operators.

use crate::formula::{
    feed, initial_parser, lemma_reduce_unfold, lexeme_of, parse_formula, parse_lexemes, reduce,
    shift, tokenize_spec, Formula, Lexemes, Operators, ParseStackItem, ParseState, Parser, Regime,
    TokenizationError,
};
use vstd::prelude::*;

verus! {

impl Operators {
    /// The character that denotes the operator.
    pub open spec fn symbol(self) -> char {
        match self {
            Operators::Not => '¬',
            Operators::Or => '∨',
            Operators::And => '∧',
            Operators::Implies => '⇒',
            Operators::RLImplies => '⇐',
            Operators::Equiv => '⇔',
        }
    }

    /// The symbol that denotes the operator.
    pub open spec fn lexeme(self) -> Lexemes {
        match self {
            Operators::Not => Lexemes::Not,
            Operators::Or => Lexemes::Or,
            Operators::And => Lexemes::And,
            Operators::Implies => Lexemes::Implies,
            Operators::RLImplies => Lexemes::RLImplies,
            Operators::Equiv => Lexemes::Equiv,
        }
    }
}

/// A compound formula taken apart: its operator and its operands. A
/// negation has its only operand on the right.
pub enum Shape {
    Atom,
    Unary(Formula),
    Binary(Operators, Formula, Formula),
}

impl Formula {
    /// The operator at the root of the formula, with its operands.
    pub open spec fn shape(self) -> Shape {
        match self {
            Formula::Top => Shape::Atom,
            Formula::Bottom => Shape::Atom,
            Formula::Variable(_) => Shape::Atom,
            Formula::Not(f) => Shape::Unary(*f),
            Formula::Or(l, r) => Shape::Binary(Operators::Or, *l, *r),
            Formula::And(l, r) => Shape::Binary(Operators::And, *l, *r),
            Formula::Implies(l, r) => Shape::Binary(Operators::Implies, *l, *r),
            Formula::RLImplies(l, r) => Shape::Binary(Operators::RLImplies, *l, *r),
            Formula::Equiv(l, r) => Shape::Binary(Operators::Equiv, *l, *r),
        }
    }

    /// The character that denotes an atom.
    pub open spec fn atom_char(self) -> char
        recommends
            self.shape() is Atom,
    {
        match self {
            Formula::Top => '⊤',
            Formula::Bottom => '⊥',
            Formula::Variable(c) => c,
            _ => ' ',
        }
    }

    /// The formula written out with every compound formula in parentheses.
    pub open spec fn printed(self) -> Seq<char>
        decreases self,
    {
        match self.shape() {
            Shape::Atom => seq![self.atom_char()],
            Shape::Unary(f) => seq!['(', '¬'] + f.printed() + seq![')'],
            Shape::Binary(op, l, r) => seq!['('] + l.printed() + seq![op.symbol()] + r.printed()
                + seq![')'],
        }
    }

    /// The symbol that denotes an atom.
    pub open spec fn atom_lexeme(self) -> Lexemes
        recommends
            self.shape() is Atom,
    {
        match self {
            Formula::Top => Lexemes::Top,
            Formula::Bottom => Lexemes::Bottom,
            Formula::Variable(c) => Lexemes::Variable(c),
            _ => Lexemes::Top,
        }
    }

    /// The symbols of the printed formula.
    pub open spec fn printed_symbols(self) -> Seq<Lexemes>
        decreases self,
    {
        match self.shape() {
            Shape::Atom => seq![self.atom_lexeme()],
            Shape::Unary(f) => seq![Lexemes::OpeningParenthesis, Lexemes::Not]
                + f.printed_symbols() + seq![Lexemes::ClosingParenthesis],
            Shape::Binary(op, l, r) => seq![Lexemes::OpeningParenthesis] + l.printed_symbols()
                + seq![op.lexeme()] + r.printed_symbols() + seq![Lexemes::ClosingParenthesis],
        }
    }

    /// Writes the formula out with every compound formula in parentheses.
    /// What is written reads back as the formula, provided its variables
    /// are letters.
    pub fn print_chars(&self) -> (out: Vec<char>)
        ensures
            out@ == self.printed(),
            self.well_formed() ==> parse_formula(out@) == Ok::<Formula, TokenizationError>(*self),
    {
        proof {
            if self.well_formed() {
                lemma_read_printed(*self);
            }
        }
        let mut out: Vec<char> = Vec::new();
        self.print_into(&mut out);
        out
    }

    /// Appends the printed formula to `out`.
    fn print_into(&self, out: &mut Vec<char>)
        ensures
            final(out)@ == old(out)@ + self.printed(),
        decreases self,
    {
        let ghost before = out@;
        match self {
            Formula::Top => {
                out.push('⊤');
            },
            Formula::Bottom => {
                out.push('⊥');
            },
            Formula::Variable(c) => {
                out.push(*c);
            },
            Formula::Not(f) => {
                out.push('(');
                out.push('¬');
                f.print_into(out);
                out.push(')');
            },
            Formula::Or(l, r) => {
                out.push('(');
                l.print_into(out);
                out.push('∨');
                r.print_into(out);
                out.push(')');
            },
            Formula::And(l, r) => {
                out.push('(');
                l.print_into(out);
                out.push('∧');
                r.print_into(out);
                out.push(')');
            },
            Formula::Implies(l, r) => {
                out.push('(');
                l.print_into(out);
                out.push('⇒');
                r.print_into(out);
                out.push(')');
            },
            Formula::RLImplies(l, r) => {
                out.push('(');
                l.print_into(out);
                out.push('⇐');
                r.print_into(out);
                out.push(')');
            },
            Formula::Equiv(l, r) => {
                out.push('(');
                l.print_into(out);
                out.push('⇔');
                r.print_into(out);
                out.push(')');
            },
        }
        assert(out@ =~= before + self.printed());
    }
}

/// Taking in two runs of symbols one after the other is taking in their
/// concatenation.
pub proof fn lemma_feed_concat(p: Parser, first: Seq<Lexemes>, second: Seq<Lexemes>)
    ensures
        feed(p, first + second) == match feed(p, first) {
            Err(e) => Err(e),
            Ok(q) => feed(q, second),
        },
    decreases second.len(),
{
    if second.len() == 0 {
        assert(first + second =~= first);
    } else {
        assert((first + second).drop_last() =~= first + second.drop_last());
        assert((first + second).last() == second.last());
        lemma_feed_concat(p, first, second.drop_last());
    }
}

/// Taking in one symbol is a shift followed by a reduction.
pub proof fn lemma_feed_one(p: Parser, l: Lexemes)
    ensures
        feed(p, seq![l]) == reduce(shift(p, l)),
{
    assert(seq![l].drop_last() =~= Seq::<Lexemes>::empty());
    assert(feed(p, seq![l].drop_last()) == Ok::<Parser, TokenizationError>(p));
}

/// The parser right after it has taken in `f` as an operand, before it
/// reduces: as after an atom, the formula is on the stack of formulas and
/// the operators are to be applied as far as their priorities allow.
pub open spec fn operand_read(p: Parser, f: Formula) -> Parser {
    Parser {
        formulas: p.formulas.push(f),
        state: ParseState::Constant,
        regime: Regime::Eat,
        ..p
    }
}

/// An opening parenthesis starts a group, whatever came before.
pub proof fn lemma_group_opens(p: Parser)
    ensures
        reduce(shift(p, Lexemes::OpeningParenthesis)) == Ok::<Parser, TokenizationError>(
            Parser {
                stack: p.stack.push(ParseStackItem::Parenthesis),
                state: ParseState::BeginingANewGroup,
                regime: Regime::Stop,
                ..p
            },
        ),
{
    let shifted = shift(p, Lexemes::OpeningParenthesis);
    lemma_reduce_unfold(shifted);
    lemma_reduce_unfold(Parser { regime: Regime::Stop, ..shifted });
}

/// An operator that comes right above an opening parenthesis waits there.
pub proof fn lemma_operator_waits(p: Parser, op: Operators)
    requires
        p.stack.len() > 0,
        p.stack.last() == ParseStackItem::Parenthesis,
    ensures
        reduce(shift(p, op.lexeme())) == Ok::<Parser, TokenizationError>(
            Parser {
                stack: p.stack.push(ParseStackItem::Operator(op)),
                state: ParseState::Operator,
                regime: Regime::Stop,
                ..p
            },
        ),
{
    let shifted = shift(p, op.lexeme());
    assert(shifted.stack[shifted.stack.len() - 2] == p.stack.last());
    lemma_reduce_unfold(shifted);
    lemma_reduce_unfold(Parser { regime: Regime::Stop, ..shifted });
}

/// The first operand of a group stays where it is.
pub proof fn lemma_first_operand(p: Parser, f: Formula)
    requires
        p.stack.len() > 0,
        p.stack.last() == ParseStackItem::Parenthesis,
    ensures
        reduce(operand_read(p, f)) == Ok::<Parser, TokenizationError>(
            Parser { regime: Regime::Stop, ..operand_read(p, f) },
        ),
{
    lemma_reduce_unfold(operand_read(p, f));
    lemma_reduce_unfold(Parser { regime: Regime::Stop, ..operand_read(p, f) });
}

/// The operand of an operator that stands alone in its group stays where
/// it is if the operator is binary, and is negated at once under `¬`.
pub proof fn lemma_operand_in_group(p: Parser, op: Operators, f: Formula)
    requires
        p.stack.len() >= 2,
        p.stack.last() == ParseStackItem::Operator(op),
        p.stack[p.stack.len() - 2] == ParseStackItem::Parenthesis,
    ensures
        reduce(operand_read(p, f)) == Ok::<Parser, TokenizationError>(
            if op.unary() {
                Parser {
                    stack: p.stack.drop_last(),
                    formulas: p.formulas.push(Formula::Not(Box::new(f))),
                    state: ParseState::Constant,
                    regime: Regime::Stop,
                }
            } else {
                Parser { regime: Regime::Stop, ..operand_read(p, f) }
            },
        ),
{
    let read = operand_read(p, f);
    lemma_reduce_unfold(read);
    lemma_reduce_unfold(Parser { regime: Regime::Stop, ..read });
    if op.unary() {
        assert(read.formulas.drop_last() =~= p.formulas);
        lemma_reduce_unfold(
            Parser {
                stack: p.stack.drop_last(),
                formulas: p.formulas.push(Formula::Not(Box::new(f))),
                state: ParseState::Constant,
                regime: Regime::Stop,
            },
        );
    }
}

/// A closing parenthesis right after the only formula of its group removes
/// the opening parenthesis: the formula becomes an operand of what is
/// around the group.
pub proof fn lemma_group_closes(p: Parser)
    requires
        p.state == ParseState::Constant,
        p.stack.len() > 0,
        p.stack.last() == ParseStackItem::Parenthesis,
    ensures
        reduce(shift(p, Lexemes::ClosingParenthesis)) == reduce(
            Parser { stack: p.stack.drop_last(), regime: Regime::Eat, ..p },
        ),
{
    lemma_reduce_unfold(shift(p, Lexemes::ClosingParenthesis));
}

/// A closing parenthesis right after the second operand of a binary
/// operator applies it and removes the opening parenthesis.
pub proof fn lemma_binary_group_closes(p: Parser, op: Operators)
    requires
        p.state == ParseState::Constant,
        !op.unary(),
        p.stack.len() >= 2,
        p.stack.last() == ParseStackItem::Operator(op),
        p.stack[p.stack.len() - 2] == ParseStackItem::Parenthesis,
        p.formulas.len() >= 2,
    ensures
        reduce(shift(p, Lexemes::ClosingParenthesis)) == reduce(
            Parser {
                stack: p.stack.drop_last().drop_last(),
                formulas: p.formulas.drop_last().drop_last().push(
                    op.node(p.formulas[p.formulas.len() - 2], p.formulas.last()),
                ),
                regime: Regime::Eat,
                ..p
            },
        ),
{
    lemma_reduce_unfold(shift(p, Lexemes::ClosingParenthesis));
}

/// A printed formula is read as one operand: wherever the parser stands,
/// taking in the symbols of the printed formula `f` comes to the same as
/// taking in an atom that would stand for `f`.
pub proof fn lemma_feed_printed(p: Parser, f: Formula)
    ensures
        feed(p, f.printed_symbols()) == reduce(operand_read(p, f)),
    decreases f,
{
    let open = seq![Lexemes::OpeningParenthesis];
    let close = seq![Lexemes::ClosingParenthesis];
    let in_group = Parser {
        stack: p.stack.push(ParseStackItem::Parenthesis),
        state: ParseState::BeginingANewGroup,
        regime: Regime::Stop,
        ..p
    };
    lemma_feed_one(p, Lexemes::OpeningParenthesis);
    lemma_group_opens(p);
    match f.shape() {
        Shape::Atom => {
            lemma_feed_one(p, f.atom_lexeme());
        },
        Shape::Unary(g) => {
            let not = seq![Lexemes::Not];
            let after_not = Parser {
                stack: in_group.stack.push(ParseStackItem::Operator(Operators::Not)),
                state: ParseState::Operator,
                ..in_group
            };
            let after_g = Parser {
                stack: in_group.stack,
                formulas: p.formulas.push(f),
                state: ParseState::Constant,
                regime: Regime::Stop,
            };
            assert(f.printed_symbols() =~= ((open + not) + g.printed_symbols()) + close);
            // ( ¬
            lemma_feed_concat(p, open, not);
            lemma_feed_one(in_group, Lexemes::Not);
            lemma_operator_waits(in_group, Operators::Not);
            assert(feed(p, open + not) == Ok::<Parser, TokenizationError>(after_not));
            // g
            lemma_feed_concat(p, open + not, g.printed_symbols());
            lemma_feed_printed(after_not, g);
            assert(after_not.stack[after_not.stack.len() - 2] == ParseStackItem::Parenthesis);
            lemma_operand_in_group(after_not, Operators::Not, g);
            assert(after_not.stack.drop_last() =~= in_group.stack);
            assert(feed(p, (open + not) + g.printed_symbols()) == Ok::<
                Parser,
                TokenizationError,
            >(after_g));
            // )
            lemma_feed_concat(p, (open + not) + g.printed_symbols(), close);
            lemma_feed_one(after_g, Lexemes::ClosingParenthesis);
            lemma_group_closes(after_g);
            assert(after_g.stack.drop_last() =~= p.stack);
        },
        Shape::Binary(op, l, r) => {
            let sign = seq![op.lexeme()];
            let after_l = Parser { regime: Regime::Stop, ..operand_read(in_group, l) };
            let after_op = Parser {
                stack: after_l.stack.push(ParseStackItem::Operator(op)),
                state: ParseState::Operator,
                ..after_l
            };
            let after_r = Parser { regime: Regime::Stop, ..operand_read(after_op, r) };
            let left = open + l.printed_symbols();
            assert(f.printed_symbols() =~= ((left + sign) + r.printed_symbols()) + close);
            // ( l
            lemma_feed_concat(p, open, l.printed_symbols());
            lemma_feed_printed(in_group, l);
            lemma_first_operand(in_group, l);
            assert(feed(p, left) == Ok::<Parser, TokenizationError>(after_l));
            // ∘
            lemma_feed_concat(p, left, sign);
            lemma_feed_one(after_l, op.lexeme());
            lemma_operator_waits(after_l, op);
            assert(feed(p, left + sign) == Ok::<Parser, TokenizationError>(after_op));
            // r
            lemma_feed_concat(p, left + sign, r.printed_symbols());
            lemma_feed_printed(after_op, r);
            assert(after_op.stack[after_op.stack.len() - 2] == ParseStackItem::Parenthesis);
            lemma_operand_in_group(after_op, op, r);
            assert(feed(p, (left + sign) + r.printed_symbols()) == Ok::<
                Parser,
                TokenizationError,
            >(after_r));
            // )
            lemma_feed_concat(p, (left + sign) + r.printed_symbols(), close);
            lemma_feed_one(after_r, Lexemes::ClosingParenthesis);
            assert(after_r.formulas =~= p.formulas.push(l).push(r));
            lemma_binary_group_closes(after_r, op);
            assert(after_r.stack.drop_last().drop_last() =~= p.stack);
            assert(after_r.formulas.drop_last().drop_last() =~= p.formulas);
            assert(op.node(l, r) == f);
        },
    }
}

/// The symbols of two lines written one after the other are the symbols of
/// the first followed by those of the second.
pub proof fn lemma_tokenize_concat(first: Seq<char>, second: Seq<char>)
    requires
        tokenize_spec(first) is Ok,
        tokenize_spec(second) is Ok,
    ensures
        tokenize_spec(first + second) == Ok::<Seq<Lexemes>, TokenizationError>(
            tokenize_spec(first)->Ok_0 + tokenize_spec(second)->Ok_0,
        ),
    decreases second.len(),
{
    if second.len() == 0 {
        assert(first + second =~= first);
        assert(tokenize_spec(first)->Ok_0 + tokenize_spec(second)->Ok_0 =~= tokenize_spec(
            first,
        )->Ok_0);
    } else {
        assert((first + second).drop_last() =~= first + second.drop_last());
        assert((first + second).last() == second.last());
        lemma_tokenize_concat(first, second.drop_last());
        let head = tokenize_spec(second.drop_last())->Ok_0;
        let l = lexeme_of(second.last())->Some_0;
        assert(tokenize_spec(first)->Ok_0 + head.push(l) =~= (tokenize_spec(first)->Ok_0
            + head).push(l));
    }
}

/// One character of the alphabet is one symbol.
pub proof fn lemma_tokenize_one(c: char)
    requires
        lexeme_of(c) is Some,
    ensures
        tokenize_spec(seq![c]) == Ok::<Seq<Lexemes>, TokenizationError>(seq![lexeme_of(c)->Some_0]),
{
    assert(seq![c].drop_last() =~= Seq::<char>::empty());
    assert(tokenize_spec(seq![c].drop_last()) == Ok::<Seq<Lexemes>, TokenizationError>(
        Seq::empty(),
    ));
    assert(Seq::<Lexemes>::empty().push(lexeme_of(c)->Some_0) =~= seq![lexeme_of(c)->Some_0]);
}

/// The symbols of the characters that the printer writes are the symbols
/// of the printed formula.
pub proof fn lemma_tokenize_printed(f: Formula)
    requires
        f.well_formed(),
    ensures
        tokenize_spec(f.printed()) == Ok::<Seq<Lexemes>, TokenizationError>(f.printed_symbols()),
    decreases f,
{
    lemma_tokenize_one('(');
    lemma_tokenize_one(')');
    match f.shape() {
        Shape::Atom => {
            lemma_tokenize_one(f.atom_char());
        },
        Shape::Unary(g) => {
            let open = seq!['(', '¬'];
            lemma_tokenize_one('¬');
            lemma_tokenize_concat(seq!['('], seq!['¬']);
            assert(seq!['('] + seq!['¬'] =~= open);
            assert(seq![Lexemes::OpeningParenthesis] + seq![Lexemes::Not] =~= seq![
                Lexemes::OpeningParenthesis,
                Lexemes::Not,
            ]);
            lemma_tokenize_printed(g);
            lemma_tokenize_concat(open, g.printed());
            lemma_tokenize_concat(open + g.printed(), seq![')']);
        },
        Shape::Binary(op, l, r) => {
            lemma_tokenize_one(op.symbol());
            lemma_tokenize_printed(l);
            lemma_tokenize_printed(r);
            let left = seq!['('] + l.printed();
            lemma_tokenize_concat(seq!['('], l.printed());
            lemma_tokenize_concat(left, seq![op.symbol()]);
            lemma_tokenize_concat(left + seq![op.symbol()], r.printed());
            lemma_tokenize_concat((left + seq![op.symbol()]) + r.printed(), seq![')']);
        },
    }
}

/// Reading the symbols of a printed formula gives the formula back.
pub proof fn lemma_parse_printed_lexemes(f: Formula)
    ensures
        parse_lexemes(f.printed_symbols()) == Ok::<Formula, TokenizationError>(f),
{
    lemma_feed_printed(initial_parser(), f);
    let read = operand_read(initial_parser(), f);
    let stopped = Parser { regime: Regime::Stop, ..read };
    lemma_reduce_unfold(read);
    lemma_reduce_unfold(stopped);
    let last = Parser { regime: Regime::EndEat, ..stopped };
    lemma_reduce_unfold(last);
    lemma_reduce_unfold(Parser { regime: Regime::Stop, ..last });
    assert(read.formulas =~= seq![f]);
}

/// Reading what the printer wrote gives the formula back.
pub proof fn lemma_read_printed(f: Formula)
    requires
        f.well_formed(),
    ensures
        parse_formula(f.printed()) == Ok::<Formula, TokenizationError>(f),
{
    lemma_tokenize_printed(f);
    lemma_parse_printed_lexemes(f);
}

} // verus!
