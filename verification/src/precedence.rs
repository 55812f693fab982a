//! How the parser groups operands that are not in parentheses.
//!
//! The operands of these laws are printed formulas: atoms, or groups in
//! parentheses. Between them the operators stand bare, and the parser
//! decides by their priorities which one is applied first.

use crate::formula::{
    feed, finish, initial_parser, lemma_reduce_unfold, parse_formula, parse_lexemes, reduce,
    reduce_step, shift, tokenize_spec, Formula, Lexemes, Operators, ParseStackItem, ParseState,
    Parser, Priority, Regime, TokenizationError,
};
use crate::printer::{
    lemma_feed_concat, lemma_feed_one, lemma_feed_printed, lemma_tokenize_concat,
    lemma_tokenize_one, lemma_tokenize_printed, operand_read,
};
use vstd::prelude::*;

verus! {

/// The parser with the given stacks, at rest after an operand.
pub open spec fn after_operand(stack: Seq<ParseStackItem>, formulas: Seq<Formula>) -> Parser {
    Parser { stack, formulas, state: ParseState::Constant, regime: Regime::Stop }
}

/// The parser with the given stacks, at rest after an operator.
pub open spec fn after_operator(stack: Seq<ParseStackItem>, formulas: Seq<Formula>) -> Parser {
    Parser { stack, formulas, state: ParseState::Operator, regime: Regime::Stop }
}

/// The stack that holds the given operator alone.
pub open spec fn one(op: Operators) -> Seq<ParseStackItem> {
    seq![ParseStackItem::Operator(op)]
}

/// The stack that holds the given operators, the second above the first.
pub open spec fn two(below: Operators, above: Operators) -> Seq<ParseStackItem> {
    seq![ParseStackItem::Operator(below), ParseStackItem::Operator(above)]
}

/// The end of a line with one formula and no operator left gives that
/// formula.
pub proof fn lemma_finish_one(f: Formula)
    ensures
        finish(after_operand(Seq::empty(), seq![f])) == Ok::<
            Formula,
            TokenizationError,
        >(f),
{
    let last = Parser { regime: Regime::EndEat, ..after_operand(Seq::empty(), seq![f]) };
    lemma_reduce_unfold(last);
    lemma_reduce_unfold(Parser { regime: Regime::Stop, ..last });
}

/// The end of a line with one operator left applies it.
pub proof fn lemma_finish_with_operator(op: Operators, formulas: Seq<Formula>)
    requires
        formulas.len() == (if op.unary() {
            1int
        } else {
            2int
        }),
    ensures
        finish(after_operand(one(op), formulas)) == Ok::<
            Formula,
            TokenizationError,
        >(
            if op.unary() {
                Formula::Not(Box::new(formulas[0]))
            } else {
                op.node(formulas[0], formulas[1])
            },
        ),
{
    let last = Parser { regime: Regime::EndEat, ..after_operand(one(op), formulas) };
    lemma_reduce_unfold(last);
    let built = if op.unary() {
        Formula::Not(Box::new(formulas[0]))
    } else {
        op.node(formulas[0], formulas[1])
    };
    assert(one(op).drop_last() =~= Seq::<ParseStackItem>::empty());
    let applied = Parser {
        regime: Regime::EndEat,
        ..after_operand(Seq::empty(), seq![built])
    };
    if op.unary() {
        assert(formulas.drop_last().push(built) =~= seq![built]);
    } else {
        assert(formulas.drop_last().drop_last().push(built) =~= seq![built]);
    }
    assert(reduce_step(last) == Ok::<Parser, TokenizationError>(applied));
    lemma_finish_one(built);
}

/// The first operand of a line stays where it is.
pub proof fn lemma_first_operand_of_line(f: Formula)
    ensures
        feed(initial_parser(), f.printed_symbols()) == Ok::<Parser, TokenizationError>(
            after_operand(Seq::empty(), seq![f]),
        ),
{
    lemma_feed_printed(initial_parser(), f);
    let read = operand_read(initial_parser(), f);
    lemma_reduce_unfold(read);
    lemma_reduce_unfold(Parser { regime: Regime::Stop, ..read });
    assert(read.formulas =~= seq![f]);
}

/// An operator that comes first on the stack waits for its operand.
pub proof fn lemma_first_operator(formulas: Seq<Formula>, state: ParseState, op: Operators)
    requires
        state == ParseState::Constant || op.unary(),
    ensures
        reduce(
            shift(
                Parser { stack: Seq::empty(), formulas, state, regime: Regime::Stop },
                op.lexeme(),
            ),
        ) == Ok::<Parser, TokenizationError>(after_operator(one(op), formulas)),
{
    let shifted = shift(
        Parser { stack: Seq::empty(), formulas, state, regime: Regime::Stop },
        op.lexeme(),
    );
    assert(shifted.stack =~= one(op));
    lemma_reduce_unfold(shifted);
    lemma_reduce_unfold(Parser { regime: Regime::Stop, ..shifted });
}

/// A negation applies to the operand that follows it: `¬f` is read as the
/// negation of `f`.
pub proof fn lemma_negation_lexemes(f: Formula)
    ensures
        parse_lexemes(seq![Lexemes::Not] + f.printed_symbols()) == Ok::<
            Formula,
            TokenizationError,
        >(Formula::Not(Box::new(f))),
{
    let not = Operators::Not;
    let start = initial_parser();
    lemma_feed_one(start, Lexemes::Not);
    lemma_first_operator(Seq::empty(), ParseState::BeginingANewGroup, not);
    let waiting = after_operator(one(not), Seq::empty());
    lemma_feed_concat(start, seq![Lexemes::Not], f.printed_symbols());
    lemma_feed_printed(waiting, f);
    let read = operand_read(waiting, f);
    lemma_reduce_unfold(read);
    let negated = after_operand(Seq::empty(), seq![Formula::Not(Box::new(f))]);
    assert(read.formulas.drop_last().push(Formula::Not(Box::new(f))) =~= negated.formulas);
    assert(read.stack.drop_last() =~= negated.stack);
    lemma_reduce_unfold(negated);
    lemma_finish_one(Formula::Not(Box::new(f)));
}

/// A binary operator applies to the operands around it: `l∘r` is read as
/// `∘` applied to `l` and `r`.
pub proof fn lemma_binary_lexemes(op: Operators, l: Formula, r: Formula)
    requires
        !op.unary(),
    ensures
        parse_lexemes(l.printed_symbols() + seq![op.lexeme()] + r.printed_symbols()) == Ok::<
            Formula,
            TokenizationError,
        >(op.node(l, r)),
{
    let start = initial_parser();
    let sign = seq![op.lexeme()];
    lemma_first_operand_of_line(l);
    let after_l = after_operand(Seq::empty(), seq![l]);
    lemma_feed_concat(start, l.printed_symbols(), sign);
    lemma_feed_one(after_l, op.lexeme());
    lemma_first_operator(seq![l], ParseState::Constant, op);
    let waiting = after_operator(one(op), seq![l]);
    lemma_feed_concat(start, l.printed_symbols() + sign, r.printed_symbols());
    lemma_feed_printed(waiting, r);
    let read = operand_read(waiting, r);
    lemma_reduce_unfold(read);
    lemma_reduce_unfold(Parser { regime: Regime::Stop, ..read });
    assert(read.formulas =~= seq![l, r]);
    lemma_finish_with_operator(op, seq![l, r]);
}

/// Of two binary operators in a row, the one that binds tighter is applied
/// first; of two that bind as tightly, the left one, unless they group to
/// the right. `f∘g•h` is read as `f∘(g•h)` when `•` has priority over `∘`,
/// and as `(f∘g)•h` when it has not.
pub proof fn lemma_two_operators_lexemes(
    first: Operators,
    second: Operators,
    f: Formula,
    g: Formula,
    h: Formula,
)
    requires
        !first.unary(),
        !second.unary(),
    ensures
        parse_lexemes(
            f.printed_symbols() + seq![first.lexeme()] + g.printed_symbols() + seq![
                second.lexeme(),
            ] + h.printed_symbols(),
        ) == Ok::<Formula, TokenizationError>(
            match Operators::priority(first, second) {
                Priority::Less => first.node(f, second.node(g, h)),
                Priority::More => second.node(first.node(f, g), h),
            },
        ),
{
    let start = initial_parser();
    let s1 = seq![first.lexeme()];
    let s2 = seq![second.lexeme()];
    let upto_f = f.printed_symbols();
    let upto_1 = upto_f + s1;
    let upto_g = upto_1 + g.printed_symbols();
    let upto_2 = upto_g + s2;
    // f
    lemma_first_operand_of_line(f);
    let after_f = after_operand(Seq::empty(), seq![f]);
    // ∘
    lemma_feed_concat(start, upto_f, s1);
    lemma_feed_one(after_f, first.lexeme());
    lemma_first_operator(seq![f], ParseState::Constant, first);
    let after_1 = after_operator(one(first), seq![f]);
    assert(feed(start, upto_1) == Ok::<Parser, TokenizationError>(after_1));
    // g
    lemma_feed_concat(start, upto_1, g.printed_symbols());
    lemma_feed_printed(after_1, g);
    let read_g = operand_read(after_1, g);
    lemma_reduce_unfold(read_g);
    lemma_reduce_unfold(Parser { regime: Regime::Stop, ..read_g });
    assert(read_g.formulas =~= seq![f, g]);
    let after_g = after_operand(one(first), seq![f, g]);
    assert(feed(start, upto_g) == Ok::<Parser, TokenizationError>(after_g));
    // •
    lemma_feed_concat(start, upto_g, s2);
    lemma_feed_one(after_g, second.lexeme());
    let shifted = shift(after_g, second.lexeme());
    assert(shifted.stack =~= two(first, second));
    lemma_reduce_unfold(shifted);
    lemma_feed_concat(start, upto_2, h.printed_symbols());
    match Operators::priority(first, second) {
        Priority::Less => {
            let after_2 = after_operator(two(first, second), seq![f, g]);
            lemma_reduce_unfold(after_2);
            assert(feed(start, upto_2) == Ok::<Parser, TokenizationError>(after_2));
            // h
            lemma_feed_printed(after_2, h);
            let read_h = operand_read(after_2, h);
            lemma_reduce_unfold(read_h);
            assert(read_h.formulas =~= seq![f, g, h]);
            let inner = second.node(g, h);
            let applied = Parser {
                regime: Regime::Eat,
                ..after_operand(one(first), seq![f, inner])
            };
            assert(two(first, second).drop_last() =~= one(first));
            assert(read_h.formulas.drop_last().drop_last().push(inner) =~= seq![f, inner]);
            assert(reduce_step(read_h) == Ok::<Parser, TokenizationError>(
                applied,
            ));
            lemma_reduce_unfold(applied);
            lemma_reduce_unfold(Parser { regime: Regime::Stop, ..applied });
            lemma_finish_with_operator(first, seq![f, inner]);
        },
        Priority::More => {
            let inner = first.node(f, g);
            let swapped = Parser {
                regime: Regime::Eat,
                ..after_operator(one(second), seq![inner])
            };
            assert(two(first, second).drop_last().drop_last().push(
                ParseStackItem::Operator(second),
            ) =~= one(second));
            assert(seq![f, g].drop_last().drop_last().push(inner) =~= seq![inner]);
            assert(reduce_step(shifted) == Ok::<Parser, TokenizationError>(
                swapped,
            ));
            lemma_reduce_unfold(swapped);
            let after_2 = after_operator(one(second), seq![inner]);
            lemma_reduce_unfold(after_2);
            assert(feed(start, upto_2) == Ok::<Parser, TokenizationError>(after_2));
            // h
            lemma_feed_printed(after_2, h);
            let read_h = operand_read(after_2, h);
            lemma_reduce_unfold(read_h);
            lemma_reduce_unfold(Parser { regime: Regime::Stop, ..read_h });
            assert(read_h.formulas =~= seq![inner, h]);
            lemma_finish_with_operator(second, seq![inner, h]);
        },
    }
}

/// A negation binds tighter than the binary operator that follows it:
/// `¬f∘g` is read as `(¬f)∘g`.
pub proof fn lemma_negation_then_binary_lexemes(op: Operators, f: Formula, g: Formula)
    requires
        !op.unary(),
    ensures
        parse_lexemes(
            seq![Lexemes::Not] + f.printed_symbols() + seq![op.lexeme()] + g.printed_symbols(),
        ) == Ok::<Formula, TokenizationError>(op.node(Formula::Not(Box::new(f)), g)),
{
    let not = Operators::Not;
    let start = initial_parser();
    let negated = Formula::Not(Box::new(f));
    let upto_f = seq![Lexemes::Not] + f.printed_symbols();
    let upto_op = upto_f + seq![op.lexeme()];
    // ¬
    lemma_feed_one(start, Lexemes::Not);
    lemma_first_operator(Seq::empty(), ParseState::BeginingANewGroup, not);
    let waiting = after_operator(one(not), Seq::empty());
    // f
    lemma_feed_concat(start, seq![Lexemes::Not], f.printed_symbols());
    lemma_feed_printed(waiting, f);
    let read_f = operand_read(waiting, f);
    lemma_reduce_unfold(read_f);
    let after_f = after_operand(Seq::empty(), seq![negated]);
    assert(read_f.formulas.drop_last().push(negated) =~= after_f.formulas);
    assert(read_f.stack.drop_last() =~= after_f.stack);
    lemma_reduce_unfold(after_f);
    assert(feed(start, upto_f) == Ok::<Parser, TokenizationError>(after_f));
    // ∘
    lemma_feed_concat(start, upto_f, seq![op.lexeme()]);
    lemma_feed_one(after_f, op.lexeme());
    lemma_first_operator(seq![negated], ParseState::Constant, op);
    let after_op = after_operator(one(op), seq![negated]);
    assert(feed(start, upto_op) == Ok::<Parser, TokenizationError>(after_op));
    // g
    lemma_feed_concat(start, upto_op, g.printed_symbols());
    lemma_feed_printed(after_op, g);
    let read_g = operand_read(after_op, g);
    lemma_reduce_unfold(read_g);
    lemma_reduce_unfold(Parser { regime: Regime::Stop, ..read_g });
    assert(read_g.formulas =~= seq![negated, g]);
    lemma_finish_with_operator(op, seq![negated, g]);
}

/// A negation binds tighter than the binary operator that comes before it:
/// `f∘¬g` is read as `f∘(¬g)`.
pub proof fn lemma_binary_then_negation_lexemes(op: Operators, f: Formula, g: Formula)
    requires
        !op.unary(),
    ensures
        parse_lexemes(
            f.printed_symbols() + seq![op.lexeme()] + seq![Lexemes::Not] + g.printed_symbols(),
        ) == Ok::<Formula, TokenizationError>(op.node(f, Formula::Not(Box::new(g)))),
{
    let not = Operators::Not;
    let start = initial_parser();
    let negated = Formula::Not(Box::new(g));
    let upto_f = f.printed_symbols();
    let upto_op = upto_f + seq![op.lexeme()];
    let upto_not = upto_op + seq![Lexemes::Not];
    // f
    lemma_first_operand_of_line(f);
    let after_f = after_operand(Seq::empty(), seq![f]);
    // ∘
    lemma_feed_concat(start, upto_f, seq![op.lexeme()]);
    lemma_feed_one(after_f, op.lexeme());
    lemma_first_operator(seq![f], ParseState::Constant, op);
    let after_op = after_operator(one(op), seq![f]);
    assert(feed(start, upto_op) == Ok::<Parser, TokenizationError>(after_op));
    // ¬
    lemma_feed_concat(start, upto_op, seq![Lexemes::Not]);
    lemma_feed_one(after_op, Lexemes::Not);
    let shifted = shift(after_op, Lexemes::Not);
    assert(shifted.stack =~= two(op, not));
    lemma_reduce_unfold(shifted);
    let after_not = after_operator(two(op, not), seq![f]);
    lemma_reduce_unfold(after_not);
    assert(feed(start, upto_not) == Ok::<Parser, TokenizationError>(after_not));
    // g
    lemma_feed_concat(start, upto_not, g.printed_symbols());
    lemma_feed_printed(after_not, g);
    let read_g = operand_read(after_not, g);
    lemma_reduce_unfold(read_g);
    assert(read_g.formulas =~= seq![f, g]);
    let applied = Parser { regime: Regime::Eat, ..after_operand(one(op), seq![f, negated]) };
    assert(two(op, not).drop_last() =~= one(op));
    assert(read_g.formulas.drop_last().push(negated) =~= seq![f, negated]);
    assert(reduce_step(read_g) == Ok::<Parser, TokenizationError>(applied));
    lemma_reduce_unfold(applied);
    lemma_reduce_unfold(Parser { regime: Regime::Stop, ..applied });
    lemma_finish_with_operator(op, seq![f, negated]);
}

/// The line `l∘r`.
pub open spec fn infix(l: Seq<char>, op: Operators, r: Seq<char>) -> Seq<char> {
    l + seq![op.symbol()] + r
}

/// The symbols of `l∘r` are those of `l`, the operator, and those of `r`.
pub proof fn lemma_tokenize_infix(l: Seq<char>, op: Operators, r: Seq<char>)
    requires
        tokenize_spec(l) is Ok,
        tokenize_spec(r) is Ok,
    ensures
        tokenize_spec(infix(l, op, r)) == Ok::<Seq<Lexemes>, TokenizationError>(
            tokenize_spec(l)->Ok_0 + seq![op.lexeme()] + tokenize_spec(r)->Ok_0,
        ),
{
    lemma_tokenize_one(op.symbol());
    lemma_tokenize_concat(l, seq![op.symbol()]);
    lemma_tokenize_concat(l + seq![op.symbol()], r);
}

/// `¬f` is read as the negation of `f`.
pub proof fn lemma_negation(f: Formula)
    requires
        f.well_formed(),
    ensures
        parse_formula(seq!['¬'] + f.printed()) == Ok::<Formula, TokenizationError>(
            Formula::Not(Box::new(f)),
        ),
{
    lemma_tokenize_one('¬');
    lemma_tokenize_printed(f);
    lemma_tokenize_concat(seq!['¬'], f.printed());
    lemma_negation_lexemes(f);
}

/// `l∘r` is read as `∘` applied to `l` and `r`.
pub proof fn lemma_binary(op: Operators, l: Formula, r: Formula)
    requires
        !op.unary(),
        l.well_formed(),
        r.well_formed(),
    ensures
        parse_formula(infix(l.printed(), op, r.printed())) == Ok::<Formula, TokenizationError>(
            op.node(l, r),
        ),
{
    lemma_tokenize_printed(l);
    lemma_tokenize_printed(r);
    lemma_tokenize_infix(l.printed(), op, r.printed());
    lemma_binary_lexemes(op, l, r);
}

/// `f∘g•h` is read as `f∘(g•h)` when `•` has priority over `∘`: when it
/// binds tighter, or as tightly and to the right. Else it is read as
/// `(f∘g)•h`.
pub proof fn lemma_two_operators(
    first: Operators,
    second: Operators,
    f: Formula,
    g: Formula,
    h: Formula,
)
    requires
        !first.unary(),
        !second.unary(),
        f.well_formed(),
        g.well_formed(),
        h.well_formed(),
    ensures
        parse_formula(infix(infix(f.printed(), first, g.printed()), second, h.printed())) == Ok::<
            Formula,
            TokenizationError,
        >(
            match Operators::priority(first, second) {
                Priority::Less => first.node(f, second.node(g, h)),
                Priority::More => second.node(first.node(f, g), h),
            },
        ),
{
    lemma_tokenize_printed(f);
    lemma_tokenize_printed(g);
    lemma_tokenize_printed(h);
    lemma_tokenize_infix(f.printed(), first, g.printed());
    lemma_tokenize_infix(infix(f.printed(), first, g.printed()), second, h.printed());
    lemma_two_operators_lexemes(first, second, f, g, h);
}

/// `¬f∘g` is read as `(¬f)∘g`, and `f∘¬g` as `f∘(¬g)`: a negation binds
/// tighter than any binary operator next to it.
pub proof fn lemma_negation_binds_tighter(op: Operators, f: Formula, g: Formula)
    requires
        !op.unary(),
        f.well_formed(),
        g.well_formed(),
    ensures
        parse_formula(infix(seq!['¬'] + f.printed(), op, g.printed())) == Ok::<
            Formula,
            TokenizationError,
        >(op.node(Formula::Not(Box::new(f)), g)),
        parse_formula(infix(f.printed(), op, seq!['¬'] + g.printed())) == Ok::<
            Formula,
            TokenizationError,
        >(op.node(f, Formula::Not(Box::new(g)))),
{
    lemma_tokenize_one('¬');
    lemma_tokenize_printed(f);
    lemma_tokenize_printed(g);
    lemma_tokenize_concat(seq!['¬'], f.printed());
    lemma_tokenize_concat(seq!['¬'], g.printed());
    lemma_tokenize_infix(seq!['¬'] + f.printed(), op, g.printed());
    lemma_tokenize_infix(f.printed(), op, seq!['¬'] + g.printed());
    lemma_negation_then_binary_lexemes(op, f, g);
    lemma_binary_then_negation_lexemes(op, f, g);
    assert(f.printed_symbols() + seq![op.lexeme()] + (seq![Lexemes::Not] + g.printed_symbols())
        =~= f.printed_symbols() + seq![op.lexeme()] + seq![Lexemes::Not] + g.printed_symbols());
}

} // verus!
