use dnlib::formula::{Formula, TokenizationError};

fn var(c: char) -> Box<Formula> {
    Box::new(Formula::Variable(c))
}

#[test]
fn tests_simple_formula() {
    let input = "c∧(a∨b)";
    let f = Formula::read(input).unwrap();
    assert_eq!(
        Formula::And(
            Box::new(Formula::Variable('c')),
            Box::new(Formula::Or(
                Box::new(Formula::Variable('a')),
                Box::new(Formula::Variable('b'))
            ))
        ),
        f
    );
}

#[test]
fn formula_simple_formula() {
    let input = "c∧(a∨b)";
    let f = Formula::read(input).unwrap();
    println!("{:?}", f);
}

#[test]
fn complex_formula() {
    let input = "¬(a)⇒(a∨b)⇒(¬q∨¬r∧s⇔t⇔d)";
    let f = Formula::read(input).unwrap();
    assert_eq!(
        Formula::Implies(
            Box::new(Formula::Not(Box::new(Formula::Variable('a')))),
            Box::new(Formula::Implies(
                Box::new(Formula::Or(
                    Box::new(Formula::Variable('a')),
                    Box::new(Formula::Variable('b'))
                )),
                Box::new(Formula::Equiv(
                    Box::new(Formula::Equiv(
                        Box::new(Formula::Or(
                            Box::new(Formula::Not(Box::new(Formula::Variable('q')))),
                            Box::new(Formula::And(
                                Box::new(Formula::Not(Box::new(Formula::Variable('r')))),
                                Box::new(Formula::Variable('s'))
                            ))
                        )),
                        Box::new(Formula::Variable('t'))
                    )),
                    Box::new(Formula::Variable('d')),
                ))
            ))
        ),
        f
    );
}

#[test]
fn single_variable() {
    let input = "a";
    let f = Formula::read(input).unwrap();
    assert_eq!(Formula::Variable('a'), f);
}

#[test]
fn simple_or() {
    let input = "b∨c";
    let f = Formula::read(input).unwrap();
    assert_eq!(
        Formula::Or(
            Box::new(Formula::Variable('b')),
            Box::new(Formula::Variable('c'))
        ),
        f
    );
}

#[test]
fn simple_and() {
    let input = "d∧e";
    let f = Formula::read(input).unwrap();
    assert_eq!(
        Formula::And(
            Box::new(Formula::Variable('d')),
            Box::new(Formula::Variable('e'))
        ),
        f
    );
}

#[test]
fn simple_implies() {
    let input = "f⇒g";
    let f = Formula::read(input).unwrap();
    assert_eq!(
        Formula::Implies(
            Box::new(Formula::Variable('f')),
            Box::new(Formula::Variable('g'))
        ),
        f
    );
}

#[test]
fn simple_rlimplies() {
    let input = "h⇐i";
    let f = Formula::read(input).unwrap();
    assert_eq!(
        Formula::RLImplies(
            Box::new(Formula::Variable('h')),
            Box::new(Formula::Variable('i'))
        ),
        f
    );
}

#[test]
fn simple_equiv() {
    let input = "j⇔k";
    let f = Formula::read(input).unwrap();
    assert_eq!(
        Formula::Equiv(
            Box::new(Formula::Variable('j')),
            Box::new(Formula::Variable('k'))
        ),
        f
    );
}

#[test]
fn simple_not() {
    let input = "¬l";
    let f = Formula::read(input).unwrap();
    assert_eq!(Formula::Not(Box::new(Formula::Variable('l'))), f);
}

#[test]
fn implies_right_associativity() {
    let input = "m⇒n⇒p";
    let f = Formula::read(input).unwrap();
    assert_eq!(
        Formula::Implies(
            Box::new(Formula::Variable('m')),
            Box::new(Formula::Implies(
                Box::new(Formula::Variable('n')),
                Box::new(Formula::Variable('p'))
            ))
        ),
        f
    );
}

#[test]
fn two_ops_left_is_more() {
    let input = "a∧b∨c";
    let f = Formula::read(input).unwrap();
    assert_eq!(
        Formula::Or(
            Box::new(Formula::And(
                Box::new(Formula::Variable('a')),
                Box::new(Formula::Variable('b')),
            )),
            Box::new(Formula::Variable('c')),
        ),
        f
    );
}

#[test]
fn parsing_priorities() {
    let input = "¬q∨¬¬¬r∧s⇔t∧b";
    let f = Formula::read(input).unwrap();
    assert_eq!(
        Formula::Equiv(
            Box::new(Formula::Or(
                Box::new(Formula::Not(Box::new(Formula::Variable('q')))),
                Box::new(Formula::And(
                    Box::new(Formula::Not(Box::new(Formula::Not(Box::new(
                        Formula::Not(Box::new(Formula::Variable('r')))
                    ))))),
                    Box::new(Formula::Variable('s'))
                ))
            )),
            Box::new(Formula::And(
                Box::new(Formula::Variable('t')),
                Box::new(Formula::Variable('b')),
            ))
        ),
        f
    );
}

#[test]
fn equiv_is_left_associative() {
    assert_eq!(
        Formula::read("j⇔k⇔l"),
        Ok(Formula::Equiv(
            Box::new(Formula::Equiv(var('j'), var('k'))),
            var('l')
        ))
    );
}

#[test]
fn rlimplies_is_left_associative() {
    assert_eq!(
        Formula::read("a⇐b⇐c"),
        Ok(Formula::RLImplies(
            Box::new(Formula::RLImplies(var('a'), var('b'))),
            var('c')
        ))
    );
}

#[test]
fn double_negation() {
    assert_eq!(
        Formula::read("¬¬a"),
        Ok(Formula::Not(Box::new(Formula::Not(var('a')))))
    );
}

#[test]
fn constants() {
    assert_eq!(Formula::read("⊤"), Ok(Formula::Top));
    assert_eq!(Formula::read("⊥"), Ok(Formula::Bottom));
    assert_eq!(
        Formula::read("⊤⇒⊥"),
        Ok(Formula::Implies(
            Box::new(Formula::Top),
            Box::new(Formula::Bottom)
        ))
    );
}

#[test]
fn upper_case_variables() {
    assert_eq!(Formula::read("Z"), Ok(Formula::Variable('Z')));
    assert_eq!(
        Formula::read("A∧z"),
        Ok(Formula::And(var('A'), var('z')))
    );
}

#[test]
fn negation_binds_tighter_than_and() {
    assert_eq!(
        Formula::read("¬a∧b"),
        Ok(Formula::And(Box::new(Formula::Not(var('a'))), var('b')))
    );
}

#[test]
fn parenthesised_group_is_one_operand() {
    assert_eq!(
        Formula::read("(a∨b)∧c"),
        Ok(Formula::And(
            Box::new(Formula::Or(var('a'), var('b'))),
            var('c')
        ))
    );
    assert_eq!(
        Formula::read("¬(a∨b)"),
        Ok(Formula::Not(Box::new(Formula::Or(var('a'), var('b')))))
    );
    assert_eq!(Formula::read("((a))"), Ok(Formula::Variable('a')));
}

#[test]
fn operand_is_reduced_with_the_operator_on_top() {
    // Once `c` is read, `∨` is on top of `⇒` and takes it as its right operand.
    assert_eq!(
        Formula::read("a⇒b∨c∧d"),
        Ok(Formula::Implies(
            var('a'),
            Box::new(Formula::And(
                Box::new(Formula::Or(var('b'), var('c'))),
                var('d')
            ))
        ))
    );
}

#[test]
fn invalid_character_is_reported_with_its_position() {
    assert_eq!(
        Formula::read("a∧1"),
        Err(TokenizationError::InvalidCharacter(2, '1'))
    );
    assert_eq!(
        Formula::read(" a"),
        Err(TokenizationError::InvalidCharacter(0, ' '))
    );
    assert_eq!(
        Formula::read("a∧b c d"),
        Err(TokenizationError::InvalidCharacter(3, ' '))
    );
    assert_eq!(
        Formula::read("é"),
        Err(TokenizationError::InvalidCharacter(0, 'é'))
    );
}

#[test]
fn empty_input_misses_a_formula() {
    assert_eq!(
        Formula::read(""),
        Err(TokenizationError::AFormulaIsMissing)
    );
}

#[test]
fn empty_parenthesis() {
    assert_eq!(Formula::read("()"), Err(TokenizationError::EmptyParenthesis));
    assert_eq!(
        Formula::read("a∧()"),
        Err(TokenizationError::EmptyParenthesis)
    );
    assert_eq!(Formula::read("("), Err(TokenizationError::EmptyParenthesis));
}

#[test]
fn operator_without_right_hand_side() {
    assert_eq!(
        Formula::read("a∧"),
        Err(TokenizationError::OperatorWithoutRightHandside)
    );
    assert_eq!(
        Formula::read("¬"),
        Err(TokenizationError::OperatorWithoutRightHandside)
    );
    assert_eq!(
        Formula::read("(a∨)"),
        Err(TokenizationError::OperatorWithoutRightHandside)
    );
    assert_eq!(
        Formula::read("(¬)"),
        Err(TokenizationError::OperatorWithoutRightHandside)
    );
}

#[test]
fn binary_operator_without_left_operand() {
    assert_eq!(
        Formula::read("∧a"),
        Err(TokenizationError::AFormulaIsMissing)
    );
    assert_eq!(
        Formula::read("(⇒a)"),
        Err(TokenizationError::AFormulaIsMissing)
    );
}

#[test]
fn too_many_formulas() {
    assert_eq!(Formula::read("ab"), Err(TokenizationError::TooManyFormulas));
    assert_eq!(
        Formula::read("a¬b"),
        Err(TokenizationError::TooManyFormulas)
    );
    assert_eq!(
        Formula::read("(a)(b)"),
        Err(TokenizationError::TooManyFormulas)
    );
}

#[test]
fn unmatched_parentheses() {
    assert_eq!(
        Formula::read("a)"),
        Err(TokenizationError::UnmatchedClosingParenthesis)
    );
    assert_eq!(
        Formula::read("a∧b)"),
        Err(TokenizationError::UnmatchedClosingParenthesis)
    );
    assert_eq!(
        Formula::read("(a"),
        Err(TokenizationError::UnmatchedOpeningParenthesis)
    );
    assert_eq!(
        Formula::read("(a∧b"),
        Err(TokenizationError::UnmatchedOpeningParenthesis)
    );
}

#[test]
fn formula_from_chars_agrees_with_read() {
    let line = "¬q∨¬¬¬r∧s⇔t∧b";
    let chars: Vec<char> = line.chars().collect();
    assert_eq!(Formula::read_chars(&chars), Formula::read(line));
    let bad: Vec<char> = "a∧".chars().collect();
    assert_eq!(Formula::read_chars(&bad), Formula::read("a∧"));
}

#[test]
fn clone_and_equality_are_structural() {
    let f = Formula::read("¬(a)⇒(a∨b)⇒(¬q∨¬r∧s⇔t⇔d)").unwrap();
    let g = f.clone();
    assert_eq!(f, g);
    assert_ne!(f, Formula::read("a").unwrap());
    assert_ne!(
        Formula::read("a∧b").unwrap(),
        Formula::read("a∨b").unwrap()
    );
    assert_ne!(
        Formula::read("a∧b").unwrap(),
        Formula::read("b∧a").unwrap()
    );
    assert_eq!(
        Formula::read("a∧b").unwrap(),
        Formula::read("(a)∧(b)").unwrap()
    );
}

/// All the lines of the given length over a few characters of each kind.
fn lines(length: usize) -> Vec<String> {
    let alphabet = ['a', '⊥', '¬', '∧', '⇒', '⇔', '(', ')'];
    let mut all = vec![String::new()];
    for _ in 0..length {
        let mut longer = Vec::new();
        for line in &all {
            for c in alphabet {
                let mut next = line.clone();
                next.push(c);
                longer.push(next);
            }
        }
        all = longer;
    }
    all
}

fn only_letters(f: &Formula) -> bool {
    match f {
        Formula::Top | Formula::Bottom => true,
        Formula::Variable(c) => c.is_ascii_alphabetic(),
        Formula::Not(g) => only_letters(g),
        Formula::Or(l, r)
        | Formula::And(l, r)
        | Formula::Implies(l, r)
        | Formula::RLImplies(l, r)
        | Formula::Equiv(l, r) => only_letters(l) && only_letters(r),
    }
}

#[test]
fn every_line_is_read_to_a_formula_or_to_a_fault_of_the_line() {
    let mut formulas = 0;
    for length in 0..=5 {
        for line in lines(length) {
            match Formula::read(&line) {
                Ok(f) => {
                    formulas += 1;
                    assert!(only_letters(&f), "{:?}", line);
                    assert_eq!(Formula::read_chars(&f.print_chars()), Ok(f));
                }
                Err(e) => assert!(
                    matches!(
                        e,
                        TokenizationError::UnmatchedClosingParenthesis
                            | TokenizationError::UnmatchedOpeningParenthesis
                            | TokenizationError::AFormulaIsMissing
                            | TokenizationError::TooManyFormulas
                            | TokenizationError::EmptyParenthesis
                            | TokenizationError::OperatorWithoutRightHandside
                    ),
                    "{:?}: {:?}",
                    line,
                    e
                ),
            }
        }
    }
    assert!(formulas > 0);
}

#[test]
fn two_operators_in_a_row() {
    let operators = [
        ('∨', 3, false),
        ('∧', 4, false),
        ('⇒', 2, true),
        ('⇐', 1, false),
        ('⇔', 0, false),
    ];
    for (first, tightness, to_the_right) in operators {
        for (second, other, _) in operators {
            let bare = format!("a{}b{}c", first, second);
            let grouped = if other > tightness || (first == second && to_the_right) {
                format!("a{}(b{}c)", first, second)
            } else {
                format!("(a{}b){}c", first, second)
            };
            assert_eq!(Formula::read(&bare), Formula::read(&grouped), "{}", bare);
            assert!(Formula::read(&bare).is_ok());
        }
    }
}
