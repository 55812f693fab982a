use dnlib::formula::Formula;

fn text(f: &Formula) -> String {
    f.print_chars().iter().collect()
}

fn var(c: char) -> Box<Formula> {
    Box::new(Formula::Variable(c))
}

#[test]
fn atoms_are_printed_bare() {
    assert_eq!(text(&Formula::Top), "⊤");
    assert_eq!(text(&Formula::Bottom), "⊥");
    assert_eq!(text(&Formula::Variable('q')), "q");
}

#[test]
fn compound_formulas_are_printed_in_parentheses() {
    assert_eq!(text(&Formula::Not(var('a'))), "(¬a)");
    assert_eq!(text(&Formula::Or(var('a'), var('b'))), "(a∨b)");
    assert_eq!(text(&Formula::And(var('a'), var('b'))), "(a∧b)");
    assert_eq!(text(&Formula::Implies(var('a'), var('b'))), "(a⇒b)");
    assert_eq!(text(&Formula::RLImplies(var('a'), var('b'))), "(a⇐b)");
    assert_eq!(text(&Formula::Equiv(var('a'), var('b'))), "(a⇔b)");
    assert_eq!(
        text(&Formula::Implies(
            Box::new(Formula::Not(Box::new(Formula::Not(var('a'))))),
            Box::new(Formula::And(var('b'), Box::new(Formula::Top)))
        )),
        "((¬(¬a))⇒(b∧⊤))"
    );
}

/// All the formulas of at most the given depth over two atoms.
fn formulas(depth: usize) -> Vec<Formula> {
    let mut all = vec![Formula::Bottom, Formula::Variable('a')];
    if depth == 0 {
        return all;
    }
    let smaller = formulas(depth - 1);
    for l in &smaller {
        all.push(Formula::Not(Box::new(l.clone())));
        for r in &smaller {
            let (l, r) = (Box::new(l.clone()), Box::new(r.clone()));
            all.push(Formula::Or(l.clone(), r.clone()));
            all.push(Formula::And(l.clone(), r.clone()));
            all.push(Formula::Implies(l.clone(), r.clone()));
            all.push(Formula::RLImplies(l.clone(), r.clone()));
            all.push(Formula::Equiv(l, r));
        }
    }
    all
}

#[test]
fn what_is_printed_is_read_back() {
    for f in formulas(2) {
        assert_eq!(Formula::read_chars(&f.print_chars()), Ok(f.clone()));
        assert_eq!(Formula::read(&text(&f)), Ok(f));
    }
}

#[test]
fn what_is_read_is_printed_with_its_grouping() {
    for (line, printed) in [
        ("a∧b∨c", "((a∧b)∨c)"),
        ("m⇒n⇒p", "(m⇒(n⇒p))"),
        ("j⇔k⇔l", "((j⇔k)⇔l)"),
        ("¬¬a", "(¬(¬a))"),
        ("c∧(a∨b)", "(c∧(a∨b))"),
        ("¬q∨¬¬¬r∧s⇔t∧b", "(((¬q)∨((¬(¬(¬r)))∧s))⇔(t∧b))"),
    ] {
        let f = Formula::read(line).unwrap();
        assert_eq!(text(&f), printed);
        assert_eq!(Formula::read(printed), Ok(f));
    }
}
