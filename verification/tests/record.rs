use dnlib::formula::{Formula, TokenizationError};
use dnlib::justif::{Jusitification, ReadError};
use dnlib::record::{Record, RecordError, Statement};
use dnlib::text::ParseIntError;

#[test]
fn simple_simple_stmt() {
    let input = "1;2,3;A;EImpl 3 4";
    let r = Record::read_record(input);
    assert!(r.is_ok());
}

#[test]
fn simple_supposons_stmt() {
    let input = "1;2,3;Supposons A;EImpl 3 4";
    let r = Record::read_record(input);
    assert!(r.is_ok());
}

#[test]
fn simple_donc_stmt() {
    let input = "1;2,3;Donc A;EImpl 3 4";
    let r = Record::read_record(input);
    assert!(r.is_ok());
}

#[test]
fn too_much_to_read_v1() {
    let input = "1;2,3;Donc A;EImpl 3 4 ddddddd";
    let r = Record::read_record(input);
    assert!(r.is_err())
}

#[test]
fn too_much_to_read_v2() {
    let input = "1;2,3;Donc A;EImpl 3 4;ddddddd";
    let r = Record::read_record(input);
    assert!(r.is_err())
}

#[test]
fn simple() {
    let input = "1;2,3;Donc A;EImpl 3 4";
    let r = Record::read_record(input);
    println!("{:?}", r);
}

#[test]
fn five_fields_are_too_many() {
    assert_eq!(
        Record::read_record("1;2,3;Donc A;EImpl 3 4;extra"),
        Err(RecordError::TooMuch)
    );
    assert_eq!(
        Record::read_record("1;2,3;Donc A;EImpl 3 4;"),
        Err(RecordError::TooMuch)
    );
}

#[test]
fn a_word_too_many_is_an_invalid_justification() {
    assert_eq!(
        Record::read_record("1;2,3;Donc A;EImpl 3 4 ddddddd"),
        Err(RecordError::InvalidJustif(ReadError::InputTooLarge))
    );
}

#[test]
fn the_fields_of_a_record() {
    let r = Record::read_record("3;0,1;a∧b;IAnd 1 2").unwrap();
    assert_eq!(r.id, 3);
    assert_eq!(r.ctxt, vec![0, 1]);
    assert_eq!(
        r.stmt,
        Statement::Simple(Formula::And(
            Box::new(Formula::Variable('a')),
            Box::new(Formula::Variable('b'))
        ))
    );
    assert_eq!(r.justif, Jusitification::IAnd { left: 1, right: 2 });
}

#[test]
fn the_three_statements() {
    let a = Formula::Variable('A');
    let r = Record::read_record("1;2,3;A;EImpl 3 4").unwrap();
    assert_eq!(r.stmt, Statement::Simple(a.clone()));
    assert_eq!(*r.stmt.get_formula(), a);
    let r = Record::read_record("1;2,3;Supposons A;EImpl 3 4").unwrap();
    assert_eq!(r.stmt, Statement::Supposons(a.clone()));
    assert_eq!(*r.stmt.get_formula(), a);
    let r = Record::read_record("1;2,3;Donc A;EImpl 3 4").unwrap();
    assert_eq!(r.stmt, Statement::Donc(a.clone()));
    assert_eq!(*r.stmt.get_formula(), a);
}

#[test]
fn a_prefix_needs_its_space() {
    // Without the space the field is a formula of adjacent variables.
    assert_eq!(
        Record::read_record("0;;DoncA;Hyp"),
        Err(RecordError::InvalidFormula(
            TokenizationError::TooManyFormulas
        ))
    );
    assert_eq!(
        Record::read_record("0;;Donc ;Hyp"),
        Err(RecordError::InvalidFormula(
            TokenizationError::AFormulaIsMissing
        ))
    );
    assert_eq!(
        Record::read_record("0;;donc a;Hyp"),
        Err(RecordError::InvalidFormula(
            TokenizationError::InvalidCharacter(4, ' ')
        ))
    );
}

#[test]
fn contexts() {
    assert_eq!(
        Record::read_record("2;;Donc a⇒a;IImpl").unwrap().ctxt,
        Vec::<usize>::new()
    );
    assert_eq!(Record::read_record("2;7;a;Hyp").unwrap().ctxt, vec![7]);
    assert_eq!(
        Record::read_record("2;,1,,2,;a;Hyp").unwrap().ctxt,
        vec![1, 2]
    );
    assert_eq!(
        Record::read_record("2;+1,002;a;Hyp").unwrap().ctxt,
        vec![1, 2]
    );
    assert_eq!(
        Record::read_record("2;1,x;a;Hyp"),
        Err(RecordError::InvalidCtxt)
    );
    assert_eq!(
        Record::read_record("2;1 ,2;a;Hyp"),
        Err(RecordError::InvalidCtxt)
    );
    assert_eq!(
        Record::read_record("2;-1;a;Hyp"),
        Err(RecordError::InvalidCtxt)
    );
}

#[test]
fn ids() {
    assert_eq!(Record::read_record("0;;a;Hyp").unwrap().id, 0);
    assert_eq!(Record::read_record("+12;;a;Hyp").unwrap().id, 12);
    assert_eq!(Record::read_record("007;;a;Hyp").unwrap().id, 7);
    assert_eq!(
        Record::read_record(";;a;Hyp"),
        Err(RecordError::InvalidId)
    );
    assert_eq!(
        Record::read_record("x;;a;Hyp"),
        Err(RecordError::InvalidId)
    );
    assert_eq!(
        Record::read_record("-1;;a;Hyp"),
        Err(RecordError::InvalidId)
    );
    assert_eq!(
        Record::read_record(" 1;;a;Hyp"),
        Err(RecordError::InvalidId)
    );
    assert_eq!(
        Record::read_record("1 ;;a;Hyp"),
        Err(RecordError::InvalidId)
    );
    assert_eq!(
        Record::read_record("99999999999999999999999999999999999999999;;a;Hyp"),
        Err(RecordError::InvalidId)
    );
}

#[test]
fn largest_id() {
    let line = format!("{};;a;Hyp", usize::MAX);
    assert_eq!(Record::read_record(&line).unwrap().id, usize::MAX);
}

#[test]
fn missing_fields() {
    assert_eq!(Record::read_record("1"), Err(RecordError::MissingField));
    assert_eq!(Record::read_record("1;2"), Err(RecordError::MissingField));
    assert_eq!(
        Record::read_record("1;2;a"),
        Err(RecordError::MissingField)
    );
    assert_eq!(Record::read_record(""), Err(RecordError::InvalidId));
}

#[test]
fn the_first_faulty_field_decides() {
    assert_eq!(Record::read_record("x"), Err(RecordError::InvalidId));
    assert_eq!(
        Record::read_record("x;y;a∧;Foo;more"),
        Err(RecordError::InvalidId)
    );
    assert_eq!(
        Record::read_record("1;y;a∧;Foo;more"),
        Err(RecordError::InvalidCtxt)
    );
    assert_eq!(
        Record::read_record("1;2;a∧;Foo;more"),
        Err(RecordError::InvalidFormula(
            TokenizationError::OperatorWithoutRightHandside
        ))
    );
    assert_eq!(
        Record::read_record("1;2;a;Foo;more"),
        Err(RecordError::InvalidJustif(ReadError::UnknownRule))
    );
    assert_eq!(
        Record::read_record("1;2;a;Efq z;more"),
        Err(RecordError::InvalidJustif(
            ReadError::Invalid_In_Efq_Reference(ParseIntError::InvalidDigit)
        ))
    );
    assert_eq!(
        Record::read_record("1;2;a;Hyp;more"),
        Err(RecordError::TooMuch)
    );
}

#[test]
fn read_record_chars_agrees_with_read_record() {
    let line = "3;0,1;a∧b;IAnd 1 2";
    let chars: Vec<char> = line.chars().collect();
    assert_eq!(Record::read_record_chars(&chars), Record::read_record(line));
}
