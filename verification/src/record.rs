//! Records: the lines of a proof.
//!
//! A record is written `id;ctxt;stmt;justif`: its position in the proof, the
//! positions of the hypotheses under which it stands, its statement and the
//! rule that justifies it.

use crate::formula::{parse_formula, Formula, TokenizationError};
use crate::justif::{parse_justification, Jusitification, ReadError as JusitifReadError};
use crate::text::{
    chars_of, fields_view, lemma_fields_view, parse_usize, parse_usize_spec, split, split_spec,
    starts_with,
};
use vstd::prelude::*;
use vstd::slice::slice_subrange;

verus! {

/// Why a line is not a record.
#[derive(Debug, PartialEq)]
pub enum RecordError {
    /// A field is missing.
    MissingField,
    /// The id field is not a number.
    InvalidId,
    /// An entry of the ctxt field is not a number.
    InvalidCtxt,
    /// There are more than four fields.
    TooMuch,
    /// The statement's formula does not parse.
    InvalidFormula(TokenizationError),
    /// The justification does not parse.
    InvalidJustif(JusitifReadError),
}

/// What a record states, and how: as a new hypothesis, as the implication
/// that discharges the latest hypothesis, or as a plain consequence.
#[derive(Debug, PartialEq)]
pub enum Statement {
    Supposons(Formula),
    Donc(Formula),
    Simple(Formula),
}

/// One line of a proof.
#[derive(Debug, PartialEq)]
pub struct Record {
    /// The position that the record claims to have in the proof.
    pub id: usize,
    /// The positions of the open hypotheses, the innermost last.
    pub ctxt: Vec<usize>,
    pub stmt: Statement,
    pub justif: Jusitification,
}

/// A record as a mathematical value.
pub struct RecordView {
    pub id: usize,
    pub ctxt: Seq<usize>,
    pub stmt: Statement,
    pub justif: Jusitification,
}

impl View for Record {
    type V = RecordView;

    open spec fn view(&self) -> RecordView {
        RecordView { id: self.id, ctxt: self.ctxt@, stmt: self.stmt, justif: self.justif }
    }
}

impl Statement {
    /// The formula that the statement is about.
    pub open spec fn formula(self) -> Formula {
        match self {
            Statement::Supposons(f) => f,
            Statement::Donc(f) => f,
            Statement::Simple(f) => f,
        }
    }

    /// The formula that the statement is about.
    pub fn get_formula(&self) -> (f: &Formula)
        ensures
            *f == self.formula(),
    {
        match self {
            Statement::Supposons(formula) => formula,
            Statement::Donc(formula) => formula,
            Statement::Simple(formula) => formula,
        }
    }
}

/// The id that a field denotes.
pub open spec fn parse_id(s: Seq<char>) -> Result<usize, RecordError> {
    match parse_usize_spec(s) {
        Ok(id) => Ok(id),
        Err(_) => Err(RecordError::InvalidId),
    }
}

/// The positions that the entries of a context denote. Empty entries are
/// skipped; every other entry must be a number.
pub open spec fn parse_entries(entries: Seq<Seq<char>>) -> Result<Seq<usize>, RecordError>
    decreases entries.len(),
{
    if entries.len() == 0 {
        Ok(Seq::empty())
    } else {
        match parse_entries(entries.drop_last()) {
            Err(e) => Err(e),
            Ok(before) => if entries.last().len() == 0 {
                Ok(before)
            } else {
                match parse_usize_spec(entries.last()) {
                    Ok(position) => Ok(before.push(position)),
                    Err(_) => Err(RecordError::InvalidCtxt),
                }
            },
        }
    }
}

/// The context that a field denotes: its entries are separated by commas.
pub open spec fn parse_ctxt(s: Seq<char>) -> Result<Seq<usize>, RecordError> {
    parse_entries(split_spec(s, ','))
}

/// The formula of a statement, or the reason why it does not parse.
pub open spec fn parse_stmt_formula(s: Seq<char>) -> Result<Formula, RecordError> {
    match parse_formula(s) {
        Ok(f) => Ok(f),
        Err(e) => Err(RecordError::InvalidFormula(e)),
    }
}

/// The statement that a field denotes: `Donc ` announces a discharge,
/// `Supposons ` a hypothesis, and the formula follows; without either the
/// whole field is the formula of a plain statement.
pub open spec fn parse_stmt(s: Seq<char>) -> Result<Statement, RecordError> {
    if "Donc "@.is_prefix_of(s) {
        match parse_stmt_formula(s.skip("Donc "@.len() as int)) {
            Ok(f) => Ok(Statement::Donc(f)),
            Err(e) => Err(e),
        }
    } else if "Supposons "@.is_prefix_of(s) {
        match parse_stmt_formula(s.skip("Supposons "@.len() as int)) {
            Ok(f) => Ok(Statement::Supposons(f)),
            Err(e) => Err(e),
        }
    } else {
        match parse_stmt_formula(s) {
            Ok(f) => Ok(Statement::Simple(f)),
            Err(e) => Err(e),
        }
    }
}

/// The justification that a field denotes.
pub open spec fn parse_justif(s: Seq<char>) -> Result<Jusitification, RecordError> {
    match parse_justification(s) {
        Ok(j) => Ok(j),
        Err(e) => Err(RecordError::InvalidJustif(e)),
    }
}

/// The record that the fields of a line denote. The fields are read from
/// left to right, and the first one that is missing or does not parse
/// decides the error; a fifth field is an error once the four are read.
pub open spec fn parse_fields(fields: Seq<Seq<char>>) -> Result<RecordView, RecordError> {
    if fields.len() < 1 {
        Err(RecordError::MissingField)
    } else {
        match parse_id(fields[0]) {
            Err(e) => Err(e),
            Ok(id) => if fields.len() < 2 {
                Err(RecordError::MissingField)
            } else {
                match parse_ctxt(fields[1]) {
                    Err(e) => Err(e),
                    Ok(ctxt) => if fields.len() < 3 {
                        Err(RecordError::MissingField)
                    } else {
                        match parse_stmt(fields[2]) {
                            Err(e) => Err(e),
                            Ok(stmt) => if fields.len() < 4 {
                                Err(RecordError::MissingField)
                            } else {
                                match parse_justif(fields[3]) {
                                    Err(e) => Err(e),
                                    Ok(justif) => if fields.len() > 4 {
                                        Err(RecordError::TooMuch)
                                    } else {
                                        Ok(RecordView { id, ctxt, stmt, justif })
                                    },
                                }
                            },
                        }
                    },
                }
            },
        }
    }
}

/// The record that a line denotes: its fields are separated by semicolons.
pub open spec fn parse_record(s: Seq<char>) -> Result<RecordView, RecordError> {
    parse_fields(split_spec(s, ';'))
}

/// Whether reading a line gave what the line denotes.
pub open spec fn record_read_as(
    r: Result<Record, RecordError>,
    expected: Result<RecordView, RecordError>,
) -> bool {
    match expected {
        Ok(v) => r matches Ok(record) && record@ == v,
        Err(e) => r matches Err(f) && f == e,
    }
}

/// Once an entry of a context is not a number, the entries that follow do
/// not matter.
pub proof fn lemma_parse_entries_fault(entries: Seq<Seq<char>>, n: int)
    requires
        0 <= n <= entries.len(),
        parse_entries(entries.take(n)) is Err,
    ensures
        parse_entries(entries) == parse_entries(entries.take(n)),
    decreases entries.len() - n,
{
    if n < entries.len() {
        assert(entries.take(n + 1).drop_last() == entries.take(n));
        lemma_parse_entries_fault(entries, n + 1);
    } else {
        assert(entries.take(n) == entries);
    }
}

impl Record {
    /// Reads a record from a string.
    pub fn read_record(input: &str) -> (r: Result<Self, RecordError>)
        ensures
            record_read_as(r, parse_record(input@)),
    {
        let chars = chars_of(input);
        Self::read_record_chars(chars.as_slice())
    }

    /// Reads a record from the characters of a line.
    pub fn read_record_chars(input: &[char]) -> (r: Result<Self, RecordError>)
        ensures
            record_read_as(r, parse_record(input@)),
    {
        let fields = split(input, ';');
        proof {
            lemma_fields_view(fields@);
        }
        let id = Self::read_id(fields[0].as_slice())?;
        if fields.len() < 2 {
            return Err(RecordError::MissingField);
        }
        let ctxt = Self::read_ctxt(fields[1].as_slice())?;
        if fields.len() < 3 {
            return Err(RecordError::MissingField);
        }
        let stmt = Self::read_stmt(fields[2].as_slice())?;
        if fields.len() < 4 {
            return Err(RecordError::MissingField);
        }
        let justif = Self::read_justif(fields[3].as_slice())?;
        if fields.len() > 4 {
            Err(RecordError::TooMuch)
        } else {
            Ok(Self { id, ctxt, stmt, justif })
        }
    }

    /// Reads the id of the record.
    fn read_id(input: &[char]) -> (r: Result<usize, RecordError>)
        ensures
            r == parse_id(input@),
    {
        match parse_usize(input) {
            Ok(id) => Ok(id),
            Err(_) => Err(RecordError::InvalidId),
        }
    }

    /// Reads the context of the record.
    fn read_ctxt(input: &[char]) -> (r: Result<Vec<usize>, RecordError>)
        ensures
            match parse_ctxt(input@) {
                Ok(ctxt) => r matches Ok(v) && v@ == ctxt,
                Err(e) => r matches Err(f) && f == e,
            },
    {
        let entries = split(input, ',');
        let mut ctxt: Vec<usize> = Vec::new();
        let n: usize = entries.len();
        let mut i: usize = 0;
        proof {
            lemma_fields_view(entries@);
            assert(fields_view(entries@).take(0) =~= Seq::<Seq<char>>::empty());
        }
        while i < n
            invariant
                i <= n,
                n == entries@.len(),
                fields_view(entries@) == split_spec(input@, ','),
                parse_entries(fields_view(entries@).take(i as int)) == Ok::<
                    Seq<usize>,
                    RecordError,
                >(ctxt@),
            decreases n - i,
        {
            proof {
                lemma_fields_view(entries@);
                let upto = fields_view(entries@).take(i + 1);
                assert(upto.drop_last() == fields_view(entries@).take(i as int));
                assert(upto.last() == entries@[i as int]@);
            }
            if entries[i].len() != 0 {
                match parse_usize(entries[i].as_slice()) {
                    Ok(position) => {
                        ctxt.push(position);
                    },
                    Err(_) => {
                        proof {
                            lemma_parse_entries_fault(fields_view(entries@), i + 1);
                        }
                        return Err(RecordError::InvalidCtxt);
                    },
                }
            }
            i = i + 1;
        }
        proof {
            lemma_fields_view(entries@);
            assert(fields_view(entries@).take(n as int) == fields_view(entries@));
        }
        Ok(ctxt)
    }

    /// Reads a statement.
    fn read_stmt(input: &[char]) -> (r: Result<Statement, RecordError>)
        ensures
            r == parse_stmt(input@),
    {
        let donc = chars_of("Donc ");
        let supposons = chars_of("Supposons ");
        if starts_with(input, donc.as_slice()) {
            let rest = slice_subrange(input, donc.len(), input.len());
            match Formula::read_chars(rest) {
                Ok(f) => Ok(Statement::Donc(f)),
                Err(e) => Err(RecordError::InvalidFormula(e)),
            }
        } else if starts_with(input, supposons.as_slice()) {
            let rest = slice_subrange(input, supposons.len(), input.len());
            match Formula::read_chars(rest) {
                Ok(f) => Ok(Statement::Supposons(f)),
                Err(e) => Err(RecordError::InvalidFormula(e)),
            }
        } else {
            match Formula::read_chars(input) {
                Ok(f) => Ok(Statement::Simple(f)),
                Err(e) => Err(RecordError::InvalidFormula(e)),
            }
        }
    }

    /// Reads the justification.
    fn read_justif(input: &[char]) -> (r: Result<Jusitification, RecordError>)
        ensures
            r == parse_justif(input@),
    {
        match Jusitification::read_chars(input) {
            Ok(j) => Ok(j),
            Err(e) => Err(RecordError::InvalidJustif(e)),
        }
    }
}

} // verus!
