//! Justifications: the inference rule that a record claims, with the
//! records and formulas that the rule is applied to.
//!
//! A justification is written as the rule's name followed by its arguments,
//! each after one space.

use crate::formula::{parse_formula, Formula, TokenizationError};
use crate::text::{
    chars_of, fields_view, lemma_fields_view, parse_usize, parse_usize_spec, same_chars, split,
    split_spec, ParseIntError,
};
use vstd::prelude::*;

verus! {

/// Why a line is not a justification.
#[allow(non_camel_case_types)]
#[derive(Debug, PartialEq)]
pub enum ReadError {
    /// Kept for callers that match on it: a line always has a first word,
    /// be it empty, so the reader reports `UnknownRule` instead.
    InputEmpty,
    UnknownRule,
    InputTooLarge,
    Missing_In_IOrL_LeftPos,
    Invalid_In_IOrL_LeftPos(ParseIntError),
    Missing_In_IOrL_Formula,
    Invalid_In_IOrL_Formula(TokenizationError),
    Missing_In_IOrR_RightPos,
    Invalid_In_IOrR_RightPos(ParseIntError),
    Missing_In_IOrR_Formula,
    Invalid_In_IOrR_Formula(TokenizationError),
    Missing_In_EOr_A_to_C,
    Invalid_In_EOr_A_to_C(ParseIntError),
    Missing_In_EOr_B_to_C,
    Invalid_In_EOr_B_to_C(ParseIntError),
    Missing_In_EOr_A_or_B,
    Invalid_In_EOr_A_or_B(ParseIntError),
    Missing_In_IAnd_Left,
    Invalid_In_IAnd_Left(ParseIntError),
    Missing_In_IAnd_Right,
    Invalid_In_IAnd_Right(ParseIntError),
    Missing_In_EAndL_Reference,
    Invalid_In_EAndL_Reference(ParseIntError),
    Missing_In_EAndR_Reference,
    Invalid_In_EAndR_Reference(ParseIntError),
    Missing_In_EImpl_Hyp,
    Invalid_In_EImpl_Hyp(ParseIntError),
    Missing_In_EImpl_Implication,
    Invalid_In_EImpl_Implication(ParseIntError),
    Missing_In_Efq_Reference,
    Invalid_In_Efq_Reference(ParseIntError),
    Missing_In_Raa_Reference,
    Invalid_In_Raa_Reference(ParseIntError),
}

/// An inference rule of natural deduction, applied to records given by their
/// position and to formulas.
#[derive(Debug, PartialEq)]
pub enum Jusitification {
    /// Introduction of `∨`, the new formula on the left.
    IOrL(usize, Formula),
    /// Introduction of `∨`, the new formula on the right.
    IOrR(usize, Formula),
    /// Elimination of `∨`.
    EOr { a_to_c: usize, b_to_c: usize, a_or_b: usize },
    /// Introduction of `∧`.
    IAnd { left: usize, right: usize },
    /// Elimination of `∧`, keeping the left conjunct.
    EAndL(usize),
    /// Elimination of `∧`, keeping the right conjunct.
    EAndR(usize),
    /// A new hypothesis.
    Hyp,
    /// Introduction of `⇒`.
    IImpl,
    /// Elimination of `⇒`.
    EImpl { hyp: usize, implication: usize },
    /// Ex falso quodlibet.
    Efq(usize),
    /// Reductio ad absurdum.
    Raa(usize),
}

/// The word at place `k` read as a position, if there is such a word.
pub open spec fn position_at(words: Seq<Seq<char>>, k: int) -> Option<
    Result<usize, ParseIntError>,
> {
    if 0 <= k < words.len() {
        Some(parse_usize_spec(words[k]))
    } else {
        None
    }
}

/// The word at place `k` read as a formula, if there is such a word.
pub open spec fn formula_at(words: Seq<Seq<char>>, k: int) -> Option<
    Result<Formula, TokenizationError>,
> {
    if 0 <= k < words.len() {
        Some(parse_formula(words[k]))
    } else {
        None
    }
}

/// `IOrL p f`: the position of the right disjunct, then the new left disjunct.
pub open spec fn iorl_spec(words: Seq<Seq<char>>) -> Result<Jusitification, ReadError> {
    match position_at(words, 1) {
        None => Err(ReadError::Missing_In_IOrL_LeftPos),
        Some(Err(e)) => Err(ReadError::Invalid_In_IOrL_LeftPos(e)),
        Some(Ok(right_pos)) => match formula_at(words, 2) {
            None => Err(ReadError::Missing_In_IOrL_Formula),
            Some(Err(e)) => Err(ReadError::Invalid_In_IOrL_Formula(e)),
            Some(Ok(left_formula)) => Ok(Jusitification::IOrL(right_pos, left_formula)),
        },
    }
}

/// `IOrR p f`: the position of the left disjunct, then the new right disjunct.
pub open spec fn iorr_spec(words: Seq<Seq<char>>) -> Result<Jusitification, ReadError> {
    match position_at(words, 1) {
        None => Err(ReadError::Missing_In_IOrR_RightPos),
        Some(Err(e)) => Err(ReadError::Invalid_In_IOrR_RightPos(e)),
        Some(Ok(left_pos)) => match formula_at(words, 2) {
            None => Err(ReadError::Missing_In_IOrR_Formula),
            Some(Err(e)) => Err(ReadError::Invalid_In_IOrR_Formula(e)),
            Some(Ok(right_formula)) => Ok(Jusitification::IOrR(left_pos, right_formula)),
        },
    }
}

/// `EOr p q r`: the positions of `a⇒c`, of `b⇒c` and of `a∨b`.
pub open spec fn eor_spec(words: Seq<Seq<char>>) -> Result<Jusitification, ReadError> {
    match position_at(words, 1) {
        None => Err(ReadError::Missing_In_EOr_A_to_C),
        Some(Err(e)) => Err(ReadError::Invalid_In_EOr_A_to_C(e)),
        Some(Ok(a_to_c)) => match position_at(words, 2) {
            None => Err(ReadError::Missing_In_EOr_B_to_C),
            Some(Err(e)) => Err(ReadError::Invalid_In_EOr_B_to_C(e)),
            Some(Ok(b_to_c)) => match position_at(words, 3) {
                None => Err(ReadError::Missing_In_EOr_A_or_B),
                Some(Err(e)) => Err(ReadError::Invalid_In_EOr_A_or_B(e)),
                Some(Ok(a_or_b)) => Ok(Jusitification::EOr { a_to_c, b_to_c, a_or_b }),
            },
        },
    }
}

/// `IAnd p q`: the positions of the left and of the right conjunct.
pub open spec fn iand_spec(words: Seq<Seq<char>>) -> Result<Jusitification, ReadError> {
    match position_at(words, 1) {
        None => Err(ReadError::Missing_In_IAnd_Left),
        Some(Err(e)) => Err(ReadError::Invalid_In_IAnd_Left(e)),
        Some(Ok(left)) => match position_at(words, 2) {
            None => Err(ReadError::Missing_In_IAnd_Right),
            Some(Err(e)) => Err(ReadError::Invalid_In_IAnd_Right(e)),
            Some(Ok(right)) => Ok(Jusitification::IAnd { left, right }),
        },
    }
}

/// `EAndL p`: the position of the conjunction.
pub open spec fn eandl_spec(words: Seq<Seq<char>>) -> Result<Jusitification, ReadError> {
    match position_at(words, 1) {
        None => Err(ReadError::Missing_In_EAndL_Reference),
        Some(Err(e)) => Err(ReadError::Invalid_In_EAndL_Reference(e)),
        Some(Ok(reference)) => Ok(Jusitification::EAndL(reference)),
    }
}

/// `EAndR p`: the position of the conjunction.
pub open spec fn eandr_spec(words: Seq<Seq<char>>) -> Result<Jusitification, ReadError> {
    match position_at(words, 1) {
        None => Err(ReadError::Missing_In_EAndR_Reference),
        Some(Err(e)) => Err(ReadError::Invalid_In_EAndR_Reference(e)),
        Some(Ok(reference)) => Ok(Jusitification::EAndR(reference)),
    }
}

/// `EImpl p q`: the positions of the hypothesis and of the implication.
pub open spec fn eimpl_spec(words: Seq<Seq<char>>) -> Result<Jusitification, ReadError> {
    match position_at(words, 1) {
        None => Err(ReadError::Missing_In_EImpl_Hyp),
        Some(Err(e)) => Err(ReadError::Invalid_In_EImpl_Hyp(e)),
        Some(Ok(hyp)) => match position_at(words, 2) {
            None => Err(ReadError::Missing_In_EImpl_Implication),
            Some(Err(e)) => Err(ReadError::Invalid_In_EImpl_Implication(e)),
            Some(Ok(implication)) => Ok(Jusitification::EImpl { hyp, implication }),
        },
    }
}

/// `Efq p`: the position of `⊥`.
pub open spec fn efq_spec(words: Seq<Seq<char>>) -> Result<Jusitification, ReadError> {
    match position_at(words, 1) {
        None => Err(ReadError::Missing_In_Efq_Reference),
        Some(Err(e)) => Err(ReadError::Invalid_In_Efq_Reference(e)),
        Some(Ok(reference)) => Ok(Jusitification::Efq(reference)),
    }
}

/// `Raa p`: the position of the doubly negated formula.
pub open spec fn raa_spec(words: Seq<Seq<char>>) -> Result<Jusitification, ReadError> {
    match position_at(words, 1) {
        None => Err(ReadError::Missing_In_Raa_Reference),
        Some(Err(e)) => Err(ReadError::Invalid_In_Raa_Reference(e)),
        Some(Ok(reference)) => Ok(Jusitification::Raa(reference)),
    }
}

impl Jusitification {
    /// The number of arguments that the rule takes.
    pub open spec fn arity(self) -> nat {
        match self {
            Jusitification::IOrL(..) => 2,
            Jusitification::IOrR(..) => 2,
            Jusitification::EOr { .. } => 3,
            Jusitification::IAnd { .. } => 2,
            Jusitification::EAndL(..) => 1,
            Jusitification::EAndR(..) => 1,
            Jusitification::Hyp => 0,
            Jusitification::IImpl => 0,
            Jusitification::EImpl { .. } => 2,
            Jusitification::Efq(..) => 1,
            Jusitification::Raa(..) => 1,
        }
    }
}

/// The rule that the first word names, applied to the words that follow it.
pub open spec fn rule_spec(words: Seq<Seq<char>>) -> Result<Jusitification, ReadError> {
    let rule = words[0];
    if rule == "IOrL"@ {
        iorl_spec(words)
    } else if rule == "IOrR"@ {
        iorr_spec(words)
    } else if rule == "EOr"@ {
        eor_spec(words)
    } else if rule == "IAnd"@ {
        iand_spec(words)
    } else if rule == "EAndL"@ {
        eandl_spec(words)
    } else if rule == "EAndR"@ {
        eandr_spec(words)
    } else if rule == "Hyp"@ {
        Ok(Jusitification::Hyp)
    } else if rule == "IImpl"@ {
        Ok(Jusitification::IImpl)
    } else if rule == "EImpl"@ {
        eimpl_spec(words)
    } else if rule == "Efq"@ {
        efq_spec(words)
    } else if rule == "Raa"@ {
        raa_spec(words)
    } else {
        Err(ReadError::UnknownRule)
    }
}

/// The justification that a line denotes: its first word names the rule,
/// the following words are the rule's arguments, and no word is left over.
pub open spec fn parse_justification(s: Seq<char>) -> Result<Jusitification, ReadError> {
    let words = split_spec(s, ' ');
    match rule_spec(words) {
        Err(e) => Err(e),
        Ok(justification) => if words.len() > 1 + justification.arity() {
            Err(ReadError::InputTooLarge)
        } else {
            Ok(justification)
        },
    }
}

/// Whether a word is the given name.
fn word_is(word: &[char], name: &str) -> (b: bool)
    ensures
        b == (word@ == name@),
{
    let name_chars = chars_of(name);
    same_chars(word, name_chars.as_slice())
}

impl Jusitification {
    /// Reads a justification from a string.
    pub fn read(input: &str) -> (r: Result<Self, ReadError>)
        ensures
            r == parse_justification(input@),
    {
        let chars = chars_of(input);
        Self::read_chars(chars.as_slice())
    }

    /// Reads a justification from the characters of a line.
    pub fn read_chars(input: &[char]) -> (r: Result<Self, ReadError>)
        ensures
            r == parse_justification(input@),
    {
        let words = split(input, ' ');
        proof {
            lemma_fields_view(words@);
        }
        let r = Self::read_rule(&words)?;
        if words.len() > 1 + r.arguments() {
            Err(ReadError::InputTooLarge)
        } else {
            Ok(r)
        }
    }

    /// The number of arguments that the rule takes.
    fn arguments(&self) -> (n: usize)
        ensures
            n == self.arity(),
            n <= 3,
    {
        match self {
            Jusitification::IOrL(..) => 2,
            Jusitification::IOrR(..) => 2,
            Jusitification::EOr { .. } => 3,
            Jusitification::IAnd { .. } => 2,
            Jusitification::EAndL(..) => 1,
            Jusitification::EAndR(..) => 1,
            Jusitification::Hyp => 0,
            Jusitification::IImpl => 0,
            Jusitification::EImpl { .. } => 2,
            Jusitification::Efq(..) => 1,
            Jusitification::Raa(..) => 1,
        }
    }

    /// Reads the rule that the first word names and its arguments.
    fn read_rule(words: &Vec<Vec<char>>) -> (r: Result<Self, ReadError>)
        requires
            words@.len() >= 1,
        ensures
            r == rule_spec(fields_view(words@)),
    {
        proof {
            lemma_fields_view(words@);
        }
        let rule = words[0].as_slice();
        if word_is(rule, "IOrL") {
            Self::read_iorl(&words)
        } else if word_is(rule, "IOrR") {
            Self::read_iorr(&words)
        } else if word_is(rule, "EOr") {
            Self::read_eor(&words)
        } else if word_is(rule, "IAnd") {
            Self::read_iand(&words)
        } else if word_is(rule, "EAndL") {
            Self::read_eandl(&words)
        } else if word_is(rule, "EAndR") {
            Self::read_eandr(&words)
        } else if word_is(rule, "Hyp") {
            Ok(Jusitification::Hyp)
        } else if word_is(rule, "IImpl") {
            Ok(Jusitification::IImpl)
        } else if word_is(rule, "EImpl") {
            Self::read_eimpl(&words)
        } else if word_is(rule, "Efq") {
            Self::read_efq(&words)
        } else if word_is(rule, "Raa") {
            Self::read_raa(&words)
        } else {
            Err(ReadError::UnknownRule)
        }
    }

    /// `IOrL p f`: the position of the right disjunct, then the new left disjunct.
    fn read_iorl(words: &Vec<Vec<char>>) -> (r: Result<Self, ReadError>)
        ensures
            r == iorl_spec(fields_view(words@)),
    {
        proof {
            lemma_fields_view(words@);
        }
        if words.len() <= 1 {
            return Err(ReadError::Missing_In_IOrL_LeftPos);
        }
        let right_pos = match parse_usize(words[1].as_slice()) {
            Ok(v) => v,
            Err(e) => {
                return Err(ReadError::Invalid_In_IOrL_LeftPos(e));
            },
        };
        if words.len() <= 2 {
            return Err(ReadError::Missing_In_IOrL_Formula);
        }
        let left_formula = match Formula::read_chars(words[2].as_slice()) {
            Ok(v) => v,
            Err(e) => {
                return Err(ReadError::Invalid_In_IOrL_Formula(e));
            },
        };
        Ok(Jusitification::IOrL(right_pos, left_formula))
    }

    /// `IOrR p f`: the position of the left disjunct, then the new right disjunct.
    fn read_iorr(words: &Vec<Vec<char>>) -> (r: Result<Self, ReadError>)
        ensures
            r == iorr_spec(fields_view(words@)),
    {
        proof {
            lemma_fields_view(words@);
        }
        if words.len() <= 1 {
            return Err(ReadError::Missing_In_IOrR_RightPos);
        }
        let left_pos = match parse_usize(words[1].as_slice()) {
            Ok(v) => v,
            Err(e) => {
                return Err(ReadError::Invalid_In_IOrR_RightPos(e));
            },
        };
        if words.len() <= 2 {
            return Err(ReadError::Missing_In_IOrR_Formula);
        }
        let right_formula = match Formula::read_chars(words[2].as_slice()) {
            Ok(v) => v,
            Err(e) => {
                return Err(ReadError::Invalid_In_IOrR_Formula(e));
            },
        };
        Ok(Jusitification::IOrR(left_pos, right_formula))
    }

    /// `EOr p q r`: the positions of `a⇒c`, of `b⇒c` and of `a∨b`.
    fn read_eor(words: &Vec<Vec<char>>) -> (r: Result<Self, ReadError>)
        ensures
            r == eor_spec(fields_view(words@)),
    {
        proof {
            lemma_fields_view(words@);
        }
        if words.len() <= 1 {
            return Err(ReadError::Missing_In_EOr_A_to_C);
        }
        let a_to_c = match parse_usize(words[1].as_slice()) {
            Ok(v) => v,
            Err(e) => {
                return Err(ReadError::Invalid_In_EOr_A_to_C(e));
            },
        };
        if words.len() <= 2 {
            return Err(ReadError::Missing_In_EOr_B_to_C);
        }
        let b_to_c = match parse_usize(words[2].as_slice()) {
            Ok(v) => v,
            Err(e) => {
                return Err(ReadError::Invalid_In_EOr_B_to_C(e));
            },
        };
        if words.len() <= 3 {
            return Err(ReadError::Missing_In_EOr_A_or_B);
        }
        let a_or_b = match parse_usize(words[3].as_slice()) {
            Ok(v) => v,
            Err(e) => {
                return Err(ReadError::Invalid_In_EOr_A_or_B(e));
            },
        };
        Ok(Jusitification::EOr { a_to_c, b_to_c, a_or_b })
    }

    /// `IAnd p q`: the positions of the left and of the right conjunct.
    fn read_iand(words: &Vec<Vec<char>>) -> (r: Result<Self, ReadError>)
        ensures
            r == iand_spec(fields_view(words@)),
    {
        proof {
            lemma_fields_view(words@);
        }
        if words.len() <= 1 {
            return Err(ReadError::Missing_In_IAnd_Left);
        }
        let left = match parse_usize(words[1].as_slice()) {
            Ok(v) => v,
            Err(e) => {
                return Err(ReadError::Invalid_In_IAnd_Left(e));
            },
        };
        if words.len() <= 2 {
            return Err(ReadError::Missing_In_IAnd_Right);
        }
        let right = match parse_usize(words[2].as_slice()) {
            Ok(v) => v,
            Err(e) => {
                return Err(ReadError::Invalid_In_IAnd_Right(e));
            },
        };
        Ok(Jusitification::IAnd { left, right })
    }

    /// `EAndL p`: the position of the conjunction.
    fn read_eandl(words: &Vec<Vec<char>>) -> (r: Result<Self, ReadError>)
        ensures
            r == eandl_spec(fields_view(words@)),
    {
        proof {
            lemma_fields_view(words@);
        }
        if words.len() <= 1 {
            return Err(ReadError::Missing_In_EAndL_Reference);
        }
        let reference = match parse_usize(words[1].as_slice()) {
            Ok(v) => v,
            Err(e) => {
                return Err(ReadError::Invalid_In_EAndL_Reference(e));
            },
        };
        Ok(Jusitification::EAndL(reference))
    }

    /// `EAndR p`: the position of the conjunction.
    fn read_eandr(words: &Vec<Vec<char>>) -> (r: Result<Self, ReadError>)
        ensures
            r == eandr_spec(fields_view(words@)),
    {
        proof {
            lemma_fields_view(words@);
        }
        if words.len() <= 1 {
            return Err(ReadError::Missing_In_EAndR_Reference);
        }
        let reference = match parse_usize(words[1].as_slice()) {
            Ok(v) => v,
            Err(e) => {
                return Err(ReadError::Invalid_In_EAndR_Reference(e));
            },
        };
        Ok(Jusitification::EAndR(reference))
    }

    /// `EImpl p q`: the positions of the hypothesis and of the implication.
    fn read_eimpl(words: &Vec<Vec<char>>) -> (r: Result<Self, ReadError>)
        ensures
            r == eimpl_spec(fields_view(words@)),
    {
        proof {
            lemma_fields_view(words@);
        }
        if words.len() <= 1 {
            return Err(ReadError::Missing_In_EImpl_Hyp);
        }
        let hyp = match parse_usize(words[1].as_slice()) {
            Ok(v) => v,
            Err(e) => {
                return Err(ReadError::Invalid_In_EImpl_Hyp(e));
            },
        };
        if words.len() <= 2 {
            return Err(ReadError::Missing_In_EImpl_Implication);
        }
        let implication = match parse_usize(words[2].as_slice()) {
            Ok(v) => v,
            Err(e) => {
                return Err(ReadError::Invalid_In_EImpl_Implication(e));
            },
        };
        Ok(Jusitification::EImpl { hyp, implication })
    }

    /// `Efq p`: the position of `⊥`.
    fn read_efq(words: &Vec<Vec<char>>) -> (r: Result<Self, ReadError>)
        ensures
            r == efq_spec(fields_view(words@)),
    {
        proof {
            lemma_fields_view(words@);
        }
        if words.len() <= 1 {
            return Err(ReadError::Missing_In_Efq_Reference);
        }
        let reference = match parse_usize(words[1].as_slice()) {
            Ok(v) => v,
            Err(e) => {
                return Err(ReadError::Invalid_In_Efq_Reference(e));
            },
        };
        Ok(Jusitification::Efq(reference))
    }

    /// `Raa p`: the position of the doubly negated formula.
    fn read_raa(words: &Vec<Vec<char>>) -> (r: Result<Self, ReadError>)
        ensures
            r == raa_spec(fields_view(words@)),
    {
        proof {
            lemma_fields_view(words@);
        }
        if words.len() <= 1 {
            return Err(ReadError::Missing_In_Raa_Reference);
        }
        let reference = match parse_usize(words[1].as_slice()) {
            Ok(v) => v,
            Err(e) => {
                return Err(ReadError::Invalid_In_Raa_Reference(e));
            },
        };
        Ok(Jusitification::Raa(reference))
    }

}

} // verus!
