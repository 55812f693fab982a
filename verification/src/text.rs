//! Character sequences: splitting into fields, prefixes, and unsigned
//! decimal numbers.
//!
//! Every executable function here works on the characters of a line, not on
//! its bytes, and is specified over `Seq<char>`.

use vstd::prelude::*;

verus! {

/// Why a field is not an unsigned decimal number.
#[derive(Clone, Copy, Debug, PartialEq, Eq)]
pub enum ParseIntError {
    /// The field has no character at all.
    Empty,
    /// The field holds something else than decimal digits after an optional
    /// leading `+`, or nothing but that sign.
    InvalidDigit,
    /// The digits denote a number greater than `usize::MAX`.
    PosOverflow,
}

/// Whether a character is a decimal digit.
pub open spec fn is_digit(c: char) -> bool {
    '0' <= c && c <= '9'
}

/// The number that a decimal digit denotes.
pub open spec fn digit_value(c: char) -> nat
    recommends
        is_digit(c),
{
    (c as int - '0' as int) as nat
}

/// Whether every character is a decimal digit.
pub open spec fn all_digits(s: Seq<char>) -> bool {
    forall|i: int| 0 <= i < s.len() ==> is_digit(#[trigger] s[i])
}

/// The number that a sequence of decimal digits denotes, most significant
/// digit first. The empty sequence denotes zero.
pub open spec fn decimal_value(s: Seq<char>) -> nat
    decreases s.len(),
{
    if s.len() == 0 {
        0
    } else {
        decimal_value(s.drop_last()) * 10 + digit_value(s.last())
    }
}

/// The field without its optional leading `+`.
pub open spec fn unsigned_digits(s: Seq<char>) -> Seq<char> {
    if s.len() > 0 && s[0] == '+' {
        s.drop_first()
    } else {
        s
    }
}

/// What reading the first `n` characters of `d` as digits gives: the number
/// read so far, or the first fault met, going from left to right.
pub open spec fn scan_digits(d: Seq<char>, n: int) -> Result<usize, ParseIntError>
    decreases n,
{
    if n <= 0 {
        Ok(0)
    } else {
        match scan_digits(d, n - 1) {
            Err(e) => Err(e),
            Ok(v) => {
                if !is_digit(d[n - 1]) {
                    Err(ParseIntError::InvalidDigit)
                } else if v * 10 + digit_value(d[n - 1]) > usize::MAX {
                    Err(ParseIntError::PosOverflow)
                } else {
                    Ok((v * 10 + digit_value(d[n - 1])) as usize)
                }
            },
        }
    }
}

/// The meaning of a field as an unsigned decimal number: an optional `+`,
/// then at least one digit, and nothing else; the value must fit in `usize`.
pub open spec fn parse_usize_spec(s: Seq<char>) -> Result<usize, ParseIntError> {
    let d = unsigned_digits(s);
    if s.len() == 0 {
        Err(ParseIntError::Empty)
    } else if d.len() == 0 {
        Err(ParseIntError::InvalidDigit)
    } else {
        scan_digits(d, d.len() as int)
    }
}

/// A successful scan has read digits only, and its result is their value.
pub proof fn lemma_scan_digits_ok(d: Seq<char>, n: int)
    requires
        0 <= n <= d.len(),
    ensures
        scan_digits(d, n) matches Ok(v) ==> all_digits(d.take(n)) && v == decimal_value(d.take(n)),
        all_digits(d.take(n)) && decimal_value(d.take(n)) <= usize::MAX ==> scan_digits(d, n)
            == Ok::<usize, ParseIntError>(decimal_value(d.take(n)) as usize),
    decreases n,
{
    if n > 0 {
        lemma_scan_digits_ok(d, n - 1);
        assert(d.take(n).drop_last() == d.take(n - 1));
        assert(d.take(n).last() == d[n - 1]);
        if all_digits(d.take(n)) {
            assert forall|i: int| 0 <= i < n - 1 implies is_digit(#[trigger] d.take(n - 1)[i]) by {
                assert(d.take(n)[i] == d.take(n - 1)[i]);
            }
        }
        if scan_digits(d, n) is Ok {
            assert forall|i: int| 0 <= i < n implies is_digit(#[trigger] d.take(n)[i]) by {
                if i < n - 1 {
                    assert(d.take(n - 1)[i] == d.take(n)[i]);
                }
            }
        }
    }
}

/// Once a fault is met, reading further characters does not change it.
pub proof fn lemma_scan_digits_fault(d: Seq<char>, n: int, m: int)
    requires
        n <= m,
        scan_digits(d, n) is Err,
    ensures
        scan_digits(d, m) == scan_digits(d, n),
    decreases m - n,
{
    if n < m {
        lemma_scan_digits_fault(d, n, m - 1);
    }
}

/// A field is a number exactly when it is an optional `+` followed by at
/// least one digit and by digits only, and their value fits in `usize`; the
/// number is then that value.
pub proof fn lemma_parse_usize_ok(s: Seq<char>)
    ensures
        parse_usize_spec(s) is Ok <==> unsigned_digits(s).len() > 0 && all_digits(
            unsigned_digits(s),
        ) && decimal_value(unsigned_digits(s)) <= usize::MAX,
        parse_usize_spec(s) matches Ok(v) ==> v == decimal_value(unsigned_digits(s)),
{
    let d = unsigned_digits(s);
    lemma_scan_digits_ok(d, d.len() as int);
    assert(d.take(d.len() as int) == d);
}

/// Reads a field as an unsigned decimal number.
pub fn parse_usize(s: &[char]) -> (r: Result<usize, ParseIntError>)
    ensures
        r == parse_usize_spec(s@),
        r is Ok <==> unsigned_digits(s@).len() > 0 && all_digits(unsigned_digits(s@))
            && decimal_value(unsigned_digits(s@)) <= usize::MAX,
        r matches Ok(v) ==> v == decimal_value(unsigned_digits(s@)),
{
    proof {
        lemma_parse_usize_ok(s@);
    }
    let n: usize = s.len();
    if n == 0 {
        return Err(ParseIntError::Empty);
    }
    let start: usize = if s[0] == '+' {
        1
    } else {
        0
    };
    if start == n {
        return Err(ParseIntError::InvalidDigit);
    }
    let ghost d = unsigned_digits(s@);
    let mut value: usize = 0;
    let mut i: usize = start;
    while i < n
        invariant
            start <= i <= n,
            n == s@.len(),
            d == unsigned_digits(s@),
            d.len() == n - start,
            forall|k: int| 0 <= k < d.len() ==> d[k] == s@[k + start],
            scan_digits(d, i - start) == Ok::<usize, ParseIntError>(value),
        decreases n - i,
    {
        let c: char = s[i];
        assert(d[i - start] == c);
        if !(c >= '0' && c <= '9') {
            proof {
                lemma_scan_digits_fault(d, i - start + 1, d.len() as int);
                lemma_parse_usize_ok(s@);
            }
            return Err(ParseIntError::InvalidDigit);
        }
        let digit: usize = (c as u32 - '0' as u32) as usize;
        if value > (usize::MAX - digit) / 10 {
            proof {
                lemma_scan_digits_fault(d, i - start + 1, d.len() as int);
                lemma_parse_usize_ok(s@);
            }
            return Err(ParseIntError::PosOverflow);
        }
        value = value * 10 + digit;
        i = i + 1;
    }
    Ok(value)
}

/// The fields of a line: the stretches between the occurrences of the
/// separator, in order. A line without separator is one field, and `n`
/// separators give `n + 1` fields, empty ones included.
pub open spec fn split_spec(s: Seq<char>, sep: char) -> Seq<Seq<char>>
    decreases s.len(),
{
    if s.len() == 0 {
        seq![Seq::<char>::empty()]
    } else {
        let before = split_spec(s.drop_last(), sep);
        if s.last() == sep {
            before.push(Seq::<char>::empty())
        } else {
            before.drop_last().push(before.last().push(s.last()))
        }
    }
}

/// The fields written one after the other with the separator between them.
pub open spec fn join_spec(fields: Seq<Seq<char>>, sep: char) -> Seq<char>
    decreases fields.len(),
{
    if fields.len() == 0 {
        Seq::<char>::empty()
    } else if fields.len() == 1 {
        fields[0]
    } else {
        join_spec(fields.drop_last(), sep).push(sep) + fields.last()
    }
}

/// Splitting loses nothing: there is at least one field, no field holds the
/// separator, and joining the fields gives the line back.
pub proof fn lemma_split_join(s: Seq<char>, sep: char)
    ensures
        split_spec(s, sep).len() >= 1,
        forall|i: int, j: int|
            0 <= i < split_spec(s, sep).len() && 0 <= j < split_spec(s, sep)[i].len()
                ==> split_spec(s, sep)[i][j] != sep,
        join_spec(split_spec(s, sep), sep) == s,
    decreases s.len(),
{
    if s.len() == 0 {
        assert(join_spec(split_spec(s, sep), sep) =~= s);
    } else {
        let before = split_spec(s.drop_last(), sep);
        lemma_split_join(s.drop_last(), sep);
        let now = split_spec(s, sep);
        if s.last() == sep {
            assert(now.drop_last() == before);
            assert(join_spec(now, sep) =~= s);
        } else {
            let grown = before.last().push(s.last());
            assert(now.last() == grown);
            if before.len() == 1 {
                assert(join_spec(before, sep) == before[0]);
                assert(join_spec(now, sep) =~= s);
            } else {
                let head = join_spec(before.drop_last(), sep).push(sep);
                assert(now.drop_last() == before.drop_last());
                assert(join_spec(before, sep) == head + before.last());
                assert(join_spec(now, sep) == head + grown);
                assert(head + grown =~= (head + before.last()).push(s.last()));
                assert(s =~= s.drop_last().push(s.last()));
            }
        }
    }
}

/// The views of the fields of a vector of fields.
pub open spec fn fields_view(fields: Seq<Vec<char>>) -> Seq<Seq<char>> {
    fields.map_values(|f: Vec<char>| f@)
}

/// A vector of fields has as many fields as its view, and the same ones.
pub proof fn lemma_fields_view(fields: Seq<Vec<char>>)
    ensures
        fields_view(fields).len() == fields.len(),
        forall|i: int| 0 <= i < fields.len() ==> (#[trigger] fields_view(fields)[i]) == fields[i]@,
{
}

/// Splits a line into its fields.
pub fn split(s: &[char], sep: char) -> (out: Vec<Vec<char>>)
    ensures
        fields_view(out@) == split_spec(s@, sep),
        out.len() >= 1,
        forall|i: int, j: int| 0 <= i < out.len() && 0 <= j < out[i].len() ==> out[i][j] != sep,
        join_spec(fields_view(out@), sep) == s@,
{
    proof {
        lemma_split_join(s@, sep);
    }
    let mut out: Vec<Vec<char>> = Vec::new();
    let mut current: Vec<char> = Vec::new();
    let n: usize = s.len();
    let mut i: usize = 0;
    assert(s@.take(0) =~= Seq::<char>::empty());
    assert(fields_view(out@).push(current@) =~= split_spec(s@.take(0), sep));
    while i < n
        invariant
            i <= n,
            n == s@.len(),
            fields_view(out@).push(current@) == split_spec(s@.take(i as int), sep),
        decreases n - i,
    {
        let c: char = s[i];
        proof {
            let upto = s@.take(i + 1);
            assert(upto.drop_last() == s@.take(i as int));
            assert(upto.last() == c);
        }
        if c == sep {
            let ghost before = fields_view(out@).push(current@);
            out.push(current);
            current = Vec::new();
            assert(fields_view(out@) =~= before);
        } else {
            let ghost before = fields_view(out@).push(current@);
            current.push(c);
            assert(fields_view(out@).push(current@) =~= before.drop_last().push(
                before.last().push(c),
            ));
        }
        i = i + 1;
    }
    assert(s@.take(n as int) == s@);
    let ghost before = fields_view(out@).push(current@);
    out.push(current);
    assert(fields_view(out@) =~= before);
    proof {
        lemma_fields_view(out@);
        assert forall|i: int, j: int| 0 <= i < out.len() && 0 <= j < out[i].len() implies out[i][j]
            != sep by {
            assert(split_spec(s@, sep)[i][j] != sep);
        }
    }
    out
}

/// Whether a line begins with the given characters.
pub fn starts_with(s: &[char], prefix: &[char]) -> (b: bool)
    ensures
        b == prefix@.is_prefix_of(s@),
{
    if prefix.len() > s.len() {
        return false;
    }
    let n: usize = prefix.len();
    let mut i: usize = 0;
    while i < n
        invariant
            i <= n,
            n == prefix@.len(),
            n <= s@.len(),
            forall|k: int| 0 <= k < i ==> s@[k] == prefix@[k],
        decreases n - i,
    {
        if s[i] != prefix[i] {
            assert(s@.subrange(0, n as int)[i as int] != prefix@[i as int]);
            return false;
        }
        i = i + 1;
    }
    assert(prefix@ =~= s@.subrange(0, n as int));
    true
}

/// Whether two lines hold the same characters.
pub fn same_chars(a: &[char], b: &[char]) -> (r: bool)
    ensures
        r == (a@ == b@),
{
    if a.len() != b.len() {
        return false;
    }
    let r = starts_with(a, b);
    proof {
        if r {
            assert(a@ =~= b@);
        }
    }
    r
}

/// The characters of a string slice, in order.
pub fn chars_of(s: &str) -> (out: Vec<char>)
    ensures
        out@ == s@,
{
    let mut out: Vec<char> = Vec::new();
    for c in it: s.chars()
        invariant
            out@ == it.seq().take(it.index()),
            it.seq() == s@,
    {
        out.push(c);
    }
    out
}

} // verus!
