//! The reader: from bytes to forms.
//!
//! Each parser starts at a position of the input and either succeeds with
//! the position after what it read and the form, fails so that the caller
//! may try another rule (`NoMatch`), or stops the whole reading (the other
//! errors).
use std::collections::VecDeque;
use vstd::prelude::*;
use vstd::string::StringSliceAdditionalSpecFns;
use vstd::utf8::{decode_utf8, valid_utf8};

use crate::types::{
    lemma_list_view, lemma_array_view, lemma_pre_map_view, pairs_seq, seq_view, Atom, AtomV,
    ExprV, Expression, MapType,
};
use crate::util::{pairs_of, tuple_even_vector};

verus! {

/// Why reading failed.
#[derive(Debug, Clone, Copy, PartialEq, Eq, Structural)]
pub enum ParseError {
    /// No rule matched here; an enclosing rule may try another one.
    NoMatch,
    /// A symbol or string literal is not valid UTF-8.
    InvalidUtf8,
    /// An integer literal does not fit in an `i64`.
    IntegerTooLarge,
    /// A map literal holds an odd number of forms.
    OddMapForms,
}

/* ------------------------------------------------------------------------ */
/* Bytes                                                                     */

pub open spec fn is_space_byte(c: u8) -> bool {
    c == 0x20 || c == 0x09
}

pub open spec fn is_digit_byte(c: u8) -> bool {
    0x30 <= c <= 0x39
}

pub open spec fn is_alphanumeric_byte(c: u8) -> bool {
    (0x41 <= c <= 0x5A) || (0x61 <= c <= 0x7A) || is_digit_byte(c)
}

/// Blanks between forms: space, tab, comma and newline.
pub open spec fn is_space_lisp_byte(c: u8) -> bool {
    is_space_byte(c) || c == 0x2C || c == 0x0A
}

/// The bytes of a symbol: letters, digits and `*/+-_!?><`.
pub open spec fn is_symbol_byte(c: u8) -> bool {
    is_alphanumeric_byte(c) || c == 0x2A || c == 0x2F || c == 0x2B || c == 0x2D || c == 0x5F
        || c == 0x21 || c == 0x3F || c == 0x3E || c == 0x3C
}

/// Tests whether a byte is a space or a tab.
#[verifier::external_body]
fn is_space(c: u8) -> (r: bool)
    ensures
        r == is_space_byte(c),
{
    nom::character::is_space(c)
}

/// Tests whether a byte is an ASCII digit.
#[verifier::external_body]
fn is_digit(c: u8) -> (r: bool)
    ensures
        r == is_digit_byte(c),
{
    nom::character::is_digit(c)
}

/// Tests whether a byte is an ASCII letter or digit.
#[verifier::external_body]
fn is_alphanumeric(c: u8) -> (r: bool)
    ensures
        r == is_alphanumeric_byte(c),
{
    nom::character::is_alphanumeric(c)
}

/// The character whose code is the byte.
#[verifier::external_body]
fn as_char(c: u8) -> (r: char)
    ensures
        r == c as char,
{
    nom::AsChar::as_char(c)
}

/// The text of a byte vector, if it is valid UTF-8.
#[verifier::external_body]
fn string_from_utf8(bytes: Vec<u8>) -> (r: Option<String>)
    ensures
        r is Some <==> valid_utf8(bytes@),
        r matches Some(s) ==> s@ == decode_utf8(bytes@),
{
    String::from_utf8(bytes).ok()
}

fn is_space_lisp(c: u8) -> (r: bool)
    ensures
        r == is_space_lisp_byte(c),
{
    is_space(c) || c == 0x2Cu8 || c == 0x0Au8
}

fn is_valid_symbol_char(c: u8) -> (r: bool)
    ensures
        r == is_symbol_byte(c),
{
    is_alphanumeric(c) || c == 0x2Au8 || c == 0x2Fu8 || c == 0x2Bu8 || c == 0x2Du8 || c == 0x5Fu8 || c
        == 0x21u8 || c == 0x3Fu8 || c == 0x3Eu8 || c == 0x3Cu8
}

/* ------------------------------------------------------------------------ */
/* Runs of bytes                                                             */

/// The end of the blanks that start at `p`.
pub open spec fn spaces_end(s: Seq<u8>, p: int) -> int
    decreases s.len() - p,
{
    if p < 0 || p >= s.len() || !is_space_lisp_byte(s[p]) {
        p
    } else {
        spaces_end(s, p + 1)
    }
}

/// The end of the digits that start at `p`.
pub open spec fn digits_end(s: Seq<u8>, p: int) -> int
    decreases s.len() - p,
{
    if p < 0 || p >= s.len() || !is_digit_byte(s[p]) {
        p
    } else {
        digits_end(s, p + 1)
    }
}

/// The end of the symbol bytes that start at `p`.
pub open spec fn symbol_end(s: Seq<u8>, p: int) -> int
    decreases s.len() - p,
{
    if p < 0 || p >= s.len() || !is_symbol_byte(s[p]) {
        p
    } else {
        symbol_end(s, p + 1)
    }
}

/// The first double quote at or after `p`, or the end of the input.
pub open spec fn quote_end(s: Seq<u8>, p: int) -> int
    decreases s.len() - p,
{
    if p < 0 || p >= s.len() || s[p] == 0x22u8 {
        p
    } else {
        quote_end(s, p + 1)
    }
}

pub proof fn lemma_spaces_end(s: Seq<u8>, p: int)
    requires
        0 <= p <= s.len(),
    ensures
        p <= spaces_end(s, p) <= s.len(),
        spaces_end(s, spaces_end(s, p)) == spaces_end(s, p),
    decreases s.len() - p,
{
    if p < s.len() && is_space_lisp_byte(s[p]) {
        lemma_spaces_end(s, p + 1);
    }
}

proof fn lemma_digits_end(s: Seq<u8>, p: int)
    requires
        0 <= p <= s.len(),
    ensures
        p <= digits_end(s, p) <= s.len(),
        forall|i: int| p <= i < digits_end(s, p) ==> is_digit_byte(#[trigger] s[i]),
    decreases s.len() - p,
{
    if p < s.len() && is_digit_byte(s[p]) {
        lemma_digits_end(s, p + 1);
    }
}

proof fn lemma_symbol_end(s: Seq<u8>, p: int)
    requires
        0 <= p <= s.len(),
    ensures
        p <= symbol_end(s, p) <= s.len(),
    decreases s.len() - p,
{
    if p < s.len() && is_symbol_byte(s[p]) {
        lemma_symbol_end(s, p + 1);
    }
}

proof fn lemma_quote_end(s: Seq<u8>, p: int)
    requires
        0 <= p <= s.len(),
    ensures
        p <= quote_end(s, p) <= s.len(),
        quote_end(s, p) < s.len() ==> s[quote_end(s, p)] == 0x22u8,
    decreases s.len() - p,
{
    if p < s.len() && s[p] != 0x22u8 {
        lemma_quote_end(s, p + 1);
    }
}

fn skip_spaces(s: &[u8], p: usize) -> (r: usize)
    requires
        p <= s@.len(),
    ensures
        r == spaces_end(s@, p as int),
        p <= r <= s@.len(),
{
    let mut q = p;
    while q < s.len() && is_space_lisp(s[q])
        invariant
            p <= q <= s@.len(),
            spaces_end(s@, q as int) == spaces_end(s@, p as int),
        decreases s@.len() - q,
    {
        q = q + 1;
    }
    q
}

fn skip_digits(s: &[u8], p: usize) -> (r: usize)
    requires
        p <= s@.len(),
    ensures
        r == digits_end(s@, p as int),
        p <= r <= s@.len(),
{
    let mut q = p;
    while q < s.len() && is_digit(s[q])
        invariant
            p <= q <= s@.len(),
            digits_end(s@, q as int) == digits_end(s@, p as int),
        decreases s@.len() - q,
    {
        q = q + 1;
    }
    q
}

fn skip_symbol(s: &[u8], p: usize) -> (r: usize)
    requires
        p <= s@.len(),
    ensures
        r == symbol_end(s@, p as int),
        p <= r <= s@.len(),
{
    let mut q = p;
    while q < s.len() && is_valid_symbol_char(s[q])
        invariant
            p <= q <= s@.len(),
            symbol_end(s@, q as int) == symbol_end(s@, p as int),
        decreases s@.len() - q,
    {
        q = q + 1;
    }
    q
}

fn skip_to_quote(s: &[u8], p: usize) -> (r: usize)
    requires
        p <= s@.len(),
    ensures
        r == quote_end(s@, p as int),
        p <= r <= s@.len(),
{
    let mut q = p;
    while q < s.len() && s[q] != 0x22u8
        invariant
            p <= q <= s@.len(),
            quote_end(s@, q as int) == quote_end(s@, p as int),
        decreases s@.len() - q,
    {
        q = q + 1;
    }
    q
}

/// The bytes from `start` to `end`.
fn bytes_between(s: &[u8], start: usize, end: usize) -> (r: Vec<u8>)
    requires
        start <= end <= s@.len(),
    ensures
        r@ == s@.subrange(start as int, end as int),
{
    let mut r: Vec<u8> = Vec::new();
    let mut i = start;
    while i < end
        invariant
            start <= i <= end <= s@.len(),
            r@ == s@.subrange(start as int, i as int),
        decreases end - i,
    {
        r.push(s[i]);
        i = i + 1;
        assert(r@ =~= s@.subrange(start as int, i as int));
    }
    r
}

/* ------------------------------------------------------------------------ */
/* Numbers and booleans                                                      */

pub open spec fn digit_value(c: u8) -> int {
    c - 0x30
}

/// The number that a sequence of decimal digits writes.
pub open spec fn decimal_value(d: Seq<u8>) -> int
    decreases d.len(),
{
    if d.len() == 0 {
        0
    } else {
        decimal_value(d.drop_last()) * 10 + digit_value(d.last())
    }
}

pub open spec fn all_digits(d: Seq<u8>) -> bool {
    forall|i: int| 0 <= i < d.len() ==> is_digit_byte(#[trigger] d[i])
}

/// A decimal integer literal: an optional sign, then at least one digit.
pub open spec fn is_i64_literal_text(d: Seq<u8>) -> bool {
    let digits = if d.len() > 0 && (d[0] == 0x2Bu8 || d[0] == 0x2Du8) {
        d.drop_first()
    } else {
        d
    };
    digits.len() > 0 && all_digits(digits)
}

/// The value of a decimal integer literal.
pub open spec fn literal_value(d: Seq<u8>) -> int {
    if d.len() > 0 && d[0] == 0x2Du8 {
        -decimal_value(d.drop_first())
    } else if d.len() > 0 && d[0] == 0x2Bu8 {
        decimal_value(d.drop_first())
    } else {
        decimal_value(d)
    }
}

proof fn lemma_decimal_nonneg(d: Seq<u8>)
    requires
        all_digits(d),
    ensures
        decimal_value(d) >= 0,
    decreases d.len(),
{
    if d.len() > 0 {
        lemma_decimal_nonneg(d.drop_last());
    }
}

/// The value of the digits from `start` to `end`, negated when `negative`,
/// if it fits in an `i64`.
fn checked_decimal(s: &[u8], start: usize, end: usize, negative: bool) -> (r: Option<i64>)
    requires
        start <= end <= s@.len(),
        all_digits(s@.subrange(start as int, end as int)),
    ensures
        ({
            let v = if negative {
                -decimal_value(s@.subrange(start as int, end as int))
            } else {
                decimal_value(s@.subrange(start as int, end as int))
            };
            match r {
                Some(x) => x == v,
                None => !(i64::MIN <= v <= i64::MAX),
            }
        }),
{
    let mut acc: i64 = 0;
    let mut i = start;
    while i < end
        invariant
            start <= i <= end <= s@.len(),
            all_digits(s@.subrange(start as int, end as int)),
            acc == (if negative {
                -decimal_value(s@.subrange(start as int, i as int))
            } else {
                decimal_value(s@.subrange(start as int, i as int))
            }),
        decreases end - i,
    {
        let ghost before = s@.subrange(start as int, i as int);
        let ghost next = s@.subrange(start as int, i + 1);
        proof {
            assert(next.drop_last() =~= before);
            assert(next.last() == s@[i as int]);
            assert(s@.subrange(start as int, end as int)[i - start] == s@[i as int]);
            lemma_decimal_nonneg(before);
        }
        let d = (s[i] - 0x30u8) as i64;
        let scaled = match acc.checked_mul(10) {
            Some(x) => x,
            None => {
                proof {
                    assert(all_digits(next)) by {
                        assert forall|j: int| 0 <= j < next.len() implies is_digit_byte(
                            #[trigger] next[j],
                        ) by {
                            assert(next[j] == s@.subrange(start as int, end as int)[j]);
                        }
                    }
                    lemma_decimal_nonneg(next);
                    let rest = s@.subrange(start as int, end as int);
                    lemma_decimal_prefix_le(rest, (i + 1 - start) as int);
                    assert(rest.take((i + 1 - start) as int) =~= next);
                }
                return None;
            },
        };
        let stepped = if negative {
            scaled.checked_sub(d)
        } else {
            scaled.checked_add(d)
        };
        match stepped {
            Some(x) => {
                acc = x;
            },
            None => {
                proof {
                    let rest = s@.subrange(start as int, end as int);
                    lemma_decimal_prefix_le(rest, (i + 1 - start) as int);
                    assert(rest.take((i + 1 - start) as int) =~= next);
                }
                return None;
            },
        }
        i = i + 1;
    }
    Some(acc)
}

/// A prefix of a digit sequence does not write a larger number.
proof fn lemma_decimal_prefix_le(d: Seq<u8>, n: int)
    requires
        all_digits(d),
        0 <= n <= d.len(),
    ensures
        0 <= decimal_value(d.take(n)) <= decimal_value(d),
    decreases d.len(),
{
    lemma_decimal_nonneg(d);
    if n == d.len() {
        assert(d.take(n) =~= d);
    } else {
        let t = d.drop_last();
        assert(all_digits(t)) by {
            assert forall|j: int| 0 <= j < t.len() implies is_digit_byte(#[trigger] t[j]) by {
                assert(t[j] == d[j]);
            }
        }
        lemma_decimal_prefix_le(t, n);
        assert(t.take(n) =~= d.take(n));
        lemma_decimal_nonneg(t);
        assert(is_digit_byte(d[d.len() - 1]));
    }
}

/// The integer that a decimal literal (optional sign, then digits) writes.
pub fn from_u8_array_to_i64(input: &[u8]) -> (r: i64)
    requires
        is_i64_literal_text(input@),
        i64::MIN <= literal_value(input@) <= i64::MAX,
    ensures
        r == literal_value(input@),
{
    let negative = input[0] == 0x2Du8;
    let start: usize = if input[0] == 0x2Du8 || input[0] == 0x2Bu8 {
        1
    } else {
        0
    };
    proof {
        assert(input@.subrange(start as int, input@.len() as int) =~= if start == 1 {
            input@.drop_first()
        } else {
            input@
        });
    }
    match checked_decimal(input, start, input.len(), negative) {
        Some(v) => v,
        None => {
            proof {
                assert(false);
            }
            0
        },
    }
}

pub open spec fn true_text() -> Seq<u8> {
    seq![0x74u8, 0x72u8, 0x75u8, 0x65u8]
}

pub open spec fn false_text() -> Seq<u8> {
    seq![0x66u8, 0x61u8, 0x6Cu8, 0x73u8, 0x65u8]
}

/// The boolean that the text `true` or `false` writes.
pub fn from_u8_array_to_bool(input: &[u8]) -> (r: bool)
    requires
        input@ == true_text() || input@ == false_text(),
    ensures
        r == (input@ == true_text()),
{
    input.len() == 4
}

/// `s` holds `t` at position `p`.
pub open spec fn has_text_at(s: Seq<u8>, p: int, t: Seq<u8>) -> bool {
    0 <= p && p + t.len() <= s.len() && s.subrange(p, p + t.len()) == t
}

fn text_at(s: &[u8], p: usize, t: &[u8]) -> (r: bool)
    requires
        p <= s@.len(),
    ensures
        r == has_text_at(s@, p as int, t@),
        r ==> p + t@.len() <= s.len(),
{
    if t.len() > s.len() - p {
        return false;
    }
    let mut i: usize = 0;
    while i < t.len()
        invariant
            i <= t@.len(),
            p + t@.len() <= s.len(),
            forall|j: int| 0 <= j < i ==> s@[p + j] == t@[j],
        decreases t@.len() - i,
    {
        if s[p + i] != t[i] {
            assert(s@.subrange(p as int, p + t@.len())[i as int] != t@[i as int]);
            return false;
        }
        i = i + 1;
    }
    assert(s@.subrange(p as int, p + t@.len()) =~= t@);
    true
}

/* ------------------------------------------------------------------------ */
/* The grammar                                                               */

/// What reading a form at `p` gives: the position after it and its value.
pub type ParseOutcome = Result<(int, ExprV), ParseError>;

pub open spec fn parse_num_spec(s: Seq<u8>, p: int) -> ParseOutcome {
    let q = spaces_end(s, p);
    let e = digits_end(s, q);
    if e == q {
        Err(ParseError::NoMatch)
    } else {
        let v = decimal_value(s.subrange(q, e));
        if i64::MIN <= v <= i64::MAX {
            Ok((e, ExprV::At(AtomV::Int(v as i64))))
        } else {
            Err(ParseError::IntegerTooLarge)
        }
    }
}

/// A character literal: a backslash, then one byte; the escapes `\n`,
/// `\t` and `\r` are read as their first byte, a backslash.
pub open spec fn parse_char_spec(s: Seq<u8>, p: int) -> ParseOutcome {
    let q = spaces_end(s, p);
    if q < s.len() && s[q] == 0x5Cu8 && q + 1 < s.len() {
        let r = q + 1;
        let two = s[r] == 0x5Cu8 && r + 1 < s.len() && (s[r + 1] == 0x6Eu8 || s[r + 1] == 0x74u8
            || s[r + 1] == 0x72u8);
        Ok((if two { r + 2 } else { r + 1 }, ExprV::At(AtomV::Char(s[r] as char))))
    } else {
        Err(ParseError::NoMatch)
    }
}

pub open spec fn parse_bool_spec(s: Seq<u8>, p: int) -> ParseOutcome {
    let q = spaces_end(s, p);
    if has_text_at(s, q, true_text()) {
        Ok((q + 4, ExprV::At(AtomV::Bool(true))))
    } else if has_text_at(s, q, false_text()) {
        Ok((q + 5, ExprV::At(AtomV::Bool(false))))
    } else {
        Err(ParseError::NoMatch)
    }
}

pub open spec fn nil_text() -> Seq<u8> {
    seq![0x6Eu8, 0x69u8, 0x6Cu8]
}

pub open spec fn parse_nil_spec(s: Seq<u8>, p: int) -> ParseOutcome {
    let q = spaces_end(s, p);
    if has_text_at(s, q, nil_text()) {
        Ok((q + 3, ExprV::At(AtomV::Nil)))
    } else {
        Err(ParseError::NoMatch)
    }
}

pub open spec fn parse_symbol_spec(s: Seq<u8>, p: int) -> ParseOutcome {
    let q = spaces_end(s, p);
    let e = symbol_end(s, q);
    if e == q {
        Err(ParseError::NoMatch)
    } else if valid_utf8(s.subrange(q, e)) {
        Ok((e, ExprV::At(AtomV::Symbol(decode_utf8(s.subrange(q, e))))))
    } else {
        Err(ParseError::InvalidUtf8)
    }
}

/// A string literal: the bytes between two double quotes.
pub open spec fn parse_string_spec(s: Seq<u8>, p: int) -> ParseOutcome {
    let q = spaces_end(s, p);
    if q < s.len() && s[q] == 0x22u8 {
        let e = quote_end(s, q + 1);
        if e < s.len() {
            if valid_utf8(s.subrange(q + 1, e)) {
                Ok((e + 1, ExprV::At(AtomV::Str(decode_utf8(s.subrange(q + 1, e))))))
            } else {
                Err(ParseError::InvalidUtf8)
            }
        } else {
            Err(ParseError::NoMatch)
        }
    } else {
        Err(ParseError::NoMatch)
    }
}

/// The first rule that does not answer `NoMatch`, in order.
pub open spec fn first_of(a: ParseOutcome, b: ParseOutcome) -> ParseOutcome {
    if a == Err::<(int, ExprV), ParseError>(ParseError::NoMatch) {
        b
    } else {
        a
    }
}

pub open spec fn parse_atom_spec(s: Seq<u8>, p: int) -> ParseOutcome {
    first_of(
        parse_num_spec(s, p),
        first_of(
            parse_char_spec(s, p),
            first_of(
                parse_bool_spec(s, p),
                first_of(
                    parse_nil_spec(s, p),
                    first_of(parse_symbol_spec(s, p), parse_string_spec(s, p)),
                ),
            ),
        ),
    )
}

/// The kinds of bracketed forms.
pub enum Bracket {
    Paren,
    Square,
    Curly,
}

pub open spec fn open_byte(b: Bracket) -> u8 {
    match b {
        Bracket::Paren => 0x28u8,
        Bracket::Square => 0x5Bu8,
        Bracket::Curly => 0x7Bu8,
    }
}

pub open spec fn close_byte(b: Bracket) -> u8 {
    match b {
        Bracket::Paren => 0x29u8,
        Bracket::Square => 0x5Du8,
        Bracket::Curly => 0x7Du8,
    }
}

/// The form that a bracket makes of the forms it holds.
pub open spec fn bracket_form(b: Bracket, items: Seq<ExprV>) -> Result<ExprV, ParseError> {
    match b {
        Bracket::Paren => Ok(ExprV::List(items)),
        Bracket::Square => Ok(ExprV::Array(items)),
        Bracket::Curly => if items.len() % 2 == 0 {
            Ok(ExprV::PreMap(pairs_of(items)))
        } else {
            Err(ParseError::OddMapForms)
        },
    }
}

/// A form: an atom, a list, an array or a map, tried in that order.
pub open spec fn parse_expr_spec(s: Seq<u8>, p: int) -> ParseOutcome
    decreases s.len() - p, 1nat,
{
    first_of(
        parse_atom_spec(s, p),
        first_of(
            parse_bracket_spec(s, p, Bracket::Paren),
            first_of(
                parse_bracket_spec(s, p, Bracket::Square),
                parse_bracket_spec(s, p, Bracket::Curly),
            ),
        ),
    )
}

/// Forms in a bracket: read forms until one does not parse, then the
/// blanks and the closing bracket.
pub open spec fn parse_bracket_spec(s: Seq<u8>, p: int, b: Bracket) -> ParseOutcome
    decreases s.len() - p, 0nat,
{
    let q = spaces_end(s, p);
    if p <= q < s.len() && s[q] == open_byte(b) {
        match parse_items_spec(s, q + 1) {
            Ok((e, items)) => {
                let r = spaces_end(s, e);
                if r < s.len() && s[r] == close_byte(b) {
                    match bracket_form(b, items) {
                        Ok(f) => Ok((r + 1, f)),
                        Err(err) => Err(err),
                    }
                } else {
                    Err(ParseError::NoMatch)
                }
            },
            Err(err) => Err(err),
        }
    } else {
        Err(ParseError::NoMatch)
    }
}

/// The forms read one after the other from `p`, until one does not parse;
/// the position after the last one read.
pub open spec fn parse_items_spec(s: Seq<u8>, p: int) -> Result<(int, Seq<ExprV>), ParseError>
    decreases s.len() - p, 2nat,
{
    match parse_expr_spec(s, p) {
        Ok((e, x)) => if p < e <= s.len() {
            match parse_items_spec(s, e) {
                Ok((f, xs)) => Ok((f, seq![x] + xs)),
                Err(err) => Err(err),
            }
        } else {
            Err(ParseError::NoMatch)
        },
        Err(ParseError::NoMatch) => Ok((p, Seq::empty())),
        Err(err) => Err(err),
    }
}

/// A whole text of forms: the forms read one after the other after the
/// leading blanks.
pub open spec fn parse_namespace_spec(s: Seq<u8>) -> Result<(int, Seq<ExprV>), ParseError> {
    parse_items_spec(s, spaces_end(s, 0))
}

/* ------------------------------------------------------------------------ */
/* What the readers give                                                     */

pub open spec fn outcome_view(r: Result<(usize, Expression), ParseError>) -> ParseOutcome {
    match r {
        Ok((e, x)) => Ok((e as int, x@)),
        Err(err) => Err(err),
    }
}

/// A successful read ends after where it started and within the input.
pub open spec fn advances(s: Seq<u8>, p: int, r: ParseOutcome) -> bool {
    r matches Ok((e, _)) ==> p < e <= s.len()
}

proof fn lemma_atom_advances(s: Seq<u8>, p: int)
    requires
        0 <= p <= s.len(),
    ensures
        advances(s, p, parse_num_spec(s, p)),
        advances(s, p, parse_char_spec(s, p)),
        advances(s, p, parse_bool_spec(s, p)),
        advances(s, p, parse_nil_spec(s, p)),
        advances(s, p, parse_symbol_spec(s, p)),
        advances(s, p, parse_string_spec(s, p)),
        advances(s, p, parse_atom_spec(s, p)),
{
    let q = spaces_end(s, p);
    lemma_spaces_end(s, p);
    lemma_digits_end(s, q);
    lemma_symbol_end(s, q);
    if q < s.len() {
        lemma_quote_end(s, q + 1);
    }
}

/// Every successful read consumes at least one byte and stays in the input.
pub proof fn lemma_parse_advances(s: Seq<u8>, p: int)
    requires
        0 <= p <= s.len(),
    ensures
        advances(s, p, parse_expr_spec(s, p)),
        parse_items_spec(s, p) matches Ok((e, _)) ==> p <= e <= s.len(),
    decreases s.len() - p,
{
    lemma_atom_advances(s, p);
    let q = spaces_end(s, p);
    lemma_spaces_end(s, p);
    if q < s.len() {
        lemma_parse_advances(s, q + 1);
        if let Ok((e, _)) = parse_items_spec(s, q + 1) {
            lemma_spaces_end(s, e);
        }
    }
    if let Ok((e, _)) = parse_expr_spec(s, p) {
        if p < e {
            lemma_parse_advances(s, e);
        }
    }
}

/* ------------------------------------------------------------------------ */
/* The readers                                                               */

fn parse_num(s: &[u8], p: usize) -> (r: Result<(usize, Expression), ParseError>)
    requires
        p <= s@.len(),
    ensures
        outcome_view(r) == parse_num_spec(s@, p as int),
{
    let q = skip_spaces(s, p);
    let e = skip_digits(s, q);
    if e == q {
        return Err(ParseError::NoMatch);
    }
    proof {
        lemma_digits_end(s@, q as int);
        assert(all_digits(s@.subrange(q as int, e as int))) by {
            assert forall|j: int| 0 <= j < e - q implies is_digit_byte(
                #[trigger] s@.subrange(q as int, e as int)[j],
            ) by {
                assert(s@.subrange(q as int, e as int)[j] == s@[q + j]);
            }
        }
    }
    match checked_decimal(s, q, e, false) {
        Some(v) => Ok((e, Expression::At(Atom::Int(v)))),
        None => Err(ParseError::IntegerTooLarge),
    }
}

fn parse_char(s: &[u8], p: usize) -> (r: Result<(usize, Expression), ParseError>)
    requires
        p <= s@.len(),
    ensures
        outcome_view(r) == parse_char_spec(s@, p as int),
{
    let q = skip_spaces(s, p);
    if q < s.len() && s[q] == 0x5Cu8 && q + 1 < s.len() {
        let r = q + 1;
        let two = s[r] == 0x5Cu8 && r + 1 < s.len() && (s[r + 1] == 0x6Eu8 || s[r + 1] == 0x74u8 || s[r
            + 1] == 0x72u8);
        let end = if two {
            r + 2
        } else {
            r + 1
        };
        Ok((end, Expression::At(Atom::Char(as_char(s[r])))))
    } else {
        Err(ParseError::NoMatch)
    }
}

fn parse_bool(s: &[u8], p: usize) -> (r: Result<(usize, Expression), ParseError>)
    requires
        p <= s@.len(),
    ensures
        outcome_view(r) == parse_bool_spec(s@, p as int),
{
    let q = skip_spaces(s, p);
    let t: Vec<u8> = vec![0x74u8, 0x72u8, 0x75u8, 0x65u8];
    let f: Vec<u8> = vec![0x66u8, 0x61u8, 0x6Cu8, 0x73u8, 0x65u8];
    proof {
        assert(t@ =~= true_text());
        assert(f@ =~= false_text());
    }
    if text_at(s, q, t.as_slice()) {
        Ok((q + 4, Expression::At(Atom::Bool(from_u8_array_to_bool(t.as_slice())))))
    } else if text_at(s, q, f.as_slice()) {
        Ok((q + 5, Expression::At(Atom::Bool(from_u8_array_to_bool(f.as_slice())))))
    } else {
        Err(ParseError::NoMatch)
    }
}

fn parse_nil(s: &[u8], p: usize) -> (r: Result<(usize, Expression), ParseError>)
    requires
        p <= s@.len(),
    ensures
        outcome_view(r) == parse_nil_spec(s@, p as int),
{
    let q = skip_spaces(s, p);
    let t: Vec<u8> = vec![0x6Eu8, 0x69u8, 0x6Cu8];
    proof {
        assert(t@ =~= nil_text());
    }
    if text_at(s, q, t.as_slice()) {
        Ok((q + 3, Expression::At(Atom::Nil)))
    } else {
        Err(ParseError::NoMatch)
    }
}

fn parse_symbol(s: &[u8], p: usize) -> (r: Result<(usize, Expression), ParseError>)
    requires
        p <= s@.len(),
    ensures
        outcome_view(r) == parse_symbol_spec(s@, p as int),
{
    let q = skip_spaces(s, p);
    let e = skip_symbol(s, q);
    if e == q {
        return Err(ParseError::NoMatch);
    }
    match string_from_utf8(bytes_between(s, q, e)) {
        Some(text) => Ok((e, Expression::At(Atom::Symbol(text)))),
        None => Err(ParseError::InvalidUtf8),
    }
}

fn parse_string(s: &[u8], p: usize) -> (r: Result<(usize, Expression), ParseError>)
    requires
        p <= s@.len(),
    ensures
        outcome_view(r) == parse_string_spec(s@, p as int),
{
    let q = skip_spaces(s, p);
    if q < s.len() && s[q] == 0x22u8 {
        let e = skip_to_quote(s, q + 1);
        if e < s.len() {
            match string_from_utf8(bytes_between(s, q + 1, e)) {
                Some(text) => Ok((e + 1, Expression::At(Atom::String(text)))),
                None => Err(ParseError::InvalidUtf8),
            }
        } else {
            Err(ParseError::NoMatch)
        }
    } else {
        Err(ParseError::NoMatch)
    }
}

fn parse_atom(s: &[u8], p: usize) -> (r: Result<(usize, Expression), ParseError>)
    requires
        p <= s@.len(),
    ensures
        outcome_view(r) == parse_atom_spec(s@, p as int),
{
    let r = parse_num(s, p);
    if !matches!(r, Err(ParseError::NoMatch)) {
        return r;
    }
    let r = parse_char(s, p);
    if !matches!(r, Err(ParseError::NoMatch)) {
        return r;
    }
    let r = parse_bool(s, p);
    if !matches!(r, Err(ParseError::NoMatch)) {
        return r;
    }
    let r = parse_nil(s, p);
    if !matches!(r, Err(ParseError::NoMatch)) {
        return r;
    }
    let r = parse_symbol(s, p);
    if !matches!(r, Err(ParseError::NoMatch)) {
        return r;
    }
    parse_string(s, p)
}

/// Reads one form at position `p`: an atom, a list, an array or a map.
pub fn parse_expression_top_level(s: &[u8], p: usize) -> (r: Result<(usize, Expression), ParseError>)
    requires
        p <= s@.len(),
    ensures
        outcome_view(r) == parse_expr_spec(s@, p as int),
        r matches Ok((e, _)) ==> p < e <= s@.len(),
    decreases s@.len() - p, 1nat,
{
    proof {
        lemma_parse_advances(s@, p as int);
    }
    let r = parse_atom(s, p);
    if !matches!(r, Err(ParseError::NoMatch)) {
        return r;
    }
    let r = parse_list(s, p);
    if !matches!(r, Err(ParseError::NoMatch)) {
        return r;
    }
    let r = parse_array(s, p);
    if !matches!(r, Err(ParseError::NoMatch)) {
        return r;
    }
    parse_map(s, p)
}

/// Reads forms from `p` until one does not parse; the position after the
/// last one read, and the forms.
fn parse_items(s: &[u8], p: usize) -> (r: Result<(usize, Vec<Expression>), ParseError>)
    requires
        p <= s@.len(),
    ensures
        match r {
            Ok((e, v)) => parse_items_spec(s@, p as int) == Ok::<(int, Seq<ExprV>), ParseError>(
                (e as int, seq_view(v@)),
            ) && p <= e <= s@.len(),
            Err(err) => parse_items_spec(s@, p as int) == Err::<(int, Seq<ExprV>), ParseError>(
                err,
            ),
        },
    decreases s@.len() - p, 2nat,
{
    let mut items: Vec<Expression> = Vec::new();
    let mut new_rest = p;
    let mut should_continue = true;
    while should_continue
        invariant
            p <= new_rest <= s@.len(),
            should_continue || parse_items_spec(s@, new_rest as int) == Ok::<
                (int, Seq<ExprV>),
                ParseError,
            >((new_rest as int, Seq::empty())),
            parse_items_spec(s@, p as int) == (match parse_items_spec(s@, new_rest as int) {
                Ok((f, xs)) => Ok((f, seq_view(items@) + xs)),
                Err(err) => Err(err),
            }),
        decreases s@.len() - new_rest, if should_continue {
            1int
        } else {
            0int
        },
    {
        let could_parse = parse_expression_top_level(s, new_rest);
        match could_parse {
            Ok((other_new_rest, expr)) => {
                let ghost before = seq_view(items@);
                let ghost x = expr@;
                items.push(expr);
                proof {
                    assert(seq_view(items@) =~= before.push(x));
                    match parse_items_spec(s@, other_new_rest as int) {
                        Ok((f, xs)) => {
                            assert(before + (seq![x] + xs) =~= before.push(x) + xs);
                        },
                        Err(_) => {},
                    }
                }
                new_rest = other_new_rest;
            },
            Err(ParseError::NoMatch) => {
                should_continue = false;
                proof {
                    assert(seq_view(items@) + Seq::<ExprV>::empty() =~= seq_view(items@));
                }
            },
            Err(err) => {
                return Err(err);
            },
        }
    }
    Ok((new_rest, items))
}

/// The forms, paired two by two, of a map literal.
fn pair_up(items: Vec<Expression>) -> (r: Option<Vec<(Expression, Expression)>>)
    ensures
        match r {
            Some(v) => seq_view(items@).len() % 2 == 0 && pairs_seq(v@) == pairs_of(
                seq_view(items@),
            ),
            None => seq_view(items@).len() % 2 == 1,
        },
{
    let ghost iv = items@;
    match tuple_even_vector(items) {
        Ok(v) => {
            proof {
                assert(pairs_seq(v@) =~= pairs_of(seq_view(iv)));
            }
            Some(v)
        },
        Err(_) => None,
    }
}

/// Reads a list: `(`, forms, `)`.
fn parse_list(s: &[u8], p: usize) -> (r: Result<(usize, Expression), ParseError>)
    requires
        p <= s@.len(),
    ensures
        outcome_view(r) == parse_bracket_spec(s@, p as int, Bracket::Paren),
    decreases s@.len() - p, 0nat,
{
    let q = skip_spaces(s, p);
    if !(q < s.len() && s[q] == 0x28u8) {
        return Err(ParseError::NoMatch);
    }
    let (new_rest, items) = match parse_items(s, q + 1) {
        Ok(x) => x,
        Err(err) => {
            return Err(err);
        },
    };
    let r = skip_spaces(s, new_rest);
    if !(r < s.len() && s[r] == 0x29u8) {
        return Err(ParseError::NoMatch);
    }
    let mut expressions: VecDeque<Expression> = VecDeque::new();
    let mut rest = items;
    let ghost all = seq_view(rest@);
    while rest.len() > 0
        invariant
            seq_view(expressions@) + seq_view(rest@) == all,
        decreases rest@.len(),
    {
        let ghost before = rest@;
        let x = rest.remove(0);
        proof {
            assert(seq_view(before) =~= seq![x@] + seq_view(rest@));
        }
        let ghost eb = seq_view(expressions@);
        expressions.push_back(x);
        proof {
            assert(seq_view(expressions@) =~= eb.push(x@));
            assert(eb + (seq![x@] + seq_view(rest@)) =~= eb.push(x@) + seq_view(rest@));
        }
    }
    proof {
        assert(seq_view(expressions@) + seq_view(rest@) =~= seq_view(expressions@));
        lemma_list_view(expressions);
    }
    Ok((r + 1, Expression::List(expressions)))
}

/// Reads an array: `[`, forms, `]`.
fn parse_array(s: &[u8], p: usize) -> (r: Result<(usize, Expression), ParseError>)
    requires
        p <= s@.len(),
    ensures
        outcome_view(r) == parse_bracket_spec(s@, p as int, Bracket::Square),
    decreases s@.len() - p, 0nat,
{
    let q = skip_spaces(s, p);
    if !(q < s.len() && s[q] == 0x5Bu8) {
        return Err(ParseError::NoMatch);
    }
    let (new_rest, array) = match parse_items(s, q + 1) {
        Ok(x) => x,
        Err(err) => {
            return Err(err);
        },
    };
    let r = skip_spaces(s, new_rest);
    if !(r < s.len() && s[r] == 0x5Du8) {
        return Err(ParseError::NoMatch);
    }
    proof {
        lemma_array_view(array);
    }
    Ok((r + 1, Expression::Array(array)))
}

/// Reads a map: `{`, an even number of forms, `}`.
fn parse_map(s: &[u8], p: usize) -> (r: Result<(usize, Expression), ParseError>)
    requires
        p <= s@.len(),
    ensures
        outcome_view(r) == parse_bracket_spec(s@, p as int, Bracket::Curly),
    decreases s@.len() - p, 0nat,
{
    let q = skip_spaces(s, p);
    if !(q < s.len() && s[q] == 0x7Bu8) {
        return Err(ParseError::NoMatch);
    }
    let (new_rest, array) = match parse_items(s, q + 1) {
        Ok(x) => x,
        Err(err) => {
            return Err(err);
        },
    };
    let r = skip_spaces(s, new_rest);
    if !(r < s.len() && s[r] == 0x7Du8) {
        return Err(ParseError::NoMatch);
    }
    match pair_up(array) {
        Some(tuples) => {
            proof {
                lemma_pre_map_view(tuples);
            }
            Ok((r + 1, Expression::Mapping(MapType::PreEvaluation(tuples))))
        },
        None => Err(ParseError::OddMapForms),
    }
}

/// Reads a whole text of forms: after the leading blanks, forms one after
/// the other until one does not parse. Gives the position where reading
/// stopped and the forms.
pub fn parse_namespace(contents: &[u8]) -> (r: Result<(usize, Vec<Expression>), ParseError>)
    ensures
        match r {
            Ok((e, v)) => parse_namespace_spec(contents@) == Ok::<(int, Seq<ExprV>), ParseError>(
                (e as int, seq_view(v@)),
            ),
            Err(err) => parse_namespace_spec(contents@) == Err::<(int, Seq<ExprV>), ParseError>(
                err,
            ),
        },
        r is Err ==> r->Err_0 != ParseError::NoMatch,
{
    let rest = skip_spaces(contents, 0);
    proof {
        lemma_items_never_no_match(contents@, rest as int);
    }
    parse_items(contents, rest)
}

/// Reading forms one after the other never answers `NoMatch`.
pub proof fn lemma_items_never_no_match(s: Seq<u8>, p: int)
    requires
        0 <= p <= s.len(),
    ensures
        parse_items_spec(s, p) != Err::<(int, Seq<ExprV>), ParseError>(ParseError::NoMatch),
    decreases s.len() - p,
{
    lemma_parse_advances(s, p);
    if let Ok((e, _)) = parse_expr_spec(s, p) {
        lemma_items_never_no_match(s, e);
    }
}

/// Reads one form from the start of a text. Gives the position after it
/// and the form.
pub fn parse(input: &str) -> (r: Result<(usize, Expression), ParseError>)
    ensures
        outcome_view(r) == parse_expr_spec(input.spec_bytes(), 0),
{
    parse_expression_top_level(input.as_bytes(), 0)
}

} // verus!
