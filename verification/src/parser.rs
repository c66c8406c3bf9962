//! Token recognizers: the lexical pieces instructions are written with.
//! Each recognizer consumes a prefix of its input and hands back the rest,
//! or fails with a parse error.

use vstd::prelude::*;
use crate::error::{ErrKind, Error};
use crate::text::{dec_val, is_alpha_char, is_digit_char, is_id_char, str_eq};

verus! {

broadcast use vstd::std_specs::vec::group_vec_axioms;

/// The reserved keywords: declaration keywords for functions, externs,
/// tests, mocks, the loop forms, and the mutation qualifier. An identifier
/// may not equal any of them.
pub open spec fn is_reserved_word(w: Seq<char>) -> bool {
    ||| w == "func"@
    ||| w == "test"@
    ||| w == "mock"@
    ||| w == "ext"@
    ||| w == "for"@
    ||| w == "while"@
    ||| w == "loop"@
    ||| w == "mut"@
}

/// The rest of the input after an expected token, or nothing when the input
/// does not start with it.
pub open spec fn expect_tag_v(s: Seq<char>, tag: Seq<char>) -> Option<Seq<char>> {
    if s.len() >= tag.len() && s.take(tag.len() as int) == tag {
        Some(s.skip(tag.len() as int))
    } else {
        None
    }
}

/// The rest of the input after one expected character, or nothing when the
/// input does not start with it.
pub open spec fn expect_char_v(s: Seq<char>, c: char) -> Option<Seq<char>> {
    if s.len() > 0 && s[0] == c {
        Some(s.drop_first())
    } else {
        None
    }
}

/// The length of the leading run of characters satisfying the identifier
/// alphabet.
pub open spec fn id_len(s: Seq<char>) -> nat
    decreases s.len(),
{
    if s.len() > 0 && is_id_char(s[0]) {
        1 + id_len(s.drop_first())
    } else {
        0
    }
}

/// The length of the leading run of decimal digits.
pub open spec fn digits_len(s: Seq<char>) -> nat
    decreases s.len(),
{
    if s.len() > 0 && is_digit_char(s[0]) {
        1 + digits_len(s.drop_first())
    } else {
        0
    }
}

/// The length of the leading run of whitespace (spaces and tabs).
pub open spec fn ws_len(s: Seq<char>) -> nat
    decreases s.len(),
{
    if s.len() > 0 && (s[0] == ' ' || s[0] == '\t') {
        1 + ws_len(s.drop_first())
    } else {
        0
    }
}

/// The length of the leading run of characters other than a double quote.
pub open spec fn non_quote_len(s: Seq<char>) -> nat
    decreases s.len(),
{
    if s.len() > 0 && s[0] != '"' {
        1 + non_quote_len(s.drop_first())
    } else {
        0
    }
}

/// Whether a word contains at least one alphabetic character.
pub open spec fn has_alpha(w: Seq<char>) -> bool {
    exists|i: int| 0 <= i < w.len() && is_alpha_char(w[i])
}

/// What recognizing an identifier yields: the longest leading run of
/// alphanumerics and underscores, which must be non-empty, contain at least
/// one alphabetic character, and not equal a reserved keyword.
pub open spec fn identifier_v(s: Seq<char>) -> Option<(Seq<char>, Seq<char>)> {
    let n = id_len(s);
    if n == 0 {
        None
    } else {
        let w = s.take(n as int);
        if is_reserved_word(w) || !has_alpha(w) {
            None
        } else {
            Some((w, s.skip(n as int)))
        }
    }
}

/// What recognizing an integer literal yields: an optional leading minus
/// sign, then one or more decimal digits, whose value must fit in a
/// 64-bit signed integer.
pub open spec fn int_constant_v(s: Seq<char>) -> Option<(i64, Seq<char>)> {
    let neg = s.len() > 0 && s[0] == '-';
    let s1 = if neg {
        s.drop_first()
    } else {
        s
    };
    let n = digits_len(s1);
    if n == 0 {
        None
    } else {
        let val = dec_val(s1.take(n as int));
        if neg {
            if val <= 0x8000000000000000 {
                Some(((0 - val as int) as i64, s1.skip(n as int)))
            } else {
                None
            }
        } else {
            if val <= 0x7fffffffffffffff {
                Some((val as i64, s1.skip(n as int)))
            } else {
                None
            }
        }
    }
}

/// What recognizing a character literal yields: the single character
/// between two single quotes.
pub open spec fn char_constant_v(s: Seq<char>) -> Option<(char, Seq<char>)> {
    if s.len() >= 3 && s[0] == '\'' && s[2] == '\'' {
        Some((s[1], s.skip(3)))
    } else {
        None
    }
}

/// What recognizing a string literal yields: the non-empty run of
/// characters between two double quotes, without escape processing.
pub open spec fn string_constant_v(s: Seq<char>) -> Option<(Seq<char>, Seq<char>)> {
    if s.len() > 0 && s[0] == '"' {
        let n = non_quote_len(s.drop_first());
        if n > 0 && s.len() > n + 1 && s[n as int + 1] == '"' {
            Some((s.subrange(1, n as int + 1), s.skip(n as int + 2)))
        } else {
            None
        }
    } else {
        None
    }
}

/// What recognizing a boolean literal yields: the keyword `true` or
/// `false`, not followed by another identifier character.
pub open spec fn bool_lit_v(s: Seq<char>) -> Option<(bool, Seq<char>)> {
    if s.len() >= 4 && s.take(4) == "true"@ && (s.len() == 4 || !is_id_char(s[4])) {
        Some((true, s.skip(4)))
    } else if s.len() >= 5 && s.take(5) == "false"@ && (s.len() == 5 || !is_id_char(s[5])) {
        Some((false, s.skip(5)))
    } else {
        None
    }
}

/// A `true` at the head of the input, on a word boundary, is the boolean
/// literal `true`.
pub proof fn lemma_bool_lit_true(s: Seq<char>)
    requires
        s.len() >= 4,
        s.take(4) == "true"@,
        s.len() == 4 || !is_id_char(s[4]),
    ensures
        bool_lit_v(s) == Some((true, s.skip(4))),
{
}

/// A `false` at the head of the input, on a word boundary, is the boolean
/// literal `false`.
pub proof fn lemma_bool_lit_false(s: Seq<char>)
    requires
        s.len() >= 5,
        s.take(5) == "false"@,
        s.len() == 5 || !is_id_char(s[5]),
    ensures
        bool_lit_v(s) == Some((false, s.skip(5))),
{
    reveal_strlit("true");
    reveal_strlit("false");
    if s.len() >= 4 && s.take(4) == "true"@ {
        assert(s.take(5)[0] == s.take(4)[0]);
        assert(s.take(4)[0] == 't');
        assert(s.take(5)[0] == 'f');
        assert(false);
    }
}

/// The decimal digit character of a value below ten holds that value.
proof fn lemma_dec_digit_val(d: nat)
    requires
        d < 10,
    ensures
        is_digit_char(crate::text::dec_digit(d)),
        crate::text::digit_val(crate::text::dec_digit(d)) == d,
{
}

/// Every character of a decimal rendering is a digit, and the whole
/// rendering is one digit run.
proof fn lemma_dec_chars_all_digits(n: nat)
    ensures
        dec_val(crate::text::dec_chars(n)) == n,
        crate::text::dec_chars(n).len() > 0,
        forall|i: int|
            0 <= i < crate::text::dec_chars(n).len() ==> is_digit_char(
                #[trigger] crate::text::dec_chars(n)[i],
            ),
    decreases n,
{
    if n < 10 {
        lemma_dec_digit_val(n);
        assert(crate::text::dec_chars(n) == seq![crate::text::dec_digit(n)]);
        assert(seq![crate::text::dec_digit(n)].drop_last() =~= Seq::<char>::empty());
        assert(seq![crate::text::dec_digit(n)].last() == crate::text::dec_digit(n));
        assert(dec_val(Seq::<char>::empty()) == 0);
    } else {
        lemma_dec_chars_all_digits(n / 10);
        lemma_dec_digit_val(n % 10);
        assert(crate::text::dec_chars(n).drop_last() =~= crate::text::dec_chars(n / 10));
        assert(crate::text::dec_chars(n).last() == crate::text::dec_digit(n % 10));
        assert(dec_val(crate::text::dec_chars(n)) == dec_val(crate::text::dec_chars(n / 10)) * 10
            + crate::text::digit_val(crate::text::dec_digit(n % 10)));
        vstd::arithmetic::div_mod::lemma_fundamental_div_mod(n as int, 10);
    }
}

/// A run of digits is consumed whole by the digit scanner.
proof fn lemma_digits_len_all(s: Seq<char>)
    requires
        forall|i: int| 0 <= i < s.len() ==> is_digit_char(#[trigger] s[i]),
    ensures
        digits_len(s) == s.len(),
    decreases s.len(),
{
    if s.len() > 0 {
        lemma_digits_len_all(s.drop_first());
    }
}

/// Law: integer literal round trip. The canonical decimal rendering of any
/// machine integer parses back to exactly that integer, with nothing left
/// over; so parsing an integer literal and printing the result yields an
/// equivalent literal.
pub proof fn lemma_int_literal_round_trip(n: i64)
    ensures
        int_constant_v(crate::text::dec_chars_int(n as int)) == Some((n, Seq::<char>::empty())),
{
    let s = crate::text::dec_chars_int(n as int);
    if n >= 0 {
        let m = n as nat;
        lemma_dec_chars_all_digits(m);
        assert(s == crate::text::dec_chars(m));
        assert('-' as u32 == 45);
        assert(!is_digit_char('-'));
        assert(is_digit_char(s[0]));
        assert(s[0] != '-');
        lemma_digits_len_all(s);
        assert(s.take(s.len() as int) =~= s);
        assert(s.skip(s.len() as int) =~= Seq::<char>::empty());
    } else {
        let m = (-(n as int)) as nat;
        lemma_dec_chars_all_digits(m);
        assert(s == seq!['-'] + crate::text::dec_chars(m));
        assert(s[0] == '-');
        let s1 = s.drop_first();
        assert(s1 =~= crate::text::dec_chars(m));
        lemma_digits_len_all(s1);
        assert(s1.take(s1.len() as int) =~= s1);
        assert(s1.skip(s1.len() as int) =~= Seq::<char>::empty());
        assert(m <= 0x8000000000000000);
        assert((0 - m as int) as i64 == n);
    }
}

/// Law: character literal round trip. The canonical rendering of a
/// character literal, the character between single quotes, parses back to
/// exactly that character, with nothing left over.
pub proof fn lemma_char_literal_round_trip(c: char)
    ensures
        char_constant_v(seq!['\''].push(c).push('\'')) == Some((c, Seq::<char>::empty())),
{
    let s = seq!['\''].push(c).push('\'');
    assert(s.len() == 3);
    assert(s[0] == '\'' && s[1] == c && s[2] == '\'');
    assert(s.skip(3) =~= Seq::<char>::empty());
}

/// A run without any double quote is consumed whole by the string scanner.
proof fn lemma_non_quote_len_all(s: Seq<char>)
    requires
        forall|i: int| 0 <= i < s.len() ==> (#[trigger] s[i]) != '"',
    ensures
        non_quote_len(s + seq!['"']) == s.len(),
    decreases s.len(),
{
    if s.len() == 0 {
        assert((s + seq!['"'])[0] == '"');
    } else {
        lemma_non_quote_len_all(s.drop_first());
        assert((s + seq!['"']).drop_first() =~= s.drop_first() + seq!['"']);
        assert((s + seq!['"'])[0] == s[0]);
    }
}

/// Law: string literal round trip. The canonical rendering of a non-empty
/// string literal without inner double quotes, the text between double
/// quotes, parses back to exactly that text, with nothing left over.
pub proof fn lemma_string_literal_round_trip(s: Seq<char>)
    requires
        s.len() > 0,
        forall|i: int| 0 <= i < s.len() ==> (#[trigger] s[i]) != '"',
    ensures
        string_constant_v(seq!['"'] + s + seq!['"']) == Some((s, Seq::<char>::empty())),
{
    let p = seq!['"'] + s + seq!['"'];
    assert(p[0] == '"');
    assert(p.drop_first() =~= s + seq!['"']);
    lemma_non_quote_len_all(s);
    let n = s.len();
    assert(p[n as int + 1] == '"');
    assert(p.subrange(1, n as int + 1) =~= s);
    assert(p.skip(n as int + 2) =~= Seq::<char>::empty());
}

/// Law: boolean literal round trip. The canonical renderings of the two
/// boolean literals parse back to exactly those booleans.
pub proof fn lemma_bool_literal_round_trip()
    ensures
        bool_lit_v("true"@) == Some((true, "true"@.skip(4))),
        bool_lit_v("false"@) == Some((false, "false"@.skip(5))),
        "true"@.skip(4) == Seq::<char>::empty(),
        "false"@.skip(5) == Seq::<char>::empty(),
{
    reveal_strlit("true");
    reveal_strlit("false");
    assert("true"@.take(4) =~= "true"@);
    assert("false"@.take(5) =~= "false"@);
    lemma_bool_lit_true("true"@);
    lemma_bool_lit_false("false"@);
    assert("true"@.skip(4) =~= Seq::<char>::empty());
    assert("false"@.skip(5) =~= Seq::<char>::empty());
}

/// The identifier run never runs past the end of the input.
pub proof fn lemma_id_len_le(s: Seq<char>)
    ensures
        id_len(s) <= s.len(),
    decreases s.len(),
{
    if s.len() > 0 && is_id_char(s[0]) {
        lemma_id_len_le(s.drop_first());
    }
}

/// The digit run never runs past the end of the input.
pub proof fn lemma_digits_len_le(s: Seq<char>)
    ensures
        digits_len(s) <= s.len(),
    decreases s.len(),
{
    if s.len() > 0 && is_digit_char(s[0]) {
        lemma_digits_len_le(s.drop_first());
    }
}

/// The whitespace run never runs past the end of the input.
pub proof fn lemma_ws_len_le(s: Seq<char>)
    ensures
        ws_len(s) <= s.len(),
    decreases s.len(),
{
    if s.len() > 0 && (s[0] == ' ' || s[0] == '\t') {
        lemma_ws_len_le(s.drop_first());
    }
}

/// The length of the leading identifier run, as executable code.
#[verifier::loop_isolation(false)]
pub(crate) fn scan_id_len(s: &str) -> (n: usize)
    ensures
        n as nat == id_len(s@),
        n <= s@.len(),
{
    let len = s.unicode_len();
    let mut i: usize = 0;
    proof {
        assert(s@.skip(0) =~= s@);
    }
    while i < len
        invariant
            i <= len,
            id_len(s@) == i + id_len(s@.skip(i as int)),
        decreases len - i,
    {
        proof {
            assert(s@.skip(i as int)[0] == s@[i as int]);
            assert(s@.skip(i as int).drop_first() =~= s@.skip(i as int + 1));
        }
        if !crate::text::is_id(s.get_char(i)) {
            return i;
        }
        i = i + 1;
    }
    proof {
        assert(s@.skip(i as int).len() == 0);
    }
    i
}

/// The length of the leading digit run, as executable code.
#[verifier::loop_isolation(false)]
pub(crate) fn scan_digits_len(s: &str) -> (n: usize)
    ensures
        n as nat == digits_len(s@),
        n <= s@.len(),
{
    let len = s.unicode_len();
    let mut i: usize = 0;
    proof {
        assert(s@.skip(0) =~= s@);
    }
    while i < len
        invariant
            i <= len,
            digits_len(s@) == i + digits_len(s@.skip(i as int)),
        decreases len - i,
    {
        proof {
            assert(s@.skip(i as int)[0] == s@[i as int]);
            assert(s@.skip(i as int).drop_first() =~= s@.skip(i as int + 1));
        }
        if !crate::text::is_digit(s.get_char(i)) {
            return i;
        }
        i = i + 1;
    }
    proof {
        assert(s@.skip(i as int).len() == 0);
    }
    i
}

/// A parse error with the given message.
fn parse_error(msg: &str) -> (e: Error)
    ensures
        e@.kind == ErrKind::Parsing,
        e@.msg == msg@,
{
    Error::new(ErrKind::Parsing).with_msg(msg.to_owned())
}

/// Token recognizer functions: the particular tokens of the language.
pub struct Token;

impl Token {
    /// Recognize one expected character at the head of the input.
    fn specific_char<'a>(input: &'a str, character: char) -> (r: Result<(&'a str, char), Error>)
        ensures
            match (r, expect_char_v(input@, character)) {
                (Ok((rest, c)), Some(rv)) => rest@ == rv && c == character,
                (Err(_), None) => true,
                _ => false,
            },
    {
        let len = input.unicode_len();
        if len > 0 && input.get_char(0) == character {
            let rest = input.substring_char(1, len);
            proof {
                assert(rest@ =~= input@.drop_first());
            }
            Ok((rest, character))
        } else {
            Err(parse_error("unexpected character"))
        }
    }

    /// Recognize a single quote.
    pub fn single_quote(input: &str) -> (r: Result<(&str, char), Error>)
        ensures
            match (r, expect_char_v(input@, '\'')) {
                (Ok((rest, c)), Some(rv)) => rest@ == rv && c == '\'',
                (Err(_), None) => true,
                _ => false,
            },
    {
        Token::specific_char(input, '\'')
    }

    /// Recognize a double quote.
    pub fn double_quote(input: &str) -> (r: Result<(&str, char), Error>)
        ensures
            match (r, expect_char_v(input@, '"')) {
                (Ok((rest, c)), Some(rv)) => rest@ == rv && c == '"',
                (Err(_), None) => true,
                _ => false,
            },
    {
        Token::specific_char(input, '"')
    }

    /// Recognize a plus sign.
    pub fn add(input: &str) -> (r: Result<(&str, char), Error>)
        ensures
            match (r, expect_char_v(input@, '+')) {
                (Ok((rest, c)), Some(rv)) => rest@ == rv && c == '+',
                (Err(_), None) => true,
                _ => false,
            },
    {
        Token::specific_char(input, '+')
    }

    /// Recognize an equals sign.
    pub fn equal(input: &str) -> (r: Result<(&str, char), Error>)
        ensures
            match (r, expect_char_v(input@, '=')) {
                (Ok((rest, c)), Some(rv)) => rest@ == rv && c == '=',
                (Err(_), None) => true,
                _ => false,
            },
    {
        Token::specific_char(input, '=')
    }

    /// Recognize a comma.
    pub fn comma(input: &str) -> (r: Result<(&str, char), Error>)
        ensures
            match (r, expect_char_v(input@, ',')) {
                (Ok((rest, c)), Some(rv)) => rest@ == rv && c == ',',
                (Err(_), None) => true,
                _ => false,
            },
    {
        Token::specific_char(input, ',')
    }

    /// Recognize a left parenthesis.
    pub fn left_parenthesis(input: &str) -> (r: Result<(&str, char), Error>)
        ensures
            match (r, expect_char_v(input@, '(')) {
                (Ok((rest, c)), Some(rv)) => rest@ == rv && c == '(',
                (Err(_), None) => true,
                _ => false,
            },
    {
        Token::specific_char(input, '(')
    }

    /// Recognize a right parenthesis.
    pub fn right_parenthesis(input: &str) -> (r: Result<(&str, char), Error>)
        ensures
            match (r, expect_char_v(input@, ')')) {
                (Ok((rest, c)), Some(rv)) => rest@ == rv && c == ')',
                (Err(_), None) => true,
                _ => false,
            },
    {
        Token::specific_char(input, ')')
    }

    /// Recognize a left curly bracket.
    pub fn left_curly_bracket(input: &str) -> (r: Result<(&str, char), Error>)
        ensures
            match (r, expect_char_v(input@, '{')) {
                (Ok((rest, c)), Some(rv)) => rest@ == rv && c == '{',
                (Err(_), None) => true,
                _ => false,
            },
    {
        Token::specific_char(input, '{')
    }

    /// Recognize a right curly bracket.
    pub fn right_curly_bracket(input: &str) -> (r: Result<(&str, char), Error>)
        ensures
            match (r, expect_char_v(input@, '}')) {
                (Ok((rest, c)), Some(rv)) => rest@ == rv && c == '}',
                (Err(_), None) => true,
                _ => false,
            },
    {
        Token::specific_char(input, '}')
    }

    /// Recognize a left square bracket.
    pub fn left_bracket(input: &str) -> (r: Result<(&str, char), Error>)
        ensures
            match (r, expect_char_v(input@, '[')) {
                (Ok((rest, c)), Some(rv)) => rest@ == rv && c == '[',
                (Err(_), None) => true,
                _ => false,
            },
    {
        Token::specific_char(input, '[')
    }

    /// Recognize a right square bracket.
    pub fn right_bracket(input: &str) -> (r: Result<(&str, char), Error>)
        ensures
            match (r, expect_char_v(input@, ']')) {
                (Ok((rest, c)), Some(rv)) => rest@ == rv && c == ']',
                (Err(_), None) => true,
                _ => false,
            },
    {
        Token::specific_char(input, ']')
    }

    /// Recognize a semicolon.
    pub fn semicolon(input: &str) -> (r: Result<(&str, char), Error>)
        ensures
            match (r, expect_char_v(input@, ';')) {
                (Ok((rest, c)), Some(rv)) => rest@ == rv && c == ';',
                (Err(_), None) => true,
                _ => false,
            },
    {
        Token::specific_char(input, ';')
    }

    /// Recognize a specific string token, such as a declaration keyword.
    fn specific_token<'a>(input: &'a str, token: &'a str) -> (r: Result<(&'a str, &'a str), Error>)
        ensures
            match (r, expect_tag_v(input@, token@)) {
                (Ok((rest, t)), Some(rv)) => rest@ == rv && t@ == token@,
                (Err(_), None) => true,
                _ => false,
            },
    {
        let tlen = token.unicode_len();
        let len = input.unicode_len();
        if len < tlen {
            return Err(parse_error("unexpected token"));
        }
        let head = input.substring_char(0, tlen);
        proof {
            assert(head@ =~= input@.take(tlen as int));
        }
        if !str_eq(head, token) {
            return Err(parse_error("unexpected token"));
        }
        let rest = input.substring_char(tlen, len);
        proof {
            assert(rest@ =~= input@.skip(tlen as int));
        }
        Ok((rest, head))
    }

    /// Recognize the function declaration keyword.
    pub fn func_tok<'a>(input: &'a str) -> (r: Result<(&'a str, &'a str), Error>)
        ensures
            r is Ok <==> expect_tag_v(input@, "func "@) is Some,
            r is Ok ==> r->Ok_0.0@ == expect_tag_v(input@, "func "@)->0,
    {
        Token::specific_token(input, "func ")
    }

    /// Recognize the extern declaration keyword.
    pub fn ext_tok<'a>(input: &'a str) -> (r: Result<(&'a str, &'a str), Error>)
        ensures
            r is Ok <==> expect_tag_v(input@, "ext "@) is Some,
            r is Ok ==> r->Ok_0.0@ == expect_tag_v(input@, "ext "@)->0,
    {
        Token::specific_token(input, "ext ")
    }

    /// Recognize the test declaration keyword.
    pub fn test_tok<'a>(input: &'a str) -> (r: Result<(&'a str, &'a str), Error>)
        ensures
            r is Ok <==> expect_tag_v(input@, "test "@) is Some,
            r is Ok ==> r->Ok_0.0@ == expect_tag_v(input@, "test "@)->0,
    {
        Token::specific_token(input, "test ")
    }

    /// Recognize the mock declaration keyword.
    pub fn mock_tok<'a>(input: &'a str) -> (r: Result<(&'a str, &'a str), Error>)
        ensures
            r is Ok <==> expect_tag_v(input@, "mock "@) is Some,
            r is Ok ==> r->Ok_0.0@ == expect_tag_v(input@, "mock "@)->0,
    {
        Token::specific_token(input, "mock ")
    }

    /// Recognize the loop keyword.
    pub fn loop_tok<'a>(input: &'a str) -> (r: Result<(&'a str, &'a str), Error>)
        ensures
            r is Ok <==> expect_tag_v(input@, "loop "@) is Some,
            r is Ok ==> r->Ok_0.0@ == expect_tag_v(input@, "loop "@)->0,
    {
        Token::specific_token(input, "loop ")
    }

    /// Recognize the while keyword.
    pub fn while_tok<'a>(input: &'a str) -> (r: Result<(&'a str, &'a str), Error>)
        ensures
            r is Ok <==> expect_tag_v(input@, "while "@) is Some,
            r is Ok ==> r->Ok_0.0@ == expect_tag_v(input@, "while "@)->0,
    {
        Token::specific_token(input, "while ")
    }

    /// Recognize the for keyword.
    pub fn for_tok<'a>(input: &'a str) -> (r: Result<(&'a str, &'a str), Error>)
        ensures
            r is Ok <==> expect_tag_v(input@, "for "@) is Some,
            r is Ok ==> r->Ok_0.0@ == expect_tag_v(input@, "for "@)->0,
    {
        Token::specific_token(input, "for ")
    }

    /// Recognize the mutation qualifier.
    pub fn mut_tok<'a>(input: &'a str) -> (r: Result<(&'a str, &'a str), Error>)
        ensures
            r is Ok <==> expect_tag_v(input@, "mut "@) is Some,
            r is Ok ==> r->Ok_0.0@ == expect_tag_v(input@, "mut "@)->0,
    {
        Token::specific_token(input, "mut ")
    }

    /// Recognize an identifier: a non-empty run of alphanumerics and
    /// underscores with at least one alphabetic character, not equal to a
    /// reserved keyword.
    #[verifier::loop_isolation(false)]
    pub fn identifier<'a>(input: &'a str) -> (r: Result<(&'a str, &'a str), Error>)
        ensures
            match (r, identifier_v(input@)) {
                (Ok((rest, id)), Some(p)) => id@ == p.0 && rest@ == p.1,
                (Err(_), None) => true,
                _ => false,
            },
    {
        let n = scan_id_len(input);
        if n == 0 {
            return Err(parse_error("invalid identifier"));
        }
        let len = input.unicode_len();
        let id = input.substring_char(0, n);
        let rest = input.substring_char(n, len);
        proof {
            assert(id@ =~= input@.take(n as int));
            assert(rest@ =~= input@.skip(n as int));
        }
        if str_eq(id, "func") || str_eq(id, "test") || str_eq(id, "mock") || str_eq(id, "ext")
            || str_eq(id, "for") || str_eq(id, "while") || str_eq(id, "loop") || str_eq(
            id,
            "mut",
        ) {
            return Err(parse_error("identifier cannot be a keyword"));
        }
        let mut i: usize = 0;
        while i < n
            invariant
                i <= n,
                forall|j: int| 0 <= j < i ==> !is_alpha_char(id@[j]),
            decreases n - i,
        {
            if crate::text::is_alpha(id.get_char(i)) {
                return Ok((rest, id));
            }
            i = i + 1;
        }
        proof {
            assert(!has_alpha(id@));
        }
        Err(parse_error("at least one alphabetical character is required"))
    }

    /// Recognize an integer literal: an optional minus sign, then decimal
    /// digits, fitting in a 64-bit signed integer.
    #[verifier::loop_isolation(false)]
    pub fn int_constant<'a>(input: &'a str) -> (r: Result<(&'a str, i64), Error>)
        ensures
            match (r, int_constant_v(input@)) {
                (Ok((rest, v)), Some(p)) => v == p.0 && rest@ == p.1,
                (Err(_), None) => true,
                _ => false,
            },
    {
        let len = input.unicode_len();
        let neg = len > 0 && input.get_char(0) == '-';
        let s1: &str = if neg {
            input.substring_char(1, len)
        } else {
            input
        };
        proof {
            if neg {
                assert(s1@ =~= input@.drop_first());
            }
        }
        let s1len = s1.unicode_len();
        let n = scan_digits_len(s1);
        if n == 0 {
            return Err(parse_error("invalid integer"));
        }
        let bound: u64 = if neg {
            0x8000000000000000
        } else {
            0x7fffffffffffffff
        };
        let mut acc: u64 = 0;
        let mut i: usize = 0;
        while i < n
            invariant
                i <= n,
                n as nat == digits_len(s1@),
                n <= s1@.len(),
                acc as nat == dec_val(s1@.take(i as int)),
                acc <= bound,
            decreases n - i,
        {
            let c = s1.get_char(i);
            proof {
                lemma_digits_prefix(s1@, n as int, i as int);
                assert(s1@.take(i as int + 1).drop_last() =~= s1@.take(i as int));
                assert(s1@.take(i as int + 1).last() == s1@[i as int]);
            }
            let d = (c as u32 - 48) as u64;
            if acc > (bound - d) / 10 {
                proof {
                    lemma_dec_val_grows(s1@, i as int + 1, n as int);
                    assert(dec_val(s1@.take(i as int + 1)) == acc * 10 + d);
                }
                return Err(parse_error("integer literal does not fit"));
            }
            acc = acc * 10 + d;
            i = i + 1;
        }
        proof {
            assert(s1@.take(n as int) == s1@.take(n as int));
        }
        let rest = s1.substring_char(n, s1len);
        proof {
            assert(rest@ =~= s1@.skip(n as int));
        }
        if neg {
            let v: i64 = if acc == 0x8000000000000000 {
                i64::MIN
            } else {
                -(acc as i64)
            };
            Ok((rest, v))
        } else {
            Ok((rest, acc as i64))
        }
    }

    /// Recognize a character literal: a single character between single
    /// quotes.
    pub fn char_constant<'a>(input: &'a str) -> (r: Result<(&'a str, char), Error>)
        ensures
            match (r, char_constant_v(input@)) {
                (Ok((rest, c)), Some(p)) => c == p.0 && rest@ == p.1,
                (Err(_), None) => true,
                _ => false,
            },
    {
        let len = input.unicode_len();
        if len >= 3 && input.get_char(0) == '\'' && input.get_char(2) == '\'' {
            let c = input.get_char(1);
            let rest = input.substring_char(3, len);
            proof {
                assert(rest@ =~= input@.skip(3));
            }
            Ok((rest, c))
        } else {
            Err(parse_error("invalid character literal"))
        }
    }

    /// Recognize a string literal: a non-empty run of characters between
    /// double quotes, without escape processing.
    #[verifier::loop_isolation(false)]
    pub fn string_constant<'a>(input: &'a str) -> (r: Result<(&'a str, &'a str), Error>)
        ensures
            match (r, string_constant_v(input@)) {
                (Ok((rest, s)), Some(p)) => s@ == p.0 && rest@ == p.1,
                (Err(_), None) => true,
                _ => false,
            },
    {
        let len = input.unicode_len();
        if len == 0 || input.get_char(0) != '"' {
            return Err(parse_error("invalid string literal"));
        }
        let mut n: usize = 0;
        proof {
            assert(input@.drop_first().skip(0) =~= input@.drop_first());
        }
        while n + 1 < len && input.get_char(n + 1) != '"'
            invariant
                n + 1 <= len,
                non_quote_len(input@.drop_first()) == n + non_quote_len(
                    input@.drop_first().skip(n as int),
                ),
            decreases len - n,
        {
            proof {
                assert(input@.drop_first().skip(n as int)[0] == input@[n as int + 1]);
                assert(input@.drop_first().skip(n as int).drop_first() =~= input@.drop_first().skip(
                    n as int + 1,
                ));
            }
            n = n + 1;
        }
        proof {
            if n + 1 < len {
                assert(input@.drop_first().skip(n as int)[0] == input@[n as int + 1]);
            } else {
                assert(input@.drop_first().skip(n as int).len() == 0);
            }
            assert(non_quote_len(input@.drop_first()) == n as nat);
        }
        if n == 0 {
            return Err(parse_error("empty string literal"));
        }
        if n + 1 >= len {
            return Err(parse_error("unclosed quote delimiter"));
        }
        let content = input.substring_char(1, n + 1);
        let rest = input.substring_char(n + 2, len);
        proof {
            assert(content@ =~= input@.subrange(1, n as int + 1));
            assert(rest@ =~= input@.skip(n as int + 2));
        }
        Ok((rest, content))
    }

    /// Consume one or more whitespace characters (spaces and tabs).
    pub fn consume_whitespaces<'a>(input: &'a str) -> (r: Result<(&'a str, &'a str), Error>)
        ensures
            match r {
                Ok((rest, ws)) => ws_len(input@) > 0 && ws@ == input@.take(ws_len(input@) as int)
                    && rest@ == input@.skip(ws_len(input@) as int),
                Err(_) => ws_len(input@) == 0,
            },
    {
        let n = scan_ws_len(input);
        if n == 0 {
            return Err(parse_error("at least one whitespace is required"));
        }
        let len = input.unicode_len();
        let ws = input.substring_char(0, n);
        let rest = input.substring_char(n, len);
        proof {
            assert(ws@ =~= input@.take(n as int));
            assert(rest@ =~= input@.skip(n as int));
        }
        Ok((rest, ws))
    }

    /// Consume zero or more whitespace characters (spaces and tabs).
    pub fn maybe_consume_whitespaces<'a>(input: &'a str) -> (r: Result<(&'a str, &'a str), Error>)
        ensures
            match r {
                Ok((rest, ws)) => ws@ == input@.take(ws_len(input@) as int) && rest@ == input@.skip(
                    ws_len(input@) as int,
                ),
                Err(_) => false,
            },
    {
        let n = scan_ws_len(input);
        let len = input.unicode_len();
        let ws = input.substring_char(0, n);
        let rest = input.substring_char(n, len);
        proof {
            assert(ws@ =~= input@.take(n as int));
            assert(rest@ =~= input@.skip(n as int));
        }
        Ok((rest, ws))
    }
}

/// The length of the leading whitespace run, as executable code.
#[verifier::loop_isolation(false)]
pub(crate) fn scan_ws_len(s: &str) -> (n: usize)
    ensures
        n as nat == ws_len(s@),
        n <= s@.len(),
{
    let len = s.unicode_len();
    let mut i: usize = 0;
    proof {
        assert(s@.skip(0) =~= s@);
    }
    while i < len
        invariant
            i <= len,
            ws_len(s@) == i + ws_len(s@.skip(i as int)),
        decreases len - i,
    {
        proof {
            assert(s@.skip(i as int)[0] == s@[i as int]);
            assert(s@.skip(i as int).drop_first() =~= s@.skip(i as int + 1));
        }
        let c = s.get_char(i);
        if !(c == ' ' || c == '\t') {
            return i;
        }
        i = i + 1;
    }
    proof {
        assert(s@.skip(i as int).len() == 0);
    }
    i
}

/// Every position below the digit-run length holds a digit.
proof fn lemma_digits_prefix(s: Seq<char>, n: int, i: int)
    requires
        0 <= i < n,
        n == digits_len(s),
        n <= s.len(),
    ensures
        is_digit_char(s[i]),
    decreases i,
{
    if i > 0 {
        lemma_digits_prefix(s.drop_first(), n - 1, i - 1);
        assert(s.drop_first()[i - 1] == s[i]);
    }
}

/// The value of a longer digit run is at least the value of a prefix of it.
proof fn lemma_dec_val_grows(s: Seq<char>, j: int, n: int)
    requires
        0 < j <= n,
        n == digits_len(s),
        n <= s.len(),
    ensures
        dec_val(s.take(n)) >= dec_val(s.take(j)),
    decreases n - j,
{
    if j < n {
        lemma_dec_val_grows(s, j + 1, n);
        assert(s.take(j + 1).drop_last() =~= s.take(j));
        assert(dec_val(s.take(j + 1)) == dec_val(s.take(j)) * 10 + crate::text::digit_val(
            s.take(j + 1).last(),
        ));
    }
}

} // verus!
