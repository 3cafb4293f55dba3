//! The JSON tokenizer: the input is trimmed, then scanned left to
//! right into punctuation, keyword, number and string tokens. A
//! number's text is kept as written — its digits and dots — rather
//! than converted to a machine float, which keeps every token a plain
//! value.

use vstd::prelude::*;
use vstd::string::StrSliceExecFns;

verus! {

/// One JSON token. A number carries its text as written.
#[derive(Debug, Clone, PartialEq, Eq)]
pub enum Token {
    Null,
    True,
    False,
    Number(String),
    TString(String),
    LeftBrace,
    RightBrace,
    LeftBracket,
    RightBracket,
    Comma,
    Colon,
    EndOfFile,
}

/// The mathematical value of a token: the same shape over character
/// sequences.
pub enum SpecTok {
    Null,
    True,
    False,
    Number(Seq<char>),
    Text(Seq<char>),
    LeftBrace,
    RightBrace,
    LeftBracket,
    RightBracket,
    Comma,
    Colon,
    EndOfFile,
}

impl View for Token {
    type V = SpecTok;

    open spec fn view(&self) -> SpecTok {
        match self {
            Token::Null => SpecTok::Null,
            Token::True => SpecTok::True,
            Token::False => SpecTok::False,
            Token::Number(s) => SpecTok::Number(s@),
            Token::TString(s) => SpecTok::Text(s@),
            Token::LeftBrace => SpecTok::LeftBrace,
            Token::RightBrace => SpecTok::RightBrace,
            Token::LeftBracket => SpecTok::LeftBracket,
            Token::RightBracket => SpecTok::RightBracket,
            Token::Comma => SpecTok::Comma,
            Token::Colon => SpecTok::Colon,
            Token::EndOfFile => SpecTok::EndOfFile,
        }
    }
}

/// Why tokenizing failed.
#[derive(Debug, Clone, PartialEq, Eq)]
pub enum TokenizerError {
    /// A character no token can start with.
    InvalidCharacter(char),
    /// A character that is out of place.
    UnexpectedToken(char),
    /// A number run whose text is not a valid number.
    ParseNumberError,
    /// A `n` that does not begin `null`.
    ExpectedNull,
    /// A `t` or `f` that does not begin the expected keyword; carries
    /// the expected value and the text found.
    ParseBooleanError(bool, String),
    /// The expected character against the one found.
    MismatchTokenExpectation(char, char),
}

/// The mathematical value of a tokenizer error.
pub enum SpecTokErr {
    InvalidCharacter(char),
    UnexpectedToken(char),
    ParseNumberError,
    ExpectedNull,
    ParseBooleanError(bool, Seq<char>),
    MismatchTokenExpectation(char, char),
}

impl View for TokenizerError {
    type V = SpecTokErr;

    open spec fn view(&self) -> SpecTokErr {
        match self {
            TokenizerError::InvalidCharacter(c) => SpecTokErr::InvalidCharacter(*c),
            TokenizerError::UnexpectedToken(c) => SpecTokErr::UnexpectedToken(*c),
            TokenizerError::ParseNumberError => SpecTokErr::ParseNumberError,
            TokenizerError::ExpectedNull => SpecTokErr::ExpectedNull,
            TokenizerError::ParseBooleanError(b, s) => SpecTokErr::ParseBooleanError(*b, s@),
            TokenizerError::MismatchTokenExpectation(e, f) => SpecTokErr::MismatchTokenExpectation(
                *e,
                *f,
            ),
        }
    }
}

/// The characters `str::trim` strips: those with the Unicode
/// White_Space property.
pub open spec fn is_unicode_space(c: char) -> bool {
    c == '\u{0009}' || c == '\u{000A}' || c == '\u{000B}' || c == '\u{000C}' || c == '\u{000D}'
        || c == '\u{0020}' || c == '\u{0085}' || c == '\u{00A0}' || c == '\u{1680}' || c
        == '\u{2000}' || c == '\u{2001}' || c == '\u{2002}' || c == '\u{2003}' || c == '\u{2004}'
        || c == '\u{2005}' || c == '\u{2006}' || c == '\u{2007}' || c == '\u{2008}' || c
        == '\u{2009}' || c == '\u{200A}' || c == '\u{2028}' || c == '\u{2029}' || c == '\u{202F}'
        || c == '\u{205F}' || c == '\u{3000}'
}

fn is_unicode_space_exec(c: char) -> (r: bool)
    ensures
        r == is_unicode_space(c),
{
    c == '\u{0009}' || c == '\u{000A}' || c == '\u{000B}' || c == '\u{000C}' || c == '\u{000D}'
        || c == '\u{0020}' || c == '\u{0085}' || c == '\u{00A0}' || c == '\u{1680}' || c
        == '\u{2000}' || c == '\u{2001}' || c == '\u{2002}' || c == '\u{2003}' || c == '\u{2004}'
        || c == '\u{2005}' || c == '\u{2006}' || c == '\u{2007}' || c == '\u{2008}' || c
        == '\u{2009}' || c == '\u{200A}' || c == '\u{2028}' || c == '\u{2029}' || c == '\u{202F}'
        || c == '\u{205F}' || c == '\u{3000}'
}

/// The first index at or after `i` holding a character that is not
/// Unicode white space, or the length if there is none.
pub open spec fn first_dark(s: Seq<char>, i: int) -> int
    decreases s.len() - i,
{
    if i >= s.len() {
        s.len() as int
    } else if is_unicode_space(s[i]) {
        first_dark(s, i + 1)
    } else {
        i
    }
}

/// The last index before `j` holding a character that is not Unicode
/// white space, plus one; `0` if there is none.
pub open spec fn last_dark_end(s: Seq<char>, j: int) -> int
    decreases j,
{
    if j <= 0 {
        0
    } else if is_unicode_space(s[j - 1]) {
        last_dark_end(s, j - 1)
    } else {
        j
    }
}

/// What `str::trim` leaves: the input without its leading and
/// trailing white space.
pub open spec fn trim_spec(s: Seq<char>) -> Seq<char> {
    let a = first_dark(s, 0);
    let b = last_dark_end(s, s.len() as int);
    if a < b {
        s.subrange(a, b)
    } else {
        Seq::empty()
    }
}

proof fn lemma_first_dark_bounds(s: Seq<char>, i: int)
    requires
        0 <= i <= s.len(),
    ensures
        i <= first_dark(s, i) <= s.len(),
        first_dark(s, i) < s.len() ==> !is_unicode_space(s[first_dark(s, i)]),
        forall|k: int| i <= k < first_dark(s, i) ==> is_unicode_space(s[k]),
    decreases s.len() - i,
{
    if i < s.len() && is_unicode_space(s[i]) {
        lemma_first_dark_bounds(s, i + 1);
    }
}

proof fn lemma_last_dark_bounds(s: Seq<char>, j: int)
    requires
        0 <= j <= s.len(),
    ensures
        0 <= last_dark_end(s, j) <= j,
        last_dark_end(s, j) > 0 ==> !is_unicode_space(s[last_dark_end(s, j) - 1]),
        forall|k: int| last_dark_end(s, j) <= k < j ==> is_unicode_space(s[k]),
    decreases j,
{
    if j > 0 && is_unicode_space(s[j - 1]) {
        lemma_last_dark_bounds(s, j - 1);
    }
}

/// The white space the scanner itself skips between tokens.
pub open spec fn is_lexer_space(c: char) -> bool {
    c == ' ' || c == '\n' || c == '\t' || c == '\r'
}

proof fn lemma_lexer_space_is_unicode_space(c: char)
    ensures
        is_lexer_space(c) ==> is_unicode_space(c),
{
}

/// A character that can continue a number run: a digit or a dot.
pub open spec fn is_num_char(c: char) -> bool {
    crate::text::is_dec_digit(c) || c == '.'
}

/// The end of the number run starting at `i`: the first index at or
/// after it that is no digit and no dot, or the length.
pub open spec fn num_end(s: Seq<char>, i: int) -> int
    decreases s.len() - i,
{
    if i >= s.len() {
        s.len() as int
    } else if is_num_char(s[i]) {
        num_end(s, i + 1)
    } else {
        i
    }
}

proof fn lemma_num_end_bounds(s: Seq<char>, i: int)
    requires
        0 <= i <= s.len(),
    ensures
        i <= num_end(s, i) <= s.len(),
        num_end(s, i) < s.len() ==> !is_num_char(s[num_end(s, i)]),
        forall|k: int| i <= k < num_end(s, i) ==> is_num_char(s[k]),
    decreases s.len() - i,
{
    if i < s.len() && is_num_char(s[i]) {
        lemma_num_end_bounds(s, i + 1);
    }
}

/// The end of the white-space run starting at `i`.
pub open spec fn ws_end(s: Seq<char>, i: int) -> int
    decreases s.len() - i,
{
    if i >= s.len() {
        s.len() as int
    } else if is_lexer_space(s[i]) {
        ws_end(s, i + 1)
    } else {
        i
    }
}

proof fn lemma_ws_end_bounds(s: Seq<char>, i: int)
    requires
        0 <= i <= s.len(),
    ensures
        i <= ws_end(s, i) <= s.len(),
        ws_end(s, i) < s.len() ==> !is_lexer_space(s[ws_end(s, i)]),
        forall|k: int| i <= k < ws_end(s, i) ==> is_lexer_space(s[k]),
    decreases s.len() - i,
{
    if i < s.len() && is_lexer_space(s[i]) {
        lemma_ws_end_bounds(s, i + 1);
    }
}

/// The position of the closing quote at or after `i`, if any.
pub open spec fn quote_at(s: Seq<char>, i: int) -> Option<int>
    decreases s.len() - i,
{
    if i >= s.len() {
        None
    } else if s[i] == '"' {
        Some(i)
    } else {
        quote_at(s, i + 1)
    }
}

proof fn lemma_quote_at_bounds(s: Seq<char>, i: int)
    requires
        0 <= i,
    ensures
        quote_at(s, i) matches Some(j) ==> i <= j < s.len() && s[j] == '"' && (forall|k: int|
            i <= k < j ==> s[k] != '"'),
        quote_at(s, i) is None ==> forall|k: int| i <= k < s.len() ==> s[k] != '"',
    decreases s.len() - i,
{
    if i < s.len() && s[i] != '"' {
        lemma_quote_at_bounds(s, i + 1);
    }
}

/// How many dots a number run holds.
pub open spec fn dot_count(s: Seq<char>) -> nat
    decreases s.len(),
{
    if s.len() == 0 {
        0
    } else {
        dot_count(s.drop_last()) + (if s.last() == '.' {
            1nat
        } else {
            0nat
        })
    }
}

proof fn lemma_dot_count_extend(s: Seq<char>, k: int)
    requires
        0 <= k < s.len(),
    ensures
        dot_count(s.take(k + 1)) == dot_count(s.take(k)) + (if s[k] == '.' {
            1nat
        } else {
            0nat
        }),
{
    assert(s.take(k + 1).drop_last() =~= s.take(k));
    assert(s.take(k + 1).last() == s[k]);
}

/// A token cons'd onto the rest of a tokenizing, errors passing
/// through.
pub open spec fn lex_cons(t: SpecTok, rest: Result<Seq<SpecTok>, SpecTokErr>) -> Result<
    Seq<SpecTok>,
    SpecTokErr,
> {
    match rest {
        Ok(ts) => Ok(seq![t] + ts),
        Err(e) => Err(e),
    }
}

/// The tokens of the trimmed input from position `i` on: punctuation
/// and white space one character at a time; a number run of digits
/// and dots, its text valid when it holds at most one dot; the three
/// keywords letter for letter; a string of everything up to the next
/// quote.
pub open spec fn lex_from(s: Seq<char>, i: int) -> Result<Seq<SpecTok>, SpecTokErr>
    decreases s.len() - i,
    when 0 <= i
    via lex_from_decreases
{
    if i >= s.len() {
        Ok(Seq::empty())
    } else {
        let c = s[i];
        if c == '{' {
            lex_cons(SpecTok::LeftBrace, lex_from(s, i + 1))
        } else if c == '}' {
            lex_cons(SpecTok::RightBrace, lex_from(s, i + 1))
        } else if c == ':' {
            lex_cons(SpecTok::Colon, lex_from(s, i + 1))
        } else if c == '[' {
            lex_cons(SpecTok::LeftBracket, lex_from(s, i + 1))
        } else if c == ']' {
            lex_cons(SpecTok::RightBracket, lex_from(s, i + 1))
        } else if c == ',' {
            lex_cons(SpecTok::Comma, lex_from(s, i + 1))
        } else if crate::text::is_dec_digit(c) {
            let j = num_end(s, i);
            let text = s.subrange(i, j);
            if dot_count(text) <= 1 {
                lex_cons(SpecTok::Number(text), lex_from(s, j))
            } else {
                Err(SpecTokErr::ParseNumberError)
            }
        } else if c == 'n' {
            if i + 4 <= s.len() && s.subrange(i, i + 4) == seq!['n', 'u', 'l', 'l'] {
                lex_cons(SpecTok::Null, lex_from(s, i + 4))
            } else {
                Err(SpecTokErr::ExpectedNull)
            }
        } else if c == 't' {
            if i + 4 <= s.len() && s.subrange(i, i + 4) == seq!['t', 'r', 'u', 'e'] {
                lex_cons(SpecTok::True, lex_from(s, i + 4))
            } else {
                Err(
                    SpecTokErr::ParseBooleanError(
                        true,
                        s.subrange(
                            i,
                            if i + 4 <= s.len() {
                                i + 4
                            } else {
                                s.len() as int
                            },
                        ),
                    ),
                )
            }
        } else if c == 'f' {
            if i + 5 <= s.len() && s.subrange(i, i + 5) == seq!['f', 'a', 'l', 's', 'e'] {
                lex_cons(SpecTok::False, lex_from(s, i + 5))
            } else {
                Err(
                    SpecTokErr::ParseBooleanError(
                        false,
                        s.subrange(
                            i,
                            if i + 5 <= s.len() {
                                i + 5
                            } else {
                                s.len() as int
                            },
                        ),
                    ),
                )
            }
        } else if is_lexer_space(c) {
            lex_from(s, ws_end(s, i))
        } else if c == '"' {
            match quote_at(s, i + 1) {
                Some(j) => lex_cons(SpecTok::Text(s.subrange(i + 1, j)), lex_from(s, j + 1)),
                None => Err(SpecTokErr::MismatchTokenExpectation('"', s[s.len() - 1])),
            }
        } else {
            Err(SpecTokErr::InvalidCharacter(c))
        }
    }
}

#[via_fn]
proof fn lex_from_decreases(s: Seq<char>, i: int) {
    if 0 <= i < s.len() {
        lemma_num_end_bounds(s, i);
        lemma_ws_end_bounds(s, i);
        lemma_quote_at_bounds(s, i + 1);
    }
}

/// What tokenizing an input yields: the tokens of its trimmed text.
pub open spec fn spec_tokenize(s: Seq<char>) -> Result<Seq<SpecTok>, SpecTokErr> {
    lex_from(trim_spec(s), 0)
}

/// Collect a string's characters.
fn chars_of(s: &str) -> (v: Vec<char>)
    ensures
        v@ == s@,
{
    let len = s.unicode_len();
    let mut v: Vec<char> = Vec::new();
    let mut i: usize = 0;
    while i < len
        invariant
            i <= len,
            len == s@.len(),
            v@ == s@.take(i as int),
        decreases len - i,
    {
        v.push(s.get_char(i));
        proof {
            assert(v@ =~= s@.take(i + 1));
        }
        i += 1;
    }
    proof {
        assert(s@.take(len as int) =~= s@);
    }
    v
}

/// Trim a character vector as `str::trim` would the string.
fn trim_chars(v: &Vec<char>) -> (r: Vec<char>)
    ensures
        r@ == trim_spec(v@),
{
    let len = v.len();
    proof {
        lemma_first_dark_bounds(v@, 0);
        lemma_last_dark_bounds(v@, len as int);
    }
    let mut a: usize = 0;
    while a < len && is_unicode_space_exec(v[a])
        invariant
            0 <= a <= len,
            len == v@.len(),
            first_dark(v@, 0) == first_dark(v@, a as int),
        decreases len - a,
    {
        a += 1;
    }
    proof {
        assert(first_dark(v@, 0) == a as int);
    }
    let mut b: usize = len;
    while b > 0 && is_unicode_space_exec(v[b - 1])
        invariant
            0 <= b <= len,
            len == v@.len(),
            last_dark_end(v@, len as int) == last_dark_end(v@, b as int),
        decreases b,
    {
        b -= 1;
    }
    proof {
        assert(last_dark_end(v@, len as int) == b as int);
    }
    let mut r: Vec<char> = Vec::new();
    if a < b {
        let mut i = a;
        while i < b
            invariant
                a <= i <= b <= len,
                len == v@.len(),
                r@ == v@.subrange(a as int, i as int),
            decreases b - i,
        {
            r.push(v[i]);
            proof {
                assert(r@ =~= v@.subrange(a as int, i + 1));
            }
            i += 1;
        }
    }
    r
}

/// Tokens already produced, followed by the rest of a tokenizing.
pub open spec fn lex_append(prefix: Seq<SpecTok>, rest: Result<Seq<SpecTok>, SpecTokErr>) -> Result<
    Seq<SpecTok>,
    SpecTokErr,
> {
    match rest {
        Ok(ts) => Ok(prefix + ts),
        Err(e) => Err(e),
    }
}

proof fn lemma_lex_append_cons(
    prefix: Seq<SpecTok>,
    t: SpecTok,
    rest: Result<Seq<SpecTok>, SpecTokErr>,
)
    ensures
        lex_append(prefix, lex_cons(t, rest)) == lex_append(prefix.push(t), rest),
{
    match rest {
        Ok(ts) => {
            assert(prefix + (seq![t] + ts) =~= prefix.push(t) + ts);
        },
        Err(_) => {},
    }
}

/// Relies on String's FromIterator over characters: collecting hands
/// back a string of exactly those characters.
#[verifier::external_body]
fn string_from_chars(v: &Vec<char>) -> (r: String)
    ensures
        r@ == v@,
{
    v.iter().collect()
}

/// Copy a range of the input's characters.
fn char_range(input: &Vec<char>, from: usize, to: usize) -> (r: Vec<char>)
    requires
        from <= to <= input@.len(),
    ensures
        r@ == input@.subrange(from as int, to as int),
{
    let mut r: Vec<char> = Vec::new();
    let mut i = from;
    while i < to
        invariant
            from <= i <= to <= input@.len(),
            r@ == input@.subrange(from as int, i as int),
        decreases to - i,
    {
        r.push(input[i]);
        proof {
            assert(r@ =~= input@.subrange(from as int, i + 1));
        }
        i += 1;
    }
    r
}

fn is_digit_exec(c: char) -> (r: bool)
    ensures
        r == crate::text::is_dec_digit(c),
{
    ('0' as u32) <= (c as u32) && (c as u32) <= ('9' as u32)
}

/// Scan a number run: the digits and dots from `i` on. Its text is
/// the token when it holds at most one dot; the scan resumes just
/// after the run.
pub fn tokenize_number(input: &Vec<char>, tokens: &mut Vec<Token>, i: usize) -> (r: Result<
    usize,
    TokenizerError,
>)
    requires
        i < input@.len(),
        crate::text::is_dec_digit(input@[i as int]),
    ensures
        ({
            let j = num_end(input@, i as int);
            let text = input@.subrange(i as int, j);
            match r {
                Ok(k) => dot_count(text) <= 1 && k as int == j - 1 && final(tokens)@.len() == old(
                    tokens,
                )@.len() + 1 && final(tokens)@.take(old(tokens)@.len() as int) == old(tokens)@
                    && final(tokens)@.last()@ == SpecTok::Number(text),
                Err(e) => dot_count(text) > 1 && e@ == SpecTokErr::ParseNumberError && *final(tokens)
                    == *old(tokens),
            }
        }),
{
    let len = input.len();
    proof {
        lemma_num_end_bounds(input@, i as int);
    }
    let ghost j = num_end(input@, i as int);
    let mut k = i;
    let mut dots: usize = 0;
    while k < len
        invariant
            i <= k <= len,
            len == input@.len(),
            k <= j,
            j == num_end(input@, i as int),
            i < len,
            forall|m: int| i <= m < j ==> is_num_char(input@[m]),
            j < len ==> !is_num_char(input@[j as int]),
            j <= len,
            dots == dot_count(input@.subrange(i as int, k as int)),
            dots <= k,
        ensures
            k as int == j,
            dots == dot_count(input@.subrange(i as int, j)),
        decreases len - k,
    {
        let c = input[k];
        let digit = is_digit_exec(c);
        if !(digit || c == '.') {
            proof {
                assert(!is_num_char(input@[k as int]));
                assert(k as int == j) by {
                    if (k as int) < j {
                        assert(is_num_char(input@[k as int]));
                    }
                }
            }
            break ;
        }
        proof {
            assert(k < j) by {
                if k as int == j {
                    assert(j < len ==> !is_num_char(input@[j as int]));
                }
            }
            lemma_dot_count_extend(input@.subrange(i as int, j), k - i);
            assert(input@.subrange(i as int, j).take(k - i) =~= input@.subrange(
                i as int,
                k as int,
            ));
            assert(input@.subrange(i as int, j).take(k - i + 1) =~= input@.subrange(
                i as int,
                k + 1,
            ));
        }
        if c == '.' {
            dots += 1;
        }
        k += 1;
    }
    if dots >= 2 {
        return Err(TokenizerError::ParseNumberError);
    }
    let text = char_range(input, i, k);
    let token = Token::Number(string_from_chars(&text));
    tokens.push(token);
    proof {
        assert(final(tokens)@.take(old(tokens)@.len() as int) =~= old(tokens)@);
    }
    Ok(k - 1)
}

/// Scan the `null` keyword at `i`.
pub fn tokenize_null(input: &Vec<char>, tokens: &mut Vec<Token>, i: usize) -> (r: Result<
    usize,
    TokenizerError,
>)
    requires
        i < input@.len(),
    ensures
        ({
            let s = input@;
            let matched = i + 4 <= s.len() && s.subrange(i as int, i + 4) == seq![
                'n',
                'u',
                'l',
                'l',
            ];
            match r {
                Ok(k) => matched && k == i + 3 && final(tokens)@ == old(tokens)@.push(Token::Null),
                Err(e) => !matched && e@ == SpecTokErr::ExpectedNull && *final(tokens) == *old(
                    tokens,
                ),
            }
        }),
{
    let len = input.len();
    if len - i >= 4 && input[i] == 'n' && input[i + 1] == 'u' && input[i + 2] == 'l' && input[i
        + 3] == 'l' {
        proof {
            assert(input@.subrange(i as int, i + 4) =~= seq!['n', 'u', 'l', 'l']);
        }
        tokens.push(Token::Null);
        Ok(i + 3)
    } else {
        proof {
            if i + 4 <= input@.len() {
                let sub = input@.subrange(i as int, i + 4);
                if sub == seq!['n', 'u', 'l', 'l'] {
                    assert(input@[i as int] == sub[0]);
                    assert(input@[i + 1] == sub[1]);
                    assert(input@[i + 2] == sub[2]);
                    assert(input@[i + 3] == sub[3]);
                }
            }
        }
        Err(TokenizerError::ExpectedNull)
    }
}

/// Scan the `true` keyword at `i`; on a mismatch the error carries the
/// four characters found.
pub fn tokenize_true(input: &Vec<char>, tokens: &mut Vec<Token>, i: usize) -> (r: Result<
    usize,
    TokenizerError,
>)
    requires
        i < input@.len(),
    ensures
        ({
            let s = input@;
            let matched = i + 4 <= s.len() && s.subrange(i as int, i + 4) == seq![
                't',
                'r',
                'u',
                'e',
            ];
            let upto = if i + 4 <= s.len() {
                i + 4
            } else {
                s.len() as int
            };
            match r {
                Ok(k) => matched && k == i + 3 && final(tokens)@ == old(tokens)@.push(Token::True),
                Err(e) => !matched && e@ == SpecTokErr::ParseBooleanError(
                    true,
                    s.subrange(i as int, upto),
                ) && *final(tokens) == *old(tokens),
            }
        }),
{
    let len = input.len();
    if len - i >= 4 && input[i] == 't' && input[i + 1] == 'r' && input[i + 2] == 'u' && input[i
        + 3] == 'e' {
        proof {
            assert(input@.subrange(i as int, i + 4) =~= seq!['t', 'r', 'u', 'e']);
        }
        tokens.push(Token::True);
        Ok(i + 3)
    } else {
        let upto = if len - i >= 4 {
            i + 4
        } else {
            len
        };
        proof {
            if i + 4 <= input@.len() {
                let sub = input@.subrange(i as int, i + 4);
                if sub == seq!['t', 'r', 'u', 'e'] {
                    assert(input@[i as int] == sub[0]);
                    assert(input@[i + 1] == sub[1]);
                    assert(input@[i + 2] == sub[2]);
                    assert(input@[i + 3] == sub[3]);
                }
            }
        }
        let text = char_range(input, i, upto);
        Err(TokenizerError::ParseBooleanError(true, string_from_chars(&text)))
    }
}

/// Scan the `false` keyword at `i`; on a mismatch the error carries
/// the five characters found.
pub fn tokenize_false(input: &Vec<char>, tokens: &mut Vec<Token>, i: usize) -> (r: Result<
    usize,
    TokenizerError,
>)
    requires
        i < input@.len(),
    ensures
        ({
            let s = input@;
            let matched = i + 5 <= s.len() && s.subrange(i as int, i + 5) == seq![
                'f',
                'a',
                'l',
                's',
                'e',
            ];
            let upto = if i + 5 <= s.len() {
                i + 5
            } else {
                s.len() as int
            };
            match r {
                Ok(k) => matched && k == i + 4 && final(tokens)@ == old(tokens)@.push(Token::False),
                Err(e) => !matched && e@ == SpecTokErr::ParseBooleanError(
                    false,
                    s.subrange(i as int, upto),
                ) && *final(tokens) == *old(tokens),
            }
        }),
{
    let len = input.len();
    if len - i >= 5 && input[i] == 'f' && input[i + 1] == 'a' && input[i + 2] == 'l' && input[i
        + 3] == 's' && input[i + 4] == 'e' {
        proof {
            assert(input@.subrange(i as int, i + 5) =~= seq!['f', 'a', 'l', 's', 'e']);
        }
        tokens.push(Token::False);
        Ok(i + 4)
    } else {
        let upto = if len - i >= 5 {
            i + 5
        } else {
            len
        };
        proof {
            if i + 5 <= input@.len() {
                let sub = input@.subrange(i as int, i + 5);
                if sub == seq!['f', 'a', 'l', 's', 'e'] {
                    assert(input@[i as int] == sub[0]);
                    assert(input@[i + 1] == sub[1]);
                    assert(input@[i + 2] == sub[2]);
                    assert(input@[i + 3] == sub[3]);
                    assert(input@[i + 4] == sub[4]);
                }
            }
        }
        let text = char_range(input, i, upto);
        Err(TokenizerError::ParseBooleanError(false, string_from_chars(&text)))
    }
}

/// Step over a run of white space; the caller resumes just after it.
/// The input is trimmed, so a white-space run never reaches the end.
pub fn skip_whitespaces(input: &Vec<char>, i: usize) -> (r: usize)
    requires
        i < input@.len(),
        is_lexer_space(input@[i as int]),
        !is_lexer_space(input@[input@.len() - 1]),
    ensures
        r as int == ws_end(input@, i as int) - 1,
        i <= r < input@.len(),
{
    let len = input.len();
    proof {
        lemma_ws_end_bounds(input@, i as int);
    }
    let ghost j = ws_end(input@, i as int);
    let mut k = i;
    while k < len
        invariant
            i <= k <= j,
            i < j,
            len == input@.len(),
            j == ws_end(input@, i as int),
            j <= len,
            forall|m: int| i <= m < j ==> is_lexer_space(input@[m]),
            j < len ==> !is_lexer_space(input@[j as int]),
            !is_lexer_space(input@[input@.len() - 1]),
            i < len,
        decreases len - k,
    {
        let c = input[k];
        if !(c == ' ' || c == '\n' || c == '\t' || c == '\r') {
            proof {
                assert(!is_lexer_space(input@[k as int]));
                assert(k as int == j) by {
                    if (k as int) < j {
                        assert(is_lexer_space(input@[k as int]));
                    }
                }
            }
            return k - 1;
        }
        proof {
            assert(k < j) by {
                if k as int == j {
                    assert(j < len);
                }
            }
        }
        k += 1;
    }
    proof {
        assert(j == len && i <= len - 1 < j);
        assert(is_lexer_space(input@[len - 1]));
    }
    unreached()
}

/// Scan a string token: everything between the opening quote at `i`
/// and the next quote.
pub fn tokenize_string(input: &Vec<char>, tokens: &mut Vec<Token>, i: usize) -> (r: Result<
    usize,
    TokenizerError,
>)
    requires
        i < input@.len(),
    ensures
        ({
            let s = input@;
            match quote_at(s, i + 1) {
                Some(j) => r matches Ok(k) && k as int == j && final(tokens)@.len() == old(
                    tokens,
                )@.len() + 1 && final(tokens)@.take(old(tokens)@.len() as int) == old(tokens)@
                    && final(tokens)@.last()@ == SpecTok::Text(s.subrange(i + 1, j)),
                None => r matches Err(e) && e@ == SpecTokErr::MismatchTokenExpectation(
                    '"',
                    s[s.len() - 1],
                ) && *final(tokens) == *old(tokens),
            }
        }),
{
    let len = input.len();
    let mut k = i + 1;
    while k < len && input[k] != '"'
        invariant
            i + 1 <= k <= len,
            len == input@.len(),
            forall|m: int| i + 1 <= m < k ==> input@[m] != '"',
        decreases len - k,
    {
        k += 1;
    }
    if k < len {
        proof {
            lemma_quote_found(input@, i + 1, k as int);
        }
        let text = char_range(input, i + 1, k);
        let token = Token::TString(string_from_chars(&text));
        tokens.push(token);
        proof {
            assert(final(tokens)@.take(old(tokens)@.len() as int) =~= old(tokens)@);
        }
        Ok(k)
    } else {
        proof {
            lemma_quote_missing(input@, i + 1);
        }
        Err(TokenizerError::MismatchTokenExpectation('"', input[len - 1]))
    }
}

/// The token values of a token list.
pub open spec fn views_of(ts: Seq<Token>) -> Seq<SpecTok> {
    ts.map_values(|t: Token| t@)
}

proof fn lemma_tok_step(
    old_toks: Seq<Token>,
    new_toks: Seq<Token>,
    t: SpecTok,
    s: Seq<char>,
    i: int,
    next: int,
)
    requires
        new_toks.len() == old_toks.len() + 1,
        new_toks.take(old_toks.len() as int) == old_toks,
        new_toks.last()@ == t,
        lex_from(s, i) == lex_cons(t, lex_from(s, next)),
    ensures
        lex_append(views_of(old_toks), lex_from(s, i)) == lex_append(
            views_of(new_toks),
            lex_from(s, next),
        ),
{
    assert(new_toks =~= old_toks.push(new_toks.last()));
    assert(views_of(new_toks) =~= views_of(old_toks).push(t));
    lemma_lex_append_cons(views_of(old_toks), t, lex_from(s, next));
}

/// Tokenize an input: trim it, then scan it left to right, one token
/// at a time.
pub fn tokenize(input: &str) -> (r: Result<Vec<Token>, TokenizerError>)
    ensures
        match r {
            Ok(ts) => spec_tokenize(input@) == Ok::<Seq<SpecTok>, SpecTokErr>(views_of(ts@)),
            Err(e) => spec_tokenize(input@) == Err::<Seq<SpecTok>, SpecTokErr>(e@),
        },
{
    let raw = chars_of(input);
    let cs = trim_chars(&raw);
    let len = cs.len();
    proof {
        lemma_first_dark_bounds(raw@, 0);
        lemma_last_dark_bounds(raw@, raw@.len() as int);
        assert(cs@.len() > 0 ==> !is_unicode_space(cs@[cs@.len() - 1]));
    }
    let mut tokens: Vec<Token> = Vec::new();
    let mut i: usize = 0;
    while i < len
        invariant
            i <= len,
            len == cs@.len(),
            cs@ == trim_spec(input@),
            cs@.len() > 0 ==> !is_unicode_space(cs@[cs@.len() - 1]),
            spec_tokenize(input@) == lex_append(views_of(tokens@), lex_from(cs@, i as int)),
        decreases len - i,
    {
        let ghost toks0 = tokens@;
        let ghost s = cs@;
        let c = cs[i];
        if c == '{' {
            tokens.push(Token::LeftBrace);
            proof {
                assert(tokens@.take(toks0.len() as int) =~= toks0);
                assert(lex_from(s, i as int) == lex_cons(SpecTok::LeftBrace, lex_from(s, i + 1)));
                lemma_tok_step(toks0, tokens@, SpecTok::LeftBrace, s, i as int, i + 1);
            }
        } else if c == '}' {
            tokens.push(Token::RightBrace);
            proof {
                assert(tokens@.take(toks0.len() as int) =~= toks0);
                assert(lex_from(s, i as int) == lex_cons(SpecTok::RightBrace, lex_from(s, i + 1)));
                lemma_tok_step(toks0, tokens@, SpecTok::RightBrace, s, i as int, i + 1);
            }
        } else if c == ':' {
            tokens.push(Token::Colon);
            proof {
                assert(tokens@.take(toks0.len() as int) =~= toks0);
                assert(lex_from(s, i as int) == lex_cons(SpecTok::Colon, lex_from(s, i + 1)));
                lemma_tok_step(toks0, tokens@, SpecTok::Colon, s, i as int, i + 1);
            }
        } else if c == '[' {
            tokens.push(Token::LeftBracket);
            proof {
                assert(tokens@.take(toks0.len() as int) =~= toks0);
                assert(lex_from(s, i as int) == lex_cons(SpecTok::LeftBracket, lex_from(s, i + 1)));
                lemma_tok_step(toks0, tokens@, SpecTok::LeftBracket, s, i as int, i + 1);
            }
        } else if c == ']' {
            tokens.push(Token::RightBracket);
            proof {
                assert(tokens@.take(toks0.len() as int) =~= toks0);
                assert(lex_from(s, i as int) == lex_cons(SpecTok::RightBracket, lex_from(s, i + 1)));
                lemma_tok_step(toks0, tokens@, SpecTok::RightBracket, s, i as int, i + 1);
            }
        } else if c == ',' {
            tokens.push(Token::Comma);
            proof {
                assert(tokens@.take(toks0.len() as int) =~= toks0);
                assert(lex_from(s, i as int) == lex_cons(SpecTok::Comma, lex_from(s, i + 1)));
                lemma_tok_step(toks0, tokens@, SpecTok::Comma, s, i as int, i + 1);
            }
        } else if is_digit_exec(c) {
            let ghost j = num_end(s, i as int);
            match tokenize_number(&cs, &mut tokens, i) {
                Ok(k) => {
                    proof {
                        let text = s.subrange(i as int, j);
                        assert(lex_from(s, i as int) == lex_cons(
                            SpecTok::Number(text),
                            lex_from(s, j),
                        ));
                        assert(tokens@.take(toks0.len() as int) == toks0);
                        lemma_tok_step(toks0, tokens@, SpecTok::Number(text), s, i as int, j);
                        lemma_num_end_bounds(s, i as int);
                    }
                    i = k;
                },
                Err(e) => {
                    return Err(e);
                },
            }
        } else if c == 'n' {
            match tokenize_null(&cs, &mut tokens, i) {
                Ok(k) => {
                    proof {
                        assert(lex_from(s, i as int) == lex_cons(SpecTok::Null, lex_from(s, i + 4)));
                        assert(tokens@.take(toks0.len() as int) =~= toks0);
                        lemma_tok_step(toks0, tokens@, SpecTok::Null, s, i as int, i + 4);
                    }
                    i = k;
                },
                Err(e) => {
                    return Err(e);
                },
            }
        } else if c == 't' {
            match tokenize_true(&cs, &mut tokens, i) {
                Ok(k) => {
                    proof {
                        assert(lex_from(s, i as int) == lex_cons(SpecTok::True, lex_from(s, i + 4)));
                        assert(tokens@.take(toks0.len() as int) =~= toks0);
                        lemma_tok_step(toks0, tokens@, SpecTok::True, s, i as int, i + 4);
                    }
                    i = k;
                },
                Err(e) => {
                    return Err(e);
                },
            }
        } else if c == 'f' {
            match tokenize_false(&cs, &mut tokens, i) {
                Ok(k) => {
                    proof {
                        assert(lex_from(s, i as int) == lex_cons(
                            SpecTok::False,
                            lex_from(s, i + 5),
                        ));
                        assert(tokens@.take(toks0.len() as int) =~= toks0);
                        lemma_tok_step(toks0, tokens@, SpecTok::False, s, i as int, i + 5);
                    }
                    i = k;
                },
                Err(e) => {
                    return Err(e);
                },
            }
        } else if c == ' ' || c == '\n' || c == '\t' || c == '\r' {
            proof {
                lemma_lexer_space_is_unicode_space(s[s.len() - 1]);
            }
            let k = skip_whitespaces(&cs, i);
            proof {
                assert(lex_from(s, i as int) == lex_from(s, ws_end(s, i as int)));
            }
            i = k;
        } else if c == '"' {
            let ghost q = quote_at(s, i + 1);
            match tokenize_string(&cs, &mut tokens, i) {
                Ok(k) => {
                    proof {
                        let j = q.unwrap();
                        let text = s.subrange(i + 1, j);
                        assert(lex_from(s, i as int) == lex_cons(
                            SpecTok::Text(text),
                            lex_from(s, j + 1),
                        ));
                        assert(tokens@.take(toks0.len() as int) == toks0);
                        lemma_tok_step(toks0, tokens@, SpecTok::Text(text), s, i as int, j + 1);
                        lemma_quote_at_bounds(s, i + 1);
                    }
                    i = k;
                },
                Err(e) => {
                    return Err(e);
                },
            }
        } else {
            proof {
                assert(lex_from(s, i as int) == Err::<Seq<SpecTok>, SpecTokErr>(
                    SpecTokErr::InvalidCharacter(c),
                ));
            }
            return Err(TokenizerError::InvalidCharacter(c));
        }
        i += 1;
    }
    proof {
        assert(lex_from(cs@, len as int) == Ok::<Seq<SpecTok>, SpecTokErr>(Seq::empty()));
        assert(views_of(tokens@) + Seq::<SpecTok>::empty() =~= views_of(tokens@));
    }
    Ok(tokens)
}

proof fn lemma_quote_found(s: Seq<char>, from: int, k: int)
    requires
        0 <= from <= k < s.len(),
        s[k] == '"',
        forall|m: int| from <= m < k ==> s[m] != '"',
    ensures
        quote_at(s, from) == Some(k),
    decreases s.len() - from,
{
    if from < k {
        lemma_quote_found(s, from + 1, k);
    }
}

proof fn lemma_quote_missing(s: Seq<char>, from: int)
    requires
        0 <= from,
        forall|m: int| from <= m < s.len() ==> s[m] != '"',
    ensures
        quote_at(s, from) is None,
    decreases s.len() - from,
{
    if from < s.len() {
        lemma_quote_missing(s, from + 1);
    }
}

} // verus!
