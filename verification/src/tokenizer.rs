//! The lexical scanner: one forward pass over the characters of the input
//! with one character of lookahead, producing the token sequence or the first
//! lexical error.
//!
//! Whitespace between tokens is space, newline and carriage return only; a
//! tab outside a string is an invalid character.  `\uXXXX` escapes are
//! decoded independently, with no surrogate-pair combination.

use vstd::prelude::*;
use vstd::string::StrSliceExecFns;

use crate::types::{ErrorKind, Number, NumberModel};

verus! {

/// A lexical unit: structural punctuation or a value-bearing literal.
#[derive(Debug, PartialEq)]
pub enum Token {
    LeftBrace,
    RightBrace,
    LeftBracket,
    RightBracket,
    Colon,
    Comma,
    String(String),
    Number(Number),
    Boolean(bool),
    Null,
}

/// The model of a `Token`.
pub enum TokenModel {
    LeftBrace,
    RightBrace,
    LeftBracket,
    RightBracket,
    Colon,
    Comma,
    Str(Seq<char>),
    Num(NumberModel),
    Bool(bool),
    Null,
}

impl View for Token {
    type V = TokenModel;

    open spec fn view(&self) -> TokenModel {
        match self {
            Token::LeftBrace => TokenModel::LeftBrace,
            Token::RightBrace => TokenModel::RightBrace,
            Token::LeftBracket => TokenModel::LeftBracket,
            Token::RightBracket => TokenModel::RightBracket,
            Token::Colon => TokenModel::Colon,
            Token::Comma => TokenModel::Comma,
            Token::String(s) => TokenModel::Str(s@),
            Token::Number(n) => TokenModel::Num(n@),
            Token::Boolean(b) => TokenModel::Bool(*b),
            Token::Null => TokenModel::Null,
        }
    }
}

/// The models of a token sequence, in order.
pub open spec fn token_models(ts: Seq<Token>) -> Seq<TokenModel> {
    Seq::new(ts.len(), |i: int| ts[i]@)
}

/// The whitespace the scanner skips between tokens.  Tab is deliberately not
/// recognized.
pub open spec fn is_json_whitespace(c: char) -> bool {
    c == ' ' || c == '\n' || c == '\r'
}

/// A decimal digit.
pub open spec fn is_digit(c: char) -> bool {
    '0' as u32 <= c as u32 <= '9' as u32
}

/// The value of a decimal digit.
pub open spec fn digit_val(c: char) -> int {
    c as u32 - '0' as u32
}

/// A hexadecimal digit, either case.
pub open spec fn is_hex_digit(c: char) -> bool {
    is_digit(c) || 'a' as u32 <= c as u32 <= 'f' as u32 || 'A' as u32 <= c as u32 <= 'F' as u32
}

/// The value of a hexadecimal digit.
pub open spec fn hex_digit_val(c: char) -> int {
    if is_digit(c) {
        digit_val(c)
    } else if 'a' as u32 <= c as u32 <= 'f' as u32 {
        c as u32 - 'a' as u32 + 10
    } else {
        c as u32 - 'A' as u32 + 10
    }
}

/// The code point of four hexadecimal digits starting at `i`.
pub open spec fn hex4_val(s: Seq<char>, i: int) -> int {
    4096 * hex_digit_val(s[i]) + 256 * hex_digit_val(s[i + 1]) + 16 * hex_digit_val(s[i + 2])
        + hex_digit_val(s[i + 3])
}

/// A Unicode scalar value: a code point with a valid character mapping.
pub open spec fn is_scalar_value(v: int) -> bool {
    0 <= v < 0xD800 || 0xE000 <= v <= 0x10FFFF
}

/// The characters starting at `i` spell out the whole word `w`.
pub open spec fn spec_match_word(s: Seq<char>, i: int, w: Seq<char>) -> bool {
    0 <= i && i + w.len() <= s.len() && s.subrange(i, i + w.len() as int) == w
}

/// Scanning the body of a string literal from `i` (the position just after
/// the opening quote), with `acc` the text decoded so far: the decoded text
/// and the position just after the closing quote, or the first error.
///
/// Backslash introduces an escape; the recognized escapes are the two quotes,
/// the slash, backspace, form feed, newline, carriage return, tab, and
/// `\uXXXX` with exactly four hexadecimal digits naming a scalar value.
pub open spec fn spec_scan_string(s: Seq<char>, i: int, acc: Seq<char>) -> Result<
    (Seq<char>, int),
    ErrorKind,
>
    decreases s.len() - i,
{
    if i < 0 || i >= s.len() {
        Err(ErrorKind::UnterminatedString)
    } else if s[i] == '"' {
        Ok((acc, i + 1))
    } else if s[i] == '\\' {
        if i + 1 >= s.len() {
            Err(ErrorKind::UnterminatedEscape)
        } else {
            let e = s[i + 1];
            if e == '"' {
                spec_scan_string(s, i + 2, acc.push('"'))
            } else if e == '\\' {
                spec_scan_string(s, i + 2, acc.push('\\'))
            } else if e == '/' {
                spec_scan_string(s, i + 2, acc.push('/'))
            } else if e == 'b' {
                spec_scan_string(s, i + 2, acc.push('\u{0008}'))
            } else if e == 'f' {
                spec_scan_string(s, i + 2, acc.push('\u{000C}'))
            } else if e == 'n' {
                spec_scan_string(s, i + 2, acc.push('\n'))
            } else if e == 'r' {
                spec_scan_string(s, i + 2, acc.push('\r'))
            } else if e == 't' {
                spec_scan_string(s, i + 2, acc.push('\t'))
            } else if e == 'u' {
                if i + 6 <= s.len() && is_hex_digit(s[i + 2]) && is_hex_digit(s[i + 3])
                    && is_hex_digit(s[i + 4]) && is_hex_digit(s[i + 5]) {
                    let code = hex4_val(s, i + 2);
                    if is_scalar_value(code) {
                        spec_scan_string(s, i + 6, acc.push((code as u32) as char))
                    } else {
                        Err(ErrorKind::InvalidCodePoint)
                    }
                } else {
                    Err(ErrorKind::InvalidUnicodeEscape)
                }
            } else {
                Err(ErrorKind::InvalidEscapeSequence)
            }
        }
    } else {
        spec_scan_string(s, i + 1, acc.push(s[i]))
    }
}

/// Scanning the whole input from `i`, with `acc` the tokens already
/// produced: the token sequence in source order, or the first lexical error.
///
/// Structural characters map to single-character tokens; `n`, `t` and `f`
/// must spell out their whole keyword; a quote opens a string and a digit or
/// minus opens a number; space, newline and carriage return are skipped; any
/// other character is invalid.
pub open spec fn spec_tokenize_from(s: Seq<char>, i: int, acc: Seq<TokenModel>) -> Result<
    Seq<TokenModel>,
    ErrorKind,
>
    decreases s.len() - i,
{
    if i < 0 || i >= s.len() {
        Ok(acc)
    } else {
        let c = s[i];
        if c == '{' {
            spec_tokenize_from(s, i + 1, acc.push(TokenModel::LeftBrace))
        } else if c == '}' {
            spec_tokenize_from(s, i + 1, acc.push(TokenModel::RightBrace))
        } else if c == '[' {
            spec_tokenize_from(s, i + 1, acc.push(TokenModel::LeftBracket))
        } else if c == ']' {
            spec_tokenize_from(s, i + 1, acc.push(TokenModel::RightBracket))
        } else if c == ':' {
            spec_tokenize_from(s, i + 1, acc.push(TokenModel::Colon))
        } else if c == ',' {
            spec_tokenize_from(s, i + 1, acc.push(TokenModel::Comma))
        } else if c == 'n' {
            if spec_match_word(s, i, seq!['n', 'u', 'l', 'l']) {
                spec_tokenize_from(s, i + 4, acc.push(TokenModel::Null))
            } else {
                Err(ErrorKind::InvalidToken)
            }
        } else if c == 't' {
            if spec_match_word(s, i, seq!['t', 'r', 'u', 'e']) {
                spec_tokenize_from(s, i + 4, acc.push(TokenModel::Bool(true)))
            } else {
                Err(ErrorKind::InvalidToken)
            }
        } else if c == 'f' {
            if spec_match_word(s, i, seq!['f', 'a', 'l', 's', 'e']) {
                spec_tokenize_from(s, i + 5, acc.push(TokenModel::Bool(false)))
            } else {
                Err(ErrorKind::InvalidToken)
            }
        } else if c == '"' {
            match spec_scan_string(s, i + 1, Seq::empty()) {
                Ok((content, j)) => if i < j <= s.len() {
                    spec_tokenize_from(s, j, acc.push(TokenModel::Str(content)))
                } else {
                    // a scanned string always consumes characters
                    Err(ErrorKind::UnterminatedString)
                },
                Err(e) => Err(e),
            }
        } else if is_digit(c) || c == '-' {
            match spec_scan_number(s, i) {
                Ok((num, j)) => if i < j <= s.len() {
                    spec_tokenize_from(s, j, acc.push(TokenModel::Num(num)))
                } else {
                    // a scanned number always consumes characters
                    Err(ErrorKind::InvalidNumber)
                },
                Err(e) => Err(e),
            }
        } else if is_json_whitespace(c) {
            spec_tokenize_from(s, i + 1, acc)
        } else {
            Err(ErrorKind::InvalidCharacter)
        }
    }
}

/// The token sequence of the whole input, or its first lexical error.
pub open spec fn spec_tokenize(s: Seq<char>) -> Result<Seq<TokenModel>, ErrorKind> {
    spec_tokenize_from(s, 0, Seq::empty())
}

/// Every character of `s` is a decimal digit.
pub open spec fn all_digits(s: Seq<char>) -> bool {
    forall|k: int| 0 <= k < s.len() ==> is_digit(s[k])
}

/// The value of a sequence of decimal digits, most significant first.
pub open spec fn digits_val(s: Seq<char>) -> int
    decreases s.len(),
{
    if s.len() == 0 {
        0
    } else {
        digits_val(s.drop_last()) * 10 + digit_val(s.last())
    }
}

/// The signed 32-bit integer a literal denotes: an optional leading minus,
/// then at least one digit, with the value in range; anything else is `None`.
pub open spec fn spec_parse_i32(s: Seq<char>) -> Option<i32> {
    let neg = s.len() > 0 && s[0] == '-';
    let ds = if neg {
        s.skip(1)
    } else {
        s
    };
    if ds.len() == 0 || !all_digits(ds) {
        None
    } else {
        let v = if neg {
            -digits_val(ds)
        } else {
            digits_val(ds)
        };
        if i32::MIN <= v <= i32::MAX {
            Some(v as i32)
        } else {
            None
        }
    }
}

/// Scanning the digits of a numeric literal from `i`, with `lit` the text
/// accumulated so far: the literal, whether it held a decimal point, and the
/// position of its first terminator (whitespace, comma, a closing bracket or
/// brace, or the end of input), or the first error.  A second decimal point,
/// a decimal point before any digit, a minus past the first character, and
/// any other character fail the scan.
pub open spec fn spec_scan_digits(
    s: Seq<char>,
    i: int,
    lit: Seq<char>,
    has_dot: bool,
    has_digit: bool,
) -> Result<(Seq<char>, bool, int), ErrorKind>
    decreases s.len() - i,
{
    if i < 0 || i >= s.len() {
        if has_digit {
            Ok((lit, has_dot, i))
        } else {
            Err(ErrorKind::InvalidNumber)
        }
    } else {
        let c = s[i];
        if is_digit(c) {
            spec_scan_digits(s, i + 1, lit.push(c), has_dot, true)
        } else if c == '.' {
            if has_dot || !has_digit {
                Err(ErrorKind::InvalidNumber)
            } else {
                spec_scan_digits(s, i + 1, lit.push('.'), true, has_digit)
            }
        } else if c == ',' || c == '\n' || c == '\r' || c == ' ' || c == '}' || c == ']' {
            Ok((lit, has_dot, i))
        } else {
            Err(ErrorKind::InvalidNumber)
        }
    }
}

/// Scanning a numeric literal that starts at `i`: the number and the position
/// of its terminator, or the first error.  A literal with a decimal point is
/// a `Float` carrying the text; one without is an `Int`, whose value must fit
/// in signed 32-bit range.
pub open spec fn spec_scan_number(s: Seq<char>, i: int) -> Result<(NumberModel, int), ErrorKind> {
    let neg = 0 <= i < s.len() && s[i] == '-';
    let start = if neg {
        i + 1
    } else {
        i
    };
    let lit0 = if neg {
        seq!['-']
    } else {
        Seq::<char>::empty()
    };
    match spec_scan_digits(s, start, lit0, false, false) {
        Ok((lit, has_dot, j)) => {
            if has_dot {
                Ok((NumberModel::Float(lit), j))
            } else {
                match spec_parse_i32(lit) {
                    Some(n) => Ok((NumberModel::Int(n as int), j)),
                    None => Err(ErrorKind::InvalidInteger),
                }
            }
        },
        Err(e) => Err(e),
    }
}

/// Relies on `String::push`: appends the one character at the end and changes
/// nothing else.
#[verifier::external_body]
fn push_char(s: &mut String, c: char)
    ensures
        final(s)@ == old(s)@.push(c),
{
    s.push(c);
}

/// Relies on `char::from_u32`: `Some` exactly when the value is a Unicode
/// scalar (not a surrogate half, at most 0x10FFFF), and then the character
/// with that code point.
#[verifier::external_body]
fn char_from_code(v: u32) -> (r: Option<char>)
    ensures
        r == (if is_scalar_value(v as int) {
            Some(v as char)
        } else {
            None::<char>
        }),
{
    char::from_u32(v)
}

/// The signed 32-bit integer a literal denotes, decided in executable code
/// by one pass over the digits with a saturation flag for values past the
/// 32-bit range.
fn parse_i32_str(s: &str) -> (r: Option<i32>)
    ensures
        r == spec_parse_i32(s@),
{
    let n = s.unicode_len();
    let neg = n > 0 && s.get_char(0) == '-';
    let start: usize = if neg {
        1
    } else {
        0
    };
    let ghost ds = if neg {
        s@.skip(1)
    } else {
        s@
    };
    if n <= start {
        return None;
    }
    let mut k: usize = start;
    let mut acc: i64 = 0;
    let mut over = false;
    while k < n
        invariant
            n == s@.len(),
            neg == (s@.len() > 0 && s@[0] == '-'),
            start == (if neg {
                1int
            } else {
                0int
            }),
            ds == (if neg {
                s@.skip(1)
            } else {
                s@
            }),
            start < n,
            start <= k <= n,
            ds.len() == n - start,
            all_digits(ds.take(k - start)),
            !over ==> 0 <= acc && acc == digits_val(ds.take(k - start)) && acc <= 0x8000_0000,
            over ==> digits_val(ds.take(k - start)) > 0x8000_0000,
        decreases n - k,
    {
        let c = s.get_char(k);
        if !is_digit_exec(c) {
            proof {
                assert(ds[k - start] == s@[k as int]);
            }
            return None;
        }
        let d: u32 = c as u32 - 48;
        proof {
            let m = k - start + 1;
            assert(ds.take(m).drop_last() =~= ds.take(m - 1));
            assert(ds.take(m).last() == ds[m - 1]);
            assert forall|j: int| 0 <= j < m implies is_digit(ds.take(m)[j]) by {
                if j < m - 1 {
                    assert(is_digit(ds.take(m - 1)[j]));
                }
            }
        }
        if over {
        } else {
            acc = acc * 10 + (d as i64);
            if acc > 0x8000_0000 {
                over = true;
            }
        }
        k += 1;
    }
    proof {
        assert(ds.take(n - start) =~= ds);
    }
    if over {
        return None;
    }
    if neg {
        Some((-acc) as i32)
    } else {
        if acc > 0x7FFF_FFFF {
            return None;
        }
        Some(acc as i32)
    }
}

/// A decimal digit, decided in executable code.
fn is_digit_exec(c: char) -> (r: bool)
    ensures
        r == is_digit(c),
{
    let u = c as u32;
    48 <= u && u <= 57
}

/// The value of a hexadecimal digit, or `None` when the character is none.
fn hex_digit_val_exec(c: char) -> (r: Option<u32>)
    ensures
        r is Some <==> is_hex_digit(c),
        r matches Some(v) ==> v == hex_digit_val(c) && v < 16,
{
    let u = c as u32;
    if 48 <= u && u <= 57 {
        Some(u - 48)
    } else if 97 <= u && u <= 102 {
        Some(u - 97 + 10)
    } else if 65 <= u && u <= 70 {
        Some(u - 65 + 10)
    } else {
        None
    }
}

/// The scanner: a single forward pass over `input_string`.
#[derive(Debug)]
pub struct Tokenizer<'a> {
    pub input_string: &'a str,
}

impl<'a> Tokenizer<'a> {
    /// Scans the whole input into its token sequence, or reports the first
    /// lexical error.
    pub fn tokenize_json(&self) -> (r: Result<Vec<Token>, ErrorKind>)
        ensures
            match (r, spec_tokenize(self.input_string@)) {
                (Ok(v), Ok(ts)) => token_models(v@) == ts,
                (Err(e1), Err(e2)) => e1 == e2,
                _ => false,
            },
    {
        let ghost s = self.input_string@;
        let s_len = self.input_string.unicode_len();
        let mut tokens: Vec<Token> = Vec::new();
        let mut pos: usize = 0;
        proof {
            assert(token_models(tokens@) =~= Seq::<TokenModel>::empty());
        }
        loop
            invariant
                s == self.input_string@,
                s_len == s.len(),
                pos <= s_len,
                spec_tokenize(s) == spec_tokenize_from(s, pos as int, token_models(tokens@)),
            decreases s_len - pos,
        {
            let ghost toks0 = tokens@;
            if pos >= s_len {
                return Ok(tokens);
            }
            let c = self.input_string.get_char(pos);
            if c == '{' {
                tokens.push(Token::LeftBrace);
                pos += 1;
            } else if c == '}' {
                tokens.push(Token::RightBrace);
                pos += 1;
            } else if c == '[' {
                tokens.push(Token::LeftBracket);
                pos += 1;
            } else if c == ']' {
                tokens.push(Token::RightBracket);
                pos += 1;
            } else if c == ':' {
                tokens.push(Token::Colon);
                pos += 1;
            } else if c == ',' {
                tokens.push(Token::Comma);
                pos += 1;
            } else if c == 'n' {
                proof {
                    reveal_strlit("null");
                    assert("null"@ =~= seq!['n', 'u', 'l', 'l']);
                }
                if self.try_tokenize_null(&mut pos) {
                    tokens.push(Token::Null);
                } else {
                    return Err(ErrorKind::InvalidToken);
                }
            } else if c == 't' {
                proof {
                    reveal_strlit("true");
                    assert("true"@ =~= seq!['t', 'r', 'u', 'e']);
                }
                if self.try_tokenize_true(&mut pos) {
                    tokens.push(Token::Boolean(true));
                } else {
                    return Err(ErrorKind::InvalidToken);
                }
            } else if c == 'f' {
                proof {
                    reveal_strlit("false");
                    assert("false"@ =~= seq!['f', 'a', 'l', 's', 'e']);
                }
                if self.try_tokenize_false(&mut pos) {
                    tokens.push(Token::Boolean(false));
                } else {
                    return Err(ErrorKind::InvalidToken);
                }
            } else if c == '"' {
                match self.try_tokenize_string(&mut pos) {
                    Ok(st) => {
                        let ghost stv = st@;
                        tokens.push(Token::String(st));
                        proof {
                            assert(token_models(tokens@) =~= token_models(toks0).push(
                                TokenModel::Str(stv),
                            ));
                        }
                    },
                    Err(err) => {
                        return Err(err);
                    },
                }
            } else if is_digit_exec(c) || c == '-' {
                match self.try_tokenize_number(&mut pos) {
                    Ok(num) => {
                        let ghost numv = num@;
                        tokens.push(Token::Number(num));
                        proof {
                            assert(token_models(tokens@) =~= token_models(toks0).push(
                                TokenModel::Num(numv),
                            ));
                        }
                    },
                    Err(err) => {
                        return Err(err);
                    },
                }
            } else if c == ' ' || c == '\n' || c == '\r' {
                pos += 1;
            } else {
                return Err(ErrorKind::InvalidCharacter);
            }
            proof {
                if tokens@.len() > toks0.len() {
                    assert(token_models(tokens@) =~= token_models(toks0).push(
                        tokens@.last()@,
                    ));
                }
            }
        }
    }

    /// Compares the characters at `pos` against the whole word, consuming
    /// them up to the first difference.
    pub fn match_exact_word(&self, pos: &mut usize, word: &str) -> (r: bool)
        requires
            *old(pos) <= self.input_string@.len(),
        ensures
            r == spec_match_word(self.input_string@, *old(pos) as int, word@),
            r ==> *final(pos) == *old(pos) + word@.len(),
            *old(pos) <= *final(pos) <= self.input_string@.len(),
    {
        let s_len = self.input_string.unicode_len();
        let w_len = word.unicode_len();
        let ghost i0 = *pos as int;
        let mut k: usize = 0;
        while k < w_len
            invariant
                0 <= k <= w_len,
                w_len == word@.len(),
                s_len == self.input_string@.len(),
                i0 == *old(pos),
                *pos == i0 + k,
                *pos <= s_len,
                word@.subrange(0, k as int) == self.input_string@.subrange(i0, i0 + k),
            decreases w_len - k,
        {
            if *pos >= s_len {
                // the input ran out before the word did
                assert(!spec_match_word(self.input_string@, i0, word@));
                return false;
            }
            let c = self.input_string.get_char(*pos);
            let w = word.get_char(k);
            *pos += 1;
            k += 1;
            proof {
                assert(word@.subrange(0, k as int) == word@.subrange(0, k - 1).push(word@[k - 1]));
                assert(self.input_string@.subrange(i0, i0 + k) == self.input_string@.subrange(
                    i0,
                    i0 + k - 1,
                ).push(self.input_string@[i0 + k - 1]));
            }
            if c != w {
                proof {
                    if spec_match_word(self.input_string@, i0, word@) {
                        assert(self.input_string@.subrange(i0, i0 + w_len as int)[k - 1] == word@[k
                            - 1]);
                    }
                }
                return false;
            }
        }
        proof {
            assert(word@.subrange(0, w_len as int) == word@);
        }
        true
    }

    /// Consumes the word `null` at `pos`, reporting whether it was there.
    pub fn try_tokenize_null(&self, pos: &mut usize) -> (r: bool)
        requires
            *old(pos) <= self.input_string@.len(),
        ensures
            r == spec_match_word(self.input_string@, *old(pos) as int, "null"@),
            r ==> *final(pos) == *old(pos) + 4,
            *old(pos) <= *final(pos) <= self.input_string@.len(),
    {
        proof {
            reveal_strlit("null");
        }
        self.match_exact_word(pos, "null")
    }

    /// Consumes the word `true` at `pos`, reporting whether it was there.
    pub fn try_tokenize_true(&self, pos: &mut usize) -> (r: bool)
        requires
            *old(pos) <= self.input_string@.len(),
        ensures
            r == spec_match_word(self.input_string@, *old(pos) as int, "true"@),
            r ==> *final(pos) == *old(pos) + 4,
            *old(pos) <= *final(pos) <= self.input_string@.len(),
    {
        proof {
            reveal_strlit("true");
        }
        self.match_exact_word(pos, "true")
    }

    /// Consumes the word `false` at `pos`, reporting whether it was there.
    pub fn try_tokenize_false(&self, pos: &mut usize) -> (r: bool)
        requires
            *old(pos) <= self.input_string@.len(),
        ensures
            r == spec_match_word(self.input_string@, *old(pos) as int, "false"@),
            r ==> *final(pos) == *old(pos) + 5,
            *old(pos) <= *final(pos) <= self.input_string@.len(),
    {
        proof {
            reveal_strlit("false");
        }
        self.match_exact_word(pos, "false")
    }

    /// Turns an accumulated literal into a number: the text itself for a
    /// float, the signed 32-bit value for an integer.
    fn parse_number(&self, s: &str, is_float: bool) -> (r: Result<Number, ErrorKind>)
        ensures
            is_float ==> (r matches Ok(n) && n@ == NumberModel::Float(s@)),
            !is_float ==> match spec_parse_i32(s@) {
                Some(v) => (r matches Ok(n) && n@ == NumberModel::Int(v as int)),
                None => r == Err::<Number, ErrorKind>(ErrorKind::InvalidInteger),
            },
    {
        if is_float {
            Ok(Number::Float(s.to_owned()))
        } else {
            match parse_i32_str(s) {
                Some(v) => Ok(Number::Int(v)),
                None => Err(ErrorKind::InvalidInteger),
            }
        }
    }

    /// Consumes a numeric literal that starts at `pos`.
    pub fn try_tokenize_number(&self, pos: &mut usize) -> (r: Result<Number, ErrorKind>)
        requires
            *old(pos) <= self.input_string@.len(),
        ensures
            *old(pos) <= *final(pos) <= self.input_string@.len(),
            r is Ok ==> *old(pos) < *final(pos),
            match (r, spec_scan_number(self.input_string@, *old(pos) as int)) {
                (Ok(num), Ok((m, j))) => num@ == m && *final(pos) == j,
                (Err(e1), Err(e2)) => e1 == e2,
                _ => false,
            },
    {
        let ghost s = self.input_string@;
        let ghost i0 = *old(pos) as int;
        let s_len = self.input_string.unicode_len();
        let mut lit = String::new();
        let mut has_dot = false;
        let mut has_digit = false;
        if *pos < s_len && self.input_string.get_char(*pos) == '-' {
            push_char(&mut lit, '-');
            *pos += 1;
        }
        let ghost neg = 0 <= i0 < s.len() && s[i0] == '-';
        let ghost start = if neg {
            i0 + 1
        } else {
            i0
        };
        let ghost lit0: Seq<char> = if neg {
            seq!['-']
        } else {
            Seq::<char>::empty()
        };
        proof {
            assert(Seq::<char>::empty().push('-') =~= seq!['-']);
        }
        loop
            invariant
                s == self.input_string@,
                s_len == s.len(),
                i0 == *old(pos),
                i0 <= *pos <= s_len,
                neg == (0 <= i0 < s.len() && s[i0] == '-'),
                start == (if neg {
                    i0 + 1
                } else {
                    i0
                }),
                lit0 == (if neg {
                    seq!['-']
                } else {
                    Seq::<char>::empty()
                }),
                start <= *pos,
                has_digit ==> i0 < *pos,
                !has_digit ==> lit@ == lit0 && !has_dot,
                spec_scan_digits(s, start, lit0, false, false) == spec_scan_digits(
                    s,
                    *pos as int,
                    lit@,
                    has_dot,
                    has_digit,
                ),
            decreases s_len - *pos,
        {
            if *pos >= s_len {
                if has_digit {
                    return self.parse_number(lit.as_str(), has_dot);
                } else {
                    return Err(ErrorKind::InvalidNumber);
                }
            }
            let c = self.input_string.get_char(*pos);
            if is_digit_exec(c) {
                push_char(&mut lit, c);
                has_digit = true;
                *pos += 1;
            } else if c == '.' {
                if has_dot || !has_digit {
                    return Err(ErrorKind::InvalidNumber);
                }
                push_char(&mut lit, '.');
                has_dot = true;
                *pos += 1;
            } else if c == ',' || c == '\n' || c == '\r' || c == ' ' || c == '}' || c == ']' {
                return self.parse_number(lit.as_str(), has_dot);
            } else {
                return Err(ErrorKind::InvalidNumber);
            }
        }
    }

    /// Consumes a string literal whose opening quote stands at `pos`,
    /// returning its decoded body.
    pub fn try_tokenize_string(&self, pos: &mut usize) -> (r: Result<String, ErrorKind>)
        requires
            *old(pos) <= self.input_string@.len(),
        ensures
            *old(pos) <= *final(pos) <= self.input_string@.len(),
            r is Ok ==> *old(pos) + 2 <= *final(pos),
            match (r, spec_scan_string(self.input_string@, *old(pos) + 1, Seq::empty())) {
                (Ok(out), Ok((content, j))) => out@ == content && *final(pos) == j,
                (Err(e1), Err(e2)) => e1 == e2,
                _ => false,
            },
    {
        let ghost s = self.input_string@;
        let ghost i0 = *old(pos) as int;
        let s_len = self.input_string.unicode_len();
        // skip the opening double quote
        if *pos < s_len {
            *pos += 1;
        }
        let mut out = String::new();
        loop
            invariant
                s == self.input_string@,
                s_len == s.len(),
                i0 == *old(pos),
                i0 <= *pos <= s_len,
                i0 < s_len ==> i0 < *pos,
                spec_scan_string(s, i0 + 1, Seq::empty()) == spec_scan_string(
                    s,
                    *pos as int,
                    out@,
                ),
            decreases s_len - *pos,
        {
            if *pos >= s_len {
                return Err(ErrorKind::UnterminatedString);
            }
            let c = self.input_string.get_char(*pos);
            if c == '"' {
                *pos += 1;
                return Ok(out);
            } else if c == '\\' {
                if *pos + 1 >= s_len {
                    return Err(ErrorKind::UnterminatedEscape);
                }
                let e = self.input_string.get_char(*pos + 1);
                if e == '"' {
                    push_char(&mut out, '"');
                    *pos += 2;
                } else if e == '\\' {
                    push_char(&mut out, '\\');
                    *pos += 2;
                } else if e == '/' {
                    push_char(&mut out, '/');
                    *pos += 2;
                } else if e == 'b' {
                    push_char(&mut out, '\u{0008}');
                    *pos += 2;
                } else if e == 'f' {
                    push_char(&mut out, '\u{000C}');
                    *pos += 2;
                } else if e == 'n' {
                    push_char(&mut out, '\n');
                    *pos += 2;
                } else if e == 'r' {
                    push_char(&mut out, '\r');
                    *pos += 2;
                } else if e == 't' {
                    push_char(&mut out, '\t');
                    *pos += 2;
                } else if e == 'u' {
                    if s_len - *pos < 6 {
                        return Err(ErrorKind::InvalidUnicodeEscape);
                    }
                    let d0 = hex_digit_val_exec(self.input_string.get_char(*pos + 2));
                    let d1 = hex_digit_val_exec(self.input_string.get_char(*pos + 3));
                    let d2 = hex_digit_val_exec(self.input_string.get_char(*pos + 4));
                    let d3 = hex_digit_val_exec(self.input_string.get_char(*pos + 5));
                    match (d0, d1, d2, d3) {
                        (Some(v0), Some(v1), Some(v2), Some(v3)) => {
                            let code: u32 = 4096 * v0 + 256 * v1 + 16 * v2 + v3;
                            match char_from_code(code) {
                                Some(decoded) => {
                                    push_char(&mut out, decoded);
                                    *pos += 6;
                                },
                                None => {
                                    return Err(ErrorKind::InvalidCodePoint);
                                },
                            }
                        },
                        _ => {
                            return Err(ErrorKind::InvalidUnicodeEscape);
                        },
                    }
                } else {
                    return Err(ErrorKind::InvalidEscapeSequence);
                }
            } else {
                push_char(&mut out, c);
                *pos += 1;
            }
        }
    }
}

} // verus!
