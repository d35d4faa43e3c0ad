use vstd::prelude::*;
use vstd::string::StrSliceExecFns;
use vstd::string::StringExecFns;

use crate::text::str_eq;

verus! {

/// Every lexical unit the scanner can produce.
#[derive(Debug, Clone, Copy, PartialEq, Eq, Structural)]
pub enum TokenTypes {
    Number,
    Plus,
    Minus,
    Star,
    Slash,
    LParen,
    RParen,
    Let,
    Identifier,
    Eq,
    Fn,
    LCurly,
    RCurly,
    Semicolon,
    Comma,
    Print,
    String,
}

/// Mathematical image of one token: the kind, the carried text and the
/// position (line, column) where its scan completed.
pub struct TokenV {
    pub token_type: TokenTypes,
    pub value: Option<Seq<char>>,
    pub pos: (nat, nat),
}

/// One positioned token.
#[derive(Debug)]
pub struct Token {
    pub token_type: TokenTypes,
    pub value: Option<String>,
    pub pos: (usize, usize),
}

impl View for Token {
    type V = TokenV;

    open spec fn view(&self) -> TokenV {
        TokenV {
            token_type: self.token_type,
            value: match self.value {
                Some(s) => Some(s@),
                None => None,
            },
            pos: (self.pos.0 as nat, self.pos.1 as nat),
        }
    }
}

impl Clone for Token {
    fn clone(&self) -> (res: Token)
        ensures
            res == *self,
    {
        Token {
            token_type: self.token_type,
            value: match &self.value {
                Some(s) => Some(s.clone()),
                None => None,
            },
            pos: self.pos,
        }
    }
}

/// The token images of a token vector, in order.
pub open spec fn tokens_view(ts: Seq<Token>) -> Seq<TokenV> {
    Seq::new(ts.len(), |i: int| ts[i]@)
}

/// A character that can open an identifier.
pub open spec fn is_ident_start(c: char) -> bool {
    ('a' <= c && c <= 'z') || ('A' <= c && c <= 'Z') || c == '_'
}

/// A character that can continue an identifier.
pub open spec fn is_ident_cont(c: char) -> bool {
    is_ident_start(c) || is_digit(c)
}

/// An ASCII decimal digit.
pub open spec fn is_digit(c: char) -> bool {
    '0' <= c && c <= '9'
}

/// Identifiers that are keywords; every other identifier stands for
/// itself.
pub open spec fn keyword_kind(text: Seq<char>) -> TokenTypes {
    if text == "let"@ {
        TokenTypes::Let
    } else if text == "fn"@ {
        TokenTypes::Fn
    } else if text == "print"@ {
        TokenTypes::Print
    } else {
        TokenTypes::Identifier
    }
}

/// The kind of a one-character token, if the character forms one.
pub open spec fn single_kind(c: char) -> Option<TokenTypes> {
    if c == '+' {
        Some(TokenTypes::Plus)
    } else if c == '-' {
        Some(TokenTypes::Minus)
    } else if c == '*' {
        Some(TokenTypes::Star)
    } else if c == '/' {
        Some(TokenTypes::Slash)
    } else if c == '(' {
        Some(TokenTypes::LParen)
    } else if c == ')' {
        Some(TokenTypes::RParen)
    } else if c == '{' {
        Some(TokenTypes::LCurly)
    } else if c == '}' {
        Some(TokenTypes::RCurly)
    } else if c == '=' {
        Some(TokenTypes::Eq)
    } else if c == ';' {
        Some(TokenTypes::Semicolon)
    } else if c == ',' {
        Some(TokenTypes::Comma)
    } else {
        None
    }
}

/// Length of the maximal identifier run at the front.
pub open spec fn ident_run(s: Seq<char>) -> nat
    decreases s.len(),
{
    if s.len() == 0 || !is_ident_cont(s[0]) {
        0
    } else {
        1 + ident_run(s.drop_first())
    }
}

/// Length of the maximal digit run at the front.
pub open spec fn digit_run(s: Seq<char>) -> nat
    decreases s.len(),
{
    if s.len() == 0 || !is_digit(s[0]) {
        0
    } else {
        1 + digit_run(s.drop_first())
    }
}

/// What one escape sequence denotes in a string literal: the named
/// control characters; any other escaped character stays literal,
/// backslash included.
pub open spec fn escape_expansion(e: char) -> Seq<char> {
    if e == 'n' {
        seq!['\n']
    } else if e == 't' {
        seq!['\t']
    } else if e == 'r' {
        seq!['\r']
    } else if e == '\\' {
        seq!['\\']
    } else if e == '"' {
        seq!['"']
    } else {
        seq!['\\', e]
    }
}

/// What scanning a string literal body yields: the accumulated value
/// and the number of characters consumed after the opening quote.
pub struct ScanStr {
    pub value: Seq<char>,
    pub used: nat,
}

/// Scans a string literal body (everything after the opening quote) up
/// to and including the closing quote; a missing closing quote silently
/// stops at end of input with whatever was accumulated.
pub open spec fn scan_string(s: Seq<char>) -> ScanStr
    decreases s.len(),
{
    if s.len() == 0 {
        ScanStr { value: Seq::empty(), used: 0 }
    } else if s[0] == '"' {
        ScanStr { value: Seq::empty(), used: 1 }
    } else if s[0] == '\\' {
        if s.len() == 1 {
            ScanStr { value: Seq::empty(), used: 1 }
        } else {
            let rest = scan_string(s.skip(2));
            ScanStr { value: escape_expansion(s[1]) + rest.value, used: 2 + rest.used }
        }
    } else {
        let rest = scan_string(s.drop_first());
        ScanStr { value: seq![s[0]] + rest.value, used: 1 + rest.used }
    }
}

pub proof fn lemma_ident_run_le(s: Seq<char>)
    ensures
        ident_run(s) <= s.len(),
    decreases s.len(),
{
    if s.len() > 0 && is_ident_cont(s[0]) {
        lemma_ident_run_le(s.drop_first());
    }
}

pub proof fn lemma_digit_run_le(s: Seq<char>)
    ensures
        digit_run(s) <= s.len(),
    decreases s.len(),
{
    if s.len() > 0 && is_digit(s[0]) {
        lemma_digit_run_le(s.drop_first());
    }
}

pub proof fn lemma_scan_string_le(s: Seq<char>)
    ensures
        scan_string(s).used <= s.len(),
    decreases s.len(),
{
    if s.len() == 0 {
    } else if s[0] == '"' {
    } else if s[0] == '\\' {
        if s.len() > 1 {
            lemma_scan_string_le(s.skip(2));
        }
    } else {
        lemma_scan_string_le(s.drop_first());
    }
}

/// The token sequence of the remaining input, scanning left to right
/// with the current line and column; lexing never fails.
pub open spec fn lex(s: Seq<char>, line: nat, col: nat) -> Seq<TokenV>
    decreases s.len(),
{
    if s.len() == 0 {
        Seq::empty()
    } else {
        let c = s[0];
        if is_ident_start(c) {
            proof {
                lemma_ident_run_le(s);
            }
            let n = ident_run(s);
            let text = s.take(n as int);
            seq![
                TokenV {
                    token_type: keyword_kind(text),
                    value: Some(text),
                    pos: (line, (col + n) as nat),
                },
            ] + lex(s.skip(n as int), line, (col + n) as nat)
        } else if is_digit(c) {
            proof {
                lemma_digit_run_le(s);
            }
            let n = digit_run(s);
            seq![
                TokenV {
                    token_type: TokenTypes::Number,
                    value: Some(s.take(n as int)),
                    pos: (line, (col + n) as nat),
                },
            ] + lex(s.skip(n as int), line, (col + n) as nat)
        } else if c == '"' {
            proof {
                lemma_scan_string_le(s.skip(1));
            }
            let sc = scan_string(s.skip(1));
            seq![
                TokenV {
                    token_type: TokenTypes::String,
                    value: Some(sc.value),
                    pos: (line, (col + 1 + sc.used) as nat),
                },
            ] + lex(s.skip(1 + sc.used as int), line, (col + 1 + sc.used) as nat)
        } else if single_kind(c) is Some {
            seq![
                TokenV {
                    token_type: single_kind(c)->0,
                    value: None,
                    pos: (line, (col + 1) as nat),
                },
            ] + lex(s.drop_first(), line, (col + 1) as nat)
        } else if c == ' ' || c == '\t' {
            lex(s.drop_first(), line, (col + 1) as nat)
        } else if c == '\n' {
            lex(s.drop_first(), (line + 1) as nat, 0)
        } else {
            lex(s.drop_first(), line, (col + 1) as nat)
        }
    }
}

/// The tokens of a whole input, starting at line 1, column 0.
pub open spec fn tokens_of(input: Seq<char>) -> Seq<TokenV> {
    lex(input, 1, 0)
}

proof fn lemma_ident_run_is(s: Seq<char>, m: int)
    requires
        0 <= m <= s.len(),
        forall|k: int| 0 <= k < m ==> is_ident_cont(#[trigger] s[k]),
        m == s.len() || !is_ident_cont(s[m]),
    ensures
        ident_run(s) == m,
    decreases m,
{
    if m > 0 {
        lemma_ident_run_is(s.drop_first(), m - 1);
    }
}

proof fn lemma_digit_run_is(s: Seq<char>, m: int)
    requires
        0 <= m <= s.len(),
        forall|k: int| 0 <= k < m ==> is_digit(#[trigger] s[k]),
        m == s.len() || !is_digit(s[m]),
    ensures
        digit_run(s) == m,
    decreases m,
{
    if m > 0 {
        lemma_digit_run_is(s.drop_first(), m - 1);
    }
}

/// Scans past the identifier run that starts at position i.
fn scan_ident_end(input: &str, i: usize, n: usize) -> (j: usize)
    requires
        n == input@.len(),
        i < n,
        is_ident_cont(input@[i as int]),
    ensures
        i < j <= n,
        j - i == ident_run(input@.skip(i as int)),
{
    let mut j = i;
    let mut stop = false;
    while !stop && j < n
        invariant
            n == input@.len(),
            i <= j <= n,
            forall|k: int| i <= k < j ==> is_ident_cont(#[trigger] input@[k]),
            stop ==> j < n && !is_ident_cont(input@[j as int]),
        decreases n - j, (if stop {
            0int
        } else {
            1int
        }),
    {
        let c = input.get_char(j);
        if ('a' <= c && c <= 'z') || ('A' <= c && c <= 'Z') || c == '_' || ('0' <= c && c <= '9') {
            j = j + 1;
        } else {
            stop = true;
        }
    }
    proof {
        assert(forall|k: int|
            0 <= k < j - i ==> is_ident_cont(#[trigger] input@.skip(i as int)[k]));
        if stop {
            assert(input@.skip(i as int)[j - i] == input@[j as int]);
        }
        lemma_ident_run_is(input@.skip(i as int), j - i);
    }
    j
}

/// Scans past the digit run that starts at position i.
fn scan_digit_end(input: &str, i: usize, n: usize) -> (j: usize)
    requires
        n == input@.len(),
        i < n,
        is_digit(input@[i as int]),
    ensures
        i < j <= n,
        j - i == digit_run(input@.skip(i as int)),
{
    let mut j = i;
    let mut stop = false;
    while !stop && j < n
        invariant
            n == input@.len(),
            i <= j <= n,
            forall|k: int| i <= k < j ==> is_digit(#[trigger] input@[k]),
            stop ==> j < n && !is_digit(input@[j as int]),
        decreases n - j, (if stop {
            0int
        } else {
            1int
        }),
    {
        let c = input.get_char(j);
        if '0' <= c && c <= '9' {
            j = j + 1;
        } else {
            stop = true;
        }
    }
    proof {
        assert(forall|k: int| 0 <= k < j - i ==> is_digit(#[trigger] input@.skip(i as int)[k]));
        if stop {
            assert(input@.skip(i as int)[j - i] == input@[j as int]);
        }
        lemma_digit_run_is(input@.skip(i as int), j - i);
    }
    j
}

/// Scans a string literal from its opening quote at position i: the
/// accumulated value and the position just past what was consumed.
fn scan_string_exec(input: &str, i: usize, n: usize) -> (r: (String, usize))
    requires
        n == input@.len(),
        i < n,
        input@[i as int] == '"',
    ensures
        ({
            let sc = scan_string(input@.skip(i + 1));
            &&& r.1 == i + 1 + sc.used
            &&& r.0@ == sc.value
            &&& i < r.1 <= n
        }),
{
    let mut k = i + 1;
    let mut value = String::new();
    let mut fin = false;
    while !fin && k < n
        invariant
            n == input@.len(),
            i + 1 <= k <= n,
            !fin ==> scan_string(input@.skip(i + 1)).value == value@ + scan_string(
                input@.skip(k as int),
            ).value && scan_string(input@.skip(i + 1)).used == (k - (i + 1)) + scan_string(
                input@.skip(k as int),
            ).used,
            fin ==> scan_string(input@.skip(i + 1)).value == value@ && scan_string(
                input@.skip(i + 1),
            ).used == k - (i + 1) && k <= n,
        decreases n - k,
    {
        let ghost v0 = value@;
        let ghost rem = input@.skip(k as int);
        let c = input.get_char(k);
        proof {
            assert(rem[0] == input@[k as int]);
        }
        if c == '"' {
            proof {
                assert(scan_string(rem).value == Seq::<char>::empty());
                assert(v0 + Seq::<char>::empty() =~= v0);
            }
            k = k + 1;
            fin = true;
        } else if c == '\\' {
            if k + 1 < n {
                let e = input.get_char(k + 1);
                proof {
                    assert(rem[1] == input@[k + 1]);
                    assert(rem.skip(2) =~= input@.skip(k + 2));
                    reveal_strlit("\n");
                    reveal_strlit("\t");
                    reveal_strlit("\r");
                    reveal_strlit("\\");
                    reveal_strlit("\"");
                }
                if e == 'n' {
                    value.append("\n");
                } else if e == 't' {
                    value.append("\t");
                } else if e == 'r' {
                    value.append("\r");
                } else if e == '\\' {
                    value.append("\\");
                } else if e == '"' {
                    value.append("\"");
                } else {
                    value.append("\\");
                    let piece = input.substring_char(k + 1, k + 2);
                    proof {
                        assert(piece@ =~= seq![input@[k + 1]]);
                    }
                    value.append(piece);
                }
                proof {
                    assert(value@ =~= v0 + escape_expansion(input@[k + 1]));
                    assert(v0 + (escape_expansion(input@[k + 1]) + scan_string(input@.skip(k + 2)).value)
                        =~= (v0 + escape_expansion(input@[k + 1])) + scan_string(
                        input@.skip(k + 2),
                    ).value);
                }
                k = k + 2;
            } else {
                proof {
                    assert(rem.len() == 1);
                    assert(v0 + Seq::<char>::empty() =~= v0);
                }
                k = k + 1;
            }
        } else {
            let piece = input.substring_char(k, k + 1);
            proof {
                assert(piece@ =~= seq![input@[k as int]]);
                assert(rem.drop_first() =~= input@.skip(k + 1));
            }
            value.append(piece);
            proof {
                assert(value@ =~= v0 + seq![input@[k as int]]);
                assert(v0 + (seq![input@[k as int]] + scan_string(input@.skip(k + 1)).value) =~= (v0
                    + seq![input@[k as int]]) + scan_string(input@.skip(k + 1)).value);
            }
            k = k + 1;
        }
    }
    proof {
        if !fin {
            assert(input@.skip(k as int).len() == 0);
            assert(value@ + scan_string(input@.skip(k as int)).value =~= value@);
        }
    }
    (value, k)
}


proof fn lemma_tokens_view_push(ts: Seq<Token>, t: Token)
    ensures
        tokens_view(ts.push(t)) == tokens_view(ts).push(t@),
{
    assert(tokens_view(ts.push(t)) =~= tokens_view(ts).push(t@));
}

/// The kind of a one-character token, if the character forms one.
fn single_token_kind(c: char) -> (r: Option<TokenTypes>)
    ensures
        r == single_kind(c),
{
    if c == '+' {
        Some(TokenTypes::Plus)
    } else if c == '-' {
        Some(TokenTypes::Minus)
    } else if c == '*' {
        Some(TokenTypes::Star)
    } else if c == '/' {
        Some(TokenTypes::Slash)
    } else if c == '(' {
        Some(TokenTypes::LParen)
    } else if c == ')' {
        Some(TokenTypes::RParen)
    } else if c == '{' {
        Some(TokenTypes::LCurly)
    } else if c == '}' {
        Some(TokenTypes::RCurly)
    } else if c == '=' {
        Some(TokenTypes::Eq)
    } else if c == ';' {
        Some(TokenTypes::Semicolon)
    } else if c == ',' {
        Some(TokenTypes::Comma)
    } else {
        None
    }
}

/// Scans raw text into positioned tokens: one pass, left to right, no
/// backtracking, and never a failure.
#[verifier::rlimit(100)]
pub fn tokenize(input: &str) -> (tokens: Vec<Token>)
    requires
        input@.len() < usize::MAX,
    ensures
        tokens_view(tokens@) == tokens_of(input@),
{
    let n = input.unicode_len();
    let mut tokens: Vec<Token> = Vec::new();
    let mut i: usize = 0;
    let mut line: usize = 1;
    let mut col: usize = 0;
    proof {
        assert(input@.skip(0) =~= input@);
    }
    while i < n
        invariant
            n == input@.len(),
            n < usize::MAX,
            i <= n,
            col <= i,
            line <= i + 1,
            tokens_of(input@) == tokens_view(tokens@) + lex(
                input@.skip(i as int),
                line as nat,
                col as nat,
            ),
        decreases n - i,
    {
        let ghost rem = input@.skip(i as int);
        let ghost toks0 = tokens@;
        let c = input.get_char(i);
        proof {
            assert(rem[0] == input@[i as int]);
        }
        if ('a' <= c && c <= 'z') || ('A' <= c && c <= 'Z') || c == '_' {
            let j = scan_ident_end(input, i, n);
            let text = input.substring_char(i, j).to_owned();
            proof {
                assert(text@ =~= rem.take(j - i));
                assert(rem.skip(j - i) =~= input@.skip(j as int));
            }
            let kind = if str_eq(text.as_str(), "let") {
                TokenTypes::Let
            } else if str_eq(text.as_str(), "fn") {
                TokenTypes::Fn
            } else if str_eq(text.as_str(), "print") {
                TokenTypes::Print
            } else {
                TokenTypes::Identifier
            };
            col = col + (j - i);
            let tok = Token { token_type: kind, value: Some(text), pos: (line, col) };
            proof {
                lemma_tokens_view_push(toks0, tok);
                assert(tokens_view(toks0) + lex(rem, line as nat, (col - (j - i)) as nat)
                    =~= tokens_view(toks0.push(tok)) + lex(
                    input@.skip(j as int),
                    line as nat,
                    col as nat,
                ));
            }
            tokens.push(tok);
            i = j;
        } else if '0' <= c && c <= '9' {
            let j = scan_digit_end(input, i, n);
            let text = input.substring_char(i, j).to_owned();
            proof {
                assert(text@ =~= rem.take(j - i));
                assert(rem.skip(j - i) =~= input@.skip(j as int));
            }
            col = col + (j - i);
            let tok = Token { token_type: TokenTypes::Number, value: Some(text), pos: (line, col) };
            proof {
                lemma_tokens_view_push(toks0, tok);
                assert(tokens_view(toks0) + lex(rem, line as nat, (col - (j - i)) as nat)
                    =~= tokens_view(toks0.push(tok)) + lex(
                    input@.skip(j as int),
                    line as nat,
                    col as nat,
                ));
            }
            tokens.push(tok);
            i = j;
        } else if c == '"' {
            let scanned = scan_string_exec(input, i, n);
            let value = scanned.0;
            let k = scanned.1;
            proof {
                assert(rem.skip(1) =~= input@.skip(i + 1));
                lemma_scan_string_le(rem.skip(1));
                assert(rem.skip(1 + scan_string(rem.skip(1)).used as int) =~= input@.skip(
                    k as int,
                ));
            }
            col = col + (k - i);
            let tok = Token {
                token_type: TokenTypes::String,
                value: Some(value),
                pos: (line, col),
            };
            proof {
                lemma_tokens_view_push(toks0, tok);
                assert(tokens_view(toks0) + lex(rem, line as nat, (col - (k - i)) as nat)
                    =~= tokens_view(toks0.push(tok)) + lex(
                    input@.skip(k as int),
                    line as nat,
                    col as nat,
                ));
            }
            tokens.push(tok);
            i = k;
        } else {
            match single_token_kind(c) {
                Some(kind) => {
                    proof {
                        assert(rem.drop_first() =~= input@.skip(i + 1));
                    }
                    col = col + 1;
                    let tok = Token { token_type: kind, value: None, pos: (line, col) };
                    proof {
                        lemma_tokens_view_push(toks0, tok);
                        assert(tokens_view(toks0) + lex(rem, line as nat, (col - 1) as nat)
                            =~= tokens_view(toks0.push(tok)) + lex(
                            input@.skip(i + 1),
                            line as nat,
                            col as nat,
                        ));
                    }
                    tokens.push(tok);
                    i = i + 1;
                },
                None => {
                    proof {
                        assert(rem.drop_first() =~= input@.skip(i + 1));
                    }
                    if c == ' ' || c == '\t' {
                        col = col + 1;
                    } else if c == '\n' {
                        line = line + 1;
                        col = 0;
                    } else {
                        col = col + 1;
                    }
                    i = i + 1;
                },
            }
        }
    }
    proof {
        assert(input@.skip(n as int).len() == 0);
        assert(tokens_view(tokens@) + lex(input@.skip(n as int), line as nat, col as nat)
            =~= tokens_view(tokens@));
    }
    tokens
}

} // verus!
