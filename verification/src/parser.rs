use vstd::prelude::*;
use vstd::string::StringExecFns;

use crate::ast::{expr_view, exprs_view, lemma_exprs_view, Expr, ExprV};
use crate::lexer::{is_digit, tokens_view, Token, TokenTypes, TokenV};
use crate::text::{dec_digits, usize_to_dec};
use vstd::string::StrSliceExecFns;

verus! {

/// Errors raised during parsing, returned as values.
#[derive(Debug)]
pub enum ParseError {
    UnexpectedToken(String),
    ExpectedToken(String),
    UnexpectedEof,
}

/// Mathematical image of a parse error.
pub enum ParseErrorV {
    UnexpectedToken(Seq<char>),
    ExpectedToken(Seq<char>),
    UnexpectedEof,
}

impl View for ParseError {
    type V = ParseErrorV;

    open spec fn view(&self) -> ParseErrorV {
        match self {
            ParseError::UnexpectedToken(s) => ParseErrorV::UnexpectedToken(s@),
            ParseError::ExpectedToken(s) => ParseErrorV::ExpectedToken(s@),
            ParseError::UnexpectedEof => ParseErrorV::UnexpectedEof,
        }
    }
}

/// The text a parse error renders to.
pub open spec fn parse_error_message(e: ParseErrorV) -> Seq<char> {
    match e {
        ParseErrorV::UnexpectedToken(s) => "Unexpected token: "@ + s,
        ParseErrorV::ExpectedToken(s) => "Expected: "@ + s,
        ParseErrorV::UnexpectedEof => "Unexpected end of input"@,
    }
}

impl ParseError {
    pub fn message(&self) -> (s: String)
        ensures
            s@ == parse_error_message(self@),
    {
        match self {
            ParseError::UnexpectedToken(t) => "Unexpected token: ".to_owned().concat(t.as_str()),
            ParseError::ExpectedToken(t) => "Expected: ".to_owned().concat(t.as_str()),
            ParseError::UnexpectedEof => "Unexpected end of input".to_owned(),
        }
    }
}

/// The display name of a token kind.
pub open spec fn token_type_name(k: TokenTypes) -> Seq<char> {
    match k {
        TokenTypes::Number => "Number"@,
        TokenTypes::Plus => "Plus"@,
        TokenTypes::Minus => "Minus"@,
        TokenTypes::Star => "Star"@,
        TokenTypes::Slash => "Slash"@,
        TokenTypes::LParen => "LParen"@,
        TokenTypes::RParen => "RParen"@,
        TokenTypes::Let => "Let"@,
        TokenTypes::Identifier => "Identifier"@,
        TokenTypes::Eq => "Eq"@,
        TokenTypes::Fn => "Fn"@,
        TokenTypes::LCurly => "LCurly"@,
        TokenTypes::RCurly => "RCurly"@,
        TokenTypes::Semicolon => "Semicolon"@,
        TokenTypes::Comma => "Comma"@,
        TokenTypes::Print => "Print"@,
        TokenTypes::String => "String"@,
    }
}

/// How a token is described inside a parse error message: its kind,
/// its text if it carries one, and the position its scan completed at.
pub open spec fn token_describe(t: TokenV) -> Seq<char> {
    (match t.value {
        Some(v) => token_type_name(t.token_type) + "("@ + v + ")"@,
        None => token_type_name(t.token_type),
    }) + " at line "@ + dec_digits(t.pos.0) + ", column "@ + dec_digits(t.pos.1)
}

/// The numeric value of one decimal digit character.
pub open spec fn digit_of(c: char) -> nat {
    if is_digit(c) {
        (c as int - '0' as int) as nat
    } else {
        0
    }
}

/// The numeric value of a digit string.
pub open spec fn digits_val(v: Seq<char>) -> nat
    decreases v.len(),
{
    if v.len() == 0 {
        0
    } else {
        digits_val(v.drop_last()) * 10 + digit_of(v.last())
    }
}

/// A token the parser can run over without panicking: number tokens
/// carry a digit string whose value fits a 64-bit signed integer, and
/// identifier and string tokens carry their text.
pub open spec fn wf_token(t: TokenV) -> bool {
    match t.token_type {
        TokenTypes::Number => {
            &&& t.value matches Some(v)
            &&& v.len() > 0
            &&& (forall|k: int| 0 <= k < v.len() ==> is_digit(#[trigger] v[k]))
            &&& digits_val(v) <= i64::MAX
        },
        TokenTypes::Identifier => t.value is Some,
        TokenTypes::String => t.value is Some,
        _ => true,
    }
}

pub open spec fn wf_tokens(ts: Seq<TokenV>) -> bool {
    forall|i: int| 0 <= i < ts.len() ==> wf_token(#[trigger] ts[i])
}

/// What consuming one token yields: the token at the position and the
/// next position; past the end, nothing, and the position stays.
pub open spec fn eat_s(ts: Seq<TokenV>, pos: int) -> (Option<TokenV>, int) {
    if 0 <= pos < ts.len() {
        (Some(ts[pos]), pos + 1)
    } else {
        (None, pos)
    }
}

/// Tokens left from a position on.
pub open spec fn rem(ts: Seq<TokenV>, pos: int) -> nat {
    if pos <= ts.len() {
        (ts.len() - pos) as nat
    } else {
        0
    }
}

/// A parse position forced into the range a successful sub-parse can
/// leave it in: past lo, at most the end.
pub open spec fn clamp_pos(lo: int, p: int, hi: int) -> int {
    if p < lo {
        lo
    } else if p > hi {
        hi
    } else {
        p
    }
}

/// What one parse yields: an expression or an error, and the position
/// the parser stands at afterwards.
pub struct Parsed {
    pub result: Result<ExprV, ParseErrorV>,
    pub pos: int,
}

/// What parsing a name list or an argument list yields.
pub struct ParsedNames {
    pub result: Result<Seq<Seq<char>>, ParseErrorV>,
    pub pos: int,
}

pub struct ParsedArgs {
    pub result: Result<Seq<ExprV>, ParseErrorV>,
    pub pos: int,
}

/// factor := Number | String | Identifier ['(' args ')'] | '(' expr ')'
pub open spec fn parse_factor_s(ts: Seq<TokenV>, pos: int) -> Parsed
    decreases rem(ts, pos), 1int,
{
    let (tok_opt, p1) = eat_s(ts, pos);
    match tok_opt {
        None => Parsed { result: Err(ParseErrorV::UnexpectedEof), pos: p1 },
        Some(tok) => {
            if tok.token_type == TokenTypes::Number {
                Parsed {
                    result: Ok(ExprV::Number(digits_val(tok.value->0) as i64)),
                    pos: p1,
                }
            } else if tok.token_type == TokenTypes::String {
                Parsed { result: Ok(ExprV::StrLit(tok.value->0)), pos: p1 }
            } else if tok.token_type == TokenTypes::Identifier {
                let name = tok.value->0;
                if p1 < ts.len() && ts[p1].token_type == TokenTypes::LParen {
                    let a = parse_call_args_s(ts, p1 + 1, Seq::empty());
                    match a.result {
                        Err(e) => Parsed { result: Err(e), pos: a.pos },
                        Ok(args) => Parsed { result: Ok(ExprV::FnCall(name, args)), pos: a.pos },
                    }
                } else {
                    Parsed { result: Ok(ExprV::Var(name)), pos: p1 }
                }
            } else if tok.token_type == TokenTypes::LParen {
                let p = parse_expr_s(ts, p1);
                match p.result {
                    Err(e) => Parsed { result: Err(e), pos: p.pos },
                    Ok(inner) => {
                        let (closing, p2) = eat_s(ts, p.pos);
                        if closing matches Some(c) && c.token_type == TokenTypes::RParen {
                            Parsed { result: Ok(inner), pos: p2 }
                        } else {
                            Parsed {
                                result: Err(ParseErrorV::ExpectedToken("closing parenthesis"@)),
                                pos: p2,
                            }
                        }
                    },
                }
            } else {
                Parsed {
                    result: Err(ParseErrorV::UnexpectedToken(token_describe(tok))),
                    pos: p1,
                }
            }
        },
    }
}

/// The argument list of a call, after the opening parenthesis: a ')'
/// ends it, a ',' continues it; input may also just run out.
pub open spec fn parse_call_args_s(ts: Seq<TokenV>, pos: int, acc: Seq<ExprV>) -> ParsedArgs
    decreases rem(ts, pos), 4int,
{
    if pos >= ts.len() || pos < 0 {
        ParsedArgs { result: Ok(acc), pos }
    } else if ts[pos].token_type == TokenTypes::RParen {
        ParsedArgs { result: Ok(acc), pos: pos + 1 }
    } else {
        let p = parse_expr_s(ts, pos);
        match p.result {
            Err(e) => ParsedArgs { result: Err(e), pos: p.pos },
            Ok(arg) => {
                let p2 = clamp_pos(pos + 1, p.pos, ts.len() as int);
                if p2 < ts.len() {
                    if ts[p2].token_type == TokenTypes::Comma {
                        parse_call_args_s(ts, p2 + 1, acc.push(arg))
                    } else if ts[p2].token_type == TokenTypes::RParen {
                        ParsedArgs { result: Ok(acc.push(arg)), pos: p2 + 1 }
                    } else {
                        ParsedArgs {
                            result: Err(
                                ParseErrorV::ExpectedToken(
                                    "',' or ')' after function argument"@,
                                ),
                            ),
                            pos: p2,
                        }
                    }
                } else {
                    ParsedArgs { result: Ok(acc.push(arg)), pos: p2 }
                }
            },
        }
    }
}

/// term := factor (('*'|'/') factor)*
pub open spec fn parse_term_s(ts: Seq<TokenV>, pos: int) -> Parsed
    decreases rem(ts, pos), 2int,
{
    let p = parse_factor_s(ts, pos);
    match p.result {
        Err(e) => Parsed { result: Err(e), pos: p.pos },
        Ok(first) => parse_term_rest_s(ts, clamp_pos(pos + 1, p.pos, ts.len() as int), first),
    }
}

pub open spec fn parse_term_rest_s(ts: Seq<TokenV>, pos: int, acc: ExprV) -> Parsed
    decreases rem(ts, pos), 0int,
{
    if 0 <= pos < ts.len() && (ts[pos].token_type == TokenTypes::Star || ts[pos].token_type
        == TokenTypes::Slash) {
        let op = ts[pos].token_type;
        let p = parse_factor_s(ts, pos + 1);
        match p.result {
            Err(e) => Parsed { result: Err(e), pos: p.pos },
            Ok(rhs) => parse_term_rest_s(
                ts,
                clamp_pos(pos + 2, p.pos, ts.len() as int),
                ExprV::Binary(Box::new(acc), op, Box::new(rhs)),
            ),
        }
    } else {
        Parsed { result: Ok(acc), pos }
    }
}

/// expr := term (('+'|'-') term)*
pub open spec fn parse_expr_s(ts: Seq<TokenV>, pos: int) -> Parsed
    decreases rem(ts, pos), 3int,
{
    let p = parse_term_s(ts, pos);
    match p.result {
        Err(e) => Parsed { result: Err(e), pos: p.pos },
        Ok(first) => parse_expr_rest_s(ts, clamp_pos(pos + 1, p.pos, ts.len() as int), first),
    }
}

pub open spec fn parse_expr_rest_s(ts: Seq<TokenV>, pos: int, acc: ExprV) -> Parsed
    decreases rem(ts, pos), 0int,
{
    if 0 <= pos < ts.len() && (ts[pos].token_type == TokenTypes::Plus || ts[pos].token_type
        == TokenTypes::Minus) {
        let op = ts[pos].token_type;
        let p = parse_term_s(ts, pos + 1);
        match p.result {
            Err(e) => Parsed { result: Err(e), pos: p.pos },
            Ok(rhs) => parse_expr_rest_s(
                ts,
                clamp_pos(pos + 2, p.pos, ts.len() as int),
                ExprV::Binary(Box::new(acc), op, Box::new(rhs)),
            ),
        }
    } else {
        Parsed { result: Ok(acc), pos }
    }
}

/// The parameter list of a definition, after the opening parenthesis.
pub open spec fn parse_params_s(ts: Seq<TokenV>, pos: int, acc: Seq<Seq<char>>) -> ParsedNames
    decreases rem(ts, pos), 1int,
{
    if pos >= ts.len() || pos < 0 {
        ParsedNames { result: Ok(acc), pos }
    } else if ts[pos].token_type == TokenTypes::Identifier {
        let acc2 = acc.push(ts[pos].value->0);
        let p1 = pos + 1;
        if p1 < ts.len() {
            if ts[p1].token_type == TokenTypes::Comma {
                parse_params_s(ts, p1 + 1, acc2)
            } else if ts[p1].token_type == TokenTypes::RParen {
                ParsedNames { result: Ok(acc2), pos: p1 + 1 }
            } else {
                ParsedNames {
                    result: Err(ParseErrorV::ExpectedToken("',' or ')' after parameter"@)),
                    pos: p1,
                }
            }
        } else {
            ParsedNames { result: Ok(acc2), pos: p1 }
        }
    } else if ts[pos].token_type == TokenTypes::RParen {
        ParsedNames { result: Ok(acc), pos: pos + 1 }
    } else {
        ParsedNames {
            result: Err(
                ParseErrorV::UnexpectedToken("in parameter list: "@ + token_describe(ts[pos])),
            ),
            pos,
        }
    }
}

/// fn_def := 'fn' Identifier '(' params ')' '{' expr '}'
pub open spec fn parse_fn_def_s(ts: Seq<TokenV>, pos: int) -> Parsed
    decreases rem(ts, pos), 4int,
{
    let (_, p1) = eat_s(ts, pos);
    let (name_opt, p2) = eat_s(ts, p1);
    if !(name_opt matches Some(t) && t.token_type == TokenTypes::Identifier && t.value is Some) {
        Parsed { result: Err(ParseErrorV::ExpectedToken("identifier after 'fn'"@)), pos: p2 }
    } else {
        let name = name_opt->0.value->0;
        let (lp, p3) = eat_s(ts, p2);
        if !(lp matches Some(t) && t.token_type == TokenTypes::LParen) {
            Parsed {
                result: Err(ParseErrorV::ExpectedToken("'(' after function name"@)),
                pos: p3,
            }
        } else {
            let pr = parse_params_s(ts, p3, Seq::empty());
            match pr.result {
                Err(e) => Parsed { result: Err(e), pos: pr.pos },
                Ok(params) => {
                    let p4 = clamp_pos(p3, pr.pos, ts.len() as int);
                    let (lc, p5) = eat_s(ts, p4);
                    if !(lc matches Some(t) && t.token_type == TokenTypes::LCurly) {
                        Parsed {
                            result: Err(
                                ParseErrorV::ExpectedToken("'{' before function body"@),
                            ),
                            pos: p5,
                        }
                    } else {
                        let b = parse_expr_s(ts, p5);
                        match b.result {
                            Err(e) => Parsed { result: Err(e), pos: b.pos },
                            Ok(body) => {
                                let (rc, p6) = eat_s(ts, b.pos);
                                if !(rc matches Some(t) && t.token_type == TokenTypes::RCurly) {
                                    Parsed {
                                        result: Err(
                                            ParseErrorV::ExpectedToken(
                                                "'}' at end of function body"@,
                                            ),
                                        ),
                                        pos: p6,
                                    }
                                } else {
                                    Parsed {
                                        result: Ok(
                                            ExprV::FnDef(name, params, Box::new(body)),
                                        ),
                                        pos: p6,
                                    }
                                }
                            },
                        }
                    }
                },
            }
        }
    }
}

/// let := 'let' Identifier '=' expr
pub open spec fn parse_let_s(ts: Seq<TokenV>, pos: int) -> Parsed
    decreases rem(ts, pos), 4int,
{
    let (_, p1) = eat_s(ts, pos);
    let (name_opt, p2) = eat_s(ts, p1);
    if !(name_opt matches Some(t) && t.token_type == TokenTypes::Identifier && t.value is Some) {
        Parsed { result: Err(ParseErrorV::ExpectedToken("identifier after 'let'"@)), pos: p2 }
    } else {
        let name = name_opt->0.value->0;
        let (eq, p3) = eat_s(ts, p2);
        if !(eq matches Some(t) && t.token_type == TokenTypes::Eq) {
            Parsed {
                result: Err(ParseErrorV::ExpectedToken("'=' after identifier in let"@)),
                pos: p3,
            }
        } else {
            let v = parse_expr_s(ts, p3);
            match v.result {
                Err(e) => Parsed { result: Err(e), pos: v.pos },
                Ok(value) => Parsed {
                    result: Ok(ExprV::Let(name, Box::new(value))),
                    pos: v.pos,
                },
            }
        }
    }
}

/// print := 'print' '(' expr ')'
pub open spec fn parse_print_s(ts: Seq<TokenV>, pos: int) -> Parsed
    decreases rem(ts, pos), 4int,
{
    let (_, p1) = eat_s(ts, pos);
    let (lp, p2) = eat_s(ts, p1);
    if !(lp matches Some(t) && t.token_type == TokenTypes::LParen) {
        Parsed { result: Err(ParseErrorV::ExpectedToken("'(' after 'print'"@)), pos: p2 }
    } else {
        let p = parse_expr_s(ts, p2);
        match p.result {
            Err(e) => Parsed { result: Err(e), pos: p.pos },
            Ok(inner) => {
                let (rp, p3) = eat_s(ts, p.pos);
                if !(rp matches Some(t) && t.token_type == TokenTypes::RParen) {
                    Parsed {
                        result: Err(
                            ParseErrorV::ExpectedToken("')' after print expression"@),
                        ),
                        pos: p3,
                    }
                } else {
                    Parsed { result: Ok(ExprV::Print(Box::new(inner))), pos: p3 }
                }
            },
        }
    }
}

/// stmt := let | fn_def | print | expr
pub open spec fn parse_stmt_s(ts: Seq<TokenV>, pos: int) -> Parsed
    decreases rem(ts, pos), 5int,
{
    if 0 <= pos < ts.len() && ts[pos].token_type == TokenTypes::Let {
        parse_let_s(ts, pos)
    } else if 0 <= pos < ts.len() && ts[pos].token_type == TokenTypes::Fn {
        parse_fn_def_s(ts, pos)
    } else if 0 <= pos < ts.len() && ts[pos].token_type == TokenTypes::Print {
        parse_print_s(ts, pos)
    } else {
        parse_expr_s(ts, pos)
    }
}

/// program := stmt (';' stmt)* — a statement followed by more tokens
/// without a separating ';' ends parsing there; what parsed is kept.
pub open spec fn parse_program_rest_s(ts: Seq<TokenV>, pos: int, acc: Seq<ExprV>) -> ParsedArgs
    decreases rem(ts, pos), 6int,
{
    if pos >= ts.len() || pos < 0 {
        ParsedArgs { result: Ok(acc), pos }
    } else {
        let p = parse_stmt_s(ts, pos);
        match p.result {
            Err(e) => ParsedArgs { result: Err(e), pos: p.pos },
            Ok(stmt) => {
                let p2 = clamp_pos(pos + 1, p.pos, ts.len() as int);
                if p2 < ts.len() && ts[p2].token_type == TokenTypes::Semicolon {
                    parse_program_rest_s(ts, p2 + 1, acc.push(stmt))
                } else if p2 < ts.len() {
                    ParsedArgs { result: Ok(acc.push(stmt)), pos: p2 }
                } else {
                    ParsedArgs { result: Ok(acc.push(stmt)), pos: p2 }
                }
            },
        }
    }
}

/// The whole program: one statement stands for itself, several form a
/// block.
pub open spec fn parse_program_s(ts: Seq<TokenV>, pos: int) -> Parsed {
    let p = parse_program_rest_s(ts, pos, Seq::empty());
    match p.result {
        Err(e) => Parsed { result: Err(e), pos: p.pos },
        Ok(stmts) => if stmts.len() == 1 {
            Parsed { result: Ok(stmts[0]), pos: p.pos }
        } else {
            Parsed { result: Ok(ExprV::Block(stmts)), pos: p.pos }
        },
    }
}


proof fn lemma_digits_val_prefix_le(v: Seq<char>, k: int)
    requires
        0 <= k <= v.len(),
    ensures
        digits_val(v.take(k)) <= digits_val(v),
    decreases v.len() - k,
{
    if k == v.len() {
        assert(v.take(k) =~= v);
    } else {
        lemma_digits_val_prefix_le(v, k + 1);
        assert(v.take(k + 1).drop_last() =~= v.take(k));
        assert(v.take(k + 1).last() == v[k]);
    }
}

/// The 64-bit value of a digit string that fits one.
fn digits_to_i64(v: &str) -> (r: i64)
    requires
        v@.len() > 0,
        forall|k: int| 0 <= k < v@.len() ==> is_digit(#[trigger] v@[k]),
        digits_val(v@) <= i64::MAX,
    ensures
        r == digits_val(v@) as i64,
        r >= 0,
{
    let n = v.unicode_len();
    let mut acc: u64 = 0;
    let mut i: usize = 0;
    proof {
        assert(v@.take(0) =~= Seq::<char>::empty());
    }
    while i < n
        invariant
            n == v@.len(),
            i <= n,
            forall|k: int| 0 <= k < v@.len() ==> is_digit(#[trigger] v@[k]),
            digits_val(v@) <= i64::MAX,
            acc == digits_val(v@.take(i as int)),
        decreases n - i,
    {
        proof {
            lemma_digits_val_prefix_le(v@, i + 1);
            assert(v@.take(i + 1).drop_last() =~= v@.take(i as int));
            assert(v@.take(i + 1).last() == v@[i as int]);
        }
        let c = v.get_char(i);
        let d = (c as u32) - ('0' as u32);
        acc = acc * 10 + (d as u64);
        i = i + 1;
    }
    proof {
        assert(v@.take(n as int) =~= v@);
    }
    acc as i64
}

fn token_type_name_exec(k: TokenTypes) -> (s: &'static str)
    ensures
        s@ == token_type_name(k),
{
    match k {
        TokenTypes::Number => "Number",
        TokenTypes::Plus => "Plus",
        TokenTypes::Minus => "Minus",
        TokenTypes::Star => "Star",
        TokenTypes::Slash => "Slash",
        TokenTypes::LParen => "LParen",
        TokenTypes::RParen => "RParen",
        TokenTypes::Let => "Let",
        TokenTypes::Identifier => "Identifier",
        TokenTypes::Eq => "Eq",
        TokenTypes::Fn => "Fn",
        TokenTypes::LCurly => "LCurly",
        TokenTypes::RCurly => "RCurly",
        TokenTypes::Semicolon => "Semicolon",
        TokenTypes::Comma => "Comma",
        TokenTypes::Print => "Print",
        TokenTypes::String => "String",
    }
}

fn describe_token(t: &Token) -> (s: String)
    ensures
        s@ == token_describe(t@),
{
    let base = match &t.value {
        Some(v) => token_type_name_exec(t.token_type).to_owned().concat("(").concat(
            v.as_str(),
        ).concat(")"),
        None => token_type_name_exec(t.token_type).to_owned(),
    };
    let line = usize_to_dec(t.pos.0);
    let col = usize_to_dec(t.pos.1);
    base.concat(" at line ").concat(line.as_str()).concat(", column ").concat(col.as_str())
}

/// Consumes tokens strictly in order by recursive descent.
pub struct Parser {
    tokens: Vec<Token>,
    pos: usize,
}

impl Parser {
    /// The token images this parser runs over.
    pub closed spec fn spec_tokens(self) -> Seq<TokenV> {
        tokens_view(self.tokens@)
    }

    /// The position of the next token to consume.
    pub closed spec fn spec_pos(self) -> int {
        self.pos as int
    }

    pub fn new(tokens: Vec<Token>) -> (r: Self)
        ensures
            r.spec_tokens() == tokens_view(tokens@),
            r.spec_pos() == 0,
    {
        Self { tokens, pos: 0 }
    }

    pub fn peek(&self) -> (r: Option<&Token>)
        ensures
            match r {
                Some(t) => 0 <= self.spec_pos() < self.spec_tokens().len() && t@
                    == self.spec_tokens()[self.spec_pos()],
                None => self.spec_pos() >= self.spec_tokens().len(),
            },
    {
        if self.pos < self.tokens.len() {
            Some(&self.tokens[self.pos])
        } else {
            None
        }
    }

    pub fn eat(&mut self) -> (r: Option<Token>)
        ensures
            final(self).spec_tokens() == old(self).spec_tokens(),
            final(self).spec_pos() == eat_s(old(self).spec_tokens(), old(self).spec_pos()).1,
            match r {
                Some(t) => eat_s(old(self).spec_tokens(), old(self).spec_pos()).0 == Some(t@),
                None => eat_s(old(self).spec_tokens(), old(self).spec_pos()).0 is None,
            },
    {
        if self.pos < self.tokens.len() {
            let t = self.tokens[self.pos].clone();
            self.pos = self.pos + 1;
            Some(t)
        } else {
            None
        }
    }

    #[verifier::loop_isolation(false)]
    pub fn parse_expr(&mut self) -> (r: Result<Expr, ParseError>)
        requires
            wf_tokens(old(self).spec_tokens()),
        ensures
            ({
                let p = parse_expr_s(old(self).spec_tokens(), old(self).spec_pos());
                &&& final(self).spec_tokens() == old(self).spec_tokens()
                &&& final(self).spec_pos() == p.pos
                &&& match p.result {
                    Ok(ev) => r matches Ok(e) && expr_view(e) == ev && old(self).spec_pos()
                        < p.pos <= old(self).spec_tokens().len(),
                    Err(pe) => r matches Err(x) && x@ == pe,
                }
            }),
        decreases rem(self.spec_tokens(), self.spec_pos()), 3int,
    {
        let ghost ts = self.spec_tokens();
        let ghost pos0 = self.spec_pos();
        let mut node = match self.parse_term() {
            Err(e) => {
                return Err(e);
            },
            Ok(e) => e,
        };
        let mut more = true;
        while more
            invariant
                wf_tokens(ts),
                self.spec_tokens() == ts,
                pos0 < self.spec_pos() <= ts.len(),
                more ==> parse_expr_rest_s(ts, self.spec_pos(), expr_view(node)) == parse_expr_s(
                    ts,
                    pos0,
                ),
                !more ==> parse_expr_s(ts, pos0) == (Parsed {
                    result: Ok(expr_view(node)),
                    pos: self.spec_pos(),
                }),
            decreases ts.len() - self.spec_pos(), (if more {
                1int
            } else {
                0int
            }),
        {
            let op_opt: Option<TokenTypes> = match self.peek() {
                Some(t) => {
                    if t.token_type == TokenTypes::Plus || t.token_type == TokenTypes::Minus {
                        Some(t.token_type)
                    } else {
                        None
                    }
                },
                None => None,
            };
            match op_opt {
                None => {
                    more = false;
                },
                Some(op) => {
                    self.eat();
                    let rhs = match self.parse_term() {
                        Err(e) => {
                            return Err(e);
                        },
                        Ok(e) => e,
                    };
                    node = Expr::Binary(Box::new(node), op, Box::new(rhs));
                },
            }
        }
        Ok(node)
    }

    #[verifier::loop_isolation(false)]
    pub fn parse_term(&mut self) -> (r: Result<Expr, ParseError>)
        requires
            wf_tokens(old(self).spec_tokens()),
        ensures
            ({
                let p = parse_term_s(old(self).spec_tokens(), old(self).spec_pos());
                &&& final(self).spec_tokens() == old(self).spec_tokens()
                &&& final(self).spec_pos() == p.pos
                &&& match p.result {
                    Ok(ev) => r matches Ok(e) && expr_view(e) == ev && old(self).spec_pos()
                        < p.pos <= old(self).spec_tokens().len(),
                    Err(pe) => r matches Err(x) && x@ == pe,
                }
            }),
        decreases rem(self.spec_tokens(), self.spec_pos()), 2int,
    {
        let ghost ts = self.spec_tokens();
        let ghost pos0 = self.spec_pos();
        let mut node = match self.parse_factor() {
            Err(e) => {
                return Err(e);
            },
            Ok(e) => e,
        };
        let mut more = true;
        while more
            invariant
                wf_tokens(ts),
                self.spec_tokens() == ts,
                pos0 < self.spec_pos() <= ts.len(),
                more ==> parse_term_rest_s(ts, self.spec_pos(), expr_view(node)) == parse_term_s(
                    ts,
                    pos0,
                ),
                !more ==> parse_term_s(ts, pos0) == (Parsed {
                    result: Ok(expr_view(node)),
                    pos: self.spec_pos(),
                }),
            decreases ts.len() - self.spec_pos(), (if more {
                1int
            } else {
                0int
            }),
        {
            let op_opt: Option<TokenTypes> = match self.peek() {
                Some(t) => {
                    if t.token_type == TokenTypes::Star || t.token_type == TokenTypes::Slash {
                        Some(t.token_type)
                    } else {
                        None
                    }
                },
                None => None,
            };
            match op_opt {
                None => {
                    more = false;
                },
                Some(op) => {
                    self.eat();
                    let rhs = match self.parse_factor() {
                        Err(e) => {
                            return Err(e);
                        },
                        Ok(e) => e,
                    };
                    node = Expr::Binary(Box::new(node), op, Box::new(rhs));
                },
            }
        }
        Ok(node)
    }

    #[verifier::loop_isolation(false)]
    pub fn parse_factor(&mut self) -> (r: Result<Expr, ParseError>)
        requires
            wf_tokens(old(self).spec_tokens()),
        ensures
            ({
                let p = parse_factor_s(old(self).spec_tokens(), old(self).spec_pos());
                &&& final(self).spec_tokens() == old(self).spec_tokens()
                &&& final(self).spec_pos() == p.pos
                &&& match p.result {
                    Ok(ev) => r matches Ok(e) && expr_view(e) == ev && old(self).spec_pos()
                        < p.pos <= old(self).spec_tokens().len(),
                    Err(pe) => r matches Err(x) && x@ == pe,
                }
            }),
        decreases rem(self.spec_tokens(), self.spec_pos()), 1int,
    {
        let ghost ts = self.spec_tokens();
        let ghost pos0 = self.spec_pos();
        match self.eat() {
            None => Err(ParseError::UnexpectedEof),
            Some(tok) => {
                if tok.token_type == TokenTypes::Number {
                    match tok.value {
                        Some(v) => {
                            let n = digits_to_i64(v.as_str());
                            Ok(Expr::Number(n))
                        },
                        None => {
                            proof {
                                assert(wf_token(ts[pos0]));
                                assert(false);
                            }
                            Err(ParseError::UnexpectedEof)
                        },
                    }
                } else if tok.token_type == TokenTypes::String {
                    match tok.value {
                        Some(v) => Ok(Expr::String(v)),
                        None => {
                            proof {
                                assert(wf_token(ts[pos0]));
                                assert(false);
                            }
                            Err(ParseError::UnexpectedEof)
                        },
                    }
                } else if tok.token_type == TokenTypes::Identifier {
                    let name = match tok.value {
                        Some(v) => v,
                        None => {
                            proof {
                                assert(wf_token(ts[pos0]));
                                assert(false);
                            }
                            return Err(ParseError::UnexpectedEof);
                        },
                    };
                    let has_lparen = match self.peek() {
                        Some(next) => next.token_type == TokenTypes::LParen,
                        None => false,
                    };
                    if has_lparen {
                        self.eat();
                        let ghost astart = self.spec_pos();
                        let mut args: Vec<Expr> = Vec::new();
                        let mut closed = false;
                        proof {
                            assert(exprs_view(args@) =~= Seq::<ExprV>::empty());
                        }
                        while !closed && self.has_more()
                            invariant
                                wf_tokens(ts),
                                self.spec_tokens() == ts,
                                astart == pos0 + 2,
                                astart <= self.spec_pos() <= ts.len(),
                                !closed ==> parse_call_args_s(ts, self.spec_pos(), exprs_view(args@))
                                    == parse_call_args_s(ts, astart, Seq::empty()),
                                closed ==> parse_call_args_s(ts, astart, Seq::empty())
                                    == (ParsedArgs {
                                    result: Ok(exprs_view(args@)),
                                    pos: self.spec_pos(),
                                }),
                            decreases ts.len() - self.spec_pos(), (if closed {
                                0int
                            } else {
                                1int
                            }),
                        {
                            let ghost cur = self.spec_pos();
                            let ghost args0 = args@;
                            let kind = self.peek_kind();
                            if kind == TokenTypes::RParen {
                                self.eat();
                                closed = true;
                            } else {
                                let arg = match self.parse_expr() {
                                    Err(e) => {
                                        return Err(e);
                                    },
                                    Ok(e) => e,
                                };
                                args.push(arg);
                                proof {
                                    assert(args@.drop_last() =~= args0);
                                    lemma_exprs_view_push(args0, arg);
                                }
                                let next_kind: Option<TokenTypes> = match self.peek() {
                                    Some(t) => Some(t.token_type),
                                    None => None,
                                };
                                match next_kind {
                                    Some(TokenTypes::Comma) => {
                                        self.eat();
                                    },
                                    Some(TokenTypes::RParen) => {},
                                    Some(_) => {
                                        return Err(
                                            ParseError::ExpectedToken(
                                                "',' or ')' after function argument".to_owned(),
                                            ),
                                        );
                                    },
                                    None => {},
                                }
                            }
                        }
                        Ok(Expr::FnCall(name, args))
                    } else {
                        Ok(Expr::Var(name))
                    }
                } else if tok.token_type == TokenTypes::LParen {
                    match self.parse_expr() {
                        Err(e) => Err(e),
                        Ok(inner) => {
                            let closing_ok = match self.eat() {
                                Some(t2) => t2.token_type == TokenTypes::RParen,
                                None => false,
                            };
                            if closing_ok {
                                Ok(inner)
                            } else {
                                Err(ParseError::ExpectedToken("closing parenthesis".to_owned()))
                            }
                        },
                    }
                } else {
                    Err(ParseError::UnexpectedToken(describe_token(&tok)))
                }
            },
        }
    }

    /// Whether any token is left.
    fn has_more(&self) -> (r: bool)
        ensures
            r == (self.spec_pos() < self.spec_tokens().len()),
    {
        self.pos < self.tokens.len()
    }

    /// The kind of the next token; callers must know one is there.
    fn peek_kind(&self) -> (r: TokenTypes)
        requires
            0 <= self.spec_pos() < self.spec_tokens().len(),
        ensures
            r == self.spec_tokens()[self.spec_pos()].token_type,
    {
        self.tokens[self.pos].token_type
    }
}

proof fn lemma_exprs_view_push(es: Seq<Expr>, e: Expr)
    ensures
        exprs_view(es.push(e)) == exprs_view(es).push(expr_view(e)),
{
    lemma_exprs_view(es.push(e));
    lemma_exprs_view(es);
    assert(forall|i: int| 0 <= i < es.len() ==> es.push(e)[i] == #[trigger] es[i]);
    assert(es.push(e)[es.len() as int] == e);
    assert(exprs_view(es.push(e)) =~= exprs_view(es).push(expr_view(e)));
}


impl Parser {
    #[verifier::loop_isolation(false)]
    pub fn parse_fn_def(&mut self) -> (r: Result<Expr, ParseError>)
        requires
            wf_tokens(old(self).spec_tokens()),
        ensures
            ({
                let p = parse_fn_def_s(old(self).spec_tokens(), old(self).spec_pos());
                &&& final(self).spec_tokens() == old(self).spec_tokens()
                &&& final(self).spec_pos() == p.pos
                &&& match p.result {
                    Ok(ev) => r matches Ok(e) && expr_view(e) == ev && old(self).spec_pos()
                        < p.pos <= old(self).spec_tokens().len(),
                    Err(pe) => r matches Err(x) && x@ == pe,
                }
            }),
    {
        let ghost ts = self.spec_tokens();
        let ghost pos0 = self.spec_pos();
        self.eat();
        let name = match self.eat() {
            Some(t) => {
                if t.token_type == TokenTypes::Identifier {
                    match t.value {
                        Some(v) => v,
                        None => {
                            return Err(
                                ParseError::ExpectedToken("identifier after 'fn'".to_owned()),
                            );
                        },
                    }
                } else {
                    return Err(ParseError::ExpectedToken("identifier after 'fn'".to_owned()));
                }
            },
            None => {
                return Err(ParseError::ExpectedToken("identifier after 'fn'".to_owned()));
            },
        };
        let lp_ok = match self.eat() {
            Some(t) => t.token_type == TokenTypes::LParen,
            None => false,
        };
        if !lp_ok {
            return Err(ParseError::ExpectedToken("'(' after function name".to_owned()));
        }
        let ghost pstart = self.spec_pos();
        let mut params: Vec<String> = Vec::new();
        let mut closed = false;
        proof {
            assert(params.deep_view() =~= Seq::<Seq<char>>::empty());
        }
        while !closed && self.has_more()
            invariant
                wf_tokens(ts),
                self.spec_tokens() == ts,
                pstart <= self.spec_pos() <= ts.len(),
                !closed ==> parse_params_s(ts, self.spec_pos(), params.deep_view())
                    == parse_params_s(ts, pstart, Seq::empty()),
                closed ==> parse_params_s(ts, pstart, Seq::empty()) == (ParsedNames {
                    result: Ok(params.deep_view()),
                    pos: self.spec_pos(),
                }),
            decreases ts.len() - self.spec_pos(), (if closed {
                0int
            } else {
                1int
            }),
        {
            let ghost cur = self.spec_pos();
            let ghost params0 = params.deep_view();
            let kind = self.peek_kind();
            if kind == TokenTypes::Identifier {
                let tok = match self.eat() {
                    Some(t) => t,
                    None => {
                        proof {
                            assert(false);
                        }
                        return Err(ParseError::UnexpectedEof);
                    },
                };
                let id = match tok.value {
                    Some(v) => v,
                    None => {
                        proof {
                            assert(wf_token(ts[cur]));
                            assert(false);
                        }
                        return Err(ParseError::UnexpectedEof);
                    },
                };
                params.push(id);
                proof {
                    assert(params.deep_view() =~= params0.push(id@));
                }
                let next_kind: Option<TokenTypes> = match self.peek() {
                    Some(t) => Some(t.token_type),
                    None => None,
                };
                match next_kind {
                    Some(TokenTypes::Comma) => {
                        self.eat();
                    },
                    Some(TokenTypes::RParen) => {},
                    Some(_) => {
                        return Err(
                            ParseError::ExpectedToken("',' or ')' after parameter".to_owned()),
                        );
                    },
                    None => {},
                }
            } else if kind == TokenTypes::RParen {
                self.eat();
                closed = true;
            } else {
                let tdesc = match self.peek() {
                    Some(t) => describe_token(t),
                    None => {
                        proof {
                            assert(false);
                        }
                        String::new()
                    },
                };
                return Err(
                    ParseError::UnexpectedToken(
                        "in parameter list: ".to_owned().concat(tdesc.as_str()),
                    ),
                );
            }
        }
        let lc_ok = match self.eat() {
            Some(t) => t.token_type == TokenTypes::LCurly,
            None => false,
        };
        if !lc_ok {
            return Err(ParseError::ExpectedToken("'{' before function body".to_owned()));
        }
        let body = match self.parse_expr() {
            Err(e) => {
                return Err(e);
            },
            Ok(e) => e,
        };
        let rc_ok = match self.eat() {
            Some(t) => t.token_type == TokenTypes::RCurly,
            None => false,
        };
        if !rc_ok {
            return Err(ParseError::ExpectedToken("'}' at end of function body".to_owned()));
        }
        Ok(Expr::FnDef(name, params, Box::new(body)))
    }

    fn parse_let(&mut self) -> (r: Result<Expr, ParseError>)
        requires
            wf_tokens(old(self).spec_tokens()),
        ensures
            ({
                let p = parse_let_s(old(self).spec_tokens(), old(self).spec_pos());
                &&& final(self).spec_tokens() == old(self).spec_tokens()
                &&& final(self).spec_pos() == p.pos
                &&& match p.result {
                    Ok(ev) => r matches Ok(e) && expr_view(e) == ev && old(self).spec_pos()
                        < p.pos <= old(self).spec_tokens().len(),
                    Err(pe) => r matches Err(x) && x@ == pe,
                }
            }),
    {
        self.eat();
        let name = match self.eat() {
            Some(t) => {
                if t.token_type == TokenTypes::Identifier {
                    match t.value {
                        Some(v) => v,
                        None => {
                            return Err(
                                ParseError::ExpectedToken("identifier after 'let'".to_owned()),
                            );
                        },
                    }
                } else {
                    return Err(ParseError::ExpectedToken("identifier after 'let'".to_owned()));
                }
            },
            None => {
                return Err(ParseError::ExpectedToken("identifier after 'let'".to_owned()));
            },
        };
        let eq_ok = match self.eat() {
            Some(t) => t.token_type == TokenTypes::Eq,
            None => false,
        };
        if !eq_ok {
            return Err(ParseError::ExpectedToken("'=' after identifier in let".to_owned()));
        }
        let value = match self.parse_expr() {
            Err(e) => {
                return Err(e);
            },
            Ok(e) => e,
        };
        Ok(Expr::Let(name, Box::new(value)))
    }

    fn parse_print(&mut self) -> (r: Result<Expr, ParseError>)
        requires
            wf_tokens(old(self).spec_tokens()),
        ensures
            ({
                let p = parse_print_s(old(self).spec_tokens(), old(self).spec_pos());
                &&& final(self).spec_tokens() == old(self).spec_tokens()
                &&& final(self).spec_pos() == p.pos
                &&& match p.result {
                    Ok(ev) => r matches Ok(e) && expr_view(e) == ev && old(self).spec_pos()
                        < p.pos <= old(self).spec_tokens().len(),
                    Err(pe) => r matches Err(x) && x@ == pe,
                }
            }),
    {
        self.eat();
        let lp_ok = match self.eat() {
            Some(t) => t.token_type == TokenTypes::LParen,
            None => false,
        };
        if !lp_ok {
            return Err(ParseError::ExpectedToken("'(' after 'print'".to_owned()));
        }
        let inner = match self.parse_expr() {
            Err(e) => {
                return Err(e);
            },
            Ok(e) => e,
        };
        let rp_ok = match self.eat() {
            Some(t) => t.token_type == TokenTypes::RParen,
            None => false,
        };
        if !rp_ok {
            return Err(ParseError::ExpectedToken("')' after print expression".to_owned()));
        }
        Ok(Expr::Print(Box::new(inner)))
    }

    pub fn parse_stmt(&mut self) -> (r: Result<Expr, ParseError>)
        requires
            wf_tokens(old(self).spec_tokens()),
        ensures
            ({
                let p = parse_stmt_s(old(self).spec_tokens(), old(self).spec_pos());
                &&& final(self).spec_tokens() == old(self).spec_tokens()
                &&& final(self).spec_pos() == p.pos
                &&& match p.result {
                    Ok(ev) => r matches Ok(e) && expr_view(e) == ev && old(self).spec_pos()
                        < p.pos <= old(self).spec_tokens().len(),
                    Err(pe) => r matches Err(x) && x@ == pe,
                }
            }),
    {
        let kind: Option<TokenTypes> = match self.peek() {
            Some(t) => Some(t.token_type),
            None => None,
        };
        match kind {
            Some(TokenTypes::Let) => self.parse_let(),
            Some(TokenTypes::Fn) => self.parse_fn_def(),
            Some(TokenTypes::Print) => self.parse_print(),
            _ => self.parse_expr(),
        }
    }

    #[verifier::loop_isolation(false)]
    pub fn parse_program(&mut self) -> (r: Result<Expr, ParseError>)
        requires
            wf_tokens(old(self).spec_tokens()),
        ensures
            ({
                let p = parse_program_s(old(self).spec_tokens(), old(self).spec_pos());
                &&& final(self).spec_tokens() == old(self).spec_tokens()
                &&& final(self).spec_pos() == p.pos
                &&& match p.result {
                    Ok(ev) => r matches Ok(e) && expr_view(e) == ev,
                    Err(pe) => r matches Err(x) && x@ == pe,
                }
            }),
    {
        let ghost ts = self.spec_tokens();
        let ghost pos0 = self.spec_pos();
        let mut statements: Vec<Expr> = Vec::new();
        let mut stop = false;
        proof {
            assert(exprs_view(statements@) =~= Seq::<ExprV>::empty());
        }
        while !stop && self.has_more()
            invariant
                wf_tokens(ts),
                self.spec_tokens() == ts,
                pos0 <= self.spec_pos() <= ts.len() || self.spec_pos() == pos0,
                !stop ==> parse_program_rest_s(ts, self.spec_pos(), exprs_view(statements@))
                    == parse_program_rest_s(ts, pos0, Seq::empty()),
                stop ==> parse_program_rest_s(ts, pos0, Seq::empty()) == (ParsedArgs {
                    result: Ok(exprs_view(statements@)),
                    pos: self.spec_pos(),
                }),
            decreases ts.len() - self.spec_pos(), (if stop {
                0int
            } else {
                1int
            }),
        {
            let ghost st0 = statements@;
            let stmt = match self.parse_stmt() {
                Err(e) => {
                    return Err(e);
                },
                Ok(e) => e,
            };
            statements.push(stmt);
            proof {
                lemma_exprs_view_push(st0, stmt);
            }
            let semi = match self.peek() {
                Some(t) => t.token_type == TokenTypes::Semicolon,
                None => false,
            };
            if semi {
                self.eat();
            } else if self.has_more() {
                stop = true;
            }
        }
        proof {
            lemma_exprs_view(statements@);
        }
        if statements.len() == 1 {
            match statements.pop() {
                Some(e) => Ok(e),
                None => {
                    proof {
                        assert(false);
                    }
                    Err(ParseError::UnexpectedEof)
                },
            }
        } else {
            Ok(Expr::Block(statements))
        }
    }
}

} // verus!
