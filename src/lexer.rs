//! The lexer: one left-to-right scan that cuts source text into positioned
//! tokens.

use vstd::prelude::*;

use crate::patterns::{is_value_text, is_variable_text, matches_value, matches_variable};
use crate::text::{chars_of, push_char};
use crate::token::{TextLocation, Token, TokenType};

verus! {

/// The lexer's only failure: a lexeme that no token kind accepts.
#[derive(Debug)]
pub enum LexError {
    InvalidToken(Token),
}

impl LexError {
    pub open spec fn text(self) -> Seq<char> {
        match self {
            LexError::InvalidToken(t) => "Unable to parse token: "@ + t.text(),
        }
    }

    pub fn to_string(&self) -> (r: String)
        ensures
            r@ == self.text(),
    {
        match self {
            LexError::InvalidToken(t) => {
                let mut out = String::from_str("Unable to parse token: ");
                let shown = t.to_string();
                out.append(shown.as_str());
                out
            },
        }
    }
}

/// Whitespace that ends a lexeme.
pub open spec fn is_blank(c: char) -> bool {
    c == ' ' || c == '\t' || c == '\n' || c == '\r' || c == '\x0C'
}

/// The empty span list, or the single span `[start, end)` when it is not empty.
pub open spec fn pending(start: int, end: int) -> Seq<(int, int)> {
    if start < end {
        seq![(start, end)]
    } else {
        seq![]
    }
}

/// The spans `[start, end)` of the lexemes of `s` that the scan emits from
/// position `i` on, with the lexeme pending since `start` not yet emitted.
/// Whitespace ends the pending lexeme; `;` ends it and is a lexeme of its own;
/// the end of the text ends it too.
pub open spec fn spans_scan(s: Seq<char>, i: int, start: int) -> Seq<(int, int)>
    decreases s.len() - i,
{
    if i >= s.len() {
        pending(start, i)
    } else if s[i] == ';' {
        pending(start, i) + seq![(i, i + 1)] + spans_scan(s, i + 1, i + 1)
    } else if is_blank(s[i]) {
        pending(start, i) + spans_scan(s, i + 1, i + 1)
    } else {
        spans_scan(s, i + 1, start)
    }
}

/// The spans of all lexemes of `s`, in order.
pub open spec fn lexeme_spans(s: Seq<char>) -> Seq<(int, int)> {
    spans_scan(s, 0, 0)
}

/// The 1-based line of position `i` of `s`.
pub open spec fn line_at(s: Seq<char>, i: int) -> nat
    decreases i,
{
    if i <= 0 {
        1
    } else if s[i - 1] == '\n' {
        line_at(s, i - 1) + 1
    } else {
        line_at(s, i - 1)
    }
}

/// The 1-based column of position `i` of `s`, counted from the start of its line.
pub open spec fn col_at(s: Seq<char>, i: int) -> nat
    decreases i,
{
    if i <= 0 {
        1
    } else if s[i - 1] == '\n' {
        1
    } else {
        col_at(s, i - 1) + 1
    }
}

/// The kind of a lexeme: keywords and symbols by exact text, then the
/// variable pattern, then the value pattern.
pub open spec fn classify(text: Seq<char>) -> TokenType {
    if text == "int"@ {
        TokenType::Int
    } else if text == "="@ {
        TokenType::Eq
    } else if text == ";"@ {
        TokenType::Semi
    } else if text == "+"@ || text == "-"@ {
        TokenType::ArithmeticOp
    } else if text == ">"@ || text == "<"@ {
        TokenType::BooleanOp
    } else if is_variable_text(text) {
        TokenType::Variable
    } else if is_value_text(text) {
        TokenType::Value
    } else {
        TokenType::Unknown
    }
}

/// The kind of the lexeme of `s` at `span`.
pub open spec fn span_kind(s: Seq<char>, span: (int, int)) -> TokenType {
    classify(s.subrange(span.0, span.1))
}

/// `t` is the token for the lexeme of `s` at `span`.
pub open spec fn token_matches(t: Token, s: Seq<char>, span: (int, int)) -> bool {
    &&& t.value@ == s.subrange(span.0, span.1)
    &&& t.t_type == span_kind(s, span)
    &&& t.location.line_num == line_at(s, span.0)
    &&& t.location.col_num == col_at(s, span.0)
}

/// `r` is the outcome of lexing `s`: every token in order when every lexeme
/// has a kind, else the token of the first lexeme without one.
pub open spec fn lexed(s: Seq<char>, r: Result<Vec<Token>, LexError>) -> bool {
    let spans = lexeme_spans(s);
    match r {
        Ok(ts) => {
            &&& forall|k: int| 0 <= k < spans.len() ==> span_kind(s, #[trigger] spans[k]) != TokenType::Unknown
            &&& ts@.len() == spans.len()
            &&& forall|k: int| 0 <= k < spans.len() ==> token_matches(#[trigger] ts@[k], s, spans[k])
        },
        Err(LexError::InvalidToken(t)) => exists|k: int|
            {
                &&& 0 <= k < spans.len()
                &&& span_kind(s, #[trigger] spans[k]) == TokenType::Unknown
                &&& forall|j: int| 0 <= j < k ==> span_kind(s, #[trigger] spans[j]) != TokenType::Unknown
                &&& token_matches(t, s, spans[k])
            },
    }
}

/// Whether the string holds exactly the characters of `lit`.
fn text_is(t: &String, lit: &str) -> (r: bool)
    ensures
        r == (t@ == lit@),
{
    let other = String::from_str(lit);
    *t == other
}

/// The kind of a lexeme.
pub fn classify_lexeme(text: &String) -> (r: TokenType)
    ensures
        r == classify(text@),
{
    if text_is(text, "int") {
        TokenType::Int
    } else if text_is(text, "=") {
        TokenType::Eq
    } else if text_is(text, ";") {
        TokenType::Semi
    } else if text_is(text, "+") || text_is(text, "-") {
        TokenType::ArithmeticOp
    } else if text_is(text, ">") || text_is(text, "<") {
        TokenType::BooleanOp
    } else if matches_variable(text.as_str()) {
        TokenType::Variable
    } else if matches_value(text.as_str()) {
        TokenType::Value
    } else {
        TokenType::Unknown
    }
}

fn is_blank_char(c: char) -> (r: bool)
    ensures
        r == is_blank(c),
{
    c == ' ' || c == '\t' || c == '\n' || c == '\r' || c == '\x0C'
}

/// The token for the lexeme `cs[start..end)`, which starts at `line`, `col`.
fn make_token(cs: &Vec<char>, start: usize, end: usize, line: usize, col: usize) -> (r: Token)
    requires
        start < end <= cs@.len(),
    ensures
        r.value@ == cs@.subrange(start as int, end as int),
        r.t_type == classify(r.value@),
        r.location.line_num == line,
        r.location.col_num == col,
{
    let mut value = String::new();
    let mut k = start;
    while k < end
        invariant
            start <= k <= end <= cs@.len(),
            value@ == cs@.subrange(start as int, k as int),
        decreases end - k,
    {
        push_char(&mut value, cs[k]);
        k = k + 1;
        assert(value@ =~= cs@.subrange(start as int, k as int));
    }
    let t_type = classify_lexeme(&value);
    Token { t_type, value, location: TextLocation { line_num: line, col_num: col } }
}

/// Cuts `contents` into tokens, stopping at the first lexeme that has no kind.
pub fn parse_text(contents: &str) -> (r: Result<Vec<Token>, LexError>)
    ensures
        lexed(contents@, r),
{
    let ghost s = contents@;
    let cs = chars_of(contents);
    let n = cs.len();
    let mut tokens: Vec<Token> = Vec::new();
    let ghost mut done: Seq<(int, int)> = seq![];
    let mut start: usize = 0;
    let mut newlines: usize = 0;
    let mut line_start: usize = 0;
    let mut i: usize = 0;
    while i < n
        invariant
            s == contents@,
            cs@ == s,
            n == s.len(),
            0 <= newlines <= line_start <= start <= i <= n,
            line_at(s, i as int) == newlines + 1,
            col_at(s, i as int) == i - line_start + 1,
            line_at(s, start as int) == newlines + 1,
            col_at(s, start as int) == start - line_start + 1,
            done + spans_scan(s, i as int, start as int) == lexeme_spans(s),
            tokens@.len() == done.len(),
            forall|k: int| 0 <= k < done.len() ==> span_kind(s, #[trigger] done[k]) != TokenType::Unknown,
            forall|k: int| 0 <= k < done.len() ==> token_matches(#[trigger] tokens@[k], s, done[k]),
        decreases n - i,
    {
        let c = cs[i];
        if c == ';' || is_blank_char(c) {
            if start < i {
                let tok = make_token(&cs, start, i, newlines + 1, start - line_start + 1);
                if tok.t_type == TokenType::Unknown {
                    proof {
                        assert(lexeme_spans(s) == done + seq![(start as int, i as int)] + spans_scan(s, i as int, start as int).skip(1));
                        assert(lexeme_spans(s)[done.len() as int] == (start as int, i as int));
                        assert(forall|j: int| 0 <= j < done.len() ==> lexeme_spans(s)[j] == done[j]);
                        let k = done.len() as int;
                        assert(token_matches(tok, s, lexeme_spans(s)[k]));
                        assert(span_kind(s, lexeme_spans(s)[k]) == TokenType::Unknown);
                        assert(forall|j: int| 0 <= j < k ==> span_kind(s, #[trigger] lexeme_spans(s)[j]) != TokenType::Unknown);
                    }
                    return Err(LexError::InvalidToken(tok));
                }
                tokens.push(tok);
                proof {
                    done = done + seq![(start as int, i as int)];
                }
            }
            if c == ';' {
                let tok = make_token(&cs, i, i + 1, newlines + 1, i - line_start + 1);
                proof {
                    reveal_strlit(";");
                    assert(tok.value@ =~= ";"@);
                }
                tokens.push(tok);
                proof {
                    done = done + seq![(i as int, i + 1)];
                }
            }
            if c == '\n' {
                newlines = newlines + 1;
                line_start = i + 1;
            }
            start = i + 1;
            proof {
                assert(done + spans_scan(s, i + 1, i + 1) =~= lexeme_spans(s));
            }
        }
        i = i + 1;
    }
    if start < n {
        let tok = make_token(&cs, start, n, newlines + 1, start - line_start + 1);
        if tok.t_type == TokenType::Unknown {
            proof {
                assert(lexeme_spans(s) =~= done + seq![(start as int, n as int)]);
                assert(lexeme_spans(s)[done.len() as int] == (start as int, n as int));
                let k = done.len() as int;
                assert(forall|j: int| 0 <= j < done.len() ==> lexeme_spans(s)[j] == done[j]);
                assert(token_matches(tok, s, lexeme_spans(s)[k]));
                assert(forall|j: int| 0 <= j < k ==> span_kind(s, #[trigger] lexeme_spans(s)[j]) != TokenType::Unknown);
            }
            return Err(LexError::InvalidToken(tok));
        }
        tokens.push(tok);
        proof {
            done = done + seq![(start as int, n as int)];
        }
    }
    proof {
        assert(done =~= lexeme_spans(s));
    }
    Ok(tokens)
}

/// The number of maximal runs of characters other than whitespace and `;`
/// in `s` from position `i` on; `inside` tells whether position `i`
/// continues a run begun before it.
pub open spec fn word_count(s: Seq<char>, i: int, inside: bool) -> nat
    decreases s.len() - i,
{
    if i >= s.len() {
        0
    } else if is_blank(s[i]) || s[i] == ';' {
        word_count(s, i + 1, false)
    } else {
        (if inside { 0nat } else { 1nat }) + word_count(s, i + 1, true)
    }
}

/// The number of `;` in `s` from position `i` on.
pub open spec fn semicolon_count(s: Seq<char>, i: int) -> nat
    decreases s.len() - i,
{
    if i >= s.len() {
        0
    } else {
        (if s[i] == ';' { 1nat } else { 0nat }) + semicolon_count(s, i + 1)
    }
}

proof fn lemma_scan_count(s: Seq<char>, i: int, start: int)
    requires
        0 <= start <= i,
    ensures
        spans_scan(s, i, start).len() == (if start < i { 1nat } else { 0nat }) + word_count(s, i, start < i)
            + semicolon_count(s, i),
    decreases s.len() - i,
{
    if i < s.len() {
        if s[i] == ';' || is_blank(s[i]) {
            lemma_scan_count(s, i + 1, i + 1);
        } else {
            lemma_scan_count(s, i + 1, start);
        }
    }
}

/// Lexing yields one token per maximal run of characters other than
/// whitespace and `;`, and one per `;`.
pub proof fn lemma_token_count(s: Seq<char>, ts: Vec<Token>)
    requires
        lexed(s, Ok(ts)),
    ensures
        ts@.len() == word_count(s, 0, false) + semicolon_count(s, 0),
{
    lemma_scan_count(s, 0, 0);
}

} // verus!
