//! The reader/parser: one source line scanned into a `Statement` by
//! recursive descent with precedence climbing for expressions.

use vstd::prelude::*;

use crate::errors::BasicError;
use crate::expression::{
    complete_expr, evaluable, spec_mul, ArithOp, Condition, Expression, Number, Relop,
};
use crate::fp::fp_of_text;
use crate::statement::{stmt_complete, stmt_wf, Statement};
use crate::text::{
    all_digits, dec_val, is_digit_char, is_space_char, parse_digit_run, str_eq,
};

verus! {

/// The character at an index, with NUL standing in past the end, as the
/// reader's cursor reports it.
pub open spec fn char_at(t: Seq<char>, i: int) -> char {
    if 0 <= i < t.len() {
        t[i]
    } else {
        '\u{0}'
    }
}

/// An ASCII letter.
pub open spec fn is_alpha_char(c: char) -> bool {
    ('a' <= c && c <= 'z') || ('A' <= c && c <= 'Z')
}

/// The first position at or after `p` that holds no whitespace.
pub open spec fn skip_spaces_from(t: Seq<char>, p: int) -> int
    decreases t.len() - p,
{
    if 0 <= p < t.len() && is_space_char(t[p]) {
        skip_spaces_from(t, p + 1)
    } else {
        p
    }
}

/// The end of the digit run that starts at `p`.
pub open spec fn digits_end(t: Seq<char>, p: int) -> int
    decreases t.len() - p,
{
    if 0 <= p < t.len() && is_digit_char(t[p]) {
        digits_end(t, p + 1)
    } else {
        p
    }
}

/// The end of the run of digits and dots that starts at `p`.
pub open spec fn number_end(t: Seq<char>, p: int) -> int
    decreases t.len() - p,
{
    if 0 <= p < t.len() && (is_digit_char(t[p]) || t[p] == '.') {
        number_end(t, p + 1)
    } else {
        p
    }
}

/// The end of the alphabetic run that starts at `p`.
pub open spec fn alpha_end(t: Seq<char>, p: int) -> int
    decreases t.len() - p,
{
    if 0 <= p < t.len() && is_alpha_char(t[p]) {
        alpha_end(t, p + 1)
    } else {
        p
    }
}

/// The first position at or after `p` holding a closing quote or a line
/// break, where a string literal ends.
pub open spec fn string_end(t: Seq<char>, p: int) -> int
    decreases t.len() - p,
{
    if 0 <= p < t.len() && t[p] != '"' && t[p] != '\n' {
        string_end(t, p + 1)
    } else {
        p
    }
}

/// Where the cursor stands after matching the characters of `tok` from
/// `k` on against the text at `p`: matching stops at the first mismatch.
pub open spec fn tok_end(t: Seq<char>, p: int, tok: Seq<char>, k: int) -> int
    decreases tok.len() - k,
{
    if 0 <= k < tok.len() && char_at(t, p) == tok[k] {
        tok_end(t, p + 1, tok, k + 1)
    } else {
        p
    }
}

/// Whether every character of `tok` from `k` on matches the text at `p`.
pub open spec fn tok_ok(t: Seq<char>, p: int, tok: Seq<char>, k: int) -> bool
    decreases tok.len() - k,
{
    if 0 <= k < tok.len() {
        char_at(t, p) == tok[k] && tok_ok(t, p + 1, tok, k + 1)
    } else {
        true
    }
}

/// The number a digit-and-dot span denotes: an integer when it is pure
/// digits that fit an `i32`, else whatever float its text denotes.
pub open spec fn number_from(span: Seq<char>) -> Option<Number> {
    if span.len() > 0 && all_digits(span) && dec_val(span) <= i32::MAX {
        Some(Number::Integer(dec_val(span) as i32))
    } else {
        match fp_of_text(span) {
            Some(b) => Some(Number::Float(b)),
            None => None,
        }
    }
}

/// A structure used to track the parsing of a single statement.
pub struct SourceReader {
    /// The source line.
    line: String,
    /// The position of the character under examination, counted in
    /// characters.
    idx: usize,
    /// The depth into any parenthesized expression; a balanced statement
    /// ends at depth zero.
    exp_depth: usize,
}

impl SourceReader {
    /// The characters of the line.
    pub closed spec fn text(&self) -> Seq<char> {
        self.line@
    }

    /// The cursor's position.
    pub closed spec fn pos(&self) -> int {
        self.idx as int
    }

    /// The parenthesis depth.
    pub closed spec fn depth(&self) -> int {
        self.exp_depth as int
    }

    /// The cursor never passes the end and the depth never passes the
    /// cursor.
    pub closed spec fn wf(&self) -> bool {
        self.idx <= self.line@.len() && self.exp_depth <= self.idx
    }

    /// A reader over one source line, at its beginning.
    pub fn new(src_line: String) -> (r: SourceReader)
        ensures
            r.wf(),
            r.text() == src_line@,
            r.pos() == 0,
            r.depth() == 0,
    {
        SourceReader { line: src_line, idx: 0, exp_depth: 0 }
    }

    /// The character under the cursor, or NUL at the end of the line.
    pub fn ch(&self) -> (c: char)
        requires
            self.wf(),
        ensures
            c == char_at(self.text(), self.pos()),
    {
        let len = self.line.as_str().unicode_len();
        if self.idx < len {
            self.line.as_str().get_char(self.idx)
        } else {
            '\u{0}'
        }
    }

    /// Whether the cursor has reached the end of the line.
    pub fn at_end(&self) -> (r: bool)
        requires
            self.wf(),
        ensures
            r == (self.pos() >= self.text().len()),
    {
        self.idx >= self.line.as_str().unicode_len()
    }

    /// Move to the next character.
    pub fn next(&mut self)
        requires
            old(self).wf(),
            old(self).pos() < old(self).text().len(),
        ensures
            final(self).wf(),
            final(self).text() == old(self).text(),
            final(self).depth() == old(self).depth(),
            final(self).pos() == old(self).pos() + 1,
    {
        // The length call bounds the cursor, so the increment cannot
        // overflow.
        let _ = self.line.as_str().unicode_len();
        self.idx = self.idx + 1;
    }

    /// Skip whitespace until the end of the line or a non-whitespace
    /// character.
    pub fn skip_ws(&mut self)
        requires
            old(self).wf(),
        ensures
            final(self).wf(),
            final(self).text() == old(self).text(),
            final(self).depth() == old(self).depth(),
            final(self).pos() == skip_spaces_from(old(self).text(), old(self).pos()),
            final(self).pos() >= old(self).pos(),
    {
        while !self.at_end() && self.is_space()
            invariant
                self.wf(),
                self.text() == old(self).text(),
                self.depth() == old(self).depth(),
                self.pos() >= old(self).pos(),
                skip_spaces_from(self.text(), self.pos()) == skip_spaces_from(
                    old(self).text(),
                    old(self).pos(),
                ),
            decreases self.text().len() - self.pos(),
        {
            self.next();
        }
    }

    /// Whether the character under the cursor is whitespace.
    fn is_space(&self) -> (r: bool)
        requires
            self.wf(),
        ensures
            r == is_space_char(char_at(self.text(), self.pos())),
    {
        crate::text::is_space(self.ch())
    }

    /// Whether the character under the cursor is a decimal digit.
    pub fn is_digit(&self) -> (r: bool)
        requires
            self.wf(),
        ensures
            r == is_digit_char(char_at(self.text(), self.pos())),
    {
        let c = self.ch();
        '0' <= c && c <= '9'
    }

    /// Whether the character under the cursor is a letter.
    fn is_alpha(&self) -> (r: bool)
        requires
            self.wf(),
        ensures
            r == is_alpha_char(char_at(self.text(), self.pos())),
    {
        let c = self.ch();
        ('a' <= c && c <= 'z') || ('A' <= c && c <= 'Z')
    }

    /// Whether the character under the cursor is an additive operator.
    fn is_addop(&self) -> (r: bool)
        requires
            self.wf(),
        ensures
            r == (char_at(self.text(), self.pos()) == '+' || char_at(self.text(), self.pos())
                == '-'),
    {
        let c = self.ch();
        c == '+' || c == '-'
    }

    /// Whether the character under the cursor is a multiplicative
    /// operator.
    fn is_mulop(&self) -> (r: bool)
        requires
            self.wf(),
        ensures
            r == (char_at(self.text(), self.pos()) == '*' || char_at(self.text(), self.pos())
                == '/'),
    {
        let c = self.ch();
        c == '*' || c == '/'
    }

    /// Get a value that can only be a whole number, such as a line
    /// number: the value of the maximal digit run under the cursor, after
    /// whitespace; an empty or overlong run is a syntax error.
    pub fn get_integer(&mut self) -> (r: Result<i32, BasicError>)
        requires
            old(self).wf(),
        ensures
            final(self).wf(),
            final(self).text() == old(self).text(),
            final(self).depth() == old(self).depth(),
            final(self).pos() >= old(self).pos(),
            ({
                let t = old(self).text();
                let s = skip_spaces_from(t, old(self).pos());
                let e = digits_end(t, s);
                let run = t.subrange(s, e);
                &&& final(self).pos() == skip_spaces_from(t, e)
                &&& match r {
                    Ok(v) => run.len() > 0 && dec_val(run) <= i32::MAX && v as int == dec_val(run),
                    Err(er) => er is SyntaxError && er.text() == "Error reading number"@ && (
                    run.len() == 0 || dec_val(run) > i32::MAX),
                }
            }),
    {
        self.skip_ws();
        let start_at = self.idx;
        let ghost t = self.text();
        while self.is_digit()
            invariant
                self.wf(),
                self.text() == t,
                self.depth() == old(self).depth(),
                start_at <= self.idx,
                forall|j: int| start_at <= j < self.pos() ==> is_digit_char(#[trigger] t[j]),
                digits_end(t, start_at as int) == digits_end(t, self.pos()),
            decreases self.text().len() - self.pos(),
        {
            self.next();
        }
        let end_at = self.idx;
        self.skip_ws();
        let span = self.line.as_str().substring_char(start_at, end_at);
        proof {
            assert(span@ == t.subrange(start_at as int, end_at as int));
            assert(all_digits(span@));
        }
        match parse_digit_run(span) {
            Some(v) => Ok(v),
            None => Err(BasicError::SyntaxError("Error reading number".to_owned())),
        }
    }

    /// Get an integer or float at the current point in the line: the
    /// maximal run of digits and dots, read as an integer when it is one,
    /// else as a float.
    pub fn get_number(&mut self) -> (r: Result<Number, BasicError>)
        requires
            old(self).wf(),
        ensures
            final(self).wf(),
            final(self).text() == old(self).text(),
            final(self).depth() == old(self).depth(),
            final(self).pos() >= old(self).pos(),
            ({
                let t = old(self).text();
                let s = skip_spaces_from(t, old(self).pos());
                let e = number_end(t, s);
                let run = t.subrange(s, e);
                &&& final(self).pos() == skip_spaces_from(t, e)
                &&& match r {
                    Ok(n) => number_from(run) == Some(n),
                    Err(er) => er is SyntaxError && er.text() == "Error reading number"@
                        && number_from(run) is None,
                }
            }),
    {
        self.skip_ws();
        let start_at = self.idx;
        let ghost t = self.text();
        while self.is_digit() || self.ch() == '.'
            invariant
                self.wf(),
                self.text() == t,
                self.depth() == old(self).depth(),
                start_at <= self.idx,
                number_end(t, start_at as int) == number_end(t, self.pos()),
            decreases self.text().len() - self.pos(),
        {
            self.next();
        }
        let end_at = self.idx;
        self.skip_ws();
        let span = self.line.as_str().substring_char(start_at, end_at);
        if span.unicode_len() > 0 && crate::text::check_digits(span) {
            match parse_digit_run(span) {
                Some(v) => {
                    return Ok(Number::Integer(v));
                },
                None => {},
            }
        }
        match crate::fp::parse_bits(span) {
            Some(b) => Ok(Number::Float(b)),
            None => Err(BasicError::SyntaxError("Error reading number".to_owned())),
        }
    }

    /// Get the keyword under the cursor: the maximal alphabetic run,
    /// after whitespace, with trailing whitespace skipped.
    fn get_keyword(&mut self) -> (kw: String)
        requires
            old(self).wf(),
        ensures
            final(self).wf(),
            final(self).text() == old(self).text(),
            final(self).depth() == old(self).depth(),
            ({
                let t = old(self).text();
                let s = skip_spaces_from(t, old(self).pos());
                let e = alpha_end(t, s);
                &&& kw@ == t.subrange(s, e)
                &&& final(self).pos() == skip_spaces_from(t, e)
                &&& final(self).pos() >= old(self).pos() + kw@.len()
            }),
    {
        self.skip_ws();
        let start_at = self.idx;
        let ghost t = self.text();
        while self.is_alpha()
            invariant
                self.wf(),
                self.text() == t,
                self.depth() == old(self).depth(),
                start_at <= self.idx,
                alpha_end(t, start_at as int) == alpha_end(t, self.pos()),
            decreases self.text().len() - self.pos(),
        {
            self.next();
        }
        let end_at = self.idx;
        self.skip_ws();
        self.line.as_str().substring_char(start_at, end_at).to_owned()
    }

    /// Get a string literal at the current point in the line: the text
    /// between a pair of quote marks; a missing opening quote or an
    /// unterminated string is a syntax error.
    fn get_string(&mut self) -> (r: Result<String, BasicError>)
        requires
            old(self).wf(),
        ensures
            final(self).wf(),
            final(self).text() == old(self).text(),
            final(self).depth() == old(self).depth(),
            final(self).pos() >= old(self).pos(),
            ({
                let t = old(self).text();
                let s = skip_spaces_from(t, old(self).pos());
                if char_at(t, s) != '"' {
                    r is Err && r->Err_0 is SyntaxError && r->Err_0.text() == "Expected \""@
                        && final(self).pos() == s
                } else {
                    let e = string_end(t, s + 1);
                    if e < t.len() && t[e] == '"' {
                        &&& r is Ok
                        &&& r->Ok_0@ == t.subrange(s + 1, e)
                        &&& final(self).pos() == skip_spaces_from(t, e + 1)
                    } else {
                        r is Err && r->Err_0 is SyntaxError && r->Err_0.text()
                            == "Unterminated string"@ && final(self).pos() == e
                    }
                }
            }),
    {
        self.skip_ws();
        if self.ch() != '"' {
            return Err(BasicError::SyntaxError("Expected \"".to_owned()));
        }
        // Skip the quote mark.
        self.next();
        let start_at = self.idx;
        let ghost t = self.text();
        while self.ch() != '"' && !self.at_end() && self.ch() != '\n'
            invariant
                self.wf(),
                self.text() == t,
                self.depth() == old(self).depth(),
                start_at <= self.idx,
                string_end(t, start_at as int) == string_end(t, self.pos()),
            decreases self.text().len() - self.pos(),
        {
            self.next();
        }
        if self.at_end() || self.ch() == '\n' {
            return Err(BasicError::SyntaxError("Unterminated string".to_owned()));
        }
        // The cursor stands on the closing quote.
        let end_at = self.idx;
        self.next();
        self.skip_ws();
        Ok(self.line.as_str().substring_char(start_at, end_at).to_owned())
    }

    /// The text between the current point and the end of the line.
    fn get_text(&mut self) -> (r: Result<String, BasicError>)
        requires
            old(self).wf(),
        ensures
            final(self).wf(),
            final(self).text() == old(self).text(),
            final(self).depth() == old(self).depth(),
            final(self).pos() == final(self).text().len(),
            r is Ok && r->Ok_0@ == old(self).text().subrange(
                skip_spaces_from(old(self).text(), old(self).pos()),
                old(self).text().len() as int,
            ),
    {
        self.skip_ws();
        let len = self.line.as_str().unicode_len();
        let text = self.line.as_str().substring_char(self.idx, len).to_owned();
        self.idx = len;
        Ok(text)
    }

    /// Get a single letter at the current point in the line.
    fn get_char(&mut self) -> (r: Result<char, BasicError>)
        requires
            old(self).wf(),
        ensures
            final(self).wf(),
            final(self).text() == old(self).text(),
            final(self).depth() == old(self).depth(),
            final(self).pos() >= old(self).pos(),
            ({
                let t = old(self).text();
                let s = skip_spaces_from(t, old(self).pos());
                if is_alpha_char(char_at(t, s)) {
                    r == Ok::<char, BasicError>(char_at(t, s)) && final(self).pos() == s + 1
                } else {
                    r is Err && r->Err_0 is SyntaxError && r->Err_0.text()
                        == "Failed to match a character"@ && final(self).pos() == s
                }
            }),
    {
        self.skip_ws();
        if self.is_alpha() {
            let c = self.ch();
            self.next();
            Ok(c)
        } else {
            Err(BasicError::SyntaxError("Failed to match a character".to_owned()))
        }
    }

    /// Get a relational operator at the current point in the line.
    fn get_relop(&mut self) -> (r: Result<Relop, BasicError>)
        requires
            old(self).wf(),
        ensures
            final(self).wf(),
            final(self).text() == old(self).text(),
            final(self).depth() == old(self).depth(),
            final(self).pos() >= old(self).pos(),
            ({
                let t = old(self).text();
                let s = skip_spaces_from(t, old(self).pos());
                let scan = relop_scan(t, s);
                match r {
                    Ok(op) => scan.0 == Some(op) && final(self).pos() == skip_spaces_from(
                        t,
                        scan.1,
                    ),
                    Err(er) => er is SyntaxError && er.text()
                        == "Relative operator not recognised"@ && scan.0 is None
                        && final(self).pos() == skip_spaces_from(t, scan.1),
                }
            }),
    {
        self.skip_ws();
        let first = self.ch();
        if first == '=' {
            self.next();
            self.skip_ws();
            return Ok(Relop::EQ);
        }
        if first == '<' {
            self.next();
            let second = self.ch();
            if second == '=' {
                self.next();
                self.skip_ws();
                return Ok(Relop::LTE);
            }
            if second == '>' {
                self.next();
                self.skip_ws();
                return Ok(Relop::NEQ);
            }
            self.skip_ws();
            return Ok(Relop::LT);
        }
        if first == '>' {
            self.next();
            if self.ch() == '=' {
                self.next();
                self.skip_ws();
                return Ok(Relop::GTE);
            }
            self.skip_ws();
            return Ok(Relop::GT);
        }
        self.skip_ws();
        Err(BasicError::SyntaxError("Relative operator not recognised".to_owned()))
    }

    /// Skip past the given token; when the text under the cursor differs
    /// the cursor stops at the first mismatch and an error is returned.
    fn skip_token(&mut self, token: String) -> (r: Option<BasicError>)
        requires
            old(self).wf(),
            forall|j: int| 0 <= j < token@.len() ==> token@[j] != '\u{0}',
        ensures
            final(self).wf(),
            final(self).text() == old(self).text(),
            final(self).depth() == old(self).depth(),
            final(self).pos() >= old(self).pos(),
            ({
                let t = old(self).text();
                let s = skip_spaces_from(t, old(self).pos());
                if tok_ok(t, s, token@, 0) {
                    &&& r is None
                    &&& final(self).pos() == skip_spaces_from(t, tok_end(t, s, token@, 0))
                    &&& final(self).pos() >= s + token@.len()
                } else {
                    &&& r is Some && r->0 is SyntaxError
                    &&& r->0.text() == "Expected "@ + token@
                    &&& final(self).pos() == tok_end(t, s, token@, 0)
                }
            }),
    {
        self.skip_ws();
        let ghost t = self.text();
        let ghost s = self.pos();
        let n = token.as_str().unicode_len();
        let mut k: usize = 0;
        while k < n
            invariant
                self.wf(),
                self.text() == t,
                self.depth() == old(self).depth(),
                k <= n == token@.len(),
                self.pos() == s + k,
                t == old(self).text(),
                s == skip_spaces_from(t, old(self).pos()),
                s >= old(self).pos(),
                forall|j: int| 0 <= j < token@.len() ==> token@[j] != '\u{0}',
                tok_ok(t, s, token@, 0) == tok_ok(t, self.pos(), token@, k as int),
                tok_end(t, s, token@, 0) == tok_end(t, self.pos(), token@, k as int),
            decreases n - k,
        {
            let c = token.as_str().get_char(k);
            if self.ch() != c {
                let mut m = "Expected ".to_owned();
                m.append(token.as_str());
                return Some(BasicError::SyntaxError(m));
            }
            self.next();
            k = k + 1;
        }
        self.skip_ws();
        None
    }

    /// Note one more open parenthesis.
    fn enter_subexp(&mut self)
        requires
            old(self).wf(),
            old(self).depth() < old(self).pos(),
        ensures
            final(self).wf(),
            final(self).text() == old(self).text(),
            final(self).pos() == old(self).pos(),
            final(self).depth() == old(self).depth() + 1,
    {
        self.exp_depth = self.exp_depth + 1;
    }

    /// Note one closed parenthesis; one too many is a syntax error.
    fn exit_subexp(&mut self) -> (r: Option<BasicError>)
        requires
            old(self).wf(),
        ensures
            final(self).wf(),
            final(self).text() == old(self).text(),
            final(self).pos() == old(self).pos(),
            if old(self).depth() > 0 {
                final(self).depth() == old(self).depth() - 1 && r is None
            } else {
                final(self).depth() == old(self).depth() && r is Some && r->0 is SyntaxError
            },
    {
        if self.exp_depth > 0 {
            self.exp_depth = self.exp_depth - 1;
            None
        } else {
            Some(BasicError::SyntaxError("Too many ')'".to_owned()))
        }
    }
}

/// The number a plain numeric factor under the cursor denotes, when the
/// cursor stands directly on a digit and the run reads as a number.
pub open spec fn number_factor_at(t: Seq<char>, p: int) -> Option<Number> {
    if is_digit_char(char_at(t, p)) {
        number_from(t.subrange(p, number_end(t, p)))
    } else {
        None
    }
}

/// The variable a bare reference under the cursor names, when the cursor
/// stands on a single letter.
pub open spec fn variable_factor_at(t: Seq<char>, p: int) -> Option<char> {
    if is_alpha_char(char_at(t, p)) && !is_alpha_char(char_at(t, p + 1)) {
        Some(char_at(t, p))
    } else {
        None
    }
}

/// Positions only move forward over whitespace.
proof fn lemma_skip_spaces_ge(t: Seq<char>, p: int)
    ensures
        skip_spaces_from(t, p) >= p,
    decreases t.len() - p,
{
    if 0 <= p < t.len() && is_space_char(t[p]) {
        lemma_skip_spaces_ge(t, p + 1);
    }
}

/// Skipping whitespace stays within the text.
proof fn lemma_skip_spaces_bounds(t: Seq<char>, p: int)
    requires
        0 <= p <= t.len(),
    ensures
        p <= skip_spaces_from(t, p) <= t.len(),
    decreases t.len() - p,
{
    if 0 <= p < t.len() && is_space_char(t[p]) {
        lemma_skip_spaces_bounds(t, p + 1);
    }
}

/// An alphabetic run stays within the text.
proof fn lemma_alpha_end_bounds(t: Seq<char>, p: int)
    requires
        0 <= p <= t.len(),
    ensures
        p <= alpha_end(t, p) <= t.len(),
    decreases t.len() - p,
{
    if 0 <= p < t.len() && is_alpha_char(t[p]) {
        lemma_alpha_end_bounds(t, p + 1);
    }
}

/// Skipping whitespace stops at the end or at a non-space character, so
/// skipping again from the result moves nowhere.
proof fn lemma_skip_spaces_idem(t: Seq<char>, p: int)
    ensures
        skip_spaces_from(t, skip_spaces_from(t, p)) == skip_spaces_from(t, p),
    decreases t.len() - p,
{
    if 0 <= p < t.len() && is_space_char(t[p]) {
        lemma_skip_spaces_idem(t, p + 1);
    }
}

/// Positions only move forward over a number's characters.
proof fn lemma_number_end_ge(t: Seq<char>, p: int)
    ensures
        number_end(t, p) >= p,
    decreases t.len() - p,
{
    if 0 <= p < t.len() && (is_digit_char(t[p]) || t[p] == '.') {
        lemma_number_end_ge(t, p + 1);
    }
}

impl SourceReader {
    /// Join two child expressions under an operator to produce a binary
    /// subtree.
    fn make_subtree(&self, operator: ArithOp, l_child: Expression, r_child: Expression) -> (r:
        Expression)
        ensures
            (match r {
                Expression::Operator(op, l, rr) => op == operator && l is Some && rr is Some && *l
                    ->Some_0 == l_child && *rr->Some_0 == r_child,
                _ => false,
            }),
    {
        Expression::Operator(operator, Some(Box::new(l_child)), Some(Box::new(r_child)))
    }

    /// Get one factor: a variable or call, a possibly negated number, or
    /// a parenthesized subexpression.
    fn get_factor(&mut self) -> (r: Result<Expression, BasicError>)
        requires
            old(self).wf(),
        ensures
            final(self).wf(),
            final(self).text() == old(self).text(),
            final(self).pos() >= old(self).pos(),
            final(self).depth() - old(self).depth() <= final(self).pos() - old(self).pos(),
            r matches Ok(e) ==> evaluable(e) && complete_expr(e) && final(self).pos() > old(
                self,
            ).pos(),
            number_factor_at(old(self).text(), old(self).pos()) is Some ==> (r matches Ok(e) && e
                == Expression::Numeric(number_factor_at(old(self).text(), old(self).pos())->0)
                && final(self).pos() == skip_spaces_from(
                old(self).text(),
                number_end(old(self).text(), old(self).pos()),
            )),
            variable_factor_at(old(self).text(), old(self).pos()) is Some ==> (r matches Ok(e) && e
                == Expression::Variable(variable_factor_at(old(self).text(), old(self).pos())->0)
                && final(self).pos() == old(self).pos() + 1),
            r matches Ok(e) ==> (plain_expr(e) ==> factor_rel(
                old(self).text(),
                old(self).pos(),
                old(self).depth(),
                e,
                final(self).pos(),
                final(self).depth(),
            )),
        decreases old(self).text().len() - old(self).pos(), 0int,
    {
        if self.at_end() {
            return Err(BasicError::SyntaxError("Unexpected end of line".to_owned()));
        }
        // A variable or a function call?
        if self.is_alpha() {
            let first = self.ch();
            let mut identifier = String::new();
            crate::text::push_char(&mut identifier, first);
            self.next();
            if self.is_alpha() {
                // More letters: it must be a function call.
                #[verifier::loop_isolation(false)]
                while self.is_alpha()
                    invariant
                        self.wf(),
                        self.text() == old(self).text(),
                        self.depth() == old(self).depth(),
                        self.pos() > old(self).pos(),
                    decreases self.text().len() - self.pos(),
                {
                    let c = match self.get_char() {
                        Ok(c) => c,
                        Err(e) => {
                            return Err(e);
                        },
                    };
                    proof {
                        lemma_skip_spaces_ge(self.text(), self.pos());
                    }
                    crate::text::push_char(&mut identifier, c);
                }
                // The arguments.
                let mut args: Vec<Expression> = Vec::new();
                proof {
                    reveal_strlit("(");
                    reveal_strlit(",");
                    reveal_strlit(")");
                }
                let _ = self.skip_token("(".to_owned());
                #[verifier::loop_isolation(false)]
                while self.ch() != ')'
                    invariant
                        self.wf(),
                        self.text() == old(self).text(),
                        self.depth() - old(self).depth() <= self.pos() - old(self).pos(),
                        self.pos() > old(self).pos(),
                        forall|i: int|
                            0 <= i < args@.len() ==> evaluable(#[trigger] args@[i])
                                && complete_expr(args@[i]),
                    decreases self.text().len() - self.pos(),
                {
                    let e = match self.get_expression() {
                        Ok(e) => e,
                        Err(er) => {
                            return Err(er);
                        },
                    };
                    args.push(e);
                    self.skip_ws();
                    if self.ch() != ',' {
                        let _ = self.skip_token(",".to_owned());
                    }
                }
                let _ = self.skip_token(")".to_owned());
                return Ok(Expression::Function(identifier, args));
            }
            // A single letter: a bare variable reference.
            proof {
                assert(factor_rel(
                    old(self).text(),
                    old(self).pos(),
                    old(self).depth(),
                    Expression::Variable(first),
                    self.pos(),
                    self.depth(),
                ));
            }
            return Ok(Expression::Variable(first));
        }
        // A possibly negative number?
        let mut negative = false;
        if self.ch() == '-' {
            proof {
                reveal_strlit("-");
                assert(skip_spaces_from(self.text(), self.pos()) == self.pos());
                assert(tok_ok(self.text(), self.pos() + 1, "-"@, 1));
                assert(tok_ok(self.text(), self.pos(), "-"@, 0));
                assert(tok_end(self.text(), self.pos() + 1, "-"@, 1) == self.pos() + 1);
                assert(tok_end(self.text(), self.pos(), "-"@, 0) == self.pos() + 1);
            }
            let _ = self.skip_token("-".to_owned());
            negative = true;
        }
        if self.is_digit() {
            let ghost before = self.pos();
            proof {
                assert(skip_spaces_from(self.text(), before) == before);
                lemma_number_end_ge(self.text(), before + 1);
            }
            let n = match self.get_number() {
                Ok(n) => n,
                Err(e) => {
                    return Err(e);
                },
            };
            proof {
                lemma_skip_spaces_ge(old(self).text(), number_end(old(self).text(), before));
            }
            let v = if negative {
                match n.mul(Number::Integer(-1)) {
                    Ok(v) => v,
                    Err(e) => {
                        return Err(e);
                    },
                }
            } else {
                n
            };
            proof {
                let t = old(self).text();
                let p0 = old(self).pos();
                if negative {
                    assert(char_at(t, p0) == '-');
                    assert(before == skip_spaces_from(t, p0 + 1));
                    assert(is_digit_char(char_at(t, before)));
                    assert(number_from(t.subrange(before, number_end(t, before))) == Some(n));
                    assert(spec_mul(n, Number::Integer(-1i32)) == Some(v));
                } else {
                    assert(before == p0);
                    assert(number_from(t.subrange(p0, number_end(t, p0))) == Some(n));
                }
                assert(factor_rel(
                    t,
                    p0,
                    old(self).depth(),
                    Expression::Numeric(v),
                    self.pos(),
                    self.depth(),
                ));
            }
            return Ok(Expression::Numeric(v));
        }
        // A parenthesized subexpression?
        if self.ch() == '(' {
            let ghost paren_at = self.pos();
            proof {
                reveal_strlit("(");
                assert(skip_spaces_from(self.text(), self.pos()) == self.pos());
                assert(tok_ok(self.text(), self.pos() + 1, "("@, 1));
                assert(tok_ok(self.text(), self.pos(), "("@, 0));
                assert(tok_end(self.text(), self.pos() + 1, "("@, 1) == self.pos() + 1);
                assert(tok_end(self.text(), self.pos(), "("@, 0) == self.pos() + 1);
            }
            let _ = self.skip_token("(".to_owned());
            self.enter_subexp();
            let res = self.get_expression();
            proof {
                let t = old(self).text();
                lemma_skip_spaces_bounds(t, paren_at + 1);
                match &res {
                    Ok(e) => {
                        if plain_expr(*e) {
                            if negative {
                                assert(char_at(t, old(self).pos()) == '-');
                                assert(paren_at == skip_spaces_from(t, old(self).pos() + 1));
                            } else {
                                assert(paren_at == old(self).pos());
                            }
                            assert(char_at(t, paren_at) == '(');
                            assert(ahead(
                                old(self).pos(),
                                skip_spaces_from(t, paren_at + 1),
                                t.len() as int,
                            ) == skip_spaces_from(t, paren_at + 1));
                            assert(factor_rel(
                                t,
                                old(self).pos(),
                                old(self).depth(),
                                *e,
                                self.pos(),
                                self.depth(),
                            ));
                        }
                    },
                    Err(_) => {},
                }
            }
            return res;
        }
        Err(BasicError::SyntaxError("Error in expression".to_owned()))
    }

    /// Get one term: factors joined by multiplicative operators.
    fn get_term(&mut self) -> (r: Result<Expression, BasicError>)
        requires
            old(self).wf(),
        ensures
            final(self).wf(),
            final(self).text() == old(self).text(),
            final(self).pos() >= old(self).pos(),
            final(self).depth() - old(self).depth() <= final(self).pos() - old(self).pos(),
            r matches Ok(e) ==> evaluable(e) && complete_expr(e) && final(self).pos() > old(
                self,
            ).pos(),
            (number_factor_at(old(self).text(), old(self).pos()) is Some && skip_spaces_from(
                old(self).text(),
                number_end(old(self).text(), old(self).pos()),
            ) == old(self).text().len()) ==> (r matches Ok(e) && e == Expression::Numeric(
                number_factor_at(old(self).text(), old(self).pos())->0,
            ) && final(self).pos() == old(self).text().len()),
            r matches Ok(e) ==> (plain_expr(e) ==> term_rel(
                old(self).text(),
                old(self).pos(),
                old(self).depth(),
                e,
                final(self).pos(),
                final(self).depth(),
            )),
        decreases old(self).text().len() - old(self).pos(), 1int,
    {
        let ghost t = old(self).text();
        let ghost p0 = old(self).pos();
        let ghost d0 = old(self).depth();
        let mut root = match self.get_factor() {
            Ok(e) => e,
            Err(er) => {
                return Err(er);
            },
        };
        proof {
            reveal_strlit("*");
            reveal_strlit("/");
            if plain_expr(root) {
                assert(term_chain_rel(t, p0, d0, root, self.pos(), self.depth()));
            }
        }
        #[verifier::loop_isolation(false)]
        while !self.at_end()
            invariant
                self.wf(),
                self.text() == old(self).text(),
                self.pos() > old(self).pos(),
                self.depth() - old(self).depth() <= self.pos() - old(self).pos(),
                evaluable(root) && complete_expr(root),
                plain_expr(root) ==> term_chain_rel(t, p0, d0, root, self.pos(), self.depth()),
                (number_factor_at(old(self).text(), old(self).pos()) is Some && skip_spaces_from(
                    old(self).text(),
                    number_end(old(self).text(), old(self).pos()),
                ) == old(self).text().len()) ==> (root == Expression::Numeric(
                    number_factor_at(old(self).text(), old(self).pos())->0,
                ) && self.pos() == old(self).text().len()),
            decreases self.text().len() - self.pos(),
        {
            let ghost m0 = self.pos();
            let ghost dm0 = self.depth();
            self.skip_ws();
            if self.is_mulop() {
                let is_mul = self.ch() == '*';
                let ghost c = self.pos();
                proof {
                    assert(c == skip_spaces_from(t, m0));
                    if is_mul {
                        assert(skip_spaces_from(t, c) == c);
                        assert(tok_ok(t, c + 1, "*"@, 1));
                        assert(tok_ok(t, c, "*"@, 0));
                        assert(tok_end(t, c + 1, "*"@, 1) == c + 1);
                        assert(tok_end(t, c, "*"@, 0) == c + 1);
                    } else {
                        assert(skip_spaces_from(t, c) == c);
                        assert(tok_ok(t, c + 1, "/"@, 1));
                        assert(tok_ok(t, c, "/"@, 0));
                        assert(tok_end(t, c + 1, "/"@, 1) == c + 1);
                        assert(tok_end(t, c, "/"@, 0) == c + 1);
                    }
                }
                let op = if is_mul {
                    let _ = self.skip_token("*".to_owned());
                    ArithOp::Multiply
                } else {
                    let _ = self.skip_token("/".to_owned());
                    ArithOp::Divide
                };
                let f = match self.get_factor() {
                    Ok(e) => e,
                    Err(er) => {
                        return Err(er);
                    },
                };
                let next_root = self.make_subtree(op, root, f);
                proof {
                    if plain_expr(next_root) {
                        assert(plain_expr(f));
                        assert(term_chain_rel(t, p0, d0, *next_root->Operator_1->Some_0, m0, dm0));
                        lemma_skip_spaces_bounds(t, c + 1);
                        assert(ahead(p0, skip_spaces_from(t, c + 1), t.len() as int)
                            == skip_spaces_from(t, c + 1));
                        assert(span_cut(m0, dm0));
                        assert(term_chain_rel(t, p0, d0, next_root, self.pos(), self.depth()));
                    }
                }
                root = next_root;
            } else {
                proof {
                    if plain_expr(root) {
                        assert(span_cut(m0, dm0));
                        assert(term_rel(t, p0, d0, root, self.pos(), self.depth()));
                    }
                }
                return Ok(root);
            }
        }
        proof {
            if plain_expr(root) {
                assert(span_cut(self.pos(), self.depth()));
                assert(term_rel(t, p0, d0, root, self.pos(), self.depth()));
            }
        }
        Ok(root)
    }

    /// Get one numeric expression: terms joined by additive operators,
    /// ending at a closing parenthesis when one is open.
    fn get_expression(&mut self) -> (r: Result<Expression, BasicError>)
        requires
            old(self).wf(),
        ensures
            final(self).wf(),
            final(self).text() == old(self).text(),
            final(self).pos() >= old(self).pos(),
            final(self).depth() - old(self).depth() <= final(self).pos() - old(self).pos(),
            r matches Ok(e) ==> evaluable(e) && complete_expr(e) && final(self).pos() > old(
                self,
            ).pos(),
            (number_factor_at(old(self).text(), old(self).pos()) is Some && skip_spaces_from(
                old(self).text(),
                number_end(old(self).text(), old(self).pos()),
            ) == old(self).text().len()) ==> (r matches Ok(e) && e == Expression::Numeric(
                number_factor_at(old(self).text(), old(self).pos())->0,
            ) && final(self).pos() == old(self).text().len()),
            r matches Ok(e) ==> (plain_expr(e) ==> expr_rel(
                old(self).text(),
                old(self).pos(),
                old(self).depth(),
                e,
                final(self).pos(),
                final(self).depth(),
            )),
        decreases old(self).text().len() - old(self).pos(), 2int,
    {
        let ghost t = old(self).text();
        let ghost p0 = old(self).pos();
        let ghost d0 = old(self).depth();
        let mut root = match self.get_term() {
            Ok(e) => e,
            Err(er) => {
                return Err(er);
            },
        };
        proof {
            reveal_strlit("+");
            reveal_strlit("-");
            reveal_strlit(")");
            if plain_expr(root) {
                assert(expr_chain_rel(t, p0, d0, root, self.pos(), self.depth()));
            }
        }
        #[verifier::loop_isolation(false)]
        while !self.at_end()
            invariant
                self.wf(),
                self.text() == old(self).text(),
                self.pos() > old(self).pos(),
                self.depth() - old(self).depth() <= self.pos() - old(self).pos(),
                evaluable(root) && complete_expr(root),
                plain_expr(root) ==> expr_chain_rel(t, p0, d0, root, self.pos(), self.depth()),
                (number_factor_at(old(self).text(), old(self).pos()) is Some && skip_spaces_from(
                    old(self).text(),
                    number_end(old(self).text(), old(self).pos()),
                ) == old(self).text().len()) ==> (root == Expression::Numeric(
                    number_factor_at(old(self).text(), old(self).pos())->0,
                ) && self.pos() == old(self).text().len()),
            decreases self.text().len() - self.pos(),
        {
            let ghost m0 = self.pos();
            let ghost dm0 = self.depth();
            self.skip_ws();
            if self.is_addop() {
                let is_add = self.ch() == '+';
                let ghost c = self.pos();
                proof {
                    assert(c == skip_spaces_from(t, m0));
                    if is_add {
                        assert(skip_spaces_from(t, c) == c);
                        assert(tok_ok(t, c + 1, "+"@, 1));
                        assert(tok_ok(t, c, "+"@, 0));
                        assert(tok_end(t, c + 1, "+"@, 1) == c + 1);
                        assert(tok_end(t, c, "+"@, 0) == c + 1);
                    } else {
                        assert(skip_spaces_from(t, c) == c);
                        assert(tok_ok(t, c + 1, "-"@, 1));
                        assert(tok_ok(t, c, "-"@, 0));
                        assert(tok_end(t, c + 1, "-"@, 1) == c + 1);
                        assert(tok_end(t, c, "-"@, 0) == c + 1);
                    }
                }
                let op = if is_add {
                    let _ = self.skip_token("+".to_owned());
                    ArithOp::Add
                } else {
                    let _ = self.skip_token("-".to_owned());
                    ArithOp::Subtract
                };
                let term = match self.get_term() {
                    Ok(e) => e,
                    Err(er) => {
                        return Err(er);
                    },
                };
                let next_root = self.make_subtree(op, root, term);
                proof {
                    if plain_expr(next_root) {
                        assert(plain_expr(term));
                        assert(expr_chain_rel(t, p0, d0, *next_root->Operator_1->Some_0, m0, dm0));
                        lemma_skip_spaces_bounds(t, c + 1);
                        assert(ahead(p0, skip_spaces_from(t, c + 1), t.len() as int)
                            == skip_spaces_from(t, c + 1));
                        assert(span_cut(m0, dm0));
                        assert(expr_chain_rel(t, p0, d0, next_root, self.pos(), self.depth()));
                    }
                }
                root = next_root;
            } else if self.ch() == ')' && self.exp_depth > 0 {
                let ghost c = self.pos();
                proof {
                    assert(c == skip_spaces_from(t, m0));
                    assert(skip_spaces_from(t, c) == c);
                    assert(tok_ok(t, c + 1, ")"@, 1));
                    assert(tok_ok(t, c, ")"@, 0));
                    assert(tok_end(t, c + 1, ")"@, 1) == c + 1);
                    assert(tok_end(t, c, ")"@, 0) == c + 1);
                }
                let _ = self.skip_token(")".to_owned());
                let _ = self.exit_subexp();
                proof {
                    if plain_expr(root) {
                        assert(span_cut(m0, dm0));
                        assert(expr_rel(t, p0, d0, root, self.pos(), self.depth()));
                    }
                }
                return Ok(root);
            } else {
                proof {
                    if plain_expr(root) {
                        assert(span_cut(m0, dm0));
                        assert(expr_rel(t, p0, d0, root, self.pos(), self.depth()));
                    }
                }
                return Ok(root);
            }
        }
        proof {
            if plain_expr(root) {
                assert(span_cut(self.pos(), self.depth()));
                assert(expr_rel(t, p0, d0, root, self.pos(), self.depth()));
            }
        }
        Ok(root)
    }

}

/// An expression of literals, variables and operators alone: no function
/// call and no string literal anywhere. The grammar relation below
/// describes exactly these trees.
pub open spec fn plain_expr(e: Expression) -> bool
    decreases e,
{
    match e {
        Expression::String(_) => false,
        Expression::Function(_, _) => false,
        Expression::Operator(_, l, r) => (l is Some ==> plain_expr(*l->Some_0)) && (r is Some
            ==> plain_expr(*r->Some_0)),
        _ => true,
    }
}

/// A marker naming an intermediate cursor position and depth inside a
/// grammar derivation; always true, it only anchors quantifier
/// instantiation.
pub open spec fn span_cut(m: int, dm: int) -> bool {
    true
}

/// The next position after `base` that a derivation may continue from:
/// `q` itself when it lies properly beyond `base` and within the text.
/// A derivation always continues at such a position, so this only guards
/// the recursion.
pub open spec fn ahead(base: int, q: int, len: int) -> int {
    let a = if q < base + 1 {
        base + 1
    } else {
        q
    };
    if a > len {
        len
    } else {
        a
    }
}

/// The text length still ahead of the cursor.
pub open spec fn rem_len(t: Seq<char>, p: int) -> nat {
    if p <= t.len() {
        (t.len() - p) as nat
    } else {
        0
    }
}

/// The factor grammar: the plain tree `e`, read at position `p` and
/// parenthesis depth `d`, spans the text up to `p1` and leaves depth
/// `d1`. A factor is a bare variable letter, a number, a negated number,
/// or a parenthesized expression (whose optional leading minus the
/// grammar reads and drops).
pub open spec fn factor_rel(t: Seq<char>, p: int, d: int, e: Expression, p1: int, d1: int) -> bool
    decreases rem_len(t, p), e, 0int,
{
    ||| {
        &&& is_alpha_char(char_at(t, p)) && !is_alpha_char(char_at(t, p + 1))
        &&& e == Expression::Variable(char_at(t, p))
        &&& p1 == p + 1 && d1 == d
    }
    ||| {
        &&& is_digit_char(char_at(t, p))
        &&& (number_from(t.subrange(p, number_end(t, p))) matches Some(n) && e
            == Expression::Numeric(n))
        &&& p1 == skip_spaces_from(t, number_end(t, p)) && d1 == d
    }
    ||| (char_at(t, p) == '-' && {
        let q = skip_spaces_from(t, p + 1);
        &&& is_digit_char(char_at(t, q))
        &&& (number_from(t.subrange(q, number_end(t, q))) matches Some(n) && spec_mul(
            n,
            Number::Integer(-1i32),
        ) matches Some(v) && e == Expression::Numeric(v))
        &&& p1 == skip_spaces_from(t, number_end(t, q)) && d1 == d
    })
    ||| (char_at(t, p) == '-' && {
        let q = skip_spaces_from(t, p + 1);
        &&& char_at(t, q) == '('
        &&& !is_digit_char(char_at(t, q))
        &&& expr_rel(t, ahead(p, skip_spaces_from(t, q + 1), t.len() as int), d + 1, e, p1, d1)
    })
    ||| (char_at(t, p) == '(' && expr_rel(
        t,
        ahead(p, skip_spaces_from(t, p + 1), t.len() as int),
        d + 1,
        e,
        p1,
        d1,
    ))
}

/// A chain of factors joined left-associatively by multiplicative
/// operators, without the term's trailing boundary.
pub open spec fn term_chain_rel(
    t: Seq<char>,
    p: int,
    d: int,
    e: Expression,
    p1: int,
    d1: int,
) -> bool
    decreases rem_len(t, p), e, 1int,
{
    ||| factor_rel(t, p, d, e, p1, d1)
    ||| (match e {
        Expression::Operator(op, l, r) => {
            &&& (op == ArithOp::Multiply || op == ArithOp::Divide)
            &&& l is Some && r is Some
            &&& 0 <= p < t.len()
            &&& exists|m: int, dm: int|
                #[trigger] span_cut(m, dm) && {
                    let c = skip_spaces_from(t, m);
                    &&& term_chain_rel(t, p, d, *l->Some_0, m, dm)
                    &&& (if op == ArithOp::Multiply {
                        char_at(t, c) == '*'
                    } else {
                        char_at(t, c) == '/'
                    })
                    &&& factor_rel(
                        t,
                        ahead(p, skip_spaces_from(t, c + 1), t.len() as int),
                        dm,
                        *r->Some_0,
                        p1,
                        d1,
                    )
                }
        },
        _ => false,
    })
}

/// A maximal term: a factor chain that no multiplicative operator
/// follows; the cursor rests past the trailing whitespace.
pub open spec fn term_rel(t: Seq<char>, p: int, d: int, e: Expression, p1: int, d1: int) -> bool
    decreases rem_len(t, p), e, 2int,
{
    exists|q: int, dq: int|
        #[trigger] span_cut(q, dq) && term_chain_rel(t, p, d, e, q, dq) && (if q >= t.len() {
            p1 == q && d1 == dq
        } else {
            let q2 = skip_spaces_from(t, q);
            &&& !(char_at(t, q2) == '*' || char_at(t, q2) == '/')
            &&& p1 == q2 && d1 == dq
        })
}

/// A chain of maximal terms joined left-associatively by additive
/// operators, without the expression's trailing boundary.
pub open spec fn expr_chain_rel(
    t: Seq<char>,
    p: int,
    d: int,
    e: Expression,
    p1: int,
    d1: int,
) -> bool
    decreases rem_len(t, p), e, 3int,
{
    ||| term_rel(t, p, d, e, p1, d1)
    ||| (match e {
        Expression::Operator(op, l, r) => {
            &&& (op == ArithOp::Add || op == ArithOp::Subtract)
            &&& l is Some && r is Some
            &&& 0 <= p < t.len()
            &&& exists|m: int, dm: int|
                #[trigger] span_cut(m, dm) && {
                    let c = skip_spaces_from(t, m);
                    &&& expr_chain_rel(t, p, d, *l->Some_0, m, dm)
                    &&& (if op == ArithOp::Add {
                        char_at(t, c) == '+'
                    } else {
                        char_at(t, c) == '-'
                    })
                    &&& term_rel(
                        t,
                        ahead(p, skip_spaces_from(t, c + 1), t.len() as int),
                        dm,
                        *r->Some_0,
                        p1,
                        d1,
                    )
                }
        },
        _ => false,
    })
}

/// The expression grammar: a maximal chain of terms; at an unconsumed
/// closing parenthesis under an open one, the parenthesis is consumed
/// and one depth level released.
pub open spec fn expr_rel(t: Seq<char>, p: int, d: int, e: Expression, p1: int, d1: int) -> bool
    decreases rem_len(t, p), e, 4int,
{
    exists|q: int, dq: int|
        #[trigger] span_cut(q, dq) && expr_chain_rel(t, p, d, e, q, dq) && (if q >= t.len() {
            p1 == q && d1 == dq
        } else {
            let q2 = skip_spaces_from(t, q);
            &&& !(char_at(t, q2) == '+' || char_at(t, q2) == '-')
            &&& (if char_at(t, q2) == ')' && dq > 0 {
                p1 == skip_spaces_from(t, q2 + 1) && d1 == dq - 1
            } else {
                p1 == q2 && d1 == dq
            })
        })
}

/// What a parsed line's statement must be, given the text and the
/// position where its keyword starts: the keyword picks the variant, and
/// the payloads the token grammar pins — jump targets, variable letters,
/// comment text, file names — are exactly what the text holds. A single
/// letter is an implicit LET and an empty line is the empty statement.
pub open spec fn statement_matches_line(t: Seq<char>, p: int, d: int, st: Statement) -> bool
    decreases st,
{
    let s = skip_spaces_from(t, p);
    let e = alpha_end(t, s);
    let kw = t.subrange(s, e);
    let after = skip_spaces_from(t, e);
    &&& (kw == "rem"@ ==> (st matches Statement::Rem(c) && c@ == t.subrange(
        skip_spaces_from(t, after),
        t.len() as int,
    )))
    &&& (kw == "print"@ ==> (st matches Statement::Print(args) && ((forall|i: int|
        0 <= i < args.len() ==> ((#[trigger] args[i]) is String || plain_expr(args[i])))
        ==> print_args_rel(t, after, d, args@))))
    &&& (kw == "let"@ ==> (st matches Statement::Let(v, ex) && v == letter_at(t, after) && (
    plain_expr(ex) ==> expr_rel(
        t,
        after_eq(t, skip_spaces_from(t, after) + 1),
        d,
        ex,
        t.len() as int,
        0,
    ))))
    &&& (kw == "if"@ ==> (st matches Statement::If(cond, cons) && (match cond {
        Condition::Boolean(l, op, rr) => (plain_expr(l) && plain_expr(rr))
            ==> exists|pa: int, da: int|
        #[trigger] span_cut(pa, da) && expr_rel(t, after, d, l, pa, da) && relop_scan(
            t,
            skip_spaces_from(t, pa),
        ).0 == Some(op) && exists|pb: int, db: int|
            #[trigger] span_cut(pb, db) && expr_rel(
                t,
                skip_spaces_from(t, relop_scan(t, skip_spaces_from(t, pa)).1),
                da,
                rr,
                pb,
                db,
            ) && statement_matches_line(t, after_tok(t, pb, "then"@), db, *cons),
    })))
    &&& (kw == "goto"@ ==> (st matches Statement::Goto(n) && n as int == integer_at(t, after)))
    &&& (kw == "input"@ ==> (st matches Statement::Input(v) && v == letter_at(t, after)))
    &&& (kw == "gosub"@ ==> (st matches Statement::Gosub(n) && n as int == integer_at(t, after)))
    &&& (kw == "return"@ ==> st is Return)
    &&& (kw == "for"@ ==> (st matches Statement::For(v, s0, e0, stp) && v == letter_at(t, after)
        && ((plain_expr(s0) && plain_expr(e0) && (stp is Some ==> plain_expr(stp->0)))
        ==> exists|pa: int, da: int|
        #[trigger] span_cut(pa, da) && expr_rel(
            t,
            after_eq(t, skip_spaces_from(t, after) + 1),
            d,
            s0,
            pa,
            da,
        ) && (match stp {
            None => exists|pb: int|
                #[trigger] span_cut(pb, 0) && expr_rel(t, after_tok(t, pa, "to"@), da, e0, pb, 0)
                    && skip_spaces_from(t, pb) == t.len(),
            Some(se) => exists|pb: int, db: int|
                #[trigger] span_cut(pb, db) && expr_rel(t, after_tok(t, pa, "to"@), da, e0, pb, db)
                    && skip_spaces_from(t, pb) < t.len() && expr_rel(
                    t,
                    skip_spaces_from(t, after_tok(t, skip_spaces_from(t, pb), "step"@)),
                    db,
                    se,
                    t.len() as int,
                    0,
                ),
        }))))
    &&& (kw == "next"@ ==> st is Next)
    &&& (kw == "list"@ ==> st is List)
    &&& (kw == "run"@ ==> st is Run)
    &&& (kw == "load"@ ==> (st matches Statement::Load(f) && f@ == string_at(t, after)))
    &&& (kw == "save"@ ==> (st matches Statement::Save(f) && f@ == string_at(t, after)))
    &&& (kw == "clear"@ ==> st is Clear)
    &&& (kw == "end"@ ==> st is End)
    &&& (kw.len() == 1 ==> (st matches Statement::Let(v, ex) && v == char_at(t, s) && (
    plain_expr(ex) ==> expr_rel(t, after_eq(t, after), d, ex, t.len() as int, 0))))
    &&& (kw.len() == 0 ==> st is Empty)
}

/// Where the cursor stands after the optional `=` sign at `p`: past the
/// sign and its trailing whitespace when it is there, at the mismatch
/// otherwise (a missing sign is noted but not fatal, as the executable
/// grammar has always had it).
pub open spec fn after_eq(t: Seq<char>, p: int) -> int {
    let s3 = skip_spaces_from(t, p);
    if char_at(t, s3) == '=' {
        skip_spaces_from(t, s3 + 1)
    } else {
        s3
    }
}

/// Where the cursor stands after skipping the token `tok` at `p`: past
/// the token and its trailing whitespace when the text matches it, at
/// the first mismatch otherwise.
pub open spec fn after_tok(t: Seq<char>, p: int, tok: Seq<char>) -> int {
    let s = skip_spaces_from(t, p);
    if tok_ok(t, s, tok, 0) {
        skip_spaces_from(t, tok_end(t, s, tok, 0))
    } else {
        tok_end(t, s, tok, 0)
    }
}

/// The value of the digit run under the cursor at `p`, after whitespace.
pub open spec fn integer_at(t: Seq<char>, p: int) -> int {
    dec_val(t.subrange(skip_spaces_from(t, p), digits_end(t, skip_spaces_from(t, p))))
}

/// The letter under the cursor at `p`, after whitespace.
pub open spec fn letter_at(t: Seq<char>, p: int) -> char {
    char_at(t, skip_spaces_from(t, p))
}

/// The contents of the string literal under the cursor at `p`.
pub open spec fn string_at(t: Seq<char>, p: int) -> Seq<char> {
    let q = skip_spaces_from(t, p);
    t.subrange(q + 1, string_end(t, q + 1))
}

/// Whether the text from `p` on is exactly one integer argument: a
/// non-empty digit run whose value fits an `i32`, then only whitespace.
pub open spec fn ends_with_int_arg(t: Seq<char>, p: int) -> bool {
    let s = skip_spaces_from(t, p);
    let e = digits_end(t, s);
    let run = t.subrange(s, e);
    run.len() > 0 && dec_val(run) <= i32::MAX && skip_spaces_from(t, e) == t.len()
}

/// Whether the text from `p` on is exactly one letter argument: a letter
/// that ends the line. A trailing blank after the letter is not consumed
/// and therefore not accepted.
pub open spec fn ends_with_letter_arg(t: Seq<char>, p: int) -> bool {
    let s = skip_spaces_from(t, p);
    is_alpha_char(char_at(t, s)) && s + 1 == t.len()
}

/// Whether the text from `p` on is exactly one string literal argument:
/// a quoted string, then only whitespace.
pub open spec fn ends_with_string_arg(t: Seq<char>, p: int) -> bool {
    let s = skip_spaces_from(t, p);
    let e = string_end(t, s + 1);
    char_at(t, s) == '"' && e < t.len() && t[e] == '"' && skip_spaces_from(t, e + 1) == t.len()
}

/// One PRINT argument read from position `p`: a quoted string literal,
/// or a plain expression.
pub open spec fn print_arg_rel(
    t: Seq<char>,
    p: int,
    d: int,
    a: Expression,
    pa: int,
    da: int,
) -> bool {
    match a {
        Expression::String(sv) => {
            let q = skip_spaces_from(t, p);
            let e = string_end(t, q + 1);
            &&& char_at(t, q) == '"'
            &&& e < t.len() && t[e] == '"'
            &&& sv@ == t.subrange(q + 1, e)
            &&& pa == skip_spaces_from(t, e + 1) && da == d
        },
        _ => expr_rel(t, p, d, a, pa, da),
    }
}

/// The first `k` PRINT arguments, each followed by a comma, read from
/// position `p` up to `p1`.
pub open spec fn print_args_seg(
    t: Seq<char>,
    p: int,
    d: int,
    args: Seq<Expression>,
    k: int,
    p1: int,
    d1: int,
) -> bool
    decreases k,
{
    if k <= 0 {
        p1 == p && d1 == d
    } else {
        exists|m: int, dm: int|
            #[trigger] span_cut(m, dm) && print_args_seg(t, p, d, args, k - 1, m, dm) && exists|
                pa: int,
                da: int,
            |
                #[trigger] span_cut(pa, da) && print_arg_rel(t, m, dm, args[k - 1], pa, da)
                    && char_at(t, skip_spaces_from(t, pa)) == ',' && p1 == skip_spaces_from(
                    t,
                    after_tok(t, pa, ","@),
                ) && d1 == da
    }
}

/// The whole PRINT argument list from position `p`: every argument but
/// the last is followed by a comma; the line ends after the last
/// argument, or after a trailing comma.
pub open spec fn print_args_rel(t: Seq<char>, p: int, d: int, args: Seq<Expression>) -> bool {
    if args.len() == 0 {
        p == t.len()
    } else {
        ||| exists|m: int, dm: int|
            #[trigger] span_cut(m, dm) && print_args_seg(t, p, d, args, args.len() - 1, m, dm)
                && exists|pa: int|
                #[trigger] span_cut(pa, 0) && print_arg_rel(t, m, dm, args.last(), pa, 0)
                    && char_at(t, skip_spaces_from(t, pa)) != ',' && skip_spaces_from(t, pa)
                    == t.len()
        ||| exists|m: int|
            #[trigger] span_cut(m, 0) && print_args_seg(
                t,
                p,
                d,
                args,
                args.len() as int,
                m,
                0,
            ) && m == t.len()
    }
}

/// A segment of comma-followed arguments ignores entries past its count.
pub proof fn lemma_print_args_seg_push(
    t: Seq<char>,
    p: int,
    d: int,
    args: Seq<Expression>,
    x: Expression,
    k: int,
    p1: int,
    d1: int,
)
    requires
        0 <= k <= args.len(),
        print_args_seg(t, p, d, args, k, p1, d1),
    ensures
        print_args_seg(t, p, d, args.push(x), k, p1, d1),
    decreases k,
{
    if k > 0 {
        let (m, dm) = choose|m: int, dm: int|
            #[trigger] span_cut(m, dm) && print_args_seg(t, p, d, args, k - 1, m, dm) && exists|
                pa: int,
                da: int,
            |
                #[trigger] span_cut(pa, da) && print_arg_rel(t, m, dm, args[k - 1], pa, da)
                    && char_at(t, skip_spaces_from(t, pa)) == ',' && p1 == skip_spaces_from(
                    t,
                    after_tok(t, pa, ","@),
                ) && d1 == da;
        lemma_print_args_seg_push(t, p, d, args, x, k - 1, m, dm);
        assert(args.push(x)[k - 1] == args[k - 1]);
    }
}

/// Whether `kw` is one of the statement keywords.
pub open spec fn is_keyword(kw: Seq<char>) -> bool {
    ||| kw == "rem"@
    ||| kw == "print"@
    ||| kw == "let"@
    ||| kw == "if"@
    ||| kw == "goto"@
    ||| kw == "input"@
    ||| kw == "gosub"@
    ||| kw == "return"@
    ||| kw == "for"@
    ||| kw == "next"@
    ||| kw == "list"@
    ||| kw == "run"@
    ||| kw == "load"@
    ||| kw == "save"@
    ||| kw == "clear"@
    ||| kw == "end"@
}

/// The keywords denote distinct text: those of equal length differ in a
/// character, and each has its own length.
proof fn lemma_keywords_distinct()
    ensures
        "rem"@.len() == 3 && "let"@.len() == 3 && "for"@.len() == 3 && "run"@.len() == 3
            && "end"@.len() == 3,
        "goto"@.len() == 4 && "next"@.len() == 4 && "list"@.len() == 4 && "load"@.len() == 4
            && "save"@.len() == 4,
        "print"@.len() == 5 && "input"@.len() == 5 && "gosub"@.len() == 5 && "clear"@.len() == 5,
        "if"@.len() == 2 && "return"@.len() == 6,
        "rem"@ != "let"@ && "rem"@ != "for"@ && "rem"@ != "run"@ && "rem"@ != "end"@,
        "let"@ != "for"@ && "let"@ != "run"@ && "let"@ != "end"@,
        "for"@ != "run"@ && "for"@ != "end"@,
        "run"@ != "end"@,
        "goto"@ != "next"@ && "goto"@ != "list"@ && "goto"@ != "load"@ && "goto"@ != "save"@,
        "next"@ != "list"@ && "next"@ != "load"@ && "next"@ != "save"@,
        "list"@ != "load"@ && "list"@ != "save"@,
        "load"@ != "save"@,
        "print"@ != "input"@ && "print"@ != "gosub"@ && "print"@ != "clear"@,
        "input"@ != "gosub"@ && "input"@ != "clear"@,
        "gosub"@ != "clear"@,
{
    reveal_strlit("rem");
    reveal_strlit("print");
    reveal_strlit("let");
    reveal_strlit("if");
    reveal_strlit("goto");
    reveal_strlit("input");
    reveal_strlit("gosub");
    reveal_strlit("return");
    reveal_strlit("for");
    reveal_strlit("next");
    reveal_strlit("list");
    reveal_strlit("run");
    reveal_strlit("load");
    reveal_strlit("save");
    reveal_strlit("clear");
    reveal_strlit("end");
    assert("rem"@[0] != "let"@[0] && "rem"@[0] != "for"@[0] && "rem"@[1] != "run"@[1] && "rem"@[0]
        != "end"@[0]);
    assert("let"@[0] != "for"@[0] && "let"@[0] != "run"@[0] && "let"@[0] != "end"@[0]);
    assert("for"@[0] != "run"@[0] && "for"@[0] != "end"@[0]);
    assert("run"@[0] != "end"@[0]);
    assert("goto"@[0] != "next"@[0] && "goto"@[0] != "list"@[0] && "goto"@[0] != "load"@[0]
        && "goto"@[0] != "save"@[0]);
    assert("next"@[0] != "list"@[0] && "next"@[0] != "load"@[0] && "next"@[0] != "save"@[0]);
    assert("list"@[1] != "load"@[1] && "list"@[0] != "save"@[0]);
    assert("load"@[0] != "save"@[0]);
    assert("print"@[0] != "input"@[0] && "print"@[0] != "gosub"@[0] && "print"@[0] != "clear"@[0]);
    assert("input"@[0] != "gosub"@[0] && "input"@[0] != "clear"@[0]);
    assert("gosub"@[0] != "clear"@[0]);
}

impl SourceReader {
    /// Compile the current line into a statement. A successful parse
    /// consumes the entire line and leaves the parenthesis depth at zero;
    /// the statement it builds is well formed for execution and for
    /// rendering.
    pub fn build_statement(&mut self) -> (r: Result<Statement, BasicError>)
        requires
            old(self).wf(),
        ensures
            final(self).wf(),
            final(self).text() == old(self).text(),
            final(self).pos() >= old(self).pos(),
            r matches Ok(s) ==> stmt_wf(s) && stmt_complete(s) && final(self).depth() == 0
                && final(self).pos() == final(self).text().len(),
            ({
                let t = old(self).text();
                let s = skip_spaces_from(t, old(self).pos());
                let e = alpha_end(t, s);
                let kw = t.subrange(s, e);
                &&& ((old(self).depth() == 0 && kw == "return"@ && skip_spaces_from(t, e)
                    == t.len()) ==> r == Ok::<Statement, BasicError>(Statement::Return))
                &&& ((old(self).depth() == 0 && kw == "end"@ && skip_spaces_from(t, e) == t.len())
                    ==> r == Ok::<Statement, BasicError>(Statement::End))
                &&& (r matches Ok(st) ==> statement_matches_line(
                    t,
                    old(self).pos(),
                    old(self).depth(),
                    st,
                ))
                &&& ((kw.len() >= 2 && !is_keyword(kw)) ==> (r matches Err(er) && er
                    is SyntaxError && er.text() == "Unknown keyword"@))
                &&& ((old(self).depth() == 0 && s == t.len()) ==> r == Ok::<Statement, BasicError>(
                    Statement::Empty,
                ))
                &&& (old(self).depth() == 0 ==> {
                    let after = skip_spaces_from(t, e);
                    &&& (kw == "rem"@ ==> (r matches Ok(st) && st is Rem))
                    &&& ((kw == "next"@ && after == t.len()) ==> r == Ok::<Statement, BasicError>(
                        Statement::Next,
                    ))
                    &&& ((kw == "list"@ && after == t.len()) ==> r == Ok::<Statement, BasicError>(
                        Statement::List,
                    ))
                    &&& ((kw == "run"@ && after == t.len()) ==> r == Ok::<Statement, BasicError>(
                        Statement::Run,
                    ))
                    &&& ((kw == "clear"@ && after == t.len()) ==> r == Ok::<Statement, BasicError>(
                        Statement::Clear,
                    ))
                    &&& ((kw == "goto"@ && ends_with_int_arg(t, after)) ==> (r matches Ok(st) && st
                        is Goto))
                    &&& ((kw == "gosub"@ && ends_with_int_arg(t, after)) ==> (r matches Ok(st)
                        && st is Gosub))
                    &&& ((kw == "input"@ && ends_with_letter_arg(t, after)) ==> (r matches Ok(st)
                        && st is Input))
                    &&& ((kw == "load"@ && ends_with_string_arg(t, after)) ==> (r matches Ok(st)
                        && st is Load))
                    &&& ((kw == "save"@ && ends_with_string_arg(t, after)) ==> (r matches Ok(st)
                        && st is Save))
                })
            }),
        decreases old(self).text().len() - old(self).pos(),
    {
        proof {
            reveal_strlit("return");
            reveal_strlit("end");
            lemma_keywords_distinct();
        }
        let keyword = self.get_keyword();
        let statement: Statement = if str_eq(keyword.as_str(), "rem") {
            proof {
                reveal_strlit("rem");
                assert("rem"@[0] != "end"@[0]);
            }
            let comment = match self.get_text() {
                Ok(c) => c,
                Err(e) => {
                    return Err(e);
                },
            };
            Statement::Rem(comment)
        } else if str_eq(keyword.as_str(), "print") {
            proof {
                reveal_strlit("print");
            }
            let mut another = true;
            let mut args: Vec<Expression> = Vec::new();
            let ghost after0 = self.pos();
            let ghost d0 = self.depth();
            let ghost t0 = old(self).text();
            proof {
                reveal_strlit(",");
            }
            #[verifier::loop_isolation(false)]
            while another
                invariant
                    self.wf(),
                    self.text() == old(self).text(),
                    self.pos() >= old(self).pos(),
                    self.depth() - old(self).depth() <= self.pos() - old(self).pos(),
                    forall|i: int|
                        0 <= i < args@.len() ==> ((#[trigger] args@[i]) is String || evaluable(
                            args@[i],
                        )) && complete_expr(args@[i]),
                    (forall|i: int|
                        0 <= i < args@.len() ==> ((#[trigger] args@[i]) is String || plain_expr(
                            args@[i],
                        ))) ==> (if another {
                        print_args_seg(
                            t0,
                            after0,
                            d0,
                            args@,
                            args@.len() as int,
                            self.pos(),
                            self.depth(),
                        )
                    } else {
                        (self.pos() == t0.len() && self.depth() == 0) ==> print_args_rel(
                            t0,
                            after0,
                            d0,
                            args@,
                        )
                    }),
                decreases self.text().len() - self.pos(), (if another {
                    1int
                } else {
                    0int
                }),
            {
                let ghost m0 = self.pos();
                let ghost dm0 = self.depth();
                let ghost args0 = args@;
                another = false;
                let mut pushed = false;
                let ghost mut pa0: int = m0;
                let ghost mut da0: int = dm0;
                if self.ch() == '"' {
                    let msg = match self.get_string() {
                        Ok(m) => m,
                        Err(e) => {
                            return Err(e);
                        },
                    };
                    args.push(Expression::String(msg));
                    pushed = true;
                    proof {
                        pa0 = self.pos();
                        da0 = self.depth();
                        assert(print_arg_rel(t0, m0, dm0, args@.last(), pa0, da0));
                    }
                } else if !self.at_end() {
                    let e = match self.get_expression() {
                        Ok(e) => e,
                        Err(er) => {
                            return Err(er);
                        },
                    };
                    args.push(e);
                    pushed = true;
                    proof {
                        pa0 = self.pos();
                        da0 = self.depth();
                        if plain_expr(args@.last()) {
                            assert(print_arg_rel(t0, m0, dm0, args@.last(), pa0, da0));
                        }
                    }
                }
                self.skip_ws();
                // More arguments?
                if self.ch() == ',' {
                    another = true;
                    proof {
                        assert(skip_spaces_from(self.text(), self.pos()) == self.pos());
                        assert(tok_ok(self.text(), self.pos() + 1, ","@, 1));
                        assert(tok_ok(self.text(), self.pos(), ","@, 0));
                        assert(tok_end(self.text(), self.pos() + 1, ","@, 1) == self.pos() + 1);
                        assert(tok_end(self.text(), self.pos(), ","@, 0) == self.pos() + 1);
                    }
                    let _ = self.skip_token(",".to_owned());
                    self.skip_ws();
                    proof {
                        if forall|i: int|
                            0 <= i < args@.len() ==> ((#[trigger] args@[i]) is String || plain_expr(
                                args@[i],
                            )) {
                            if pushed {
                                assert forall|i: int| 0 <= i < args0.len() implies ((
                                #[trigger] args0[i]) is String || plain_expr(args0[i])) by {
                                    assert(args0[i] == args@[i]);
                                }
                                assert(print_args_seg(
                                    t0,
                                    after0,
                                    d0,
                                    args0,
                                    args0.len() as int,
                                    m0,
                                    dm0,
                                ));
                                lemma_print_args_seg_push(
                                    t0,
                                    after0,
                                    d0,
                                    args0,
                                    args@.last(),
                                    args0.len() as int,
                                    m0,
                                    dm0,
                                );
                                assert(args@ =~= args0.push(args@.last()));
                                assert(char_at(t0, skip_spaces_from(t0, pa0)) == ',');
                                assert(span_cut(m0, dm0) && span_cut(pa0, da0));
                                assert(print_args_seg(
                                    t0,
                                    after0,
                                    d0,
                                    args@,
                                    args@.len() as int,
                                    self.pos(),
                                    self.depth(),
                                ));
                            }
                        }
                    }
                } else {
                    proof {
                        if forall|i: int|
                            0 <= i < args@.len() ==> ((#[trigger] args@[i]) is String || plain_expr(
                                args@[i],
                            )) {
                            if self.pos() == t0.len() && self.depth() == 0 {
                                if pushed {
                                    assert forall|i: int| 0 <= i < args0.len() implies ((
                                    #[trigger] args0[i]) is String || plain_expr(args0[i])) by {
                                        assert(args0[i] == args@[i]);
                                    }
                                    assert(print_args_seg(
                                        t0,
                                        after0,
                                        d0,
                                        args0,
                                        args0.len() as int,
                                        m0,
                                        dm0,
                                    ));
                                    lemma_print_args_seg_push(
                                        t0,
                                        after0,
                                        d0,
                                        args0,
                                        args@.last(),
                                        args0.len() as int,
                                        m0,
                                        dm0,
                                    );
                                    assert(args@ =~= args0.push(args@.last()));
                                    assert(skip_spaces_from(t0, pa0) == t0.len());
                                    assert(char_at(t0, skip_spaces_from(t0, pa0)) != ',');
                                    assert(span_cut(m0, dm0) && span_cut(pa0, 0));
                                    assert(print_args_rel(t0, after0, d0, args@));
                                } else {
                                    assert(span_cut(m0, 0));
                                    assert(print_args_rel(t0, after0, d0, args@));
                                }
                            }
                        }
                    }
                }
            }
            Statement::Print(args)
        } else if str_eq(keyword.as_str(), "let") {
            proof {
                reveal_strlit("let");
                assert("let"@[0] != "end"@[0]);
            }
            let var_name = match self.get_char() {
                Ok(c) => c,
                Err(e) => {
                    return Err(e);
                },
            };
            proof {
                reveal_strlit("=");
                let t0 = old(self).text();
                let s3 = skip_spaces_from(t0, self.pos());
                if char_at(t0, s3) == '=' {
                    assert(tok_ok(t0, s3 + 1, "="@, 1));
                    assert(tok_ok(t0, s3, "="@, 0));
                    assert(tok_end(t0, s3 + 1, "="@, 1) == s3 + 1);
                    assert(tok_end(t0, s3, "="@, 0) == s3 + 1);
                } else {
                    assert(!tok_ok(t0, s3, "="@, 0));
                    assert(tok_end(t0, s3, "="@, 0) == s3);
                }
            }
            let _ = self.skip_token("=".to_owned());
            let exp = match self.get_expression() {
                Ok(e) => e,
                Err(er) => {
                    return Err(er);
                },
            };
            Statement::Let(var_name, exp)
        } else if str_eq(keyword.as_str(), "if") {
            proof {
                reveal_strlit("if");
            }
            let l_exp = match self.get_expression() {
                Ok(e) => e,
                Err(er) => {
                    return Err(er);
                },
            };
            let ghost pa = self.pos();
            let ghost da = self.depth();
            let relop = match self.get_relop() {
                Ok(o) => o,
                Err(er) => {
                    return Err(er);
                },
            };
            let r_exp = match self.get_expression() {
                Ok(e) => e,
                Err(er) => {
                    return Err(er);
                },
            };
            let ghost pb = self.pos();
            let ghost db = self.depth();
            proof {
                reveal_strlit("then");
                reveal_strlit("if");
            }
            let _ = self.skip_token("then".to_owned());
            proof {
                assert(self.pos() == after_tok(old(self).text(), pb, "then"@));
                assert(span_cut(pa, da) && span_cut(pb, db));
            }
            // A recursive call builds the consequent statement.
            let sub = match self.build_statement() {
                Ok(s) => s,
                Err(er) => {
                    return Err(er);
                },
            };
            Statement::If(Condition::Boolean(l_exp, relop, r_exp), Box::new(sub))
        } else if str_eq(keyword.as_str(), "goto") {
            proof {
                reveal_strlit("goto");
            }
            match self.get_integer() {
                Ok(n) => Statement::Goto(n),
                Err(e) => {
                    return Err(e);
                },
            }
        } else if str_eq(keyword.as_str(), "input") {
            proof {
                reveal_strlit("input");
            }
            match self.get_char() {
                Ok(c) => Statement::Input(c),
                Err(e) => {
                    return Err(e);
                },
            }
        } else if str_eq(keyword.as_str(), "gosub") {
            proof {
                reveal_strlit("gosub");
            }
            match self.get_integer() {
                Ok(n) => Statement::Gosub(n),
                Err(e) => {
                    return Err(e);
                },
            }
        } else if str_eq(keyword.as_str(), "return") {
            Statement::Return
        } else if str_eq(keyword.as_str(), "for") {
            proof {
                reveal_strlit("for");
                assert("for"@[0] != "end"@[0]);
            }
            let var = match self.get_char() {
                Ok(c) => c,
                Err(e) => {
                    return Err(e);
                },
            };
            proof {
                reveal_strlit("=");
                reveal_strlit("to");
                reveal_strlit("step");
                let t0 = old(self).text();
                let s3 = skip_spaces_from(t0, self.pos());
                if char_at(t0, s3) == '=' {
                    assert(tok_ok(t0, s3 + 1, "="@, 1));
                    assert(tok_ok(t0, s3, "="@, 0));
                    assert(tok_end(t0, s3 + 1, "="@, 1) == s3 + 1);
                    assert(tok_end(t0, s3, "="@, 0) == s3 + 1);
                } else {
                    assert(!tok_ok(t0, s3, "="@, 0));
                    assert(tok_end(t0, s3, "="@, 0) == s3);
                }
            }
            let _ = self.skip_token("=".to_owned());
            let start_val = match self.get_expression() {
                Ok(e) => e,
                Err(er) => {
                    return Err(er);
                },
            };
            let ghost pa = self.pos();
            let ghost da = self.depth();
            let _ = self.skip_token("to".to_owned());
            proof {
                assert(self.pos() == after_tok(old(self).text(), pa, "to"@));
            }
            let end_val = match self.get_expression() {
                Ok(e) => e,
                Err(er) => {
                    return Err(er);
                },
            };
            let ghost pb = self.pos();
            let ghost db = self.depth();
            self.skip_ws();
            let step_val: Option<Expression> = if self.at_end() {
                proof {
                    assert(span_cut(pa, da) && span_cut(pb, 0));
                }
                None
            } else {
                let _ = self.skip_token("step".to_owned());
                proof {
                    assert(self.pos() == after_tok(
                        old(self).text(),
                        skip_spaces_from(old(self).text(), pb),
                        "step"@,
                    ));
                }
                self.skip_ws();
                match self.get_expression() {
                    Ok(e) => {
                        proof {
                            assert(span_cut(pa, da) && span_cut(pb, db));
                        }
                        Some(e)
                    },
                    Err(er) => {
                        return Err(er);
                    },
                }
            };
            Statement::For(var, start_val, end_val, step_val)
        } else if str_eq(keyword.as_str(), "next") {
            proof {
                reveal_strlit("next");
            }
            Statement::Next
        } else if str_eq(keyword.as_str(), "list") {
            proof {
                reveal_strlit("list");
            }
            Statement::List
        } else if str_eq(keyword.as_str(), "run") {
            proof {
                reveal_strlit("run");
                assert("run"@[0] != "end"@[0]);
            }
            Statement::Run
        } else if str_eq(keyword.as_str(), "load") {
            proof {
                reveal_strlit("load");
            }
            match self.get_string() {
                Ok(s) => Statement::Load(s),
                Err(e) => {
                    return Err(e);
                },
            }
        } else if str_eq(keyword.as_str(), "save") {
            proof {
                reveal_strlit("save");
            }
            match self.get_string() {
                Ok(s) => Statement::Save(s),
                Err(e) => {
                    return Err(e);
                },
            }
        } else if str_eq(keyword.as_str(), "clear") {
            proof {
                reveal_strlit("clear");
            }
            Statement::Clear
        } else if str_eq(keyword.as_str(), "end") {
            Statement::End
        } else {
            let klen = keyword.as_str().unicode_len();
            if klen == 0 {
                // An empty line parses to the empty statement; any other
                // unrecognisable text is an error.
                if self.at_end() {
                    Statement::Empty
                } else {
                    return Err(BasicError::SyntaxError("Unknown keyword".to_owned()));
                }
            } else if klen == 1 {
                // A single letter is a LET without the keyword.
                let var_name = keyword.as_str().get_char(0);
                proof {
                    reveal_strlit("=");
                    let t = old(self).text();
                    let s = skip_spaces_from(t, old(self).pos());
                    lemma_skip_spaces_bounds(t, old(self).pos());
                    lemma_alpha_end_bounds(t, s);
                    assert(var_name == char_at(t, s));
                    let s3 = skip_spaces_from(t, self.pos());
                    if char_at(t, s3) == '=' {
                        assert(tok_ok(t, s3 + 1, "="@, 1));
                        assert(tok_ok(t, s3, "="@, 0));
                        assert(tok_end(t, s3 + 1, "="@, 1) == s3 + 1);
                        assert(tok_end(t, s3, "="@, 0) == s3 + 1);
                    } else {
                        assert(!tok_ok(t, s3, "="@, 0));
                        assert(tok_end(t, s3, "="@, 0) == s3);
                    }
                }
                let _ = self.skip_token("=".to_owned());
                let exp = match self.get_expression() {
                    Ok(e) => e,
                    Err(er) => {
                        return Err(er);
                    },
                };
                Statement::Let(var_name, exp)
            } else {
                return Err(BasicError::SyntaxError("Unknown keyword".to_owned()));
            }
        };
        // Post compile checks: the whole line is consumed and every
        // parenthesis is closed.
        if !self.at_end() {
            return Err(BasicError::SyntaxError("Unexpected token".to_owned()));
        }
        if self.exp_depth != 0 {
            return Err(BasicError::SyntaxError("Invalid expression".to_owned()));
        }
        Ok(statement)
    }
}

/// The relational operator under the cursor and the position after it:
/// `=`, `<`, `<=`, `<>`, `>` or `>=`.
pub open spec fn relop_scan(t: Seq<char>, p: int) -> (Option<Relop>, int) {
    if char_at(t, p) == '=' {
        (Some(Relop::EQ), p + 1)
    } else if char_at(t, p) == '<' {
        if char_at(t, p + 1) == '=' {
            (Some(Relop::LTE), p + 2)
        } else if char_at(t, p + 1) == '>' {
            (Some(Relop::NEQ), p + 2)
        } else {
            (Some(Relop::LT), p + 1)
        }
    } else if char_at(t, p) == '>' {
        if char_at(t, p + 1) == '=' {
            (Some(Relop::GTE), p + 2)
        } else {
            (Some(Relop::GT), p + 1)
        }
    } else {
        (None, p)
    }
}

} // verus!
