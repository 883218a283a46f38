//! The lexer: a forward stream of tokens with one token of lookahead.

use crate::text::chars_of;
use vstd::prelude::*;

verus! {

/// The kinds of token.
#[derive(Debug, PartialEq, Eq, Structural, Clone, Copy)]
pub enum TokenType {
    Error,
    Eof,
    /// `&`
    And,
    /// `|`
    Or,
    /// `(`
    BraceStart,
    /// `)`
    BraceEnd,
    /// `,`
    Comma,
    /// An identifier such as `title:contains`.
    Name,
    /// A run of digits, or a quoted string.
    Const,
}

/// A token; `Name` and `Const` carry their text.
#[derive(Debug)]
pub struct Token {
    pub token_type: TokenType,
    pub content: Option<String>,
}

/// The mathematical value of a [`Token`].
pub struct TokenModel {
    pub kind: TokenType,
    pub content: Option<Seq<char>>,
}

impl View for Token {
    type V = TokenModel;

    open spec fn view(&self) -> TokenModel {
        TokenModel {
            kind: self.token_type,
            content: match self.content {
                Some(s) => Some(s@),
                None => None,
            },
        }
    }
}

/// A token without text.
pub open spec fn bare(kind: TokenType) -> TokenModel {
    TokenModel { kind, content: None }
}

pub open spec fn is_digit(c: char) -> bool {
    '0' <= c <= '9'
}

/// The characters a name starts with: a lower-case letter, `_` or `$`.
pub open spec fn is_name_start(c: char) -> bool {
    ('a' <= c <= 'z') || c == '_' || c == '$'
}

/// The characters a name goes on with: those it starts with, digits and `:`.
pub open spec fn is_name_char(c: char) -> bool {
    is_name_start(c) || is_digit(c) || c == ':'
}

/// The first position from `pos` on that holds no space.
pub open spec fn skip_spaces(s: Seq<char>, pos: int) -> int
    decreases s.len() - pos,
{
    if 0 <= pos < s.len() && s[pos] == ' ' {
        skip_spaces(s, pos + 1)
    } else {
        pos
    }
}

/// The first position from `pos` on that holds no digit.
pub open spec fn digits_end(s: Seq<char>, pos: int) -> int
    decreases s.len() - pos,
{
    if 0 <= pos < s.len() && is_digit(s[pos]) {
        digits_end(s, pos + 1)
    } else {
        pos
    }
}

/// The first position from `pos` on that holds no name character.
pub open spec fn name_end(s: Seq<char>, pos: int) -> int
    decreases s.len() - pos,
{
    if 0 <= pos < s.len() && is_name_char(s[pos]) {
        name_end(s, pos + 1)
    } else {
        pos
    }
}

/// The character that `\` followed by `c` stands for inside a string.
pub open spec fn unescape(c: char) -> char {
    if c == 'n' {
        '\n'
    } else if c == 't' {
        '\t'
    } else {
        c
    }
}

/// Reads the inside of a string constant from `pos`, with `acc` read so
/// far: the text up to the closing quote and the position after it, or no
/// text and the end of input where the string is not closed.
pub open spec fn scan_string(s: Seq<char>, pos: int, acc: Seq<char>) -> (Option<Seq<char>>, int)
    decreases s.len() - pos,
{
    if pos < 0 || pos >= s.len() {
        (None, s.len() as int)
    } else if s[pos] == '"' {
        (Some(acc), pos + 1)
    } else if s[pos] == '\\' {
        if pos + 1 >= s.len() {
            (None, s.len() as int)
        } else {
            scan_string(s, pos + 2, acc.push(unescape(s[pos + 1])))
        }
    } else {
        scan_string(s, pos + 1, acc.push(s[pos]))
    }
}

/// The token that starts at the first non-space position from `pos` on, and
/// the position after it.
pub open spec fn next_token(s: Seq<char>, pos: int) -> (TokenModel, int) {
    let p = skip_spaces(s, pos);
    if p < 0 || p >= s.len() {
        (bare(TokenType::Eof), p)
    } else {
        let c = s[p];
        if c == '(' {
            (bare(TokenType::BraceStart), p + 1)
        } else if c == ')' {
            (bare(TokenType::BraceEnd), p + 1)
        } else if c == '&' {
            (bare(TokenType::And), p + 1)
        } else if c == '|' {
            (bare(TokenType::Or), p + 1)
        } else if c == ',' {
            (bare(TokenType::Comma), p + 1)
        } else if is_digit(c) {
            let e = digits_end(s, p);
            (TokenModel { kind: TokenType::Const, content: Some(s.subrange(p, e)) }, e)
        } else if is_name_start(c) {
            let e = name_end(s, p);
            (TokenModel { kind: TokenType::Name, content: Some(s.subrange(p, e)) }, e)
        } else if c == '"' {
            match scan_string(s, p + 1, Seq::empty()) {
                (Some(text), e) => (TokenModel { kind: TokenType::Const, content: Some(text) }, e),
                (None, e) => (bare(TokenType::Error), e),
            }
        } else {
            (bare(TokenType::Error), p)
        }
    }
}

/// The tokens of `s` from `pos` on, up to and including the first `Eof` or
/// `Error`.
pub open spec fn tokens_from(s: Seq<char>, pos: int) -> Seq<TokenModel>
    decreases s.len() - pos,
{
    let (token, next) = next_token(s, pos);
    if token.kind == TokenType::Eof || token.kind == TokenType::Error || !(pos < next <= s.len()) {
        seq![token]
    } else {
        seq![token] + tokens_from(s, next)
    }
}

/// The tokens of the whole input.
pub open spec fn lex(s: Seq<char>) -> Seq<TokenModel> {
    tokens_from(s, 0)
}

pub proof fn lemma_skip_spaces_bounds(s: Seq<char>, pos: int)
    requires
        0 <= pos <= s.len(),
    ensures
        pos <= skip_spaces(s, pos) <= s.len(),
    decreases s.len() - pos,
{
    if pos < s.len() && s[pos] == ' ' {
        lemma_skip_spaces_bounds(s, pos + 1);
    }
}

pub proof fn lemma_digits_end_bounds(s: Seq<char>, pos: int)
    requires
        0 <= pos <= s.len(),
    ensures
        pos <= digits_end(s, pos) <= s.len(),
        pos < s.len() && is_digit(s[pos]) ==> pos < digits_end(s, pos),
    decreases s.len() - pos,
{
    if pos < s.len() && is_digit(s[pos]) {
        lemma_digits_end_bounds(s, pos + 1);
    }
}

pub proof fn lemma_name_end_bounds(s: Seq<char>, pos: int)
    requires
        0 <= pos <= s.len(),
    ensures
        pos <= name_end(s, pos) <= s.len(),
        pos < s.len() && is_name_char(s[pos]) ==> pos < name_end(s, pos),
    decreases s.len() - pos,
{
    if pos < s.len() && is_name_char(s[pos]) {
        lemma_name_end_bounds(s, pos + 1);
    }
}

pub proof fn lemma_scan_string_bounds(s: Seq<char>, pos: int, acc: Seq<char>)
    requires
        0 <= pos <= s.len(),
    ensures
        pos <= scan_string(s, pos, acc).1 <= s.len(),
        scan_string(s, pos, acc).0 is Some ==> pos < scan_string(s, pos, acc).1,
    decreases s.len() - pos,
{
    if pos < s.len() && s[pos] != '"' {
        if s[pos] == '\\' {
            if pos + 1 < s.len() {
                lemma_scan_string_bounds(s, pos + 2, acc.push(unescape(s[pos + 1])));
            }
        } else {
            lemma_scan_string_bounds(s, pos + 1, acc.push(s[pos]));
        }
    }
}

/// Every token ends inside the input, and every token but `Eof` and `Error`
/// takes up at least one character.
pub proof fn lemma_next_token_advances(s: Seq<char>, pos: int)
    requires
        0 <= pos <= s.len(),
    ensures
        pos <= next_token(s, pos).1 <= s.len(),
        next_token(s, pos).0.kind != TokenType::Eof && next_token(s, pos).0.kind
            != TokenType::Error ==> pos < next_token(s, pos).1,
{
    lemma_skip_spaces_bounds(s, pos);
    let p = skip_spaces(s, pos);
    if p < s.len() {
        lemma_digits_end_bounds(s, p);
        lemma_name_end_bounds(s, p);
        lemma_scan_string_bounds(s, p + 1, Seq::empty());
    }
}

/// The token stream from `pos` on starts with the next token and, unless
/// that token ends it, goes on with the stream from the position after it.
pub proof fn lemma_tokens_from_step(s: Seq<char>, pos: int)
    requires
        0 <= pos <= s.len(),
    ensures
        tokens_from(s, pos).len() >= 1,
        tokens_from(s, pos)[0] == next_token(s, pos).0,
        next_token(s, pos).0.kind == TokenType::Eof || next_token(s, pos).0.kind
            == TokenType::Error ==> tokens_from(s, pos) == seq![next_token(s, pos).0],
        next_token(s, pos).0.kind != TokenType::Eof && next_token(s, pos).0.kind
            != TokenType::Error ==> tokens_from(s, pos).skip(1) == tokens_from(
            s,
            next_token(s, pos).1,
        ),
{
    lemma_next_token_advances(s, pos);
    let (token, next) = next_token(s, pos);
    if token.kind != TokenType::Eof && token.kind != TokenType::Error {
        assert(tokens_from(s, pos).skip(1) =~= tokens_from(s, next));
    }
}

/// The lexer's state: the characters of the input and a cursor into them.
pub struct Tokenizer {
    target: Vec<char>,
    ptr: usize,
}

impl Tokenizer {
    /// The characters of the input.
    pub closed spec fn chars(&self) -> Seq<char> {
        self.target@
    }

    /// The cursor: the position of the first character not yet consumed.
    pub closed spec fn pos(&self) -> int {
        self.ptr as int
    }

    /// The cursor stays inside the input.
    #[verifier::type_invariant]
    closed spec fn inv(&self) -> bool {
        self.ptr <= self.target.len()
    }

    /// A lexer at the start of `target`.
    pub fn from(target: &str) -> (t: Tokenizer)
        ensures
            t.chars() == target@,
            t.pos() == 0,
    {
        Tokenizer { target: chars_of(target), ptr: 0 }
    }

    fn check_end(&self) -> (r: bool)
        ensures
            r == (self.pos() >= self.chars().len()),
    {
        self.ptr >= self.target.len()
    }

    /// Consumes and returns the next token.
    #[verifier::loop_isolation(false)]
    pub fn next(&mut self) -> (token: Token)
        ensures
            final(self).chars() == old(self).chars(),
            token@ == next_token(old(self).chars(), old(self).pos()).0,
            final(self).pos() == next_token(old(self).chars(), old(self).pos()).1,
            0 <= old(self).pos() <= final(self).pos() <= old(self).chars().len(),
    {
        proof {
            use_type_invariant(&*self);
            lemma_next_token_advances(self.chars(), self.pos());
        }
        let ghost s = self.target@;
        let ghost start = self.ptr as int;
        let mut p: usize = self.ptr;
        while p < self.target.len() && self.target[p] == ' '
            invariant
                self.target@ == s,
                start <= p <= s.len(),
                skip_spaces(s, p as int) == skip_spaces(s, start),
            decreases s.len() - p,
        {
            p += 1;
        }
        self.ptr = p;
        if self.check_end() {
            return Token { token_type: TokenType::Eof, content: None };
        }
        let c = self.target[p];
        if c == '(' || c == ')' || c == '&' || c == '|' || c == ',' {
            self.ptr = p + 1;
            let token_type = if c == '(' {
                TokenType::BraceStart
            } else if c == ')' {
                TokenType::BraceEnd
            } else if c == '&' {
                TokenType::And
            } else if c == '|' {
                TokenType::Or
            } else {
                TokenType::Comma
            };
            Token { token_type, content: None }
        } else if '0' <= c && c <= '9' {
            let mut num = String::new();
            let mut e: usize = p;
            while e < self.target.len() && '0' <= self.target[e] && self.target[e] <= '9'
                invariant
                    self.target@ == s,
                    p <= e <= s.len(),
                    digits_end(s, e as int) == digits_end(s, p as int),
                    num@ == s.subrange(p as int, e as int),
                decreases s.len() - e,
            {
                num.push(self.target[e]);
                e += 1;
            }
            self.ptr = e;
            Token { token_type: TokenType::Const, content: Some(num) }
        } else if ('a' <= c && c <= 'z') || c == '_' || c == '$' {
            let mut name = String::new();
            let mut e: usize = p;
            while e < self.target.len() && Self::name_char(self.target[e])
                invariant
                    self.target@ == s,
                    p <= e <= s.len(),
                    name_end(s, e as int) == name_end(s, p as int),
                    name@ == s.subrange(p as int, e as int),
                decreases s.len() - e,
            {
                name.push(self.target[e]);
                e += 1;
            }
            self.ptr = e;
            Token { token_type: TokenType::Name, content: Some(name) }
        } else if c == '"' {
            let mut string = String::new();
            let mut e: usize = p + 1;
            while e < self.target.len()
                invariant
                    self.target@ == s,
                    p < e <= s.len(),
                    self.ptr <= self.target.len(),
                    scan_string(s, e as int, string@) == scan_string(s, p + 1, Seq::empty()),
                decreases s.len() - e,
            {
                let ch = self.target[e];
                if ch == '"' {
                    self.ptr = e + 1;
                    return Token { token_type: TokenType::Const, content: Some(string) };
                }
                if ch == '\\' {
                    e += 1;
                    if e >= self.target.len() {
                        self.ptr = e;
                        return Token { token_type: TokenType::Error, content: None };
                    }
                    let escaped = self.target[e];
                    if escaped == 'n' {
                        string.push('\n');
                    } else if escaped == 't' {
                        string.push('\t');
                    } else {
                        string.push(escaped);
                    }
                } else {
                    string.push(ch);
                }
                e += 1;
            }
            self.ptr = e;
            Token { token_type: TokenType::Error, content: None }
        } else {
            self.ptr = p;
            Token { token_type: TokenType::Error, content: None }
        }
    }

    fn name_char(c: char) -> (r: bool)
        ensures
            r == is_name_char(c),
    {
        ('a' <= c && c <= 'z') || ('0' <= c && c <= '9') || c == '_' || c == '$' || c == ':'
    }

    /// The kind of the token that `next` would return, without consuming it.
    pub fn lookup(&mut self) -> (kind: TokenType)
        ensures
            final(self).chars() == old(self).chars(),
            final(self).pos() == old(self).pos(),
            0 <= old(self).pos() <= old(self).chars().len(),
            kind == next_token(old(self).chars(), old(self).pos()).0.kind,
    {
        proof {
            use_type_invariant(&*self);
        }
        let last_pos = self.ptr;
        let lookup = self.next();
        self.ptr = last_pos;
        lookup.token_type
    }
}

/// Whether a token ends a stream.
pub open spec fn is_terminal(t: TokenModel) -> bool {
    t.kind == TokenType::Eof || t.kind == TokenType::Error
}

/// A token as the lexer makes it: punctuation without text, a name with the
/// characters of a name, a constant with some text.
pub open spec fn valid_token(t: TokenModel) -> bool {
    match t.kind {
        TokenType::Name => t.content matches Some(name) && name.len() > 0 && is_name_start(name[0])
            && forall|i: int| 0 <= i < name.len() ==> is_name_char(#[trigger] name[i]),
        TokenType::Const => t.content is Some,
        _ => t.content is None,
    }
}

/// Every token is as the lexer makes it.
pub open spec fn valid_tokens(ts: Seq<TokenModel>) -> bool {
    forall|i: int| 0 <= i < ts.len() ==> valid_token(#[trigger] ts[i])
}

/// A stream as the lexer makes it from an input without malformed tokens:
/// valid tokens, of which the last, and only the last, is `Eof`.
pub open spec fn valid_stream(ts: Seq<TokenModel>) -> bool {
    &&& ts.len() >= 1
    &&& ts.last() == bare(TokenType::Eof)
    &&& forall|i: int| 0 <= i < ts.len() - 1 ==> valid_token(#[trigger] ts[i]) && !is_terminal(ts[i])
}

/// The text of a string constant between its quotes: a `\` stands before
/// every `"` and every `\`.
pub open spec fn escape(text: Seq<char>) -> Seq<char>
    decreases text.len(),
{
    if text.len() == 0 {
        Seq::empty()
    } else if text[0] == '"' || text[0] == '\\' {
        seq!['\\', text[0]] + escape(text.skip(1))
    } else {
        seq![text[0]] + escape(text.skip(1))
    }
}

/// The text of a token; a constant is written as a string constant.
pub open spec fn render_token(t: TokenModel) -> Seq<char> {
    match t.kind {
        TokenType::And => seq!['&'],
        TokenType::Or => seq!['|'],
        TokenType::BraceStart => seq!['('],
        TokenType::BraceEnd => seq![')'],
        TokenType::Comma => seq![','],
        TokenType::Name => t.content->0,
        TokenType::Const => seq!['"'] + escape(t.content->0) + seq!['"'],
        _ => Seq::empty(),
    }
}

/// The text of a stream in canonical spacing: the text of each token up to
/// the one that ends the stream, with one space behind it.
pub open spec fn serialize(ts: Seq<TokenModel>) -> Seq<char>
    decreases ts.len(),
{
    if ts.len() == 0 || is_terminal(ts[0]) {
        Seq::empty()
    } else {
        render_token(ts[0]) + seq![' '] + serialize(ts.skip(1))
    }
}

proof fn lemma_name_end_chars(s: Seq<char>, k: int)
    requires
        0 <= k <= s.len(),
    ensures
        forall|i: int| k <= i < name_end(s, k) ==> is_name_char(#[trigger] s[i]),
    decreases s.len() - k,
{
    if k < s.len() && is_name_char(s[k]) {
        lemma_name_end_chars(s, k + 1);
    }
}

/// The lexer makes valid tokens.
pub proof fn lemma_next_token_valid(s: Seq<char>, pos: int)
    requires
        0 <= pos <= s.len(),
    ensures
        valid_token(next_token(s, pos).0),
{
    lemma_skip_spaces_bounds(s, pos);
    let p = skip_spaces(s, pos);
    if p < s.len() && is_name_start(s[p]) {
        lemma_name_end_bounds(s, p);
        lemma_name_end_chars(s, p);
        let e = name_end(s, p);
        let name = s.subrange(p, e);
        assert(name[0] == s[p]);
        assert forall|i: int| 0 <= i < name.len() implies is_name_char(#[trigger] name[i]) by {
            assert(name[i] == s[p + i]);
        }
    }
}

proof fn lemma_skip_spaces_shift(pre: Seq<char>, r: Seq<char>, q: int)
    requires
        0 <= q <= r.len(),
    ensures
        skip_spaces(pre + r, pre.len() + q) == pre.len() + skip_spaces(r, q),
    decreases r.len() - q,
{
    if q < r.len() {
        assert((pre + r)[pre.len() + q] == r[q]);
        if r[q] == ' ' {
            lemma_skip_spaces_shift(pre, r, q + 1);
        }
    }
}

proof fn lemma_digits_end_shift(pre: Seq<char>, r: Seq<char>, q: int)
    requires
        0 <= q <= r.len(),
    ensures
        digits_end(pre + r, pre.len() + q) == pre.len() + digits_end(r, q),
    decreases r.len() - q,
{
    if q < r.len() {
        assert((pre + r)[pre.len() + q] == r[q]);
        if is_digit(r[q]) {
            lemma_digits_end_shift(pre, r, q + 1);
        }
    }
}

proof fn lemma_name_end_shift(pre: Seq<char>, r: Seq<char>, q: int)
    requires
        0 <= q <= r.len(),
    ensures
        name_end(pre + r, pre.len() + q) == pre.len() + name_end(r, q),
    decreases r.len() - q,
{
    if q < r.len() {
        assert((pre + r)[pre.len() + q] == r[q]);
        if is_name_char(r[q]) {
            lemma_name_end_shift(pre, r, q + 1);
        }
    }
}

proof fn lemma_scan_string_shift(pre: Seq<char>, r: Seq<char>, q: int, acc: Seq<char>)
    requires
        0 <= q <= r.len(),
    ensures
        scan_string(pre + r, pre.len() + q, acc).0 == scan_string(r, q, acc).0,
        scan_string(pre + r, pre.len() + q, acc).1 == pre.len() + scan_string(r, q, acc).1,
    decreases r.len() - q,
{
    if q < r.len() {
        assert((pre + r)[pre.len() + q] == r[q]);
        if r[q] == '"' {
        } else if r[q] == '\\' {
            if q + 1 < r.len() {
                assert((pre + r)[pre.len() + q + 1] == r[q + 1]);
                lemma_scan_string_shift(pre, r, q + 2, acc.push(unescape(r[q + 1])));
            }
        } else {
            lemma_scan_string_shift(pre, r, q + 1, acc.push(r[q]));
        }
    }
}

/// What stands before a position does not matter to the token that starts
/// there.
proof fn lemma_next_token_shift(pre: Seq<char>, r: Seq<char>, q: int)
    requires
        0 <= q <= r.len(),
    ensures
        next_token(pre + r, pre.len() + q).0 == next_token(r, q).0,
        next_token(pre + r, pre.len() + q).1 == pre.len() + next_token(r, q).1,
{
    lemma_skip_spaces_shift(pre, r, q);
    lemma_skip_spaces_bounds(r, q);
    let p = skip_spaces(r, q);
    if p < r.len() {
        assert((pre + r)[pre.len() + p] == r[p]);
        lemma_digits_end_shift(pre, r, p);
        lemma_digits_end_bounds(r, p);
        lemma_name_end_shift(pre, r, p);
        lemma_name_end_bounds(r, p);
        lemma_scan_string_shift(pre, r, p + 1, Seq::empty());
        assert((pre + r).subrange(pre.len() + p, pre.len() + digits_end(r, p)) =~= r.subrange(
            p,
            digits_end(r, p),
        ));
        assert((pre + r).subrange(pre.len() + p, pre.len() + name_end(r, p)) =~= r.subrange(
            p,
            name_end(r, p),
        ));
    }
}

/// What stands before a position does not matter to the stream that starts
/// there.
proof fn lemma_tokens_from_shift(pre: Seq<char>, r: Seq<char>, q: int)
    requires
        0 <= q <= r.len(),
    ensures
        tokens_from(pre + r, pre.len() + q) == tokens_from(r, q),
    decreases r.len() - q,
{
    lemma_next_token_shift(pre, r, q);
    lemma_next_token_advances(r, q);
    let (token, next) = next_token(r, q);
    if !is_terminal(token) && q < next <= r.len() {
        lemma_tokens_from_shift(pre, r, next);
    }
}

/// A space before a stream does not matter to it.
proof fn lemma_tokens_from_space(x: Seq<char>, k: int)
    requires
        0 <= k < x.len(),
        x[k] == ' ',
    ensures
        tokens_from(x, k) == tokens_from(x, k + 1),
{
    lemma_next_token_advances(x, k + 1);
}

proof fn lemma_name_run(x: Seq<char>, name: Seq<char>, k: int)
    requires
        0 <= k <= name.len() < x.len(),
        forall|i: int| 0 <= i < name.len() ==> x[i] == name[i] && is_name_char(#[trigger] name[i]),
        !is_name_char(x[name.len() as int]),
    ensures
        name_end(x, k) == name.len(),
    decreases name.len() - k,
{
    if k < name.len() {
        assert(is_name_char(name[k]));
        lemma_name_run(x, name, k + 1);
    }
}

proof fn lemma_scan_escaped(pre: Seq<char>, text: Seq<char>, rest: Seq<char>, acc: Seq<char>)
    ensures
        scan_string(pre + escape(text) + seq!['"'] + rest, pre.len() as int, acc) == (
            Some(acc + text),
            (pre.len() + escape(text).len() + 1) as int,
        ),
    decreases text.len(),
{
    let x = pre + escape(text) + seq!['"'] + rest;
    if text.len() == 0 {
        assert(x[pre.len() as int] == '"');
        assert(acc + text =~= acc);
    } else {
        let c = text[0];
        let tail = text.skip(1);
        if c == '"' || c == '\\' {
            let next = pre + seq!['\\', c];
            assert(x =~= next + escape(tail) + seq!['"'] + rest);
            assert(x[pre.len() as int] == '\\');
            assert(x[pre.len() as int + 1] == c);
            lemma_scan_escaped(next, tail, rest, acc.push(c));
            assert(acc.push(c) + tail =~= acc + text);
        } else {
            let next = pre + seq![c];
            assert(x =~= next + escape(tail) + seq!['"'] + rest);
            assert(x[pre.len() as int] == c);
            lemma_scan_escaped(next, tail, rest, acc.push(c));
            assert(acc.push(c) + tail =~= acc + text);
        }
    }
}

/// The text of a token, with a space behind it, lexes to the token.
proof fn lemma_render_lexes(t: TokenModel, rest: Seq<char>)
    requires
        valid_token(t),
        !is_terminal(t),
    ensures
        render_token(t).len() >= 1,
        next_token(render_token(t) + seq![' '] + rest, 0) == (t, render_token(t).len() as int),
{
    let x = render_token(t) + seq![' '] + rest;
    match t.kind {
        TokenType::Name => {
            let name = t.content->0;
            assert(x[0] == name[0]);
            assert(x[name.len() as int] == ' ');
            assert forall|i: int| 0 <= i < name.len() implies x[i] == name[i] && is_name_char(
                #[trigger] name[i],
            ) by {}
            lemma_name_run(x, name, 0);
            assert(x.subrange(0, name.len() as int) =~= name);
        },
        TokenType::Const => {
            let text = t.content->0;
            assert(x[0] == '"');
            assert(x =~= seq!['"'] + escape(text) + seq!['"'] + (seq![' '] + rest));
            lemma_scan_escaped(seq!['"'], text, seq![' '] + rest, Seq::empty());
            assert(Seq::<char>::empty() + text =~= text);
        },
        _ => {
            assert(x[0] == render_token(t)[0]);
        },
    }
}

/// Lexing the canonical text of a valid stream yields the stream.
pub proof fn lemma_serialize_lexes(ts: Seq<TokenModel>)
    requires
        valid_stream(ts),
    ensures
        lex(serialize(ts)) == ts,
    decreases ts.len(),
{
    if ts.len() == 1 {
        assert(ts =~= seq![bare(TokenType::Eof)]);
    } else {
        let t = ts[0];
        let rest = ts.skip(1);
        assert(valid_stream(rest)) by {
            assert(rest.last() == ts.last());
            assert forall|i: int| 0 <= i < rest.len() - 1 implies valid_token(#[trigger] rest[i])
                && !is_terminal(rest[i]) by {
                assert(rest[i] == ts[i + 1]);
            }
        }
        lemma_serialize_lexes(rest);
        let r = serialize(rest);
        let head = render_token(t) + seq![' '];
        let x = render_token(t) + seq![' '] + r;
        let m = render_token(t).len() as int;
        lemma_render_lexes(t, r);
        assert(x[m] == ' ');
        lemma_tokens_from_space(x, m);
        assert(x =~= head + r);
        lemma_tokens_from_shift(head, r, 0);
        assert(tokens_from(x, 0) == seq![t] + tokens_from(x, m));
        assert(seq![t] + rest =~= ts);
    }
}

/// The lexer makes streams of valid tokens.
pub proof fn lemma_tokens_from_all_valid(s: Seq<char>, pos: int)
    requires
        0 <= pos <= s.len(),
    ensures
        valid_tokens(tokens_from(s, pos)),
    decreases s.len() - pos,
{
    lemma_tokens_from_step(s, pos);
    lemma_next_token_advances(s, pos);
    lemma_next_token_valid(s, pos);
    let ts = tokens_from(s, pos);
    let (token, next) = next_token(s, pos);
    if !is_terminal(token) {
        let rest = tokens_from(s, next);
        assert(ts =~= seq![token] + rest);
        lemma_tokens_from_all_valid(s, next);
        assert forall|i: int| 0 <= i < ts.len() implies valid_token(#[trigger] ts[i]) by {
            if i > 0 {
                assert(ts[i] == rest[i - 1]);
            }
        }
    }
}

/// The stream of an input that has no malformed token is valid.
pub proof fn lemma_tokens_from_valid(s: Seq<char>, pos: int)
    requires
        0 <= pos <= s.len(),
        tokens_from(s, pos).last().kind == TokenType::Eof,
    ensures
        valid_stream(tokens_from(s, pos)),
    decreases s.len() - pos,
{
    lemma_tokens_from_step(s, pos);
    lemma_next_token_advances(s, pos);
    lemma_next_token_valid(s, pos);
    let ts = tokens_from(s, pos);
    let (token, next) = next_token(s, pos);
    if !is_terminal(token) {
        let rest = tokens_from(s, next);
        lemma_tokens_from_step(s, next);
        assert(ts =~= seq![token] + rest);
        assert(ts.last() == rest.last());
        lemma_tokens_from_valid(s, next);
        assert forall|i: int| 0 <= i < ts.len() - 1 implies valid_token(#[trigger] ts[i])
            && !is_terminal(ts[i]) by {
            if i > 0 {
                assert(ts[i] == rest[i - 1]);
            }
        }
    }
}

/// The lexer round trip: where the input has no malformed token, writing
/// its tokens out in canonical spacing and lexing that text again yields
/// the tokens of the input.
pub proof fn lemma_lexer_round_trip(s: Seq<char>)
    requires
        lex(s).last().kind == TokenType::Eof,
    ensures
        lex(serialize(lex(s))) == lex(s),
{
    lemma_tokens_from_valid(s, 0);
    lemma_serialize_lexes(lex(s));
}

} // verus!
