//! The byte-level tokenizer for the source language.
//!
//! At each position the scanner tries, in priority order: a keyword, a
//! keyword literal (`true`/`false`/`null`), an identifier, a two-byte
//! operator, a one-byte operator, a number, a quoted string. A byte that
//! starts no token is skipped.

use vstd::prelude::*;

verus! {

/// The kind of a token.
#[derive(Debug, Clone, Copy, PartialEq, Eq, Structural)]
pub enum TokenKind {
    Print,
    Fn,
    If,
    Else,
    Identifier,
    LeftParen,
    RightParen,
    LeftBrace,
    RightBrace,
    Number,
    Plus,
    Minus,
    Star,
    Slash,
    Comma,
    Semicolon,
    Less,
    Return,
    Equal,
    Bang,
    BangEqual,
    DoubleEqual,
    True,
    False,
    Null,
    While,
    String,
}

/// One token: its kind and the matched source text.
#[derive(Debug)]
pub struct Token {
    pub kind: TokenKind,
    pub value: Vec<u8>,
}

impl Token {
    /// A token from a kind and its text.
    pub fn new(kind: TokenKind, value: Vec<u8>) -> (t: Token)
        ensures
            t.kind == kind,
            t.value@ == value@,
    {
        Token { kind, value }
    }
}

/// A decimal digit.
pub open spec fn is_digit(b: u8) -> bool {
    48 <= b <= 57
}

/// A letter or underscore: what may start an identifier.
pub open spec fn is_alpha(b: u8) -> bool {
    (65 <= b <= 90) || (97 <= b <= 122) || b == 95
}

/// What may continue an identifier.
pub open spec fn is_alnum(b: u8) -> bool {
    is_alpha(b) || is_digit(b)
}

/// Whether the word `w` occurs in `s` at position `p`.
pub open spec fn word_at(s: Seq<u8>, p: int, w: Seq<u8>) -> bool {
    0 <= p && p + w.len() <= s.len() && s.subrange(p, p + w.len()) == w
}

/// The end of the run of identifier bytes beginning at `q`.
pub open spec fn alnum_run_end(s: Seq<u8>, q: int) -> int
    decreases s.len() - q,
{
    if 0 <= q < s.len() && is_alnum(s[q]) {
        alnum_run_end(s, q + 1)
    } else {
        q
    }
}

/// The end of the run of digits beginning at `q`.
pub open spec fn digit_run_end(s: Seq<u8>, q: int) -> int
    decreases s.len() - q,
{
    if 0 <= q < s.len() && is_digit(s[q]) {
        digit_run_end(s, q + 1)
    } else {
        q
    }
}

/// The position of the next closing quote at or after `q`, if any.
pub open spec fn close_quote(s: Seq<u8>, q: int) -> Option<int>
    decreases s.len() - q,
{
    if !(0 <= q < s.len()) {
        None
    } else if s[q] == 34 {
        Some(q)
    } else {
        close_quote(s, q + 1)
    }
}

/// The keyword beginning at `p`, if any: its kind and its length.
/// No keyword is a prefix of another, so the order does not matter.
pub open spec fn keyword_at(s: Seq<u8>, p: int) -> Option<(TokenKind, int)> {
    if word_at(s, p, seq![112u8, 114u8, 105u8, 110u8, 116u8]) {
        Some((TokenKind::Print, 5int))
    } else if word_at(s, p, seq![102u8, 110u8]) {
        Some((TokenKind::Fn, 2int))
    } else if word_at(s, p, seq![105u8, 102u8]) {
        Some((TokenKind::If, 2int))
    } else if word_at(s, p, seq![101u8, 108u8, 115u8, 101u8]) {
        Some((TokenKind::Else, 4int))
    } else if word_at(s, p, seq![114u8, 101u8, 116u8, 117u8, 114u8, 110u8]) {
        Some((TokenKind::Return, 6int))
    } else if word_at(s, p, seq![119u8, 104u8, 105u8, 108u8, 101u8]) {
        Some((TokenKind::While, 5int))
    } else {
        None
    }
}

/// The keyword literal (`true`, `false`, `null`) beginning at `p`, if any.
pub open spec fn literal_at(s: Seq<u8>, p: int) -> Option<(TokenKind, int)> {
    if word_at(s, p, seq![116u8, 114u8, 117u8, 101u8]) {
        Some((TokenKind::True, 4int))
    } else if word_at(s, p, seq![102u8, 97u8, 108u8, 115u8, 101u8]) {
        Some((TokenKind::False, 5int))
    } else if word_at(s, p, seq![110u8, 117u8, 108u8, 108u8]) {
        Some((TokenKind::Null, 4int))
    } else {
        None
    }
}

/// The one-byte operator or punctuation at `p`, if any.
pub open spec fn individual_at(s: Seq<u8>, p: int) -> Option<TokenKind> {
    if !(0 <= p < s.len()) {
        None
    } else {
        let b = s[p];
        if b == 45 {
            Some(TokenKind::Minus)
        } else if b == 43 {
            Some(TokenKind::Plus)
        } else if b == 42 {
            Some(TokenKind::Star)
        } else if b == 47 {
            Some(TokenKind::Slash)
        } else if b == 40 {
            Some(TokenKind::LeftParen)
        } else if b == 41 {
            Some(TokenKind::RightParen)
        } else if b == 123 {
            Some(TokenKind::LeftBrace)
        } else if b == 125 {
            Some(TokenKind::RightBrace)
        } else if b == 59 {
            Some(TokenKind::Semicolon)
        } else if b == 44 {
            Some(TokenKind::Comma)
        } else if b == 60 {
            Some(TokenKind::Less)
        } else if b == 61 {
            Some(TokenKind::Equal)
        } else if b == 33 {
            Some(TokenKind::Bang)
        } else {
            None
        }
    }
}

/// The token beginning exactly at `p`, if any: its kind and its end.
pub open spec fn match_at(s: Seq<u8>, p: int) -> Option<(TokenKind, int)> {
    match keyword_at(s, p) {
        Some((k, l)) => Some((k, p + l)),
        None => match literal_at(s, p) {
            Some((k, l)) => Some((k, p + l)),
            None => if 0 <= p < s.len() && is_alpha(s[p]) {
                Some((TokenKind::Identifier, alnum_run_end(s, p + 1)))
            } else if word_at(s, p, seq![61u8, 61u8]) {
                Some((TokenKind::DoubleEqual, p + 2))
            } else if word_at(s, p, seq![33u8, 61u8]) {
                Some((TokenKind::BangEqual, p + 2))
            } else {
                match individual_at(s, p) {
                    Some(k) => Some((k, p + 1)),
                    None => if 0 <= p < s.len() && is_digit(s[p]) {
                        let e = digit_run_end(s, p + 1);
                        if e < s.len() && s[e] == 46 && e + 1 < s.len() && is_digit(s[e + 1]) {
                            Some((TokenKind::Number, digit_run_end(s, e + 1)))
                        } else {
                            Some((TokenKind::Number, e))
                        }
                    } else if 0 <= p < s.len() && s[p] == 34 {
                        match close_quote(s, p + 1) {
                            Some(c) => Some((TokenKind::String, c + 1)),
                            None => None,
                        }
                    } else {
                        None
                    },
                }
            },
        },
    }
}

/// The next token at or after `p`: its kind, its start and its end. Bytes
/// that begin no token are skipped.
pub open spec fn next_token(s: Seq<u8>, p: int) -> Option<(TokenKind, int, int)>
    decreases s.len() - p,
{
    if !(0 <= p < s.len()) {
        None
    } else {
        match match_at(s, p) {
            Some((k, e)) => Some((k, p, e)),
            None => next_token(s, p + 1),
        }
    }
}

/// The run of identifier bytes ends at or after its start, within `s`.
pub proof fn lemma_alnum_run_bounds(s: Seq<u8>, q: int)
    requires
        0 <= q <= s.len(),
    ensures
        q <= alnum_run_end(s, q) <= s.len(),
    decreases s.len() - q,
{
    if 0 <= q < s.len() && is_alnum(s[q]) {
        lemma_alnum_run_bounds(s, q + 1);
    }
}

/// The run of digits ends at or after its start, within `s`.
pub proof fn lemma_digit_run_bounds(s: Seq<u8>, q: int)
    requires
        0 <= q <= s.len(),
    ensures
        q <= digit_run_end(s, q) <= s.len(),
    decreases s.len() - q,
{
    if 0 <= q < s.len() && is_digit(s[q]) {
        lemma_digit_run_bounds(s, q + 1);
    }
}

/// A closing quote found at or after `q` lies within `s`.
pub proof fn lemma_close_quote_bounds(s: Seq<u8>, q: int)
    requires
        0 <= q <= s.len(),
    ensures
        match close_quote(s, q) {
            Some(c) => q <= c < s.len(),
            None => true,
        },
    decreases s.len() - q,
{
    if 0 <= q < s.len() && s[q] != 34 {
        lemma_close_quote_bounds(s, q + 1);
    }
}

/// Every match begins at its position and consumes at least one byte.
pub proof fn lemma_match_at_bounds(s: Seq<u8>, p: int)
    requires
        0 <= p < s.len(),
    ensures
        match match_at(s, p) {
            Some((k, e)) => p < e <= s.len(),
            None => true,
        },
{
    lemma_alnum_run_bounds(s, p + 1);
    if is_digit(s[p]) {
        lemma_digit_run_bounds(s, p + 1);
        let e = digit_run_end(s, p + 1);
        if e < s.len() && s[e] == 46 && e + 1 < s.len() && is_digit(s[e + 1]) {
            lemma_digit_run_bounds(s, e + 1);
        }
    }
    if s[p] == 34 {
        lemma_close_quote_bounds(s, p + 1);
    }
}

/// Every token lies within the source and consumes at least one byte.
pub proof fn lemma_next_token_bounds(s: Seq<u8>, p: int)
    requires
        0 <= p,
    ensures
        match next_token(s, p) {
            Some((k, st, en)) => p <= st < en <= s.len(),
            None => true,
        },
    decreases s.len() - p,
{
    if 0 <= p < s.len() {
        lemma_match_at_bounds(s, p);
        if match_at(s, p) is None {
            lemma_next_token_bounds(s, p + 1);
        }
    }
}

/// The token stream from position `p` on.
pub open spec fn tokens_spec(s: Seq<u8>, p: int) -> Seq<(TokenKind, Seq<u8>)>
    decreases s.len() - p,
{
    if !(0 <= p < s.len()) {
        Seq::empty()
    } else {
        match next_token(s, p) {
            None => Seq::empty(),
            Some((k, st, en)) => if p < en && en <= s.len() {
                seq![(k, s.subrange(st, en))] + tokens_spec(s, en)
            } else {
                Seq::empty()
            },
        }
    }
}

/// The byte-level scanner: the source and the position the next scan
/// starts from.
pub struct Tokenizer {
    pub src: Vec<u8>,
    pub start: usize,
}

/// The bytes of `print`.
fn kw_print() -> (w: Vec<u8>)
    ensures
        w@ == seq![112u8, 114u8, 105u8, 110u8, 116u8],
{
    let mut w: Vec<u8> = Vec::new();
    w.push(112);
    w.push(114);
    w.push(105);
    w.push(110);
    w.push(116);
    proof {
        assert(w@ =~= seq![112u8, 114u8, 105u8, 110u8, 116u8]);
    }
    w
}

/// The bytes of `fn`.
fn kw_fn() -> (w: Vec<u8>)
    ensures
        w@ == seq![102u8, 110u8],
{
    let mut w: Vec<u8> = Vec::new();
    w.push(102);
    w.push(110);
    proof {
        assert(w@ =~= seq![102u8, 110u8]);
    }
    w
}

/// The bytes of `if`.
fn kw_if() -> (w: Vec<u8>)
    ensures
        w@ == seq![105u8, 102u8],
{
    let mut w: Vec<u8> = Vec::new();
    w.push(105);
    w.push(102);
    proof {
        assert(w@ =~= seq![105u8, 102u8]);
    }
    w
}

/// The bytes of `else`.
fn kw_else() -> (w: Vec<u8>)
    ensures
        w@ == seq![101u8, 108u8, 115u8, 101u8],
{
    let mut w: Vec<u8> = Vec::new();
    w.push(101);
    w.push(108);
    w.push(115);
    w.push(101);
    proof {
        assert(w@ =~= seq![101u8, 108u8, 115u8, 101u8]);
    }
    w
}

/// The bytes of `return`.
fn kw_return() -> (w: Vec<u8>)
    ensures
        w@ == seq![114u8, 101u8, 116u8, 117u8, 114u8, 110u8],
{
    let mut w: Vec<u8> = Vec::new();
    w.push(114);
    w.push(101);
    w.push(116);
    w.push(117);
    w.push(114);
    w.push(110);
    proof {
        assert(w@ =~= seq![114u8, 101u8, 116u8, 117u8, 114u8, 110u8]);
    }
    w
}

/// The bytes of `while`.
fn kw_while() -> (w: Vec<u8>)
    ensures
        w@ == seq![119u8, 104u8, 105u8, 108u8, 101u8],
{
    let mut w: Vec<u8> = Vec::new();
    w.push(119);
    w.push(104);
    w.push(105);
    w.push(108);
    w.push(101);
    proof {
        assert(w@ =~= seq![119u8, 104u8, 105u8, 108u8, 101u8]);
    }
    w
}

/// The bytes of `true`.
fn kw_true() -> (w: Vec<u8>)
    ensures
        w@ == seq![116u8, 114u8, 117u8, 101u8],
{
    let mut w: Vec<u8> = Vec::new();
    w.push(116);
    w.push(114);
    w.push(117);
    w.push(101);
    proof {
        assert(w@ =~= seq![116u8, 114u8, 117u8, 101u8]);
    }
    w
}

/// The bytes of `false`.
fn kw_false() -> (w: Vec<u8>)
    ensures
        w@ == seq![102u8, 97u8, 108u8, 115u8, 101u8],
{
    let mut w: Vec<u8> = Vec::new();
    w.push(102);
    w.push(97);
    w.push(108);
    w.push(115);
    w.push(101);
    proof {
        assert(w@ =~= seq![102u8, 97u8, 108u8, 115u8, 101u8]);
    }
    w
}

/// The bytes of `null`.
fn kw_null() -> (w: Vec<u8>)
    ensures
        w@ == seq![110u8, 117u8, 108u8, 108u8],
{
    let mut w: Vec<u8> = Vec::new();
    w.push(110);
    w.push(117);
    w.push(108);
    w.push(108);
    proof {
        assert(w@ =~= seq![110u8, 117u8, 108u8, 108u8]);
    }
    w
}

/// The bytes of `==`.
fn kw_eqeq() -> (w: Vec<u8>)
    ensures
        w@ == seq![61u8, 61u8],
{
    let mut w: Vec<u8> = Vec::new();
    w.push(61);
    w.push(61);
    proof {
        assert(w@ =~= seq![61u8, 61u8]);
    }
    w
}

/// The bytes of `!=`.
fn kw_bangeq() -> (w: Vec<u8>)
    ensures
        w@ == seq![33u8, 61u8],
{
    let mut w: Vec<u8> = Vec::new();
    w.push(33);
    w.push(61);
    proof {
        assert(w@ =~= seq![33u8, 61u8]);
    }
    w
}

/// Whether the word `w` occurs in `src` at position `p`.
fn word_at_exec(src: &Vec<u8>, p: usize, w: &Vec<u8>) -> (r: bool)
    ensures
        r == word_at(src@, p as int, w@),
{
    let n = src.len();
    if p > n || n - p < w.len() {
        proof {
            assert(!word_at(src@, p as int, w@));
        }
        return false;
    }
    let mut i: usize = 0;
    while i < w.len()
        invariant
            i <= w@.len(),
            p + w@.len() <= n,
            n == src@.len(),
            forall|j: int| 0 <= j < i ==> src@[p + j] == w@[j],
        decreases w@.len() - i,
    {
        if src[p + i] != w[i] {
            proof {
                assert(src@.subrange(p as int, p + w@.len())[i as int] != w@[i as int]);
            }
            return false;
        }
        i = i + 1;
    }
    proof {
        assert(src@.subrange(p as int, p + w@.len()) =~= w@);
    }
    true
}

impl Tokenizer {
    /// A scanner over `src`, positioned at the beginning.
    pub fn new(src: Vec<u8>) -> (t: Tokenizer)
        ensures
            t.src@ == src@,
            t.start == 0,
    {
        Tokenizer { src, start: 0 }
    }

    /// The end of the identifier-byte run starting at `q`.
    fn alnum_run(&self, q: usize) -> (e: usize)
        requires
            q <= self.src@.len(),
        ensures
            e as int == alnum_run_end(self.src@, q as int),
    {
        let mut e = q;
        while e < self.src.len()
            invariant
                q <= e <= self.src@.len(),
                alnum_run_end(self.src@, q as int) == alnum_run_end(self.src@, e as int),
            ensures
                alnum_run_end(self.src@, q as int) == e as int,
            decreases self.src@.len() - e,
        {
            let b = self.src[e];
            if !((65 <= b && b <= 90) || (97 <= b && b <= 122) || b == 95 || (48 <= b && b
                <= 57)) {
                break;
            }
            e = e + 1;
        }
        e
    }

    /// The end of the digit run starting at `q`.
    fn digit_run(&self, q: usize) -> (e: usize)
        requires
            q <= self.src@.len(),
        ensures
            e as int == digit_run_end(self.src@, q as int),
    {
        let mut e = q;
        while e < self.src.len()
            invariant
                q <= e <= self.src@.len(),
                digit_run_end(self.src@, q as int) == digit_run_end(self.src@, e as int),
            ensures
                digit_run_end(self.src@, q as int) == e as int,
            decreases self.src@.len() - e,
        {
            let b = self.src[e];
            if !(48 <= b && b <= 57) {
                break;
            }
            e = e + 1;
        }
        e
    }

    /// The next closing quote at or after `q`, if any.
    fn find_close_quote(&self, q: usize) -> (r: Option<usize>)
        requires
            q <= self.src@.len(),
        ensures
            match r {
                Some(c) => close_quote(self.src@, q as int) == Some(c as int) && c
                    < self.src@.len(),
                None => close_quote(self.src@, q as int) == None::<int>,
            },
    {
        let mut e = q;
        while e < self.src.len()
            invariant
                q <= e <= self.src@.len(),
                close_quote(self.src@, q as int) == close_quote(self.src@, e as int),
            decreases self.src@.len() - e,
        {
            if self.src[e] == 34 {
                return Some(e);
            }
            e = e + 1;
        }
        None
    }

    /// The token beginning exactly at `p`, if any: its kind and its end,
    /// as [`match_at`] describes.
    fn match_at_exec(&self, p: usize) -> (r: Option<(TokenKind, usize)>)
        requires
            p < self.src@.len(),
        ensures
            match r {
                Some(ke) => match_at(self.src@, p as int) == Some((ke.0, ke.1 as int)),
                None => match_at(self.src@, p as int) == None::<(TokenKind, int)>,
            },
    {
        let n = self.src.len();
        if word_at_exec(&self.src, p, &kw_print()) {
            return Some((TokenKind::Print, p + 5));
        }
        if word_at_exec(&self.src, p, &kw_fn()) {
            return Some((TokenKind::Fn, p + 2));
        }
        if word_at_exec(&self.src, p, &kw_if()) {
            return Some((TokenKind::If, p + 2));
        }
        if word_at_exec(&self.src, p, &kw_else()) {
            return Some((TokenKind::Else, p + 4));
        }
        if word_at_exec(&self.src, p, &kw_return()) {
            return Some((TokenKind::Return, p + 6));
        }
        if word_at_exec(&self.src, p, &kw_while()) {
            return Some((TokenKind::While, p + 5));
        }
        if word_at_exec(&self.src, p, &kw_true()) {
            return Some((TokenKind::True, p + 4));
        }
        if word_at_exec(&self.src, p, &kw_false()) {
            return Some((TokenKind::False, p + 5));
        }
        if word_at_exec(&self.src, p, &kw_null()) {
            return Some((TokenKind::Null, p + 4));
        }
        let b = self.src[p];
        if (65 <= b && b <= 90) || (97 <= b && b <= 122) || b == 95 {
            let e = self.alnum_run(p + 1);
            return Some((TokenKind::Identifier, e));
        }
        if word_at_exec(&self.src, p, &kw_eqeq()) {
            return Some((TokenKind::DoubleEqual, p + 2));
        }
        if word_at_exec(&self.src, p, &kw_bangeq()) {
            return Some((TokenKind::BangEqual, p + 2));
        }
        let single: Option<TokenKind> = if b == 45 {
            Some(TokenKind::Minus)
        } else if b == 43 {
            Some(TokenKind::Plus)
        } else if b == 42 {
            Some(TokenKind::Star)
        } else if b == 47 {
            Some(TokenKind::Slash)
        } else if b == 40 {
            Some(TokenKind::LeftParen)
        } else if b == 41 {
            Some(TokenKind::RightParen)
        } else if b == 123 {
            Some(TokenKind::LeftBrace)
        } else if b == 125 {
            Some(TokenKind::RightBrace)
        } else if b == 59 {
            Some(TokenKind::Semicolon)
        } else if b == 44 {
            Some(TokenKind::Comma)
        } else if b == 60 {
            Some(TokenKind::Less)
        } else if b == 61 {
            Some(TokenKind::Equal)
        } else if b == 33 {
            Some(TokenKind::Bang)
        } else {
            None
        };
        match single {
            Some(k) => Some((k, p + 1)),
            None => {
                if 48 <= b && b <= 57 {
                    let e = self.digit_run(p + 1);
                    proof {
                        lemma_digit_run_bounds(self.src@, p + 1);
                    }
                    if e < self.src.len() && self.src[e] == 46 && e + 1 < self.src.len() && {
                        let d = self.src[e + 1];
                        48 <= d && d <= 57
                    } {
                        let e2 = self.digit_run(e + 1);
                        Some((TokenKind::Number, e2))
                    } else {
                        Some((TokenKind::Number, e))
                    }
                } else if b == 34 {
                    match self.find_close_quote(p + 1) {
                        Some(c) => Some((TokenKind::String, c + 1)),
                        None => None,
                    }
                } else {
                    None
                }
            },
        }
    }

    /// The next token, as [`next_token`] describes; the scan position moves
    /// past it. `None` once the rest of the source holds no token; the
    /// position is then at the end.
    pub fn next(&mut self) -> (r: Option<Token>)
        ensures
            final(self).src == old(self).src,
            match next_token(old(self).src@, old(self).start as int) {
                Some(kse) => r is Some && r->0.kind == kse.0 && r->0.value@
                    == old(self).src@.subrange(kse.1, kse.2) && final(self).start == kse.2
                    && old(self).start <= kse.1 < kse.2 <= old(self).src@.len(),
                None => r is None && final(self).start == old(self).src@.len(),
            },
    {
        let mut p = self.start;
        if p > self.src.len() {
            p = self.src.len();
        }
        proof {
            if old(self).start > self.src@.len() {
                assert(next_token(self.src@, old(self).start as int) is None);
            }
        }
        while p < self.src.len()
            invariant
                p <= self.src@.len(),
                *self == *old(self),
                next_token(self.src@, old(self).start as int) == next_token(
                    self.src@,
                    p as int,
                ),
                old(self).start <= p || old(self).start > self.src@.len(),
            decreases self.src@.len() - p,
        {
            match self.match_at_exec(p) {
                Some((kind, end)) => {
                    proof {
                        lemma_match_at_bounds(self.src@, p as int);
                        if old(self).start > self.src@.len() {
                            assert(next_token(self.src@, old(self).start as int) is None);
                        }
                    }
                    let mut value: Vec<u8> = Vec::new();
                    let mut i = p;
                    while i < end
                        invariant
                            p <= i <= end <= self.src@.len(),
                            value@ == self.src@.subrange(p as int, i as int),
                        decreases end - i,
                    {
                        value.push(self.src[i]);
                        i = i + 1;
                        proof {
                            assert(value@ =~= self.src@.subrange(p as int, i as int));
                        }
                    }
                    self.start = end;
                    return Some(Token::new(kind, value));
                },
                None => {
                    p = p + 1;
                },
            }
        }
        self.start = self.src.len();
        None
    }

    /// The whole remaining token stream, as [`tokens_spec`] describes.
    pub fn tokenize(&mut self) -> (r: Vec<Token>)
        ensures
            final(self).src == old(self).src,
            r@.map_values(|t: Token| (t.kind, t.value@)) == tokens_spec(
                old(self).src@,
                old(self).start as int,
            ),
    {
        let ghost s = self.src@;
        let mut out: Vec<Token> = Vec::new();
        proof {
            assert(out@.map_values(|t: Token| (t.kind, t.value@)) =~= Seq::<
                (TokenKind, Seq<u8>),
            >::empty());
        }
        loop
            invariant
                self.src == old(self).src,
                s == self.src@,
                tokens_spec(s, old(self).start as int) == out@.map_values(
                    |t: Token| (t.kind, t.value@),
                ) + tokens_spec(s, self.start as int),
            decreases s.len() - self.start,
        {
            let ghost pre = self.start as int;
            if self.start >= self.src.len() {
                proof {
                    assert(tokens_spec(s, pre) =~= Seq::<(TokenKind, Seq<u8>)>::empty());
                    assert(tokens_spec(s, old(self).start as int) =~= out@.map_values(
                        |t: Token| (t.kind, t.value@),
                    ));
                }
                return out;
            }
            match self.next() {
                Some(t) => {
                    let ghost prevseq = out@;
                    out.push(t);
                    proof {
                        lemma_next_token_bounds(s, pre);
                        let kse = next_token(s, pre)->Some_0;
                        assert(tokens_spec(s, pre) == seq![(kse.0, s.subrange(kse.1, kse.2))]
                            + tokens_spec(s, kse.2));
                        assert(out@.map_values(|t: Token| (t.kind, t.value@))
                            =~= prevseq.map_values(|t: Token| (t.kind, t.value@)) + seq![
                            (kse.0, s.subrange(kse.1, kse.2)),
                        ]);
                    }
                },
                None => {
                    proof {
                        assert(tokens_spec(s, pre) =~= Seq::<(TokenKind, Seq<u8>)>::empty());
                        assert(tokens_spec(s, old(self).start as int) =~= out@.map_values(
                            |t: Token| (t.kind, t.value@),
                        ));
                    }
                    return out;
                },
            }
        }
    }
}

} // verus!
