//! Lexical analysis: turns a sequence of characters into tokens, one per
//! request. The whole scanner is mirrored by spec functions over `Seq<char>`,
//! and `next_token` is proved to return exactly the token those spec
//! functions describe.
//!
//! Exhausted input and unrecognized characters both yield the end-of-input
//! sentinel; the stream is conceptually infinite past that point (repeated
//! requests keep returning the sentinel).

use vstd::prelude::*;

verus! {

/// The mathematical face of a token: identifiers carry their character
/// sequence, number literals their value.
pub enum SpecToken {
    Let,
    Identifier(Seq<char>),
    Assign,
    Print,
    PrintLn,
    Number(i64),
    Plus,
    Minus,
    Multiply,
    Divide,
    Semicolon,
    EOF,
}

/// One lexical unit. Number literals are unsigned digit runs; their values
/// are held as signed 64-bit integers (a run too large for that type
/// saturates to `i64::MAX`).
#[derive(Debug, PartialEq)]
pub enum Token {
    Let,
    Identifier(String),
    Assign,
    Print,
    PrintLn,
    Number(i64),
    Plus,
    Minus,
    Multiply,
    Divide,
    Semicolon,
    EOF,
}

impl DeepView for Token {
    type V = SpecToken;

    open spec fn deep_view(&self) -> SpecToken {
        match self {
            Token::Let => SpecToken::Let,
            Token::Identifier(s) => SpecToken::Identifier(s@),
            Token::Assign => SpecToken::Assign,
            Token::Print => SpecToken::Print,
            Token::PrintLn => SpecToken::PrintLn,
            Token::Number(n) => SpecToken::Number(*n),
            Token::Plus => SpecToken::Plus,
            Token::Minus => SpecToken::Minus,
            Token::Multiply => SpecToken::Multiply,
            Token::Divide => SpecToken::Divide,
            Token::Semicolon => SpecToken::Semicolon,
            Token::EOF => SpecToken::EOF,
        }
    }
}

/// Whitespace skipped between tokens: the ASCII blanks.
pub open spec fn is_space_char(c: char) -> bool {
    c == ' ' || c == '\t' || c == '\n' || c == '\r'
}

/// Decimal digits.
pub open spec fn is_digit_char(c: char) -> bool {
    48 <= c as u32 && c as u32 <= 57
}

/// ASCII letters; identifiers start with one.
pub open spec fn is_alpha_char(c: char) -> bool {
    (65 <= c as u32 && c as u32 <= 90) || (97 <= c as u32 && c as u32 <= 122)
}

/// Identifier continuation characters: letters and digits.
pub open spec fn is_alnum_char(c: char) -> bool {
    is_alpha_char(c) || is_digit_char(c)
}

pub open spec fn kw_let() -> Seq<char> {
    seq!['l', 'e', 't']
}

pub open spec fn kw_pn() -> Seq<char> {
    seq!['p', 'n']
}

pub open spec fn kw_pnl() -> Seq<char> {
    seq!['p', 'n', 'l']
}

/// `kw` occurs in `s` starting at position `i`.
pub open spec fn has_prefix(s: Seq<char>, i: nat, kw: Seq<char>) -> bool {
    &&& i + kw.len() <= s.len()
    &&& forall|j: int| 0 <= j < kw.len() ==> s[i + j] == kw[j]
}

/// First position at or after `i` holding a non-whitespace character (or the
/// end of the input).
pub open spec fn skip_ws_from(s: Seq<char>, i: nat) -> nat
    decreases s.len() - i,
{
    if i >= s.len() {
        i
    } else if is_space_char(s[i as int]) {
        skip_ws_from(s, i + 1)
    } else {
        i
    }
}

/// End of the maximal alphanumeric run starting at `i`.
pub open spec fn scan_alnum(s: Seq<char>, i: nat) -> nat
    decreases s.len() - i,
{
    if i >= s.len() {
        i
    } else if is_alnum_char(s[i as int]) {
        scan_alnum(s, i + 1)
    } else {
        i
    }
}

/// End of the maximal digit run starting at `i`.
pub open spec fn scan_digits(s: Seq<char>, i: nat) -> nat
    decreases s.len() - i,
{
    if i >= s.len() {
        i
    } else if is_digit_char(s[i as int]) {
        scan_digits(s, i + 1)
    } else {
        i
    }
}

/// Numeric value of one digit character.
pub open spec fn digit_val(c: char) -> nat {
    (c as u32 - 48) as nat
}

/// Value of a run of digit characters, most significant first.
pub open spec fn digits_val(ds: Seq<char>) -> nat
    decreases ds.len(),
{
    if ds.len() == 0 {
        0
    } else {
        digits_val(ds.drop_last()) * 10 + digit_val(ds.last())
    }
}

/// Value a digit run lexes to: its numeric value, saturated to `i64::MAX`.
pub open spec fn num_val(ds: Seq<char>) -> i64 {
    if digits_val(ds) > i64::MAX {
        i64::MAX
    } else {
        digits_val(ds) as i64
    }
}

/// The identifier token starting at `i`: the maximal alphanumeric run.
pub open spec fn ident_at(s: Seq<char>, i: nat) -> (SpecToken, nat) {
    let end = scan_alnum(s, i);
    (SpecToken::Identifier(s.subrange(i as int, end as int)), end)
}

/// The number token starting at `i`: the maximal digit run.
pub open spec fn num_at(s: Seq<char>, i: nat) -> (SpecToken, nat) {
    let end = scan_digits(s, i);
    (SpecToken::Number(num_val(s.subrange(i as int, end as int))), end)
}

/// The token found at position `pos` of `s`, and the position just past it.
///
/// Whitespace is skipped first. An identifier beginning with a keyword
/// (`pnl`, `pn`, `let`, longest match first) lexes as that keyword, even
/// without a word boundary; other runs starting with a letter lex as
/// identifiers. Exhausted input and any character matching no rule both give
/// the end-of-input sentinel, without advancing past the offending character.
pub open spec fn token_at(s: Seq<char>, pos: nat) -> (SpecToken, nat) {
    let i = skip_ws_from(s, pos);
    if i >= s.len() {
        (SpecToken::EOF, i)
    } else {
        let c = s[i as int];
        if c == 'p' {
            if has_prefix(s, i, kw_pnl()) {
                (SpecToken::PrintLn, i + 3)
            } else if has_prefix(s, i, kw_pn()) {
                (SpecToken::Print, i + 2)
            } else {
                ident_at(s, i)
            }
        } else if c == 'l' {
            if has_prefix(s, i, kw_let()) {
                (SpecToken::Let, i + 3)
            } else {
                ident_at(s, i)
            }
        } else if is_alpha_char(c) {
            ident_at(s, i)
        } else if is_digit_char(c) {
            num_at(s, i)
        } else if c == '=' {
            (SpecToken::Assign, i + 1)
        } else if c == '+' {
            (SpecToken::Plus, i + 1)
        } else if c == '-' {
            (SpecToken::Minus, i + 1)
        } else if c == '*' {
            (SpecToken::Multiply, i + 1)
        } else if c == '/' {
            (SpecToken::Divide, i + 1)
        } else if c == ';' {
            (SpecToken::Semicolon, i + 1)
        } else {
            (SpecToken::EOF, i)
        }
    }
}

pub proof fn lemma_skip_ws_bounds(s: Seq<char>, i: nat)
    requires
        i <= s.len(),
    ensures
        i <= skip_ws_from(s, i) <= s.len(),
    decreases s.len() - i,
{
    if i < s.len() && is_space_char(s[i as int]) {
        lemma_skip_ws_bounds(s, i + 1);
    }
}

pub proof fn lemma_scan_alnum_bounds(s: Seq<char>, i: nat)
    requires
        i <= s.len(),
    ensures
        i <= scan_alnum(s, i) <= s.len(),
    decreases s.len() - i,
{
    if i < s.len() && is_alnum_char(s[i as int]) {
        lemma_scan_alnum_bounds(s, i + 1);
    }
}

pub proof fn lemma_scan_digits_bounds(s: Seq<char>, i: nat)
    requires
        i <= s.len(),
    ensures
        i <= scan_digits(s, i) <= s.len(),
    decreases s.len() - i,
{
    if i < s.len() && is_digit_char(s[i as int]) {
        lemma_scan_digits_bounds(s, i + 1);
    }
}

/// A token never moves the cursor backwards or past the end, and every token
/// other than the sentinel consumes at least one character.
pub proof fn lemma_token_at_bounds(s: Seq<char>, pos: nat)
    requires
        pos <= s.len(),
    ensures
        pos <= token_at(s, pos).1 <= s.len(),
        !(token_at(s, pos).0 is EOF) ==> pos < token_at(s, pos).1,
{
    lemma_skip_ws_bounds(s, pos);
    let i = skip_ws_from(s, pos);
    if i < s.len() {
        lemma_scan_alnum_bounds(s, i + 1);
        lemma_scan_digits_bounds(s, i + 1);
    }
}

proof fn lemma_skip_ws_fixpoint(s: Seq<char>, i: nat)
    requires
        i <= s.len(),
    ensures
        skip_ws_from(s, skip_ws_from(s, i)) == skip_ws_from(s, i),
    decreases s.len() - i,
{
    if i < s.len() && is_space_char(s[i as int]) {
        lemma_skip_ws_fixpoint(s, i + 1);
    }
}

/// Once the scanner answers with the end-of-input sentinel — at exhausted
/// input or at an unrecognized character — every later request answers the
/// same, from the same position.
pub proof fn lemma_eof_stable(s: Seq<char>, pos: nat)
    requires
        pos <= s.len(),
        token_at(s, pos).0 is EOF,
    ensures
        token_at(s, token_at(s, pos).1).0 is EOF,
        token_at(s, token_at(s, pos).1).1 == token_at(s, pos).1,
{
    lemma_skip_ws_bounds(s, pos);
    lemma_skip_ws_fixpoint(s, pos);
}

/// All tokens of `s` from position `pos` on, in order, the end-of-input
/// sentinel excluded. The sequence is finite: every token consumes input.
pub open spec fn spec_tokens(s: Seq<char>, pos: nat) -> Seq<SpecToken>
    decreases s.len() - pos,
        when pos <= s.len()
        via spec_tokens_dec
{
    let (t, p) = token_at(s, pos);
    if t is EOF {
        Seq::empty()
    } else {
        seq![t] + spec_tokens(s, p)
    }
}

#[via_fn]
proof fn spec_tokens_dec(s: Seq<char>, pos: nat) {
    lemma_token_at_bounds(s, pos);
}

/// The token stream of a finite input is finite — it cannot hold more
/// tokens than the input has characters — so a parse over it, consuming at
/// least one token per statement, never runs forever.
pub proof fn lemma_spec_tokens_finite(s: Seq<char>, pos: nat)
    requires
        pos <= s.len(),
    ensures
        spec_tokens(s, pos).len() <= s.len() - pos,
    decreases s.len() - pos,
{
    lemma_token_at_bounds(s, pos);
    let (t, p) = token_at(s, pos);
    if !(t is EOF) {
        lemma_spec_tokens_finite(s, p);
    }
}

/// Character-level state machine with a position cursor. There is no
/// pushback: each `next_token` consumes its characters for good.
pub struct Lexer {
    input: Vec<char>,
    position: usize,
}

impl Lexer {
    /// The characters being scanned.
    pub closed spec fn text(&self) -> Seq<char> {
        self.input@
    }

    /// The cursor: index of the next character to inspect.
    pub closed spec fn pos(&self) -> nat {
        self.position as nat
    }

    /// The cursor never passes the end of the input.
    pub open spec fn wf(&self) -> bool {
        self.pos() <= self.text().len()
    }

    /// Builds a lexer over the characters of `input`, cursor at the start.
    pub fn new(input: &str) -> (lexer: Lexer)
        ensures
            lexer.wf(),
            lexer.text() == input@,
            lexer.pos() == 0,
    {
        let n = input.unicode_len();
        let mut chars: Vec<char> = Vec::new();
        let mut i: usize = 0;
        while i < n
            invariant
                i <= n,
                n == input@.len(),
                chars@ == input@.take(i as int),
            decreases n - i,
        {
            chars.push(input.get_char(i));
            i = i + 1;
            proof {
                assert(chars@ =~= input@.take(i as int));
            }
        }
        proof {
            assert(chars@ =~= input@);
        }
        Lexer { input: chars, position: 0 }
    }

    /// Advances the cursor past any whitespace.
    pub fn skip_whitespace(&mut self)
        requires
            old(self).wf(),
        ensures
            final(self).wf(),
            final(self).text() == old(self).text(),
            final(self).pos() == skip_ws_from(old(self).text(), old(self).pos()),
    {
        while self.position < self.input.len() && space_char(self.input[self.position])
            invariant
                self.wf(),
                self.text() == old(self).text(),
                skip_ws_from(self.text(), self.pos()) == skip_ws_from(
                    old(self).text(),
                    old(self).pos(),
                ),
            decreases self.input@.len() - self.position,
        {
            self.position = self.position + 1;
        }
    }

    /// Tests whether the characters at the cursor spell `keyword`; if they
    /// do, consumes them. No word boundary is required after the keyword.
    pub fn match_keyword(&mut self, keyword: &str) -> (matched: bool)
        requires
            old(self).wf(),
        ensures
            final(self).wf(),
            final(self).text() == old(self).text(),
            matched == has_prefix(old(self).text(), old(self).pos(), keyword@),
            matched ==> final(self).pos() == old(self).pos() + keyword@.len(),
            !matched ==> final(self).pos() == old(self).pos(),
    {
        let n = keyword.unicode_len();
        if n > self.input.len() - self.position {
            return false;
        }
        let mut j: usize = 0;
        while j < n
            invariant
                j <= n,
                n == keyword@.len(),
                self == old(self),
                self.wf(),
                self.position + n <= self.input.len(),
                forall|k: int| 0 <= k < j ==> self.text()[self.pos() + k] == keyword@[k],
            decreases n - j,
        {
            if self.input[self.position + j] != keyword.get_char(j) {
                return false;
            }
            j = j + 1;
        }
        self.position = self.position + n;
        true
    }

    /// Scans the maximal alphanumeric run at the cursor into an identifier
    /// token.
    fn read_identifier(&mut self) -> (t: Token)
        requires
            old(self).wf(),
        ensures
            final(self).wf(),
            final(self).text() == old(self).text(),
            ({
                let (st, np) = ident_at(old(self).text(), old(self).pos());
                t.deep_view() == st && final(self).pos() == np
            }),
    {
        let ghost start = self.pos();
        let mut chars: Vec<char> = Vec::new();
        while self.position < self.input.len() && alnum_char(self.input[self.position])
            invariant
                self.wf(),
                self.text() == old(self).text(),
                start <= self.pos(),
                chars@ == self.text().subrange(start as int, self.pos() as int),
                scan_alnum(self.text(), self.pos()) == scan_alnum(self.text(), start),
            decreases self.input@.len() - self.position,
        {
            chars.push(self.input[self.position]);
            self.position = self.position + 1;
            proof {
                assert(chars@ =~= self.text().subrange(start as int, self.pos() as int));
            }
        }
        Token::Identifier(chars_to_string(chars))
    }

    /// Scans the maximal digit run at the cursor into a number token. A run
    /// whose value does not fit the numeric type saturates to `i64::MAX`.
    fn read_number(&mut self) -> (t: Token)
        requires
            old(self).wf(),
        ensures
            final(self).wf(),
            final(self).text() == old(self).text(),
            ({
                let (st, np) = num_at(old(self).text(), old(self).pos());
                t.deep_view() == st && final(self).pos() == np
            }),
    {
        let ghost start = self.pos();
        let bound: u64 = 9223372036854775807u64;
        let mut val: u64 = 0;
        let mut saturated: bool = false;
        while self.position < self.input.len() && digit_char_test(self.input[self.position])
            invariant
                self.wf(),
                self.text() == old(self).text(),
                start <= self.pos(),
                bound == i64::MAX,
                scan_digits(self.text(), self.pos()) == scan_digits(self.text(), start),
                !saturated ==> val <= bound && val as nat == digits_val(
                    self.text().subrange(start as int, self.pos() as int),
                ),
                saturated ==> digits_val(self.text().subrange(start as int, self.pos() as int))
                    > bound,
            decreases self.input@.len() - self.position,
        {
            let c = self.input[self.position];
            let d: u64 = (c as u32 - 48) as u64;
            let ghost before = self.text().subrange(start as int, self.pos() as int);
            let ghost here = self.text().subrange(start as int, self.pos() as int + 1);
            proof {
                assert(here.drop_last() =~= before);
                assert(digits_val(here) == digits_val(before) * 10 + digit_val(self.text()[self.pos() as int]));
            }
            if !saturated {
                if val <= (bound - d) / 10 {
                    val = val * 10 + d;
                } else {
                    saturated = true;
                }
            }
            self.position = self.position + 1;
        }
        let value: i64 = if saturated {
            i64::MAX
        } else {
            val as i64
        };
        Token::Number(value)
    }

    /// Returns the token at the cursor and advances past it. Past the end of
    /// the input — or at a character no rule recognizes — every call returns
    /// the end-of-input sentinel.
    pub fn next_token(&mut self) -> (t: Token)
        requires
            old(self).wf(),
        ensures
            final(self).wf(),
            final(self).text() == old(self).text(),
            ({
                let (st, np) = token_at(old(self).text(), old(self).pos());
                t.deep_view() == st && final(self).pos() == np
            }),
    {
        self.skip_whitespace();

        if self.position >= self.input.len() {
            return Token::EOF;
        }

        let c = self.input[self.position];
        if c == 'p' {
            proof {
                reveal_strlit("pnl");
                reveal_strlit("pn");
                assert("pnl"@ =~= kw_pnl());
                assert("pn"@ =~= kw_pn());
            }
            if self.match_keyword("pnl") {
                return Token::PrintLn;
            }
            if self.match_keyword("pn") {
                return Token::Print;
            }
            return self.read_identifier();
        }
        if c == 'l' {
            proof {
                reveal_strlit("let");
                assert("let"@ =~= kw_let());
            }
            if self.match_keyword("let") {
                return Token::Let;
            }
            return self.read_identifier();
        }
        if alpha_char(c) {
            return self.read_identifier();
        }
        if digit_char_test(c) {
            return self.read_number();
        }
        if c == '=' {
            self.position = self.position + 1;
            return Token::Assign;
        }
        if c == '+' {
            self.position = self.position + 1;
            return Token::Plus;
        }
        if c == '-' {
            self.position = self.position + 1;
            return Token::Minus;
        }
        if c == '*' {
            self.position = self.position + 1;
            return Token::Multiply;
        }
        if c == '/' {
            self.position = self.position + 1;
            return Token::Divide;
        }
        if c == ';' {
            self.position = self.position + 1;
            return Token::Semicolon;
        }
        Token::EOF
    }
}

fn space_char(c: char) -> (b: bool)
    ensures
        b == is_space_char(c),
{
    c == ' ' || c == '\t' || c == '\n' || c == '\r'
}

fn digit_char_test(c: char) -> (b: bool)
    ensures
        b == is_digit_char(c),
{
    let u = c as u32;
    48 <= u && u <= 57
}

fn alpha_char(c: char) -> (b: bool)
    ensures
        b == is_alpha_char(c),
{
    let u = c as u32;
    (65 <= u && u <= 90) || (97 <= u && u <= 122)
}

fn alnum_char(c: char) -> (b: bool)
    ensures
        b == is_alnum_char(c),
{
    alpha_char(c) || digit_char_test(c)
}

/// Relies on `String`'s `FromIterator` implementation: collecting a vector
/// of characters yields the string of exactly those characters.
#[verifier::external_body]
pub(crate) fn chars_to_string(chars: Vec<char>) -> (s: String)
    ensures
        s@ == chars@,
{
    chars.into_iter().collect()
}

} // verus!
