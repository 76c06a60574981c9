//! A pull-based scanner from source text to spanned tokens.
use vstd::prelude::*;

use crate::text::{digit_text, int_text, nat_text};
use crate::token::{spaces_text, SpannedToken, Token, TokenView};

verus! {

pub type SourcePosition = usize;

/// A lexical error, carrying the byte offset at which the offending token starts.
#[derive(Debug, Clone, Copy, PartialEq, Eq, Structural)]
pub enum LexErr {
    UnknownToken(SourcePosition, Option<SourcePosition>),
    UnterminatedString(SourcePosition),
    /// A run of digits whose value does not fit in an `i32`.
    IntOutOfRange(SourcePosition),
}

/// Byte offset at which the token of a lexical error starts.
pub open spec fn err_offset(e: LexErr) -> usize {
    match e {
        LexErr::UnknownToken(at, _) => at,
        LexErr::UnterminatedString(at) => at,
        LexErr::IntOutOfRange(at) => at,
    }
}

impl LexErr {
    /// Byte offset at which the offending token starts.
    pub fn offset(&self) -> (r: usize)
        ensures
            r == err_offset(*self),
    {
        match self {
            LexErr::UnknownToken(at, _) => *at,
            LexErr::UnterminatedString(at) => *at,
            LexErr::IntOutOfRange(at) => *at,
        }
    }
}

/// A lexical error together with the source it was found in, for diagnostics.
pub struct WithSrcErr {
    pub src: String,
    pub err: LexErr,
}

impl WithSrcErr {
    pub fn new(src: &str, err: LexErr) -> (r: WithSrcErr)
        ensures
            r.src@ == src@,
            r.err == err,
    {
        WithSrcErr { src: String::from_str(src), err }
    }

    /// Byte offset of the error in the source.
    pub fn offset(&self) -> (r: usize)
        ensures
            r == err_offset(self.err),
    {
        self.err.offset()
    }
}

/// Whether `c` is alphabetic, as `char::is_alphabetic` decides.
pub uninterp spec fn alphabetic(c: char) -> bool;

/// Whether `c` is alphanumeric, as `char::is_alphanumeric` decides.
pub uninterp spec fn alphanumeric(c: char) -> bool;

/// Relies on `char::is_alphabetic`: the Unicode Alphabetic property of `c`.
#[verifier::external_body]
fn is_alphabetic(c: char) -> (r: bool)
    ensures
        r == alphabetic(c),
{
    c.is_alphabetic()
}

/// Relies on `char::is_alphanumeric`: the Unicode Alphabetic or Numeric property of `c`.
#[verifier::external_body]
fn is_alphanumeric(c: char) -> (r: bool)
    ensures
        r == alphanumeric(c),
{
    c.is_alphanumeric()
}

/// Number of bytes that `c` takes in UTF-8.
pub open spec fn utf8_width(c: char) -> nat {
    if (c as u32) < 0x80 {
        1
    } else if (c as u32) < 0x800 {
        2
    } else if (c as u32) < 0x10000 {
        3
    } else {
        4
    }
}

/// Number of bytes that `s` takes in UTF-8.
pub open spec fn byte_len(s: Seq<char>) -> nat
    decreases s.len(),
{
    if s.len() == 0 {
        0
    } else {
        byte_len(s.drop_last()) + utf8_width(s.last())
    }
}

/// Byte offset of the character at index `i` of `s`.
pub open spec fn byte_offset(s: Seq<char>, i: int) -> nat {
    byte_len(s.take(i))
}

pub open spec fn is_digit(c: char) -> bool {
    '0' <= c && c <= '9'
}

pub open spec fn in_number(c: char) -> bool {
    is_digit(c) || c == '_'
}

pub open spec fn in_ident(c: char) -> bool {
    c == '_' || alphanumeric(c)
}

/// First index at or after `i` that does not hold a space.
pub open spec fn skip_spaces(s: Seq<char>, i: int) -> int
    decreases s.len() - i,
{
    if 0 <= i < s.len() && s[i] == ' ' {
        skip_spaces(s, i + 1)
    } else {
        i
    }
}

/// First index at or after `i` that holds neither a digit nor an underscore.
pub open spec fn number_end(s: Seq<char>, i: int) -> int
    decreases s.len() - i,
{
    if 0 <= i < s.len() && in_number(s[i]) {
        number_end(s, i + 1)
    } else {
        i
    }
}

/// First index at or after `i` that holds neither an alphanumeric character nor an underscore.
pub open spec fn ident_end(s: Seq<char>, i: int) -> int
    decreases s.len() - i,
{
    if 0 <= i < s.len() && in_ident(s[i]) {
        ident_end(s, i + 1)
    } else {
        i
    }
}

/// First index at or after `i` that holds an unescaped double quote, or the length
/// of `s`. A backslash escapes the character after it, so `\"` does not close.
pub open spec fn quote_index(s: Seq<char>, i: int) -> int
    decreases s.len() - i,
{
    if 0 <= i < s.len() && s[i] != '"' {
        if s[i] == '\\' && i + 1 < s.len() {
            quote_index(s, i + 2)
        } else {
            quote_index(s, i + 1)
        }
    } else {
        i
    }
}

/// Value of a run of decimal digits, underscores ignored.
pub open spec fn digits_value(s: Seq<char>) -> nat
    decreases s.len(),
{
    if s.len() == 0 {
        0
    } else if s.last() == '_' {
        digits_value(s.drop_last())
    } else {
        digits_value(s.drop_last()) * 10 + ((s.last() as int) - ('0' as int)) as nat
    }
}

/// Outcome of scanning one token.
pub enum Scan {
    /// The token and the index just past its span.
    Token(TokenView, int),
    Fail(LexErr),
}

/// The token or the one-character operator `bare`, depending on whether `=` follows at `start + 1`.
pub open spec fn with_equals(s: Seq<char>, start: int, bare: TokenView, compound: TokenView) -> Scan {
    if start + 1 < s.len() && s[start + 1] == '=' {
        Scan::Token(compound, start + 2)
    } else {
        Scan::Token(bare, start + 1)
    }
}

/// The token that starts at index `start` of `s`, where a character other than a space stands.
pub open spec fn scan_at(s: Seq<char>, start: int) -> Scan {
    let c = s[start];
    let at = byte_offset(s, start) as usize;
    if c == '(' {
        Scan::Token(TokenView::LParen, start + 1)
    } else if c == ')' {
        Scan::Token(TokenView::RParen, start + 1)
    } else if c == '+' {
        with_equals(s, start, TokenView::Add, TokenView::AddEq)
    } else if c == '-' {
        with_equals(s, start, TokenView::Sub, TokenView::SubEq)
    } else if c == '*' {
        with_equals(s, start, TokenView::Mul, TokenView::MulEq)
    } else if c == '/' {
        with_equals(s, start, TokenView::Div, TokenView::DivEq)
    } else if c == '!' {
        with_equals(s, start, TokenView::Bang, TokenView::BangEq)
    } else if c == '"' {
        let q = quote_index(s, start + 1);
        if q < s.len() {
            Scan::Token(TokenView::StrLiteral(s.subrange(start + 1, q)), q + 1)
        } else {
            Scan::Fail(LexErr::UnterminatedString(at))
        }
    } else if is_digit(c) {
        let e = number_end(s, start + 1);
        let v = digits_value(s.subrange(start, e));
        if v <= i32::MAX {
            Scan::Token(TokenView::IntLiteral(v as int), e)
        } else {
            Scan::Fail(LexErr::IntOutOfRange(at))
        }
    } else if alphabetic(c) {
        let e = ident_end(s, start + 1);
        Scan::Token(TokenView::Ident(s.subrange(start, e)), e)
    } else {
        Scan::Fail(LexErr::UnknownToken(at, None))
    }
}

/// A token with the indices where its span starts and ends.
pub type Span = (int, int, TokenView);

/// All tokens from index `i` on, or the first lexical error.
pub open spec fn lex_from(s: Seq<char>, i: int) -> Result<Seq<Span>, LexErr>
    decreases s.len() - i,
{
    let st = skip_spaces(s, i);
    if !(0 <= i <= st && st < s.len()) {
        Ok(seq![])
    } else {
        match scan_at(s, st) {
            Scan::Fail(e) => Err(e),
            Scan::Token(t, e) => if st < e <= s.len() {
                match lex_from(s, e) {
                    Ok(rest) => Ok(seq![(st, e, t)] + rest),
                    Err(x) => Err(x),
                }
            } else {
                Ok(seq![])
            },
        }
    }
}

/// The source rebuilt from token spans: before each span the spaces that the lexer
/// skipped, after the last one the trailing spaces.
pub open spec fn rebuild(s: Seq<char>, toks: Seq<Span>, from: int) -> Seq<char>
    decreases toks.len(),
{
    if toks.len() == 0 {
        spaces_text((s.len() - from) as nat)
    } else {
        spaces_text((toks[0].0 - from) as nat) + s.subrange(toks[0].0, toks[0].1) + rebuild(
            s,
            toks.drop_first(),
            toks[0].1,
        )
    }
}

proof fn lemma_skip_spaces(s: Seq<char>, i: int)
    requires
        0 <= i <= s.len(),
    ensures
        i <= skip_spaces(s, i) <= s.len(),
        skip_spaces(s, i) < s.len() ==> s[skip_spaces(s, i)] != ' ',
        s.subrange(i, skip_spaces(s, i)) =~= spaces_text((skip_spaces(s, i) - i) as nat),
    decreases s.len() - i,
{
    if i < s.len() && s[i] == ' ' {
        lemma_skip_spaces(s, i + 1);
        assert(s.subrange(i, skip_spaces(s, i)) =~= seq![' '] + s.subrange(
            i + 1,
            skip_spaces(s, i),
        ));
    }
}

proof fn lemma_number_end(s: Seq<char>, i: int)
    requires
        0 <= i <= s.len(),
    ensures
        i <= number_end(s, i) <= s.len(),
    decreases s.len() - i,
{
    if i < s.len() && in_number(s[i]) {
        lemma_number_end(s, i + 1);
    }
}

proof fn lemma_ident_end(s: Seq<char>, i: int)
    requires
        0 <= i <= s.len(),
    ensures
        i <= ident_end(s, i) <= s.len(),
    decreases s.len() - i,
{
    if i < s.len() && in_ident(s[i]) {
        lemma_ident_end(s, i + 1);
    }
}

proof fn lemma_quote_index(s: Seq<char>, i: int)
    requires
        0 <= i <= s.len(),
    ensures
        i <= quote_index(s, i) <= s.len(),
        quote_index(s, i) < s.len() ==> s[quote_index(s, i)] == '"',
    decreases s.len() - i,
{
    if i < s.len() && s[i] != '"' {
        if s[i] == '\\' && i + 1 < s.len() {
            lemma_quote_index(s, i + 2);
        } else {
            lemma_quote_index(s, i + 1);
        }
    }
}

/// A scanned token is never empty and never runs past the end of the source.
proof fn lemma_scan_span(s: Seq<char>, start: int)
    requires
        0 <= start < s.len(),
    ensures
        scan_at(s, start) matches Scan::Token(_, e) ==> start < e <= s.len(),
{
    lemma_number_end(s, start + 1);
    lemma_ident_end(s, start + 1);
    lemma_quote_index(s, start + 1);
}

proof fn lemma_rebuild_from(s: Seq<char>, i: int)
    requires
        0 <= i <= s.len(),
        lex_from(s, i) is Ok,
    ensures
        rebuild(s, lex_from(s, i)->Ok_0, i) =~= s.subrange(i, s.len() as int),
    decreases s.len() - i,
{
    let st = skip_spaces(s, i);
    lemma_skip_spaces(s, i);
    let toks = lex_from(s, i)->Ok_0;
    if st < s.len() {
        lemma_scan_span(s, st);
        if let Scan::Token(t, e) = scan_at(s, st) {
            lemma_rebuild_from(s, e);
            assert(toks.drop_first() =~= lex_from(s, e)->Ok_0);
            assert(s.subrange(i, s.len() as int) =~= s.subrange(i, st) + s.subrange(st, e)
                + s.subrange(e, s.len() as int));
        }
    }
}

/// Lexing partitions its input: when the whole source lexes without error, the spaces
/// skipped before each token, the token spans and the trailing spaces, put together
/// in order, give back the source exactly.
pub proof fn lemma_spans_partition_source(s: Seq<char>)
    requires
        lex_from(s, 0) is Ok,
    ensures
        rebuild(s, lex_from(s, 0)->Ok_0, 0) == s,
{
    lemma_rebuild_from(s, 0);
    assert(s.subrange(0, s.len() as int) =~= s);
}

proof fn lemma_number_run(s: Seq<char>, i: int)
    requires
        0 <= i <= s.len(),
        forall|j: int| 0 <= j < s.len() ==> in_number(s[j]),
    ensures
        number_end(s, i) == s.len(),
    decreases s.len() - i,
{
    if i < s.len() {
        lemma_number_run(s, i + 1);
    }
}

proof fn lemma_digit_text(d: int)
    requires
        0 <= d < 10,
    ensures
        digit_text(d).len() == 1,
        is_digit(digit_text(d)[0]),
        (digit_text(d)[0] as int) - ('0' as int) == d,
{
    reveal_strlit("0");
    reveal_strlit("1");
    reveal_strlit("2");
    reveal_strlit("3");
    reveal_strlit("4");
    reveal_strlit("5");
    reveal_strlit("6");
    reveal_strlit("7");
    reveal_strlit("8");
    reveal_strlit("9");
}

proof fn lemma_digits_of_nat_text(n: nat)
    ensures
        digits_value(nat_text(n)) == n,
        nat_text(n).len() > 0,
    decreases n,
{
    if n < 10 {
        lemma_digit_text(n as int);
        let t = nat_text(n);
        assert(t.drop_last() =~= Seq::<char>::empty());
        assert(t.last() != '_');
        assert(digits_value(t) == digits_value(t.drop_last()) * 10 + ((t.last() as int) - ('0'
            as int)) as nat);
    } else {
        lemma_digits_of_nat_text(n / 10);
        lemma_digit_text((n % 10) as int);
        let t = nat_text(n);
        assert(t.drop_last() =~= nat_text(n / 10));
        assert(t.last() == digit_text((n % 10) as int)[0]);
        assert(t.last() != '_');
        assert(digits_value(t) == digits_value(t.drop_last()) * 10 + ((t.last() as int) - ('0'
            as int)) as nat);
        assert(n == (n / 10) * 10 + n % 10);
    }
}

/// An integer literal lexes to its value, and the rendered value reads back as the
/// same number: a run of digits and underscores that starts with a digit and whose
/// value fits in an `i32` is, from its first character, scanned as one integer token
/// that spans the whole run and holds the value of its digits (so the first call of
/// `Lexer::next` on it yields that token at offset 0, and the next call yields
/// nothing); lexing it whole gives that one token; and the canonical text of the
/// value, read as digits, gives the value again.
pub proof fn lemma_int_literal_round_trip(s: Seq<char>)
    requires
        s.len() > 0,
        is_digit(s[0]),
        forall|j: int| 0 <= j < s.len() ==> in_number(s[j]),
        digits_value(s) <= i32::MAX,
    ensures
        skip_spaces(s, 0) == 0,
        byte_offset(s, 0) == 0,
        scan_at(s, 0) == Scan::Token(TokenView::IntLiteral(digits_value(s) as int), s.len() as int),
        skip_spaces(s, s.len() as int) == s.len(),
        int_text(digits_value(s) as int) == nat_text(digits_value(s)),
        lex_from(s, 0) == Ok::<Seq<Span>, LexErr>(
            seq![(0int, s.len() as int, TokenView::IntLiteral(digits_value(s) as int))],
        ),
        digits_value(nat_text(digits_value(s))) == digits_value(s),
{
    lemma_number_run(s, 1);
    assert(s.take(0) =~= Seq::<char>::empty());
    assert(s.subrange(0, s.len() as int) =~= s);
    assert(skip_spaces(s, s.len() as int) == s.len());
    assert(lex_from(s, s.len() as int) == Ok::<Seq<Span>, LexErr>(seq![]));
    assert(seq![(0int, s.len() as int, TokenView::IntLiteral(digits_value(s) as int))] + seq![]
        =~= seq![(0int, s.len() as int, TokenView::IntLiteral(digits_value(s) as int))]);
    lemma_digits_of_nat_text(digits_value(s));
}

/// One call of `Lexer::next` is one step of lexing the whole source: when a token
/// starts at the first non-space index at or after `i`, the tokens from `i` on are
/// that token followed by the tokens from the end of its span on, and the span is
/// nonempty and inside the source. When only spaces remain, there are no tokens.
pub proof fn lemma_lex_step(s: Seq<char>, i: int)
    requires
        0 <= i <= s.len(),
    ensures
        skip_spaces(s, i) >= s.len() ==> lex_from(s, i) == Ok::<Seq<Span>, LexErr>(seq![]),
        skip_spaces(s, i) < s.len() ==> match scan_at(s, skip_spaces(s, i)) {
            Scan::Token(t, e) => skip_spaces(s, i) < e <= s.len() && match lex_from(s, e) {
                Ok(rest) => lex_from(s, i) == Ok::<Seq<Span>, LexErr>(
                    seq![(skip_spaces(s, i), e, t)] + rest,
                ),
                Err(x) => lex_from(s, i) == Err::<Seq<Span>, LexErr>(x),
            },
            Scan::Fail(x) => lex_from(s, i) == Err::<Seq<Span>, LexErr>(x),
        },
{
    lemma_skip_spaces(s, i);
    if skip_spaces(s, i) < s.len() {
        lemma_scan_span(s, skip_spaces(s, i));
    }
}

/// Token spans come in order: each is nonempty, starts on a character other than a
/// space, and ends at or before the start of the next one, and all lie inside the
/// source.
pub proof fn lemma_spans_ordered(s: Seq<char>, i: int)
    requires
        0 <= i <= s.len(),
        lex_from(s, i) is Ok,
    ensures
        ({
            let toks = lex_from(s, i)->Ok_0;
            &&& forall|k: int|
                0 <= k < toks.len() ==> i <= #[trigger] toks[k].0 < toks[k].1 <= s.len() && s[toks[k].0]
                    != ' '
            &&& forall|k: int| 0 <= k < toks.len() - 1 ==> #[trigger] toks[k].1 <= toks[k + 1].0
        }),
    decreases s.len() - i,
{
    lemma_lex_step(s, i);
    let st = skip_spaces(s, i);
    lemma_skip_spaces(s, i);
    if st < s.len() {
        if let Scan::Token(t, e) = scan_at(s, st) {
            lemma_spans_ordered(s, e);
            let rest = lex_from(s, e)->Ok_0;
            let toks = lex_from(s, i)->Ok_0;
            assert(toks == seq![(st, e, t)] + rest);
            assert forall|k: int| 0 <= k < toks.len() - 1 implies #[trigger] toks[k].1 <= toks[k + 1].0 by {
                if k > 0 {
                    assert(toks[k] == rest[k - 1]);
                    assert(toks[k + 1] == rest[k]);
                } else {
                    assert(toks[1] == rest[0]);
                }
            }
            assert forall|k: int| 0 <= k < toks.len() implies i <= #[trigger] toks[k].0 < toks[k].1 <= s.len()
                && s[toks[k].0] != ' ' by {
                if k > 0 {
                    assert(toks[k] == rest[k - 1]);
                }
            }
        }
    }
}

proof fn lemma_byte_offset_step(s: Seq<char>, i: int)
    requires
        0 <= i < s.len(),
    ensures
        byte_offset(s, i + 1) == byte_offset(s, i) + utf8_width(s[i]),
{
    assert(s.take(i + 1).drop_last() =~= s.take(i));
}

proof fn lemma_byte_offset_bound(s: Seq<char>, i: int)
    requires
        0 <= i <= s.len(),
    ensures
        byte_offset(s, i) <= byte_len(s),
    decreases s.len() - i,
{
    if i < s.len() {
        lemma_byte_offset_step(s, i);
        lemma_byte_offset_bound(s, i + 1);
    } else {
        assert(s.take(i) =~= s);
    }
}

fn char_width(c: char) -> (r: usize)
    ensures
        r == utf8_width(c),
{
    let v = c as u32;
    if v < 0x80 {
        1
    } else if v < 0x800 {
        2
    } else if v < 0x10000 {
        3
    } else {
        4
    }
}

/// A single-pass scanner over a source string.
pub struct Lexer {
    src: String,
    chars: Vec<char>,
    pos: usize,
    byte: usize,
    failed: bool,
}

impl Lexer {
    /// The characters of the source.
    pub closed spec fn source(&self) -> Seq<char> {
        self.chars@
    }

    /// Index of the next character to scan.
    pub closed spec fn position(&self) -> int {
        self.pos as int
    }

    /// Whether an error has been reported; the lexer yields nothing after one.
    pub closed spec fn has_failed(&self) -> bool {
        self.failed
    }

    pub closed spec fn wf(&self) -> bool {
        &&& self.src@ == self.chars@
        &&& self.pos <= self.chars@.len()
        &&& self.byte == byte_offset(self.chars@, self.pos as int)
        &&& byte_len(self.chars@) <= usize::MAX
    }

    pub fn new(src: &str) -> (r: Lexer)
        requires
            byte_len(src@) <= usize::MAX,
        ensures
            r.wf(),
            r.source() == src@,
            r.position() == 0,
            !r.has_failed(),
    {
        let n = src.unicode_len();
        let mut chars: Vec<char> = Vec::new();
        let mut i: usize = 0;
        while i < n
            invariant
                n == src@.len(),
                i <= n,
                chars@ == src@.take(i as int),
            decreases n - i,
        {
            chars.push(src.get_char(i));
            i = i + 1;
            assert(chars@ =~= src@.take(i as int));
        }
        assert(chars@ =~= src@);
        assert(chars@.take(0) =~= Seq::<char>::empty());
        Lexer { src: String::from_str(src), chars, pos: 0, byte: 0, failed: false }
    }

    fn advance_to(&mut self, end: usize)
        requires
            old(self).wf(),
            old(self).pos <= end <= old(self).chars@.len(),
        ensures
            final(self).wf(),
            final(self).pos == end,
            final(self).chars@ == old(self).chars@,
            final(self).failed == old(self).failed,
    {
        while self.pos < end
            invariant
                self.wf(),
                self.pos <= end <= self.chars@.len(),
                self.chars@ == old(self).chars@,
                self.failed == old(self).failed,
            decreases end - self.pos,
        {
            proof {
                lemma_byte_offset_step(self.chars@, self.pos as int);
                lemma_byte_offset_bound(self.chars@, self.pos + 1);
            }
            self.byte = self.byte + char_width(self.chars[self.pos]);
            self.pos = self.pos + 1;
        }
    }

    fn with_equals(&mut self, bare: Token, compound: Token) -> (r: Token)
        requires
            old(self).wf(),
            old(self).pos < old(self).chars@.len(),
        ensures
            final(self).wf(),
            final(self).chars@ == old(self).chars@,
            final(self).failed == old(self).failed,
            with_equals(old(self).chars@, old(self).pos as int, bare@, compound@) == Scan::Token(
                r@,
                final(self).pos as int,
            ),
    {
        let start = self.pos;
        if self.chars.len() - start > 1 && self.chars[start + 1] == '=' {
            self.advance_to(start + 2);
            compound
        } else {
            self.advance_to(start + 1);
            bare
        }
    }

    /// The next token with its byte offset, a lexical error, or `None` at the end of
    /// the input. After an error, and at the end, it yields `None` again.
    pub fn next(&mut self) -> (r: Option<Result<SpannedToken, LexErr>>)
        requires
            old(self).wf(),
        ensures
            final(self).wf(),
            final(self).source() == old(self).source(),
            ({
                let s = old(self).source();
                let st = skip_spaces(s, old(self).position());
                if old(self).has_failed() {
                    r is None && final(self).has_failed()
                } else if st >= s.len() {
                    r is None && !final(self).has_failed() && final(self).position() == s.len()
                } else {
                    match scan_at(s, st) {
                        Scan::Token(t, e) => r matches Some(Ok((at, tok))) && at == byte_offset(
                            s,
                            st,
                        ) && tok@ == t && final(self).position() == e && !final(self).has_failed(),
                        Scan::Fail(err) => r == Some(Err::<SpannedToken, LexErr>(err))
                            && final(self).has_failed(),
                    }
                }
            }),
    {
        if self.failed {
            return None;
        }
        let ghost s = self.chars@;
        proof {
            lemma_skip_spaces(s, self.pos as int);
        }
        while self.pos < self.chars.len() && self.chars[self.pos] == ' '
            invariant
                self.wf(),
                self.chars@ == s,
                !self.failed,
                skip_spaces(s, self.pos as int) == skip_spaces(s, old(self).pos as int),
            decreases s.len() - self.pos,
        {
            let p = self.pos;
            self.advance_to(p + 1);
        }
        let start = self.pos;
        if start >= self.chars.len() {
            return None;
        }
        proof {
            lemma_scan_span(s, start as int);
        }
        let at = self.byte;
        let c = self.chars[start];
        let tok = if c == '(' {
            self.advance_to(start + 1);
            Token::LParen
        } else if c == ')' {
            self.advance_to(start + 1);
            Token::RParen
        } else if c == '+' {
            self.with_equals(Token::Add, Token::AddEq)
        } else if c == '-' {
            self.with_equals(Token::Sub, Token::SubEq)
        } else if c == '*' {
            self.with_equals(Token::Mul, Token::MulEq)
        } else if c == '/' {
            self.with_equals(Token::Div, Token::DivEq)
        } else if c == '!' {
            self.with_equals(Token::Bang, Token::BangEq)
        } else if c == '"' {
            let mut q = start + 1;
            proof {
                lemma_quote_index(s, start + 1);
            }
            while q < self.chars.len() && self.chars[q] != '"'
                invariant
                    self.wf(),
                    self.chars@ == s,
                    start < q <= s.len(),
                    quote_index(s, q as int) == quote_index(s, start + 1),
                decreases s.len() - q,
            {
                if self.chars[q] == '\\' && self.chars.len() - q > 1 {
                    q = q + 2;
                } else {
                    q = q + 1;
                }
            }
            if q >= self.chars.len() {
                self.failed = true;
                return Some(Err(LexErr::UnterminatedString(at)));
            }
            let content = String::from_str(self.src.as_str().substring_char(start + 1, q));
            self.advance_to(q + 1);
            Token::StrLiteral(content)
        } else if '0' <= c && c <= '9' {
            let mut e = start + 1;
            let mut v: u64 = ((c as u32) - ('0' as u32)) as u64;
            let mut big = false;
            proof {
                let one = s.subrange(start as int, e as int);
                assert(one.drop_last() =~= Seq::<char>::empty());
                assert(one.last() == c);
                assert(digits_value(one) == digits_value(one.drop_last()) * 10 + ((c as int) - ('0' as int)) as nat);
            }
            while e < self.chars.len() && (('0' <= self.chars[e] && self.chars[e] <= '9')
                || self.chars[e] == '_')
                invariant
                    self.wf(),
                    self.chars@ == s,
                    start < e <= s.len(),
                    number_end(s, e as int) == number_end(s, start + 1),
                    !big ==> v == digits_value(s.subrange(start as int, e as int)) && v <= i32::MAX,
                    big ==> digits_value(s.subrange(start as int, e as int)) > i32::MAX,
                decreases s.len() - e,
            {
                let d = self.chars[e];
                proof {
                    assert(s.subrange(start as int, e + 1).drop_last() =~= s.subrange(
                        start as int,
                        e as int,
                    ));
                }
                if d != '_' && !big {
                    let nv: u64 = v * 10 + (((d as u32) - ('0' as u32)) as u64);
                    if nv > 2147483647 {
                        big = true;
                    } else {
                        v = nv;
                    }
                }
                e = e + 1;
            }
            if big {
                self.failed = true;
                return Some(Err(LexErr::IntOutOfRange(at)));
            }
            self.advance_to(e);
            Token::IntLiteral(v as i32)
        } else if is_alphabetic(c) {
            let mut e = start + 1;
            while e < self.chars.len() && (self.chars[e] == '_' || is_alphanumeric(self.chars[e]))
                invariant
                    self.wf(),
                    self.chars@ == s,
                    start < e <= s.len(),
                    ident_end(s, e as int) == ident_end(s, start + 1),
                decreases s.len() - e,
            {
                e = e + 1;
            }
            let name = String::from_str(self.src.as_str().substring_char(start, e));
            self.advance_to(e);
            Token::Ident(name)
        } else {
            self.failed = true;
            return Some(Err(LexErr::UnknownToken(at, None)));
        };
        Some(Ok((at, tok)))
    }
}

/// `v` holds the tokens of `toks`, each with the byte offset where its span starts.
pub open spec fn spanned_as(v: Seq<SpannedToken>, s: Seq<char>, toks: Seq<Span>) -> bool {
    &&& v.len() == toks.len()
    &&& forall|k: int|
        0 <= k < toks.len() ==> v[k].0 == byte_offset(s, toks[k].0) && v[k].1@ == toks[k].2
}

/// Lexes the whole source: every token with its byte offset, or the first error.
pub fn tokenize(src: &str) -> (r: Result<Vec<SpannedToken>, LexErr>)
    requires
        byte_len(src@) <= usize::MAX,
    ensures
        lex_from(src@, 0) is Ok ==> r is Ok && spanned_as(r->Ok_0@, src@, lex_from(src@, 0)->Ok_0),
        lex_from(src@, 0) is Err ==> r is Err && r->Err_0 == lex_from(src@, 0)->Err_0,
{
    let mut lexer = Lexer::new(src);
    let mut out: Vec<SpannedToken> = Vec::new();
    let ghost s = src@;
    let ghost mut done: Seq<Span> = seq![];
    loop
        invariant
            s == src@,
            lexer.wf(),
            lexer.source() == s,
            !lexer.has_failed(),
            0 <= lexer.position() <= s.len(),
            out@.len() == done.len(),
            forall|k: int|
                0 <= k < done.len() ==> out@[k].0 == byte_offset(s, done[k].0) && out@[k].1@
                    == done[k].2,
            match lex_from(s, lexer.position()) {
                Ok(rest) => lex_from(s, 0) == Ok::<Seq<Span>, LexErr>(done + rest),
                Err(e) => lex_from(s, 0) == Err::<Seq<Span>, LexErr>(e),
            },
        decreases s.len() - lexer.position(),
    {
        let ghost p = lexer.position();
        proof {
            lemma_skip_spaces(s, p);
            let st = skip_spaces(s, p);
            if st < s.len() {
                lemma_scan_span(s, st);
            }
        }
        match lexer.next() {
            None => {
                assert(lex_from(s, p) == Ok::<Seq<Span>, LexErr>(seq![]));
                assert(done + seq![] =~= done);
                assert(lex_from(s, 0) == Ok::<Seq<Span>, LexErr>(done));
                return Ok(out);
            },
            Some(Err(e)) => {
                assert(lex_from(s, p) == Err::<Seq<Span>, LexErr>(e));
                assert(lex_from(s, 0) == Err::<Seq<Span>, LexErr>(e));
                return Err(e);
            },
            Some(Ok(st_tok)) => {
                proof {
                    let st = skip_spaces(s, p);
                    if let Scan::Token(t, e) = scan_at(s, st) {
                        if let Ok(rest) = lex_from(s, e) {
                            assert(done + (seq![(st, e, t)] + rest) =~= done.push((st, e, t))
                                + rest);
                        }
                        done = done.push((st, e, t));
                    }
                }
                out.push(st_tok);
            },
        }
    }
}

} // verus!
