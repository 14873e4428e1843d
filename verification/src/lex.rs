//! The tokenizer: source bytes to tokens, one token of lookahead.
//!
//! Letters, digits and names are ASCII. A character outside ASCII is never
//! part of a name: it is an error token that spans the whole character.

use vstd::prelude::*;
use vstd::string::StringSliceAdditionalSpecFns;

verus! {

/// The tokens of the language.
#[derive(Debug, Copy, Clone, PartialEq, Eq, Structural)]
pub enum Token {
    Bpm,
    Div,
    Sync,
    Play,
    Stop,
    ListOuts,
    OpenOut,
    SetOut,
    FindLps,
    OpenLp,
    DoFile,
    OpenParen,
    CloseParen,
    OpenSq,
    CloseSq,
    OpenCrl,
    CloseCrl,
    OpenAng,
    CloseAng,
    Eq,
    Dash,
    Eol,
    /// A pitch name: a letter `a`-`g` in either case, then `b`, `_` or `#`,
    /// then an octave digit `0`-`8`.
    Note,
    Digits,
    Sym,
    /// Input that is no token.
    Error,
    /// The end of the input.
    Eof,
}

/// Why `expect` did not find its token.
#[derive(Debug, Copy, Clone, PartialEq, Eq, Structural)]
pub enum ExpectErr {
    Eof,
    LexErr,
    WrongToken(Token),
}

/// Space, tab and form feed separate tokens and are no tokens themselves.
pub open spec fn is_blank(c: u8) -> bool {
    c == 0x20 || c == 0x09 || c == 0x0c
}

/// An ASCII digit.
pub open spec fn is_digit(c: u8) -> bool {
    0x30 <= c <= 0x39
}

/// A byte that a name is made of: an ASCII letter, a digit or `_`.
pub open spec fn is_word(c: u8) -> bool {
    is_digit(c) || 0x41 <= c <= 0x5a || 0x61 <= c <= 0x7a || c == 0x5f
}

/// A byte that continues a character of more than one byte.
pub open spec fn is_continuation(c: u8) -> bool {
    0x80 <= c <= 0xbf
}

/// The token that a single byte is by itself, if it is one.
pub open spec fn punct(c: u8) -> Option<Token> {
    if c == 0x28 {
        Some(Token::OpenParen)
    } else if c == 0x29 {
        Some(Token::CloseParen)
    } else if c == 0x5b {
        Some(Token::OpenSq)
    } else if c == 0x5d {
        Some(Token::CloseSq)
    } else if c == 0x7b {
        Some(Token::OpenCrl)
    } else if c == 0x7d {
        Some(Token::CloseCrl)
    } else if c == 0x3c {
        Some(Token::OpenAng)
    } else if c == 0x3e {
        Some(Token::CloseAng)
    } else if c == 0x3d {
        Some(Token::Eq)
    } else if c == 0x2d {
        Some(Token::Dash)
    } else if c == 0x0a {
        Some(Token::Eol)
    } else {
        None
    }
}

/// Where the run of bytes that `inside` accepts, starting at `p`, ends: the
/// first offset from `p` on whose byte it refuses, or the end of the input.
pub open spec fn run_end(b: Seq<u8>, p: int, inside: spec_fn(u8) -> bool) -> int
    decreases b.len() - p,
{
    if 0 <= p < b.len() && inside(b[p]) {
        run_end(b, p + 1, inside)
    } else {
        p
    }
}

/// Where the blanks that start at `p` end.
pub open spec fn skip_blanks(b: Seq<u8>, p: int) -> int {
    run_end(b, p, |c: u8| is_blank(c))
}

/// Where the name that starts at `p` ends.
pub open spec fn word_end(b: Seq<u8>, p: int) -> int {
    run_end(b, p, |c: u8| is_word(c))
}

/// Where the character that starts at `p` ends: an ASCII byte is a whole
/// character, any other takes the continuation bytes behind it with it.
pub open spec fn char_end(b: Seq<u8>, p: int) -> int {
    if b[p] < 0x80 {
        p + 1
    } else {
        run_end(b, p + 1, |c: u8| is_continuation(c))
    }
}

/// An ASCII letter in lower case; any other byte as it is.
pub open spec fn lower(c: u8) -> u8 {
    if 0x41 <= c <= 0x5a {
        (c + 0x20) as u8
    } else {
        c
    }
}

/// `w` spells the lower-case word `kw`, in whatever case.
pub open spec fn spells(w: Seq<u8>, kw: Seq<u8>) -> bool {
    w.len() == kw.len() && forall|i: int| 0 <= i < w.len() ==> lower(#[trigger] w[i]) == kw[i]
}

/// The bytes of `bpm`.
pub open spec fn kw_bpm() -> Seq<u8> {
    seq![0x62u8, 0x70, 0x6d]
}

/// The bytes of `div`.
pub open spec fn kw_div() -> Seq<u8> {
    seq![0x64u8, 0x69, 0x76]
}

/// The bytes of `sync`.
pub open spec fn kw_sync() -> Seq<u8> {
    seq![0x73u8, 0x79, 0x6e, 0x63]
}

/// The bytes of `play`.
pub open spec fn kw_play() -> Seq<u8> {
    seq![0x70u8, 0x6c, 0x61, 0x79]
}

/// The bytes of `stop`.
pub open spec fn kw_stop() -> Seq<u8> {
    seq![0x73u8, 0x74, 0x6f, 0x70]
}

/// The bytes of `list_outs`.
pub open spec fn kw_list_outs() -> Seq<u8> {
    seq![0x6cu8, 0x69, 0x73, 0x74, 0x5f, 0x6f, 0x75, 0x74, 0x73]
}

/// The bytes of `open_output`.
pub open spec fn kw_open_output() -> Seq<u8> {
    seq![0x6fu8, 0x70, 0x65, 0x6e, 0x5f, 0x6f, 0x75, 0x74, 0x70, 0x75, 0x74]
}

/// The bytes of `set_output`.
pub open spec fn kw_set_output() -> Seq<u8> {
    seq![0x73u8, 0x65, 0x74, 0x5f, 0x6f, 0x75, 0x74, 0x70, 0x75, 0x74]
}

/// The bytes of `find_lps`.
pub open spec fn kw_find_lps() -> Seq<u8> {
    seq![0x66u8, 0x69, 0x6e, 0x64, 0x5f, 0x6c, 0x70, 0x73]
}

/// The bytes of `open_lp`.
pub open spec fn kw_open_lp() -> Seq<u8> {
    seq![0x6fu8, 0x70, 0x65, 0x6e, 0x5f, 0x6c, 0x70]
}

/// The bytes of `do_file`.
pub open spec fn kw_do_file() -> Seq<u8> {
    seq![0x64u8, 0x6f, 0x5f, 0x66, 0x69, 0x6c, 0x65]
}

/// The keyword that `w` spells, in whatever case, if it spells one:
/// `bpm`, `div`, `sync`, `play`, `stop`, `list_outs`, `open_output`,
/// `set_output`, `find_lps`, `open_lp`, `do_file`.
pub open spec fn keyword(w: Seq<u8>) -> Option<Token> {
    if spells(w, kw_bpm()) {
        Some(Token::Bpm)
    } else if spells(w, kw_div()) {
        Some(Token::Div)
    } else if spells(w, kw_sync()) {
        Some(Token::Sync)
    } else if spells(w, kw_play()) {
        Some(Token::Play)
    } else if spells(w, kw_stop()) {
        Some(Token::Stop)
    } else if spells(w, kw_list_outs()) {
        Some(Token::ListOuts)
    } else if spells(w, kw_open_output()) {
        Some(Token::OpenOut)
    } else if spells(w, kw_set_output()) {
        Some(Token::SetOut)
    } else if spells(w, kw_find_lps()) {
        Some(Token::FindLps)
    } else if spells(w, kw_open_lp()) {
        Some(Token::OpenLp)
    } else if spells(w, kw_do_file()) {
        Some(Token::DoFile)
    } else {
        None
    }
}

/// Every byte of `w` is a digit.
pub open spec fn all_digits(w: Seq<u8>) -> bool {
    forall|i: int| 0 <= i < w.len() ==> is_digit(#[trigger] w[i])
}

/// What a name is: a keyword, else a number if all of it is digits, else a
/// symbol.
pub open spec fn classify(w: Seq<u8>) -> Token {
    match keyword(w) {
        Some(t) => t,
        None => if all_digits(w) {
            Token::Digits
        } else {
            Token::Sym
        },
    }
}

/// A pitch name starts at `p`: a letter `a`-`g` in either case, then `b`,
/// `_` or `#`, then a digit `0`-`8`.
pub open spec fn note_at(b: Seq<u8>, p: int) -> bool {
    &&& 0 <= p
    &&& p + 2 < b.len()
    &&& (0x41 <= b[p] <= 0x47 || 0x61 <= b[p] <= 0x67)
    &&& (b[p + 1] == 0x62 || b[p + 1] == 0x5f || b[p + 1] == 0x23)
    &&& 0x30 <= b[p + 2] <= 0x38
}

/// A token with the bytes it spans.
pub struct Lexeme {
    pub tok: Token,
    pub start: int,
    pub end: int,
}

/// The token found by reading from offset `p` on. Blanks are passed over.
/// The longest match wins: a pitch name is a pitch name unless the name it
/// starts is longer than its three bytes. What is no token is an error token
/// of one character.
pub open spec fn lex_at(b: Seq<u8>, p: int) -> Lexeme {
    let q = skip_blanks(b, p);
    if q < 0 || q >= b.len() {
        Lexeme { tok: Token::Eof, start: b.len() as int, end: b.len() as int }
    } else {
        match punct(b[q]) {
            Some(t) => Lexeme { tok: t, start: q, end: q + 1 },
            None => if note_at(b, q) && word_end(b, q) <= q + 3 {
                Lexeme { tok: Token::Note, start: q, end: q + 3 }
            } else if is_word(b[q]) {
                Lexeme {
                    tok: classify(b.subrange(q, word_end(b, q))),
                    start: q,
                    end: word_end(b, q),
                }
            } else {
                Lexeme { tok: Token::Error, start: q, end: char_end(b, q) }
            },
        }
    }
}

/// A run ends inside the input, at or behind where it starts.
pub proof fn lemma_run_end_bounds(b: Seq<u8>, p: int, inside: spec_fn(u8) -> bool)
    requires
        0 <= p <= b.len(),
    ensures
        p <= run_end(b, p, inside) <= b.len(),
        forall|i: int| p <= i < run_end(b, p, inside) ==> inside(#[trigger] b[i]),
        run_end(b, p, inside) < b.len() ==> !inside(b[run_end(b, p, inside)]),
    decreases b.len() - p,
{
    if p < b.len() && inside(b[p]) {
        lemma_run_end_bounds(b, p + 1, inside);
    }
}

/// A run that starts inside another run of the same kind ends where it ends.
pub proof fn lemma_run_end_step(b: Seq<u8>, p: int, q: int, inside: spec_fn(u8) -> bool)
    requires
        0 <= p <= q <= b.len(),
        forall|i: int| p <= i < q ==> inside(#[trigger] b[i]),
    ensures
        run_end(b, p, inside) == run_end(b, q, inside),
    decreases q - p,
{
    if p < q {
        lemma_run_end_step(b, p + 1, q, inside);
    }
}

/// Every token lies inside the input; every token but the end of the input
/// has at least one byte.
pub proof fn lemma_lex_at_bounds(b: Seq<u8>, p: int)
    requires
        0 <= p <= b.len(),
    ensures
        p <= lex_at(b, p).start <= lex_at(b, p).end <= b.len(),
        lex_at(b, p).tok != Token::Eof ==> lex_at(b, p).start < lex_at(b, p).end,
        lex_at(b, p).tok == Token::Eof ==> lex_at(b, p).start == b.len(),
        lex_at(b, lex_at(b, p).start) == lex_at(b, p),
{
    let q = skip_blanks(b, p);
    lemma_run_end_bounds(b, p, |c: u8| is_blank(c));
    if q < b.len() {
        lemma_run_end_bounds(b, q, |c: u8| is_word(c));
        lemma_run_end_bounds(b, q + 1, |c: u8| is_continuation(c));
        lemma_run_end_bounds(b, q, |c: u8| is_blank(c));
        assert(skip_blanks(b, q) == q);
        let w = b.subrange(q, word_end(b, q));
        if is_word(b[q]) {
            assert(word_end(b, q) > q);
            assert(w[0] == b[q]);
            lemma_classify_not_special(w);
        }
    } else {
        lemma_run_end_bounds(b, b.len() as int, |c: u8| is_blank(c));
    }
}

/// A name is never the end of the input nor an error.
pub proof fn lemma_classify_not_special(w: Seq<u8>)
    ensures
        classify(w) != Token::Eof,
        classify(w) != Token::Error,
{
}

/// The state of a lexer as plain mathematics.
pub struct LexerView {
    pub src: Seq<u8>,
    /// The bytes of the token consumed last.
    pub span_start: usize,
    pub span_end: usize,
    /// The token ahead, not yet consumed, and its bytes.
    pub cur: Token,
    pub cur_start: usize,
    pub cur_end: usize,
}

impl LexerView {
    /// The token ahead is the one that the input has there, and it lies
    /// behind the token consumed last.
    pub open spec fn wf(self) -> bool {
        &&& self.span_start <= self.span_end <= self.cur_start <= self.cur_end <= self.src.len()
        &&& self.src.len() <= usize::MAX
        &&& lex_at(self.src, self.cur_start as int) == (Lexeme {
            tok: self.cur,
            start: self.cur_start as int,
            end: self.cur_end as int,
        })
    }

    /// A lexer at the start of `src`.
    pub open spec fn start(src: Seq<u8>) -> LexerView {
        let l = lex_at(src, 0);
        LexerView {
            src,
            span_start: 0,
            span_end: 0,
            cur: l.tok,
            cur_start: l.start as usize,
            cur_end: l.end as usize,
        }
    }

    /// After the token ahead was consumed.
    pub open spec fn advance(self) -> LexerView {
        let l = lex_at(self.src, self.cur_end as int);
        LexerView {
            src: self.src,
            span_start: self.cur_start,
            span_end: self.cur_end,
            cur: l.tok,
            cur_start: l.start as usize,
            cur_end: l.end as usize,
        }
    }

    /// The bytes of the token consumed last.
    pub open spec fn slice(self) -> Seq<u8> {
        self.src.subrange(self.span_start as int, self.span_end as int)
    }

    /// How much input lies ahead; it shrinks with every token consumed.
    pub open spec fn remaining(self) -> nat {
        (self.src.len() - self.cur_start) as nat
    }

    /// What `expect` says of the token ahead.
    pub open spec fn expect(self, tk: Token) -> Result<(), ExpectErr> {
        if self.cur == tk {
            Ok(())
        } else if self.cur == Token::Error {
            Err(ExpectErr::LexErr)
        } else if self.cur == Token::Eof {
            Err(ExpectErr::Eof)
        } else {
            Err(ExpectErr::WrongToken(self.cur))
        }
    }
}

/// Consuming a token keeps the lexer well formed and, unless the input had
/// ended, leaves less input ahead.
pub proof fn lemma_advance(l: LexerView)
    requires
        l.wf(),
    ensures
        l.advance().wf(),
        l.advance().src == l.src,
        l.advance().remaining() <= l.remaining(),
        l.cur != Token::Eof ==> l.advance().remaining() < l.remaining(),
        l.cur == Token::Eof ==> l.advance().cur == Token::Eof,
{
    lemma_lex_at_bounds(l.src, l.cur_start as int);
    lemma_lex_at_bounds(l.src, l.cur_end as int);
}

/// A lexer at the start of its input is well formed.
pub proof fn lemma_start(src: Seq<u8>)
    requires
        src.len() <= usize::MAX,
    ensures
        LexerView::start(src).wf(),
{
    lemma_lex_at_bounds(src, 0);
}

fn is_blank_byte(c: u8) -> (r: bool)
    ensures
        r == is_blank(c),
{
    c == 0x20 || c == 0x09 || c == 0x0c
}

fn is_digit_byte(c: u8) -> (r: bool)
    ensures
        r == is_digit(c),
{
    0x30 <= c && c <= 0x39
}

fn is_word_byte(c: u8) -> (r: bool)
    ensures
        r == is_word(c),
{
    is_digit_byte(c) || (0x41 <= c && c <= 0x5a) || (0x61 <= c && c <= 0x7a) || c == 0x5f
}

fn punct_of(c: u8) -> (r: Option<Token>)
    ensures
        r == punct(c),
{
    if c == 0x28 {
        Some(Token::OpenParen)
    } else if c == 0x29 {
        Some(Token::CloseParen)
    } else if c == 0x5b {
        Some(Token::OpenSq)
    } else if c == 0x5d {
        Some(Token::CloseSq)
    } else if c == 0x7b {
        Some(Token::OpenCrl)
    } else if c == 0x7d {
        Some(Token::CloseCrl)
    } else if c == 0x3c {
        Some(Token::OpenAng)
    } else if c == 0x3e {
        Some(Token::CloseAng)
    } else if c == 0x3d {
        Some(Token::Eq)
    } else if c == 0x2d {
        Some(Token::Dash)
    } else if c == 0x0a {
        Some(Token::Eol)
    } else {
        None
    }
}

fn lower_byte(c: u8) -> (r: u8)
    ensures
        r == lower(c),
{
    if 0x41 <= c && c <= 0x5a {
        c + 0x20
    } else {
        c
    }
}

/// Whether the bytes of `src` from `from` to `to` spell `kw`.
fn word_is(src: &[u8], from: usize, to: usize, kw: &[u8]) -> (r: bool)
    requires
        from <= to <= src@.len(),
    ensures
        r == spells(src@.subrange(from as int, to as int), kw@),
{
    if to - from != kw.len() {
        return false;
    }
    let ghost w = src@.subrange(from as int, to as int);
    let mut i: usize = 0;
    while i < kw.len()
        invariant
            from <= to <= src@.len(),
            to - from == kw@.len(),
            i <= kw@.len(),
            w == src@.subrange(from as int, to as int),
            forall|j: int| 0 <= j < i ==> lower(#[trigger] w[j]) == kw@[j],
        decreases kw.len() - i,
    {
        if lower_byte(src[from + i]) != kw[i] {
            assert(lower(w[i as int]) != kw@[i as int]);
            return false;
        }
        i = i + 1;
    }
    true
}

/// The keyword that the bytes of `src` from `from` to `to` spell.
fn keyword_of(src: &[u8], from: usize, to: usize) -> (r: Option<Token>)
    requires
        from <= to <= src@.len(),
    ensures
        r == keyword(src@.subrange(from as int, to as int)),
{
    let bpm: [u8; 3] = [0x62, 0x70, 0x6d];
    let div: [u8; 3] = [0x64, 0x69, 0x76];
    let sync: [u8; 4] = [0x73, 0x79, 0x6e, 0x63];
    let play: [u8; 4] = [0x70, 0x6c, 0x61, 0x79];
    let stop: [u8; 4] = [0x73, 0x74, 0x6f, 0x70];
    let list_outs: [u8; 9] = [0x6c, 0x69, 0x73, 0x74, 0x5f, 0x6f, 0x75, 0x74, 0x73];
    let open_output: [u8; 11] = [0x6f, 0x70, 0x65, 0x6e, 0x5f, 0x6f, 0x75, 0x74, 0x70, 0x75, 0x74];
    let set_output: [u8; 10] = [0x73, 0x65, 0x74, 0x5f, 0x6f, 0x75, 0x74, 0x70, 0x75, 0x74];
    let find_lps: [u8; 8] = [0x66, 0x69, 0x6e, 0x64, 0x5f, 0x6c, 0x70, 0x73];
    let open_lp: [u8; 7] = [0x6f, 0x70, 0x65, 0x6e, 0x5f, 0x6c, 0x70];
    let do_file: [u8; 7] = [0x64, 0x6f, 0x5f, 0x66, 0x69, 0x6c, 0x65];
    assert(bpm@ =~= kw_bpm());
    assert(div@ =~= kw_div());
    assert(sync@ =~= kw_sync());
    assert(play@ =~= kw_play());
    assert(stop@ =~= kw_stop());
    assert(list_outs@ =~= kw_list_outs());
    assert(open_output@ =~= kw_open_output());
    assert(set_output@ =~= kw_set_output());
    assert(find_lps@ =~= kw_find_lps());
    assert(open_lp@ =~= kw_open_lp());
    assert(do_file@ =~= kw_do_file());
    if word_is(src, from, to, bpm.as_slice()) {
        Some(Token::Bpm)
    } else if word_is(src, from, to, div.as_slice()) {
        Some(Token::Div)
    } else if word_is(src, from, to, sync.as_slice()) {
        Some(Token::Sync)
    } else if word_is(src, from, to, play.as_slice()) {
        Some(Token::Play)
    } else if word_is(src, from, to, stop.as_slice()) {
        Some(Token::Stop)
    } else if word_is(src, from, to, list_outs.as_slice()) {
        Some(Token::ListOuts)
    } else if word_is(src, from, to, open_output.as_slice()) {
        Some(Token::OpenOut)
    } else if word_is(src, from, to, set_output.as_slice()) {
        Some(Token::SetOut)
    } else if word_is(src, from, to, find_lps.as_slice()) {
        Some(Token::FindLps)
    } else if word_is(src, from, to, open_lp.as_slice()) {
        Some(Token::OpenLp)
    } else if word_is(src, from, to, do_file.as_slice()) {
        Some(Token::DoFile)
    } else {
        None
    }
}

/// Whether the bytes of `src` from `from` to `to` are all digits.
fn digits_only(src: &[u8], from: usize, to: usize) -> (r: bool)
    requires
        from <= to <= src@.len(),
    ensures
        r == all_digits(src@.subrange(from as int, to as int)),
{
    let ghost w = src@.subrange(from as int, to as int);
    let mut i: usize = from;
    while i < to
        invariant
            from <= i <= to <= src@.len(),
            w == src@.subrange(from as int, to as int),
            forall|j: int| 0 <= j < i - from ==> is_digit(#[trigger] w[j]),
        decreases to - i,
    {
        if !is_digit_byte(src[i]) {
            assert(!is_digit(w[i - from]));
            return false;
        }
        i = i + 1;
    }
    true
}

/// Reads the token that starts at or behind offset `p`.
fn scan(src: &[u8], p: usize) -> (r: (Token, usize, usize))
    requires
        p <= src@.len(),
    ensures
        lex_at(src@, p as int) == (Lexeme { tok: r.0, start: r.1 as int, end: r.2 as int }),
{
    let len = src.len();
    let ghost b = src@;
    let mut q: usize = p;
    while q < len && is_blank_byte(src[q])
        invariant
            p <= q <= len,
            len == src@.len(),
            b == src@,
            forall|i: int| p <= i < q ==> is_blank(#[trigger] b[i]),
        decreases len - q,
    {
        q = q + 1;
    }
    proof {
        lemma_run_end_step(b, p as int, q as int, |c: u8| is_blank(c));
        assert(skip_blanks(b, p as int) == q);
    }
    if q >= len {
        return (Token::Eof, len, len);
    }
    let c = src[q];
    match punct_of(c) {
        Some(t) => {
            return (t, q, q + 1);
        },
        None => {},
    }
    let mut e: usize = q;
    while e < len && is_word_byte(src[e])
        invariant
            q <= e <= len,
            len == src@.len(),
            b == src@,
            forall|i: int| q <= i < e ==> is_word(#[trigger] b[i]),
        decreases len - e,
    {
        e = e + 1;
    }
    proof {
        lemma_run_end_step(b, q as int, e as int, |c: u8| is_word(c));
        assert(word_end(b, q as int) == e);
    }
    let is_note = len - q > 2 && ((0x41 <= c && c <= 0x47) || (0x61 <= c && c <= 0x67)) && (src[q
        + 1] == 0x62 || src[q + 1] == 0x5f || src[q + 1] == 0x23) && 0x30 <= src[q + 2] && src[q
        + 2] <= 0x38;
    assert(is_note == note_at(b, q as int));
    if is_note && e - q <= 3 {
        return (Token::Note, q, q + 3);
    }
    if is_word_byte(c) {
        let tok = match keyword_of(src, q, e) {
            Some(t) => t,
            None => if digits_only(src, q, e) {
                Token::Digits
            } else {
                Token::Sym
            },
        };
        return (tok, q, e);
    }
    let mut z: usize = q + 1;
    if c >= 0x80 {
        while z < len && 0x80 <= src[z] && src[z] <= 0xbf
            invariant
                q < z <= len,
                len == src@.len(),
                b == src@,
                forall|i: int| q + 1 <= i < z ==> is_continuation(#[trigger] b[i]),
            decreases len - z,
        {
            z = z + 1;
        }
        proof {
            lemma_run_end_step(b, q + 1, z as int, |c: u8| is_continuation(c));
        }
    }
    (Token::Error, q, z)
}

/// A tokenizer over one source text, with one token of lookahead.
#[derive(Debug)]
pub struct Lexer<'a> {
    src: &'a [u8],
    cspan_start: usize,
    cspan_end: usize,
    current: Token,
    cur_start: usize,
    cur_end: usize,
}

impl<'a> View for Lexer<'a> {
    type V = LexerView;

    closed spec fn view(&self) -> LexerView {
        LexerView {
            src: self.src@,
            span_start: self.cspan_start,
            span_end: self.cspan_end,
            cur: self.current,
            cur_start: self.cur_start,
            cur_end: self.cur_end,
        }
    }
}

impl<'a> Lexer<'a> {
    /// A lexer at the start of `src`: nothing consumed, the first token
    /// ahead.
    pub fn new(src: &'a str) -> (r: Self)
        ensures
            r@ == LexerView::start(src.spec_bytes()),
            r@.wf(),
    {
        Lexer::over(src.as_bytes())
    }

    /// A lexer at the start of the bytes `src`.
    pub fn over(src: &'a [u8]) -> (r: Self)
        ensures
            r@ == LexerView::start(src@),
            r@.wf(),
    {
        let (first, s, e) = scan(src, 0);
        proof {
            assert(vstd::slice::spec_slice_len(src) == src@.len());
            lemma_start(src@);
        }
        Self { src, cspan_start: 0, cspan_end: 0, current: first, cur_start: s, cur_end: e }
    }

    /// The token ahead. Nothing is consumed.
    pub fn lookahead(&self) -> (t: Token)
        ensures
            t == self@.cur,
    {
        self.current
    }

    /// Consumes the token ahead and reads the next.
    pub fn advance(&mut self)
        requires
            old(self)@.wf(),
        ensures
            final(self)@ == old(self)@.advance(),
            final(self)@.wf(),
    {
        let _ = self.next();
    }

    /// The bytes of the token consumed last, as a range of offsets.
    pub fn span(&self) -> (r: std::ops::Range<usize>)
        ensures
            r.start == self@.span_start,
            r.end == self@.span_end,
    {
        self.cspan_start..self.cspan_end
    }

    /// Where the token consumed last starts.
    pub fn span_start(&self) -> (r: usize)
        ensures
            r == self@.span_start,
    {
        self.cspan_start
    }

    /// Where the token consumed last ends.
    pub fn span_end(&self) -> (r: usize)
        ensures
            r == self@.span_end,
    {
        self.cspan_end
    }

    /// The text of the token consumed last.
    pub fn slice(&self) -> (r: &'a [u8])
        requires
            self@.wf(),
        ensures
            r@ == self@.slice(),
    {
        vstd::slice::slice_subrange(self.src, self.cspan_start, self.cspan_end)
    }

    /// The whole source text.
    pub fn src(&self) -> (r: &'a [u8])
        ensures
            r@ == self@.src,
    {
        self.src
    }

    /// Consumes the token ahead and returns it.
    pub fn next(&mut self) -> (t: Token)
        requires
            old(self)@.wf(),
        ensures
            t == old(self)@.cur,
            final(self)@ == old(self)@.advance(),
            final(self)@.wf(),
    {
        let out = self.current;
        proof {
            lemma_advance(self@);
        }
        self.cspan_start = self.cur_start;
        self.cspan_end = self.cur_end;
        let (tok, s, e) = scan(self.src, self.cur_end);
        self.current = tok;
        self.cur_start = s;
        self.cur_end = e;
        out
    }

    /// Consumes the token ahead and says whether it was `tk`.
    pub fn expect(&mut self, tk: Token) -> (r: Result<(), ExpectErr>)
        requires
            old(self)@.wf(),
        ensures
            r == old(self)@.expect(tk),
            final(self)@ == old(self)@.advance(),
            final(self)@.wf(),
    {
        let t = self.next();
        if t == tk {
            Ok(())
        } else if t == Token::Error {
            Err(ExpectErr::LexErr)
        } else if t == Token::Eof {
            Err(ExpectErr::Eof)
        } else {
            Err(ExpectErr::WrongToken(t))
        }
    }

    /// Gives up the lexer for its source and the span of the token consumed
    /// last.
    pub fn done(self) -> (r: (&'a [u8], usize, usize))
        ensures
            r.0@ == self@.src,
            r.1 == self@.span_start,
            r.2 == self@.span_end,
    {
        (self.src, self.cspan_start, self.cspan_end)
    }
}

impl Token {
    /// Consumes the token ahead of `lx`. If it is this token, returns it
    /// with its span; if not, hands the lexer back as the error.
    pub fn parse<'a>(self, lx: Lexer<'a>) -> (r: Result<
        ((Token, std::ops::Range<usize>), Lexer<'a>),
        Lexer<'a>,
    >)
        requires
            lx@.wf(),
        ensures
            match r {
                Ok(((t, span), rest)) => lx@.cur == self && t == self && rest@ == lx@.advance()
                    && span.start == lx@.cur_start && span.end == lx@.cur_end,
                Err(rest) => lx@.cur != self && rest@ == lx@.advance(),
            },
    {
        let mut lx = lx;
        let t = lx.next();
        if t == self {
            let span = lx.span();
            Ok(((t, span), lx))
        } else {
            Err(lx)
        }
    }
}

/// How many tokens `tk` stand ahead in a row.
pub open spec fn run_len(l: LexerView, tk: Token) -> nat
    decreases l.remaining(),
    when l.wf()
{
    if l.cur == tk && tk != Token::Eof {
        proof {
            lemma_advance(l);
        }
        1 + run_len(l.advance(), tk)
    } else {
        0
    }
}

/// The lexer after the tokens `tk` that stand ahead in a row were consumed.
pub open spec fn after_run(l: LexerView, tk: Token) -> LexerView
    decreases l.remaining(),
    when l.wf()
{
    if l.cur == tk && tk != Token::Eof {
        proof {
            lemma_advance(l);
        }
        after_run(l.advance(), tk)
    } else {
        l
    }
}

/// Consuming a run of tokens keeps the lexer well formed and leaves no
/// more input ahead than there was; the tokens of the run do not outnumber
/// the bytes that they take.
pub proof fn lemma_after_run(l: LexerView, tk: Token)
    requires
        l.wf(),
    ensures
        after_run(l, tk).wf(),
        after_run(l, tk).src == l.src,
        after_run(l, tk).remaining() <= l.remaining(),
        tk != Token::Eof ==> after_run(l, tk).cur != tk,
        l.cur_start + run_len(l, tk) <= after_run(l, tk).cur_start,
        run_len(l, tk) > 0 ==> after_run(l, tk).span_start >= l.cur_start,
        run_len(l, tk) == 0 ==> after_run(l, tk) == l,
    decreases l.remaining(),
{
    if l.cur == tk && tk != Token::Eof {
        lemma_advance(l);
        lemma_lex_at_bounds(l.src, l.cur_start as int);
        lemma_after_run(l.advance(), tk);
    }
}

impl<'a> Lexer<'a> {
    /// Consumes the tokens `tk` that stand ahead in a row and says how many
    /// they were.
    pub fn skip_run(&mut self, tk: Token) -> (n: usize)
        requires
            old(self)@.wf(),
        ensures
            n == run_len(old(self)@, tk),
            final(self)@ == after_run(old(self)@, tk),
            final(self)@.wf(),
    {
        let mut n: usize = 0;
        if tk == Token::Eof {
            return 0;
        }
        while self.current == tk
            invariant
                self@.wf(),
                tk != Token::Eof,
                n + run_len(self@, tk) == run_len(old(self)@, tk),
                after_run(self@, tk) == after_run(old(self)@, tk),
                old(self)@.cur_start + n <= self@.cur_start,
            decreases self@.remaining(),
        {
            proof {
                lemma_advance(self@);
                lemma_lex_at_bounds(self@.src, self@.cur_start as int);
            }
            self.advance();
            n = n + 1;
        }
        n
    }
}

/// The three bytes of a pitch name.
pub open spec fn is_note(w: Seq<u8>) -> bool {
    w.len() == 3 && note_at(w, 0)
}

impl LexerView {
    /// The bytes of the token ahead.
    pub open spec fn ahead(self) -> Seq<u8> {
        self.src.subrange(self.cur_start as int, self.cur_end as int)
    }
}

/// What the token ahead says of its text: a pitch name is spelled as one,
/// and a number is digits, at least one.
pub proof fn lemma_token_text(l: LexerView)
    requires
        l.wf(),
    ensures
        l.advance().slice() == l.ahead(),
        l.cur == Token::Note ==> is_note(l.ahead()),
        l.cur == Token::Digits ==> all_digits(l.ahead()) && l.ahead().len() > 0,
{
    let b = l.src;
    let p = l.cur_start as int;
    lemma_lex_at_bounds(b, p);
    let q = skip_blanks(b, p);
    lemma_run_end_bounds(b, p, |c: u8| is_blank(c));
    if q < b.len() {
        lemma_run_end_bounds(b, q, |c: u8| is_word(c));
    }
}

} // verus!
