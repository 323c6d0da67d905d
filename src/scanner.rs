use vstd::prelude::*;
use vstd::string::StringSliceAdditionalSpecFns;
use vstd::utf8::{decode_utf8, valid_utf8};

use crate::token::{ScannerErr, Token, TokenView, Type};

verus! {

// ---------------------------------------------------------------------------
// Byte classes
// ---------------------------------------------------------------------------

pub open spec fn spec_is_alpha(b: u8) -> bool {
    ('a' as u8 <= b && b <= 'z' as u8) || ('A' as u8 <= b && b <= 'Z' as u8) || b == '_' as u8
}

pub open spec fn spec_is_digit(b: u8) -> bool {
    '0' as u8 <= b && b <= '9' as u8
}

/// An ASCII letter or underscore.
pub fn is_alpha(byte: u8) -> (r: bool)
    ensures
        r == spec_is_alpha(byte),
{
    (byte >= 'a' as u8 && byte <= 'z' as u8) || (byte >= 'A' as u8 && byte <= 'Z' as u8) || byte == '_' as u8
}

/// An ASCII decimal digit.
pub fn is_digit(byte: u8) -> (r: bool)
    ensures
        r == spec_is_digit(byte),
{
    byte >= '0' as u8 && byte <= '9' as u8
}

/// The kind of a byte that is a token by itself, whatever follows it.
pub open spec fn punct_kind(b: u8) -> Option<Type> {
    if b == '(' as u8 {
        Some(Type::LeftParen)
    } else if b == ')' as u8 {
        Some(Type::RightParen)
    } else if b == '{' as u8 {
        Some(Type::LeftBrace)
    } else if b == '}' as u8 {
        Some(Type::RightBrace)
    } else if b == ',' as u8 {
        Some(Type::Comma)
    } else if b == '.' as u8 {
        Some(Type::Dot)
    } else if b == '-' as u8 {
        Some(Type::Minus)
    } else if b == '+' as u8 {
        Some(Type::Plus)
    } else if b == ';' as u8 {
        Some(Type::Semicolon)
    } else if b == '*' as u8 {
        Some(Type::Star)
    } else {
        None
    }
}

/// For a byte that starts a one- or two-character operator: the kind alone,
/// and the kind when `=` follows.
pub open spec fn operator_kinds(b: u8) -> Option<(Type, Type)> {
    if b == '!' as u8 {
        Some((Type::Bang, Type::BangEqual))
    } else if b == '=' as u8 {
        Some((Type::Equal, Type::EqualEqual))
    } else if b == '<' as u8 {
        Some((Type::Less, Type::LessEqual))
    } else if b == '>' as u8 {
        Some((Type::Greater, Type::GreaterEqual))
    } else {
        None
    }
}

fn punct(b: u8) -> (r: Option<Type>)
    ensures
        r == punct_kind(b),
{
    if b == '(' as u8 {
        Some(Type::LeftParen)
    } else if b == ')' as u8 {
        Some(Type::RightParen)
    } else if b == '{' as u8 {
        Some(Type::LeftBrace)
    } else if b == '}' as u8 {
        Some(Type::RightBrace)
    } else if b == ',' as u8 {
        Some(Type::Comma)
    } else if b == '.' as u8 {
        Some(Type::Dot)
    } else if b == '-' as u8 {
        Some(Type::Minus)
    } else if b == '+' as u8 {
        Some(Type::Plus)
    } else if b == ';' as u8 {
        Some(Type::Semicolon)
    } else if b == '*' as u8 {
        Some(Type::Star)
    } else {
        None
    }
}

fn operator(b: u8) -> (r: Option<(Type, Type)>)
    ensures
        r == operator_kinds(b),
{
    if b == '!' as u8 {
        Some((Type::Bang, Type::BangEqual))
    } else if b == '=' as u8 {
        Some((Type::Equal, Type::EqualEqual))
    } else if b == '<' as u8 {
        Some((Type::Less, Type::LessEqual))
    } else if b == '>' as u8 {
        Some((Type::Greater, Type::GreaterEqual))
    } else {
        None
    }
}

// ---------------------------------------------------------------------------
// Reserved words
// ---------------------------------------------------------------------------

/// The reserved words, each spelled as bytes, with its kind.
pub open spec fn keyword_table() -> Seq<(Seq<u8>, Type)> {
    seq![
        (seq!['a' as u8, 'n' as u8, 'd' as u8], Type::And),
        (seq!['c' as u8, 'l' as u8, 'a' as u8, 's' as u8, 's' as u8], Type::Class),
        (seq!['e' as u8, 'l' as u8, 's' as u8, 'e' as u8], Type::Else),
        (seq!['f' as u8, 'a' as u8, 'l' as u8, 's' as u8, 'e' as u8], Type::False),
        (seq!['f' as u8, 'o' as u8, 'r' as u8], Type::For),
        (seq!['f' as u8, 'u' as u8, 'n' as u8], Type::Fun),
        (seq!['i' as u8, 'f' as u8], Type::If),
        (seq!['n' as u8, 'i' as u8, 'l' as u8], Type::Nil),
        (seq!['o' as u8, 'r' as u8], Type::Or),
        (seq!['p' as u8, 'r' as u8, 'i' as u8, 'n' as u8, 't' as u8], Type::Print),
        (seq!['r' as u8, 'e' as u8, 't' as u8, 'u' as u8, 'r' as u8, 'n' as u8], Type::Return),
        (seq!['s' as u8, 'u' as u8, 'p' as u8, 'e' as u8, 'r' as u8], Type::Super),
        (seq!['t' as u8, 'h' as u8, 'i' as u8, 's' as u8], Type::This),
        (seq!['t' as u8, 'r' as u8, 'u' as u8, 'e' as u8], Type::True),
        (seq!['v' as u8, 'a' as u8, 'r' as u8], Type::Var),
        (seq!['w' as u8, 'h' as u8, 'i' as u8, 'l' as u8, 'e' as u8], Type::While),
    ]
}

/// The kind of the first entry of `table` spelled exactly `s`, if any.
pub open spec fn lookup(table: Seq<(Seq<u8>, Type)>, s: Seq<u8>) -> Option<Type>
    decreases table.len(),
{
    if table.len() == 0 {
        None
    } else if table[0].0 == s {
        Some(table[0].1)
    } else {
        lookup(table.drop_first(), s)
    }
}

/// The reserved word spelled exactly `s`, if `s` is one.
pub open spec fn keyword_of(s: Seq<u8>) -> Option<Type> {
    lookup(keyword_table(), s)
}

// ---------------------------------------------------------------------------
// Extents of multi-byte lexemes
// ---------------------------------------------------------------------------

/// The first index from `i` on that does not hold a digit.
pub open spec fn digits_end(src: Seq<u8>, i: int) -> int
    decreases src.len() - i,
{
    if 0 <= i < src.len() && spec_is_digit(src[i]) {
        digits_end(src, i + 1)
    } else {
        i
    }
}

/// The first index from `i` on that holds neither a letter, a digit nor `_`.
pub open spec fn word_end(src: Seq<u8>, i: int) -> int
    decreases src.len() - i,
{
    if 0 <= i < src.len() && (spec_is_alpha(src[i]) || spec_is_digit(src[i])) {
        word_end(src, i + 1)
    } else {
        i
    }
}

/// The first index from `i` on that holds `stop`, or the length if none does.
pub open spec fn find_byte(src: Seq<u8>, i: int, stop: u8) -> int
    decreases src.len() - i,
{
    if 0 <= i < src.len() && src[i] != stop {
        find_byte(src, i + 1, stop)
    } else {
        i
    }
}

/// How many newlines `src` holds in `[a, b)`.
pub open spec fn newlines(src: Seq<u8>, a: int, b: int) -> int
    decreases b - a,
{
    if b <= a {
        0
    } else {
        newlines(src, a, b - 1) + if src[b - 1] == '\n' as u8 { 1int } else { 0int }
    }
}

/// The end of a number that starts at `i`: its digits, and a fraction only
/// where a digit follows the dot.
pub open spec fn number_end(src: Seq<u8>, i: int) -> int {
    let e = digits_end(src, i + 1);
    if e + 1 < src.len() && src[e] == '.' as u8 && spec_is_digit(src[e + 1]) {
        digits_end(src, e + 1)
    } else {
        e
    }
}

pub proof fn lemma_digits_end(src: Seq<u8>, i: int)
    requires
        0 <= i <= src.len(),
    ensures
        i <= digits_end(src, i) <= src.len(),
    decreases src.len() - i,
{
    if i < src.len() && spec_is_digit(src[i]) {
        lemma_digits_end(src, i + 1);
    }
}

pub proof fn lemma_word_end(src: Seq<u8>, i: int)
    requires
        0 <= i <= src.len(),
    ensures
        i <= word_end(src, i) <= src.len(),
    decreases src.len() - i,
{
    if i < src.len() && (spec_is_alpha(src[i]) || spec_is_digit(src[i])) {
        lemma_word_end(src, i + 1);
    }
}

pub proof fn lemma_find_byte(src: Seq<u8>, i: int, stop: u8)
    requires
        0 <= i <= src.len(),
    ensures
        i <= find_byte(src, i, stop) <= src.len(),
        find_byte(src, i, stop) < src.len() ==> src[find_byte(src, i, stop)] == stop,
    decreases src.len() - i,
{
    if i < src.len() && src[i] != stop {
        lemma_find_byte(src, i + 1, stop);
    }
}

// ---------------------------------------------------------------------------
// One step of the scan, mathematically
// ---------------------------------------------------------------------------

/// What one step of the scan finds after skipping blanks, newlines and comments.
pub enum Outcome {
    /// The source is exhausted.
    End,
    /// A lexeme of the given kind spans `[from, to)`.
    Lexeme(Type, int, int),
    /// A byte that starts no lexeme.
    Unexpected,
    /// A string whose closing quote never comes.
    Unterminated,
}

/// One step of the scan: what it finds, where the next step starts, and the
/// line counter after it.
pub struct Step {
    pub outcome: Outcome,
    pub next: int,
    pub line: int,
}

/// The step of the scan that starts at offset `pos` with line counter `line`.
pub open spec fn step(src: Seq<u8>, pos: int, line: int) -> Step
    decreases src.len() - pos,
{
    if pos < 0 || pos >= src.len() {
        Step { outcome: Outcome::End, next: pos, line }
    } else {
        let b = src[pos];
        if b == ' ' as u8 || b == '\r' as u8 || b == '\t' as u8 {
            step(src, pos + 1, line)
        } else if b == '\n' as u8 {
            step(src, pos + 1, line + 1)
        } else if b == '/' as u8 && pos + 1 < src.len() && src[pos + 1] == '/' as u8 {
            proof {
                lemma_find_byte(src, pos + 2, '\n' as u8);
            }
            step(src, find_byte(src, pos + 2, '\n' as u8), line)
        } else if b == '"' as u8 {
            let e = find_byte(src, pos + 1, '"' as u8);
            if e >= src.len() {
                Step {
                    outcome: Outcome::Unterminated,
                    next: src.len() as int,
                    line: line + newlines(src, pos + 1, src.len() as int),
                }
            } else {
                Step {
                    outcome: Outcome::Lexeme(Type::String, pos, e + 1),
                    next: e + 1,
                    line: line + newlines(src, pos + 1, e),
                }
            }
        } else if spec_is_digit(b) {
            let e = number_end(src, pos);
            Step { outcome: Outcome::Lexeme(Type::Number, pos, e), next: e, line }
        } else if spec_is_alpha(b) {
            let e = word_end(src, pos + 1);
            let kind = match keyword_of(src.subrange(pos, e)) {
                Some(k) => k,
                None => Type::Identifier,
            };
            Step { outcome: Outcome::Lexeme(kind, pos, e), next: e, line }
        } else if b == '/' as u8 {
            Step { outcome: Outcome::Lexeme(Type::Slash, pos, pos + 1), next: pos + 1, line }
        } else if punct_kind(b).is_some() {
            Step {
                outcome: Outcome::Lexeme(punct_kind(b).unwrap(), pos, pos + 1),
                next: pos + 1,
                line,
            }
        } else if operator_kinds(b).is_some() {
            let (alone, with_eq) = operator_kinds(b).unwrap();
            if pos + 1 < src.len() && src[pos + 1] == '=' as u8 {
                Step { outcome: Outcome::Lexeme(with_eq, pos, pos + 2), next: pos + 2, line }
            } else {
                Step { outcome: Outcome::Lexeme(alone, pos, pos + 1), next: pos + 1, line }
            }
        } else {
            Step { outcome: Outcome::Unexpected, next: pos + 1, line }
        }
    }
}

/// What the scanner hands out for a step: nothing at the end, a token where
/// the lexeme's bytes are valid UTF-8, else an error stamped with the line
/// counter after the step.
pub open spec fn item_of(src: Seq<u8>, s: Step) -> Option<Result<TokenView, ScannerErr>> {
    match s.outcome {
        Outcome::End => None,
        Outcome::Unexpected => Some(Err(ScannerErr::UnexpectedCharacter(s.line as usize))),
        Outcome::Unterminated => Some(Err(ScannerErr::UnterminatedString(s.line as usize))),
        Outcome::Lexeme(kind, from, to) => if valid_utf8(src.subrange(from, to)) {
            Some(Ok(TokenView { kind, text: decode_utf8(src.subrange(from, to)), line: s.line }))
        } else {
            Some(Err(ScannerErr::BadUtf8(s.line as usize)))
        },
    }
}

pub open spec fn result_view(r: Result<Token, ScannerErr>) -> Result<TokenView, ScannerErr> {
    match r {
        Ok(t) => Ok(t@),
        Err(e) => Err(e),
    }
}

pub open spec fn option_view(r: Option<Result<Token, ScannerErr>>) -> Option<
    Result<TokenView, ScannerErr>,
> {
    match r {
        None => None,
        Some(x) => Some(result_view(x)),
    }
}

/// The state of a scanner: the source bytes, the offset of the next
/// unconsumed byte, and the line counter.
pub struct ScanState {
    pub source: Seq<u8>,
    pub start: int,
    pub line: int,
}

/// The state of a scanner just made over `source`.
pub open spec fn fresh(source: Seq<u8>) -> ScanState {
    ScanState { source, start: 0, line: 1 }
}

/// The state after one call of `next`.
pub open spec fn advance(st: ScanState) -> ScanState {
    let s = step(st.source, st.start, st.line);
    ScanState { source: st.source, start: s.next, line: s.line }
}

/// What one call of `next` hands out.
pub open spec fn emitted(st: ScanState) -> Option<Result<TokenView, ScannerErr>> {
    item_of(st.source, step(st.source, st.start, st.line))
}

// ---------------------------------------------------------------------------
// The scanner
// ---------------------------------------------------------------------------

/// A single-pass, forward-only scanner over one source text. It holds a copy
/// of the text's bytes; lexemes are copied out of it.
pub struct Scanner {
    source: Vec<u8>,
    keywords: Vec<(Vec<u8>, Type)>,
    start: usize,
    line: usize,
}

impl View for Scanner {
    type V = ScanState;

    closed spec fn view(&self) -> ScanState {
        ScanState { source: self.source@, start: self.start as int, line: self.line as int }
    }
}

/// Relies on `String::from_utf8`: it succeeds exactly on valid UTF-8, and the
/// text it returns is what those bytes decode to.
#[verifier::external_body]
fn utf8_text(bytes: Vec<u8>) -> (r: Option<String>)
    ensures
        r.is_some() == valid_utf8(bytes@),
        r.is_some() ==> r.unwrap()@ == decode_utf8(bytes@),
{
    String::from_utf8(bytes).ok()
}

/// The bytes of `src` in `[from, to)`.
fn copy_range(src: &Vec<u8>, from: usize, to: usize) -> (r: Vec<u8>)
    requires
        from <= to <= src.len(),
    ensures
        r@ == src@.subrange(from as int, to as int),
{
    let mut r: Vec<u8> = Vec::new();
    let mut i: usize = from;
    while i < to
        invariant
            from <= i <= to <= src.len(),
            r@ == src@.subrange(from as int, i as int),
        decreases to - i,
    {
        r.push(src[i]);
        i = i + 1;
    }
    r
}

/// Whether `word` is spelled exactly as the bytes of `src` in `[from, to)`.
fn spelled(word: &Vec<u8>, src: &Vec<u8>, from: usize, to: usize) -> (r: bool)
    requires
        from <= to <= src.len(),
    ensures
        r == (word@ == src@.subrange(from as int, to as int)),
{
    if word.len() != to - from {
        return false;
    }
    let mut i: usize = 0;
    while i < word.len()
        invariant
            word.len() == to - from,
            from <= to <= src.len(),
            i <= word.len(),
            forall|k: int| 0 <= k < i ==> word@[k] == src@[from + k],
        decreases word.len() - i,
    {
        if word[i] != src[from + i] {
            return false;
        }
        i = i + 1;
    }
    assert(word@ =~= src@.subrange(from as int, to as int));
    true
}

/// Consumes `against` at `*current` if it is there.
fn matches(source: &Vec<u8>, against: u8, current: &mut usize) -> (r: bool)
    ensures
        r == (*old(current) < source.len() && source@[*old(current) as int] == against),
        *final(current) == if r { *old(current) + 1 } else { *old(current) as int },
{
    if *current >= source.len() {
        false
    } else if source[*current] != against {
        false
    } else {
        *current = *current + 1;
        true
    }
}

/// The first index from `i` on that does not hold a digit.
fn scan_digits(src: &Vec<u8>, i: usize) -> (r: usize)
    requires
        i <= src.len(),
    ensures
        r == digits_end(src@, i as int),
{
    let mut j: usize = i;
    while j < src.len() && is_digit(src[j])
        invariant
            i <= j <= src.len(),
            digits_end(src@, j as int) == digits_end(src@, i as int),
        decreases src.len() - j,
    {
        j = j + 1;
    }
    j
}

/// The first index from `i` on that holds neither a letter, a digit nor `_`.
fn scan_word(src: &Vec<u8>, i: usize) -> (r: usize)
    requires
        i <= src.len(),
    ensures
        r == word_end(src@, i as int),
{
    let mut j: usize = i;
    while j < src.len() && (is_alpha(src[j]) || is_digit(src[j]))
        invariant
            i <= j <= src.len(),
            word_end(src@, j as int) == word_end(src@, i as int),
        decreases src.len() - j,
    {
        j = j + 1;
    }
    j
}

/// The first index from `i` on that holds a newline, or the length.
fn scan_line(src: &Vec<u8>, i: usize) -> (r: usize)
    requires
        i <= src.len(),
    ensures
        r == find_byte(src@, i as int, '\n' as u8),
{
    let mut j: usize = i;
    while j < src.len() && src[j] != '\n' as u8
        invariant
            i <= j <= src.len(),
            find_byte(src@, j as int, '\n' as u8) == find_byte(src@, i as int, '\n' as u8),
        decreases src.len() - j,
    {
        j = j + 1;
    }
    j
}

/// The end of the number that starts at `i`.
fn scan_number(src: &Vec<u8>, i: usize) -> (r: usize)
    requires
        i < src.len(),
    ensures
        r == number_end(src@, i as int),
        i < r <= src.len(),
{
    let e = scan_digits(src, i + 1);
    proof {
        lemma_digits_end(src@, i + 1);
    }
    let r = if e < src.len() && e + 1 < src.len() && src[e] == '.' as u8 && is_digit(src[e + 1]) {
        let f = scan_digits(src, e + 1);
        proof {
            lemma_digits_end(src@, e + 1);
        }
        f
    } else {
        e
    };
    r
}

/// The table holds the reserved words, in the order of `keyword_table`.
pub closed spec fn holds_keywords(k: Seq<(Vec<u8>, Type)>) -> bool {
    &&& k.len() == keyword_table().len()
    &&& forall|i: int|
        0 <= i < k.len() ==> #[trigger] k[i].0@ == keyword_table()[i].0 && k[i].1
            == keyword_table()[i].1
}

impl Scanner {
    /// The scanner's invariant: the offset lies within the source, the line
    /// counter has grown by at most one per consumed byte, and the keyword
    /// table holds exactly the reserved words.
    pub closed spec fn wf(&self) -> bool {
        &&& self.start <= self.source.len() <= isize::MAX
        &&& 1 <= self.line <= self.start + 1
        &&& holds_keywords(self.keywords@)
    }

    /// A scanner at the start of `source`, on line 1.
    pub fn new(source: &str) -> (r: Scanner)
        requires
            source.spec_bytes().len() <= isize::MAX,
        ensures
            r.wf(),
            r@ == fresh(source.spec_bytes()),
    {
        let bytes = vstd::slice::slice_to_vec(source.as_bytes());
        let keywords: Vec<(Vec<u8>, Type)> = vec![
            (vec!['a' as u8, 'n' as u8, 'd' as u8], Type::And),
            (vec!['c' as u8, 'l' as u8, 'a' as u8, 's' as u8, 's' as u8], Type::Class),
            (vec!['e' as u8, 'l' as u8, 's' as u8, 'e' as u8], Type::Else),
            (vec!['f' as u8, 'a' as u8, 'l' as u8, 's' as u8, 'e' as u8], Type::False),
            (vec!['f' as u8, 'o' as u8, 'r' as u8], Type::For),
            (vec!['f' as u8, 'u' as u8, 'n' as u8], Type::Fun),
            (vec!['i' as u8, 'f' as u8], Type::If),
            (vec!['n' as u8, 'i' as u8, 'l' as u8], Type::Nil),
            (vec!['o' as u8, 'r' as u8], Type::Or),
            (vec!['p' as u8, 'r' as u8, 'i' as u8, 'n' as u8, 't' as u8], Type::Print),
            (vec!['r' as u8, 'e' as u8, 't' as u8, 'u' as u8, 'r' as u8, 'n' as u8], Type::Return),
            (vec!['s' as u8, 'u' as u8, 'p' as u8, 'e' as u8, 'r' as u8], Type::Super),
            (vec!['t' as u8, 'h' as u8, 'i' as u8, 's' as u8], Type::This),
            (vec!['t' as u8, 'r' as u8, 'u' as u8, 'e' as u8], Type::True),
            (vec!['v' as u8, 'a' as u8, 'r' as u8], Type::Var),
            (vec!['w' as u8, 'h' as u8, 'i' as u8, 'l' as u8, 'e' as u8], Type::While),
        ];
        proof {
            assert forall|i: int| 0 <= i < keywords.len() implies #[trigger] keywords@[i].0@
                == keyword_table()[i].0 && keywords@[i].1 == keyword_table()[i].1 by {
                assert(keywords@[i].0@ =~= keyword_table()[i].0);
            }
        }
        Scanner { source: bytes, keywords, start: 0, line: 1 }
    }

    /// The reserved word spelled by the source bytes in `[from, to)`, if any.
    fn keyword(&self, from: usize, to: usize) -> (r: Option<Type>)
        requires
            self.wf(),
            from <= to <= self.source.len(),
        ensures
            r == keyword_of(self.source@.subrange(from as int, to as int)),
    {
        let ghost s = self.source@.subrange(from as int, to as int);
        assert(keyword_table().subrange(0, keyword_table().len() as int) =~= keyword_table());
        let mut i: usize = 0;
        while i < self.keywords.len()
            invariant
                self.wf(),
                from <= to <= self.source.len(),
                s == self.source@.subrange(from as int, to as int),
                i <= self.keywords.len(),
                lookup(keyword_table().subrange(i as int, keyword_table().len() as int), s)
                    == keyword_of(s),
            decreases self.keywords.len() - i,
        {
            let ghost rest = keyword_table().subrange(i as int, keyword_table().len() as int);
            assert(rest.drop_first() =~= keyword_table().subrange(
                i + 1,
                keyword_table().len() as int,
            ));
            assert(rest[0] == keyword_table()[i as int]);
            assert(self.keywords@[i as int].0@ == keyword_table()[i as int].0);
            assert(lookup(rest, s) == if rest[0].0 == s {
                Some(rest[0].1)
            } else {
                lookup(rest.drop_first(), s)
            });
            if spelled(&self.keywords[i].0, &self.source, from, to) {
                return Some(self.keywords[i].1);
            }
            i = i + 1;
        }
        None
    }

    /// Ends the lexeme `[self.start, to)` of the given kind, with the line
    /// counter at `line`: a token where its bytes are valid UTF-8, else an
    /// error.
    fn finish(&mut self, kind: Type, to: usize, line: usize) -> (r: Result<Token, ScannerErr>)
        requires
            old(self).wf(),
            old(self).start < to <= old(self).source.len(),
            1 <= line <= to + 1,
        ensures
            final(self).wf(),
            final(self)@ == (ScanState { start: to as int, line: line as int, ..old(self)@ }),
            Some(result_view(r)) == item_of(
                old(self)@.source,
                Step {
                    outcome: Outcome::Lexeme(kind, old(self).start as int, to as int),
                    next: to as int,
                    line: line as int,
                },
            ),
    {
        let bytes = copy_range(&self.source, self.start, to);
        self.start = to;
        self.line = line;
        match utf8_text(bytes) {
            Some(text) => Ok(Token { token_type: kind, lexeme: text, line }),
            None => Err(ScannerErr::BadUtf8(line)),
        }
    }

    /// Scans a string literal whose opening quote is at `self.start`.
    fn lex_string(&mut self) -> (r: Result<Token, ScannerErr>)
        requires
            old(self).wf(),
            old(self).start < old(self).source.len(),
            old(self).source@[old(self).start as int] == '"' as u8,
        ensures
            final(self).wf(),
            final(self)@ == advance(old(self)@),
            Some(result_view(r)) == emitted(old(self)@),
            final(self).start > old(self).start,
    {
        let ghost src = self.source@;
        let ghost pos = self.start as int;
        let ghost line0 = self.line as int;
        let mut current: usize = self.start + 1;
        let mut line: usize = self.line;
        while current < self.source.len() && self.source[current] != '"' as u8
            invariant
                self.wf(),
                self.source@ == src,
                self.start == pos,
                self.line == line0,
                pos < current <= src.len(),
                1 <= line <= current + 1,
                line == line0 + newlines(src, pos + 1, current as int),
                find_byte(src, current as int, '"' as u8) == find_byte(src, pos + 1, '"' as u8),
            decreases self.source.len() - current,
        {
            if self.source[current] == '\n' as u8 {
                line = line + 1;
            }
            current = current + 1;
        }
        if current >= self.source.len() {
            self.start = current;
            self.line = line;
            return Err(ScannerErr::UnterminatedString(line));
        }
        self.finish(Type::String, current + 1, line)
    }

    /// Scans the lexeme, other than a string, that starts at `self.start`
    /// with a byte that is neither blank nor a newline nor a comment's start.
    fn lex_other(&mut self) -> (r: Result<Token, ScannerErr>)
        requires
            old(self).wf(),
            old(self).start < old(self).source.len(),
            ({
                let b = old(self).source@[old(self).start as int];
                &&& b != ' ' as u8 && b != '\r' as u8 && b != '\t' as u8
                &&& b != '\n' as u8 && b != '"' as u8
                &&& !(b == '/' as u8 && old(self).start + 1 < old(self).source.len()
                    && old(self).source@[old(self).start + 1] == '/' as u8)
            }),
        ensures
            final(self).wf(),
            final(self)@ == advance(old(self)@),
            Some(result_view(r)) == emitted(old(self)@),
            final(self).start > old(self).start,
    {
        let pos = self.start;
        let byte = self.source[pos];
        if is_digit(byte) {
            let end = scan_number(&self.source, pos);
            self.finish(Type::Number, end, self.line)
        } else if is_alpha(byte) {
            let end = scan_word(&self.source, pos + 1);
            proof {
                lemma_word_end(self.source@, pos + 1);
            }
            let kind = match self.keyword(pos, end) {
                Some(k) => k,
                None => Type::Identifier,
            };
            self.finish(kind, end, self.line)
        } else if byte == '/' as u8 {
            self.finish(Type::Slash, pos + 1, self.line)
        } else if let Some(kind) = punct(byte) {
            self.finish(kind, pos + 1, self.line)
        } else if let Some((alone, with_eq)) = operator(byte) {
            let mut current: usize = pos + 1;
            if matches(&self.source, '=' as u8, &mut current) {
                self.finish(with_eq, current, self.line)
            } else {
                self.finish(alone, current, self.line)
            }
        } else {
            self.start = pos + 1;
            Err(ScannerErr::UnexpectedCharacter(self.line))
        }
    }

    /// Hands out the next token or lexical error, or nothing once the source
    /// is exhausted. Blanks, newlines and comments are consumed on the way
    /// and produce nothing.
    pub fn next(&mut self) -> (r: Option<Result<Token, ScannerErr>>)
        requires
            old(self).wf(),
        ensures
            final(self).wf(),
            final(self)@ == advance(old(self)@),
            option_view(r) == emitted(old(self)@),
            r.is_some() ==> final(self)@.start > old(self)@.start,
            r.is_none() ==> final(self)@.start >= final(self)@.source.len(),
    {
        let ghost orig = self@;
        loop
            invariant
                orig == old(self)@,
                self.wf(),
                self@.source == orig.source,
                orig.start <= self.start,
                step(orig.source, self.start as int, self.line as int) == step(
                    orig.source,
                    orig.start,
                    orig.line,
                ),
            decreases self.source.len() - self.start,
        {
            let pos = self.start;
            if pos >= self.source.len() {
                return None;
            }
            let byte = self.source[pos];
            if byte == ' ' as u8 || byte == '\r' as u8 || byte == '\t' as u8 {
                self.start = pos + 1;
            } else if byte == '\n' as u8 {
                self.start = pos + 1;
                self.line = self.line + 1;
            } else if byte == '/' as u8 && pos + 1 < self.source.len() && self.source[pos + 1]
                == '/' as u8 {
                self.start = scan_line(&self.source, pos + 2);
                proof {
                    lemma_find_byte(self.source@, pos + 2, '\n' as u8);
                }
            } else if byte == '"' as u8 {
                return Some(self.lex_string());
            } else {
                return Some(self.lex_other());
            }
        }
    }
}

// ---------------------------------------------------------------------------
// The whole scan
// ---------------------------------------------------------------------------

/// Everything that successive calls of `next` hand out from state
/// `(pos, line)` on, in order, up to the first call that hands out nothing.
pub open spec fn scan_items(src: Seq<u8>, pos: int, line: int) -> Seq<
    Result<TokenView, ScannerErr>,
>
    decreases src.len() - pos,
{
    let s = step(src, pos, line);
    match item_of(src, s) {
        None => Seq::empty(),
        Some(x) => if pos < s.next <= src.len() {
            seq![x] + scan_items(src, s.next, s.line)
        } else {
            seq![x]
        },
    }
}

/// Everything that a fresh scanner over `source` hands out.
pub open spec fn scan(source: Seq<u8>) -> Seq<Result<TokenView, ScannerErr>> {
    scan_items(source, fresh(source).start, fresh(source).line)
}

pub open spec fn items_view(v: Seq<Result<Token, ScannerErr>>) -> Seq<
    Result<TokenView, ScannerErr>,
> {
    v.map_values(|x: Result<Token, ScannerErr>| result_view(x))
}

/// Re-scanning the same text with a fresh scanner hands out the same
/// sequence of tokens and errors: for every `n`, the `n`-th call on each of
/// two fresh scanners over equal texts hands out the same item, namely the
/// `n`-th item of the scan of that text, or nothing once it is over.
pub proof fn lemma_rescan_identical(a: Seq<u8>, b: Seq<u8>, n: nat)
    requires
        a == b,
    ensures
        emitted(after_calls(fresh(a), n)) == emitted(after_calls(fresh(b), n)),
        after_calls(fresh(a), n) == after_calls(fresh(b), n),
        emitted(after_calls(fresh(a), n)) == if n < scan(a).len() {
            Some(scan(a)[n as int])
        } else {
            None::<Result<TokenView, ScannerErr>>
        },
{
    lemma_nth_call(fresh(a), n);
}

proof fn lemma_step_ends(src: Seq<u8>, pos: int, line: int)
    requires
        0 <= pos,
    ensures
        step(src, pos, line).outcome is Unterminated ==> step(src, pos, line).next == src.len(),
        step(src, pos, line).outcome is End ==> step(src, pos, line).next >= src.len(),
        pos <= step(src, pos, line).next,
        !(step(src, pos, line).outcome is End) ==> pos < step(src, pos, line).next <= src.len(),
    decreases src.len() - pos,
{
    if pos < src.len() {
        let b = src[pos];
        lemma_find_byte(src, pos + 1, '"' as u8);
        lemma_digits_end(src, pos + 1);
        if pos + 1 <= digits_end(src, pos + 1) < src.len() {
            lemma_digits_end(src, digits_end(src, pos + 1) + 1);
        }
        lemma_word_end(src, pos + 1);
        if b == ' ' as u8 || b == '\r' as u8 || b == '\t' as u8 {
            lemma_step_ends(src, pos + 1, line);
        } else if b == '\n' as u8 {
            lemma_step_ends(src, pos + 1, line + 1);
        } else if b == '/' as u8 && pos + 1 < src.len() && src[pos + 1] == '/' as u8 {
            lemma_find_byte(src, pos + 2, '\n' as u8);
            lemma_step_ends(src, find_byte(src, pos + 2, '\n' as u8), line);
        }
    }
}

/// The state after `n` calls of `next`.
pub open spec fn after_calls(st: ScanState, n: nat) -> ScanState
    decreases n,
{
    if n == 0 {
        st
    } else {
        after_calls(advance(st), (n - 1) as nat)
    }
}

proof fn lemma_end_stays(st: ScanState, n: nat)
    requires
        0 <= st.start,
        emitted(st) is None,
    ensures
        emitted(after_calls(st, n)) is None,
        0 <= after_calls(st, n).start,
    decreases n,
{
    lemma_step_ends(st.source, st.start, st.line);
    if n > 0 {
        let a = advance(st);
        lemma_step_ends(a.source, a.start, a.line);
        lemma_end_stays(a, (n - 1) as nat);
    }
}

/// The `n`-th call of `next` (counting from zero) from state `st` hands out
/// the `n`-th item of the scan from `st`, and nothing once the scan is over.
pub proof fn lemma_nth_call(st: ScanState, n: nat)
    requires
        0 <= st.start,
    ensures
        emitted(after_calls(st, n)) == if n < scan_items(st.source, st.start, st.line).len() {
            Some(scan_items(st.source, st.start, st.line)[n as int])
        } else {
            None::<Result<TokenView, ScannerErr>>
        },
    decreases n,
{
    lemma_step_ends(st.source, st.start, st.line);
    let items = scan_items(st.source, st.start, st.line);
    match emitted(st) {
        None => {
            lemma_end_stays(st, n);
        },
        Some(x) => {
            let a = advance(st);
            let rest = scan_items(a.source, a.start, a.line);
            assert(items == seq![x] + rest);
            if n > 0 {
                lemma_nth_call(a, (n - 1) as nat);
                if n < items.len() {
                    assert(items[n as int] == rest[n - 1]);
                }
            }
        },
    }
}

/// Once a string fails to terminate, the scan is over: the next call hands
/// out nothing.
pub proof fn lemma_unterminated_ends_scan(st: ScanState)
    requires
        0 <= st.start,
        emitted(st) matches Some(Err(ScannerErr::UnterminatedString(_))),
    ensures
        emitted(advance(st)) is None,
{
    lemma_step_ends(st.source, st.start, st.line);
}

/// An exhausted scanner stays exhausted: once a call hands out nothing, so
/// does every later call.
pub proof fn lemma_end_is_final(st: ScanState)
    requires
        0 <= st.start,
        emitted(st) is None,
    ensures
        emitted(advance(st)) is None,
{
    lemma_step_ends(st.source, st.start, st.line);
}

impl Scanner {
    /// Hands out everything that is left to scan, in order.
    pub fn drain(&mut self) -> (r: Vec<Result<Token, ScannerErr>>)
        requires
            old(self).wf(),
        ensures
            final(self).wf(),
            final(self)@.source == old(self)@.source,
            items_view(r@) == scan_items(old(self)@.source, old(self)@.start, old(self)@.line),
            forall|i: int|
                0 <= i < r@.len() ==> (#[trigger] r@[i] matches Ok(t) ==> t.line
                    <= final(self)@.source.len() + 1),
    {
        let ghost src = self@.source;
        let ghost total = scan_items(src, self@.start, self@.line);
        let mut out: Vec<Result<Token, ScannerErr>> = Vec::new();
        loop
            invariant
                self.wf(),
                self@.source == src,
                src == old(self)@.source,
                total == scan_items(old(self)@.source, old(self)@.start, old(self)@.line),
                total == items_view(out@) + scan_items(src, self@.start, self@.line),
                forall|i: int|
                    0 <= i < out@.len() ==> (#[trigger] out@[i] matches Ok(t) ==> t.line
                        <= src.len() + 1),
            decreases src.len() - self@.start,
        {
            let ghost before = self@;
            match self.next() {
                None => {
                    assert(items_view(out@) + Seq::empty() =~= items_view(out@));
                    return out;
                },
                Some(item) => {
                    let ghost prev = out@;
                    let ghost v = result_view(item);
                    assert(scan_items(src, before.start, before.line) == seq![v] + scan_items(
                        src,
                        self@.start,
                        self@.line,
                    ));
                    out.push(item);
                    assert(items_view(out@) =~= items_view(prev).push(v));
                    assert(items_view(prev) + (seq![v] + scan_items(src, self@.start, self@.line))
                        =~= items_view(prev).push(v) + scan_items(src, self@.start, self@.line));
                },
            }
        }
    }
}

} // verus!
