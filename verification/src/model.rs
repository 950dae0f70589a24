//! The mathematical model of the scanner: character classes, the cursor
//! arithmetic for each sub-scanner, and a functional description of one
//! "produce next token" step and of the whole token stream.
use vstd::prelude::*;
use crate::token::TokenKind;
use crate::token::lookup_spec;

verus! {

// ---------------------------------------------------------------------------
// Character classes
// ---------------------------------------------------------------------------
/// Names the result of `char::is_alphabetic` beyond ASCII: whether a
/// character has the Unicode `Alphabetic` property. A function of the
/// character alone.
pub uninterp spec fn alphabetic(c: char) -> bool;

/// The ASCII letters.
pub open spec fn is_ascii_letter(c: char) -> bool {
    ('a' <= c && c <= 'z') || ('A' <= c && c <= 'Z')
}

/// Whether the scanner counts `c` as alphabetic: within ASCII exactly the
/// letters `a`-`z` and `A`-`Z`, beyond ASCII whatever the Unicode
/// `Alphabetic` property says.
pub open spec fn char_alphabetic(c: char) -> bool {
    if (c as u32) < 128 {
        is_ascii_letter(c)
    } else {
        alphabetic(c)
    }
}

/// A character that may start or continue an identifier: alphabetic or
/// underscore. Decimal digits are deliberately excluded, so `x1` scans as
/// the identifier `x` followed by the integer `1`.
pub open spec fn is_letter_char(c: char) -> bool {
    char_alphabetic(c) || c == '_'
}

/// A decimal digit.
pub open spec fn is_digit_char(c: char) -> bool {
    '0' <= c && c <= '9'
}

/// The whitespace the scanner skips: space, tab, newline, carriage return.
pub open spec fn is_ws_char(c: char) -> bool {
    c == ' ' || c == '\t' || c == '\n' || c == '\r'
}

// ---------------------------------------------------------------------------
// The cursor
// ---------------------------------------------------------------------------
/// The character under the cursor, with the null sentinel standing for
/// "past end of input".
pub open spec fn char_at(s: Seq<char>, i: int) -> char {
    if 0 <= i < s.len() {
        s[i]
    } else {
        '\0'
    }
}

/// End of input: the cursor is past the last character or rests on the
/// null sentinel. The scanner never advances past such a position.
pub open spec fn at_end(s: Seq<char>, i: int) -> bool {
    char_at(s, i) == '\0'
}

// ---------------------------------------------------------------------------
// Maximal runs: where each sub-scanner stops
// ---------------------------------------------------------------------------
/// The first position at or after `pos` that does not hold whitespace.
pub open spec fn skip_ws_from(s: Seq<char>, pos: int) -> int
    decreases s.len() - pos,
{
    if 0 <= pos < s.len() && is_ws_char(s[pos]) {
        skip_ws_from(s, pos + 1)
    } else {
        pos
    }
}

/// The first position at or after `pos` that does not hold a letter:
/// the end of a maximal identifier run.
pub open spec fn ident_end(s: Seq<char>, pos: int) -> int
    decreases s.len() - pos,
{
    if 0 <= pos < s.len() && is_letter_char(s[pos]) {
        ident_end(s, pos + 1)
    } else {
        pos
    }
}

/// The first position at or after `pos` that does not hold a decimal
/// digit: the end of a maximal integer-literal run.
pub open spec fn num_end(s: Seq<char>, pos: int) -> int
    decreases s.len() - pos,
{
    if 0 <= pos < s.len() && is_digit_char(s[pos]) {
        num_end(s, pos + 1)
    } else {
        pos
    }
}

/// The first position at or after `pos` holding a closing quote or the
/// end of input: where a string literal's body stops.
pub open spec fn str_body_end(s: Seq<char>, pos: int) -> int
    decreases s.len() - pos,
{
    if 0 <= pos < s.len() && s[pos] != '"' && s[pos] != '\0' {
        str_body_end(s, pos + 1)
    } else {
        pos
    }
}

/// The first position at or after `pos` holding a newline or the end of
/// input: where a line comment stops. The newline itself is not consumed.
pub open spec fn line_end(s: Seq<char>, pos: int) -> int
    decreases s.len() - pos,
{
    if 0 <= pos < s.len() && s[pos] != '\n' && s[pos] != '\0' {
        line_end(s, pos + 1)
    } else {
        pos
    }
}

// ---------------------------------------------------------------------------
// Bounds of the maximal runs
// ---------------------------------------------------------------------------
/// `skip_ws_from` moves the cursor forward, not past the end, over
/// whitespace only, and stops only where no whitespace remains.
pub proof fn lemma_skip_ws_from(s: Seq<char>, pos: int)
    ensures
        pos <= skip_ws_from(s, pos),
        pos <= s.len() ==> skip_ws_from(s, pos) <= s.len(),
        forall|i: int| pos <= i < skip_ws_from(s, pos) ==> is_ws_char(s[i]),
        !(0 <= skip_ws_from(s, pos) < s.len() && is_ws_char(s[skip_ws_from(s, pos)])),
    decreases s.len() - pos,
{
    if 0 <= pos < s.len() && is_ws_char(s[pos]) {
        lemma_skip_ws_from(s, pos + 1);
    }
}

/// `ident_end` bounds a maximal run of letters.
pub proof fn lemma_ident_end(s: Seq<char>, pos: int)
    ensures
        pos <= ident_end(s, pos),
        pos <= s.len() ==> ident_end(s, pos) <= s.len(),
        forall|i: int| pos <= i < ident_end(s, pos) ==> is_letter_char(s[i]),
        !(0 <= ident_end(s, pos) < s.len() && is_letter_char(s[ident_end(s, pos)])),
    decreases s.len() - pos,
{
    if 0 <= pos < s.len() && is_letter_char(s[pos]) {
        lemma_ident_end(s, pos + 1);
    }
}

/// `num_end` bounds a maximal run of decimal digits.
pub proof fn lemma_num_end(s: Seq<char>, pos: int)
    ensures
        pos <= num_end(s, pos),
        pos <= s.len() ==> num_end(s, pos) <= s.len(),
        forall|i: int| pos <= i < num_end(s, pos) ==> is_digit_char(s[i]),
        !(0 <= num_end(s, pos) < s.len() && is_digit_char(s[num_end(s, pos)])),
    decreases s.len() - pos,
{
    if 0 <= pos < s.len() && is_digit_char(s[pos]) {
        lemma_num_end(s, pos + 1);
    }
}

/// `str_body_end` bounds a string literal's body.
pub proof fn lemma_str_body_end(s: Seq<char>, pos: int)
    ensures
        pos <= str_body_end(s, pos),
        pos <= s.len() ==> str_body_end(s, pos) <= s.len(),
        forall|i: int|
            pos <= i < str_body_end(s, pos) ==> s[i] != '"' && s[i] != '\0',
        !(0 <= str_body_end(s, pos) < s.len() && s[str_body_end(s, pos)] != '"'
            && s[str_body_end(s, pos)] != '\0'),
    decreases s.len() - pos,
{
    if 0 <= pos < s.len() && s[pos] != '"' && s[pos] != '\0' {
        lemma_str_body_end(s, pos + 1);
    }
}

/// `line_end` bounds a line comment.
pub proof fn lemma_line_end(s: Seq<char>, pos: int)
    ensures
        pos <= line_end(s, pos),
        pos <= s.len() ==> line_end(s, pos) <= s.len(),
        forall|i: int| pos <= i < line_end(s, pos) ==> s[i] != '\n' && s[i] != '\0',
        !(0 <= line_end(s, pos) < s.len() && s[line_end(s, pos)] != '\n'
            && s[line_end(s, pos)] != '\0'),
    decreases s.len() - pos,
{
    if 0 <= pos < s.len() && s[pos] != '\n' && s[pos] != '\0' {
        lemma_line_end(s, pos + 1);
    }
}

// ---------------------------------------------------------------------------
// Skipping whitespace and comments together
// ---------------------------------------------------------------------------
/// Whether a line comment (`//`) starts at `pos`.
pub open spec fn comment_at(s: Seq<char>, pos: int) -> bool {
    char_at(s, pos) == '/' && char_at(s, pos + 1) == '/'
}

/// The position of the next token: skips runs of whitespace and line
/// comments, in alternation, until neither is under the cursor.
pub open spec fn skip_trivia(s: Seq<char>, pos: int) -> int
    decreases s.len() - pos,
    via skip_trivia_decreases
{
    let p = skip_ws_from(s, pos);
    if comment_at(s, p) {
        skip_trivia(s, line_end(s, p + 2))
    } else {
        p
    }
}

#[via_fn]
proof fn skip_trivia_decreases(s: Seq<char>, pos: int) {
    lemma_skip_ws_from(s, pos);
    let p = skip_ws_from(s, pos);
    if comment_at(s, p) {
        lemma_line_end(s, p + 2);
    }
}

/// `skip_trivia` moves the cursor forward, not past the end, and stops
/// where neither whitespace nor a comment begins.
pub proof fn lemma_skip_trivia(s: Seq<char>, pos: int)
    ensures
        pos <= skip_trivia(s, pos),
        pos <= s.len() ==> skip_trivia(s, pos) <= s.len(),
        !(0 <= skip_trivia(s, pos) < s.len() && is_ws_char(s[skip_trivia(s, pos)])),
        !comment_at(s, skip_trivia(s, pos)),
    decreases s.len() - pos,
{
    lemma_skip_ws_from(s, pos);
    let p = skip_ws_from(s, pos);
    if comment_at(s, p) {
        lemma_line_end(s, p + 2);
        lemma_skip_trivia(s, line_end(s, p + 2));
    }
}

// ---------------------------------------------------------------------------
// One scan step
// ---------------------------------------------------------------------------
/// The outcome of one "produce next token" step: the token's kind, its
/// text, and the cursor position after it.
pub ghost struct ScanStep {
    pub kind: TokenKind,
    pub text: Seq<char>,
    pub end: int,
}

/// A one-character token whose text is the character itself.
pub open spec fn one_char_step(kind: TokenKind, c: char, pos: int) -> ScanStep {
    ScanStep { kind, text: seq![c], end: pos + 1 }
}

/// Classifies the token that begins exactly at `pos`, on the priority
/// order of the scanner's dispatch. Assumes whitespace and comments have
/// already been skipped, so a `/` here is always the slash operator.
pub open spec fn scan_token(s: Seq<char>, pos: int) -> ScanStep {
    let c = char_at(s, pos);
    if c == '\0' {
        ScanStep { kind: TokenKind::Eof, text: Seq::empty(), end: pos }
    } else if c == ';' {
        one_char_step(TokenKind::Semicolon, c, pos)
    } else if c == ',' {
        one_char_step(TokenKind::Comma, c, pos)
    } else if c == '(' {
        one_char_step(TokenKind::LeftParen, c, pos)
    } else if c == ')' {
        one_char_step(TokenKind::RightParen, c, pos)
    } else if c == '{' {
        one_char_step(TokenKind::LeftBrace, c, pos)
    } else if c == '}' {
        one_char_step(TokenKind::RightBrace, c, pos)
    } else if c == '+' {
        one_char_step(TokenKind::Plus, c, pos)
    } else if c == '-' {
        one_char_step(TokenKind::Minus, c, pos)
    } else if c == '*' {
        one_char_step(TokenKind::Asterisk, c, pos)
    } else if c == '<' {
        one_char_step(TokenKind::LessThan, c, pos)
    } else if c == '>' {
        one_char_step(TokenKind::GreaterThan, c, pos)
    } else if c == '=' {
        if char_at(s, pos + 1) == '=' {
            ScanStep { kind: TokenKind::Eq, text: seq!['=', '='], end: pos + 2 }
        } else {
            one_char_step(TokenKind::Assign, c, pos)
        }
    } else if c == '!' {
        if char_at(s, pos + 1) == '=' {
            ScanStep { kind: TokenKind::NotEq, text: seq!['!', '='], end: pos + 2 }
        } else {
            one_char_step(TokenKind::Bang, c, pos)
        }
    } else if c == '/' {
        one_char_step(TokenKind::Slash, c, pos)
    } else if c == '"' {
        let e = str_body_end(s, pos + 1);
        ScanStep {
            kind: TokenKind::Str,
            text: s.subrange(pos + 1, e),
            end: if char_at(s, e) == '"' {
                e + 1
            } else {
                e
            },
        }
    } else if is_letter_char(c) {
        let e = ident_end(s, pos);
        ScanStep { kind: lookup_spec(s.subrange(pos, e)), text: s.subrange(pos, e), end: e }
    } else if is_digit_char(c) {
        let e = num_end(s, pos);
        ScanStep { kind: TokenKind::Int, text: s.subrange(pos, e), end: e }
    } else {
        one_char_step(TokenKind::Illegal, c, pos)
    }
}

/// One full "produce next token" call from cursor position `pos`: skip
/// whitespace and comments, then classify what is under the cursor.
pub open spec fn next_token_spec(s: Seq<char>, pos: int) -> ScanStep {
    scan_token(s, skip_trivia(s, pos))
}

/// Each scan step lands between its start and the end of input, moves
/// strictly forward unless it reports end of input, and reports end of
/// input exactly when only whitespace and comments remain.
pub proof fn lemma_next_token_bounds(s: Seq<char>, pos: int)
    requires
        0 <= pos <= s.len(),
    ensures
        pos <= next_token_spec(s, pos).end <= s.len(),
        next_token_spec(s, pos).kind == TokenKind::Eof <==> at_end(s, skip_trivia(s, pos)),
        next_token_spec(s, pos).kind != TokenKind::Eof ==> next_token_spec(s, pos).end > pos,
        next_token_spec(s, pos).kind == TokenKind::Eof ==> next_token_spec(s, pos).end
            == skip_trivia(s, pos),
{
    lemma_skip_trivia(s, pos);
    let p = skip_trivia(s, pos);
    let c = char_at(s, p);
    if c == '\0' {
    } else if c == '"' {
        lemma_str_body_end(s, p + 1);
    } else if is_letter_char(c) {
        lemma_ident_end(s, p);
        assert(ident_end(s, p) > p);
    } else if is_digit_char(c) {
        lemma_num_end(s, p);
        assert(num_end(s, p) > p);
    }
}

// ---------------------------------------------------------------------------
// The token stream
// ---------------------------------------------------------------------------
/// One token of the stream: kind and text, without cursor positions.
pub ghost struct SpecToken {
    pub kind: TokenKind,
    pub text: Seq<char>,
}

/// The whole stream of tokens from position `pos` to end of input, in
/// order, without the terminating end-of-input sentinel. A finite
/// sequence: scanning terminates on every input.
pub open spec fn token_stream(s: Seq<char>, pos: int) -> Seq<SpecToken>
    decreases s.len() - pos,
    via token_stream_decreases
{
    if !(0 <= pos <= s.len()) {
        Seq::empty()
    } else {
        let step = next_token_spec(s, pos);
        if step.kind == TokenKind::Eof {
            Seq::empty()
        } else {
            seq![SpecToken { kind: step.kind, text: step.text }] + token_stream(s, step.end)
        }
    }
}

#[via_fn]
proof fn token_stream_decreases(s: Seq<char>, pos: int) {
    if 0 <= pos <= s.len() {
        lemma_next_token_bounds(s, pos);
    }
}

/// The tokens of a complete input text.
pub open spec fn lex_spec(s: Seq<char>) -> Seq<SpecToken> {
    token_stream(s, 0)
}

/// Whether repeated scanning from `pos` visits the cursor position
/// `target`: the scan steps land there exactly, so `target` sits on a
/// token boundary (trivia included) of the text.
pub open spec fn scan_reaches(s: Seq<char>, pos: int, target: int) -> bool
    decreases s.len() - pos,
    via scan_reaches_decreases
{
    if !(0 <= pos <= s.len()) {
        false
    } else if pos == target {
        true
    } else {
        let step = next_token_spec(s, pos);
        if step.kind == TokenKind::Eof || step.end <= pos {
            false
        } else {
            scan_reaches(s, step.end, target)
        }
    }
}

#[via_fn]
proof fn scan_reaches_decreases(s: Seq<char>, pos: int, target: int) {
    if 0 <= pos <= s.len() {
        lemma_next_token_bounds(s, pos);
    }
}

/// A visited cursor position never lies behind the start.
pub proof fn lemma_scan_reaches_le(s: Seq<char>, pos: int, target: int)
    requires
        scan_reaches(s, pos, target),
    ensures
        pos <= target,
    decreases s.len() - pos,
{
    if pos != target {
        lemma_next_token_bounds(s, pos);
        lemma_scan_reaches_le(s, next_token_spec(s, pos).end, target);
    }
}

// ---------------------------------------------------------------------------
// Scanning depends only on the text from the cursor on
// ---------------------------------------------------------------------------
/// Two cursor positions, in two texts, that see the same remaining input.
pub open spec fn same_suffix(s1: Seq<char>, p1: int, s2: Seq<char>, p2: int) -> bool {
    &&& 0 <= p1 <= s1.len()
    &&& 0 <= p2 <= s2.len()
    &&& s1.len() - p1 == s2.len() - p2
    &&& forall|i: int| 0 <= i < s1.len() - p1 ==> #[trigger] s1[p1 + i] == s2[p2 + i]
}

/// Matching positions still match any number of steps later.
pub proof fn lemma_same_suffix_advance(s1: Seq<char>, p1: int, s2: Seq<char>, p2: int, k: int)
    requires
        same_suffix(s1, p1, s2, p2),
        0 <= k <= s1.len() - p1,
    ensures
        same_suffix(s1, p1 + k, s2, p2 + k),
{
    assert forall|i: int| 0 <= i < s1.len() - (p1 + k) implies #[trigger] s1[p1 + k + i] == s2[
        p2 + k + i
    ] by {
        assert(s1[p1 + (k + i)] == s2[p2 + (k + i)]);
    }
}

/// Matching positions see the same character, sentinel included.
pub proof fn lemma_same_suffix_char_at(s1: Seq<char>, p1: int, s2: Seq<char>, p2: int, k: int)
    requires
        same_suffix(s1, p1, s2, p2),
        0 <= k,
    ensures
        char_at(s1, p1 + k) == char_at(s2, p2 + k),
{
    if p1 + k < s1.len() {
        assert(s1[p1 + k] == s2[p2 + k]);
    }
}

/// A whitespace run has the same length in any text with that suffix.
pub proof fn lemma_skip_ws_from_shift(s1: Seq<char>, p1: int, s2: Seq<char>, p2: int)
    requires
        same_suffix(s1, p1, s2, p2),
    ensures
        skip_ws_from(s1, p1) - p1 == skip_ws_from(s2, p2) - p2,
    decreases s1.len() - p1,
{
    lemma_same_suffix_char_at(s1, p1, s2, p2, 0);
    if 0 <= p1 < s1.len() && is_ws_char(s1[p1]) {
        lemma_same_suffix_advance(s1, p1, s2, p2, 1);
        lemma_skip_ws_from_shift(s1, p1 + 1, s2, p2 + 1);
    }
}

/// An identifier run has the same length in any text with that suffix.
pub proof fn lemma_ident_end_shift(s1: Seq<char>, p1: int, s2: Seq<char>, p2: int)
    requires
        same_suffix(s1, p1, s2, p2),
    ensures
        ident_end(s1, p1) - p1 == ident_end(s2, p2) - p2,
    decreases s1.len() - p1,
{
    lemma_same_suffix_char_at(s1, p1, s2, p2, 0);
    if 0 <= p1 < s1.len() && is_letter_char(s1[p1]) {
        lemma_same_suffix_advance(s1, p1, s2, p2, 1);
        lemma_ident_end_shift(s1, p1 + 1, s2, p2 + 1);
    }
}

/// An integer run has the same length in any text with that suffix.
pub proof fn lemma_num_end_shift(s1: Seq<char>, p1: int, s2: Seq<char>, p2: int)
    requires
        same_suffix(s1, p1, s2, p2),
    ensures
        num_end(s1, p1) - p1 == num_end(s2, p2) - p2,
    decreases s1.len() - p1,
{
    lemma_same_suffix_char_at(s1, p1, s2, p2, 0);
    if 0 <= p1 < s1.len() && is_digit_char(s1[p1]) {
        lemma_same_suffix_advance(s1, p1, s2, p2, 1);
        lemma_num_end_shift(s1, p1 + 1, s2, p2 + 1);
    }
}

/// A string literal's body has the same length in any text with that
/// suffix.
pub proof fn lemma_str_body_end_shift(s1: Seq<char>, p1: int, s2: Seq<char>, p2: int)
    requires
        same_suffix(s1, p1, s2, p2),
    ensures
        str_body_end(s1, p1) - p1 == str_body_end(s2, p2) - p2,
    decreases s1.len() - p1,
{
    lemma_same_suffix_char_at(s1, p1, s2, p2, 0);
    if 0 <= p1 < s1.len() && s1[p1] != '"' && s1[p1] != '\0' {
        lemma_same_suffix_advance(s1, p1, s2, p2, 1);
        lemma_str_body_end_shift(s1, p1 + 1, s2, p2 + 1);
    }
}

/// A comment line has the same length in any text with that suffix.
pub proof fn lemma_line_end_shift(s1: Seq<char>, p1: int, s2: Seq<char>, p2: int)
    requires
        same_suffix(s1, p1, s2, p2),
    ensures
        line_end(s1, p1) - p1 == line_end(s2, p2) - p2,
    decreases s1.len() - p1,
{
    lemma_same_suffix_char_at(s1, p1, s2, p2, 0);
    if 0 <= p1 < s1.len() && s1[p1] != '\n' && s1[p1] != '\0' {
        lemma_same_suffix_advance(s1, p1, s2, p2, 1);
        lemma_line_end_shift(s1, p1 + 1, s2, p2 + 1);
    }
}

/// Skipping whitespace and comments moves the cursor the same distance in
/// any text with that suffix.
pub proof fn lemma_skip_trivia_shift(s1: Seq<char>, p1: int, s2: Seq<char>, p2: int)
    requires
        same_suffix(s1, p1, s2, p2),
    ensures
        skip_trivia(s1, p1) - p1 == skip_trivia(s2, p2) - p2,
    decreases s1.len() - p1,
{
    lemma_skip_ws_from(s1, p1);
    lemma_skip_ws_from(s2, p2);
    lemma_skip_ws_from_shift(s1, p1, s2, p2);
    let q1 = skip_ws_from(s1, p1);
    let q2 = skip_ws_from(s2, p2);
    lemma_same_suffix_advance(s1, p1, s2, p2, q1 - p1);
    lemma_same_suffix_char_at(s1, q1, s2, q2, 0);
    lemma_same_suffix_char_at(s1, q1, s2, q2, 1);
    if comment_at(s1, q1) {
        lemma_same_suffix_advance(s1, q1, s2, q2, 2);
        lemma_line_end_shift(s1, q1 + 2, s2, q2 + 2);
        lemma_line_end(s1, q1 + 2);
        lemma_line_end(s2, q2 + 2);
        let r1 = line_end(s1, q1 + 2);
        let r2 = line_end(s2, q2 + 2);
        lemma_same_suffix_advance(s1, p1, s2, p2, r1 - p1);
        lemma_skip_trivia_shift(s1, r1, s2, r2);
    }
}

/// One scan step classifies the same token, with the same text, at any
/// two positions that see the same remaining input.
pub proof fn lemma_scan_token_shift(s1: Seq<char>, p1: int, s2: Seq<char>, p2: int)
    requires
        same_suffix(s1, p1, s2, p2),
    ensures
        scan_token(s1, p1).kind == scan_token(s2, p2).kind,
        scan_token(s1, p1).text == scan_token(s2, p2).text,
        scan_token(s1, p1).end - p1 == scan_token(s2, p2).end - p2,
{
    lemma_same_suffix_char_at(s1, p1, s2, p2, 0);
    lemma_same_suffix_char_at(s1, p1, s2, p2, 1);
    let c = char_at(s1, p1);
    if c == '"' {
        lemma_same_suffix_advance(s1, p1, s2, p2, 1);
        lemma_str_body_end_shift(s1, p1 + 1, s2, p2 + 1);
        lemma_str_body_end(s1, p1 + 1);
        lemma_str_body_end(s2, p2 + 1);
        let e1 = str_body_end(s1, p1 + 1);
        let e2 = str_body_end(s2, p2 + 1);
        lemma_same_suffix_char_at(s1, p1, s2, p2, e1 - p1);
        assert(s1.subrange(p1 + 1, e1) =~= s2.subrange(p2 + 1, e2)) by {
            assert forall|i: int| 0 <= i < e1 - (p1 + 1) implies #[trigger] s1.subrange(p1 + 1, e1)[i] == s2.subrange(p2 + 1, e2)[i] by {
                assert(s1[p1 + (1 + i)] == s2[p2 + (1 + i)]);
            }
        }
    } else if c == '\0' || c == ';' || c == ',' || c == '(' || c == ')' || c == '{' || c == '}'
        || c == '+' || c == '-' || c == '*' || c == '<' || c == '>' || c == '=' || c == '!'
        || c == '/' {
    } else if is_letter_char(c) {
        lemma_ident_end_shift(s1, p1, s2, p2);
        lemma_ident_end(s1, p1);
        lemma_ident_end(s2, p2);
        let e1 = ident_end(s1, p1);
        let e2 = ident_end(s2, p2);
        assert(s1.subrange(p1, e1) =~= s2.subrange(p2, e2)) by {
            assert forall|i: int| 0 <= i < e1 - p1 implies #[trigger] s1.subrange(p1, e1)[i] == s2.subrange(p2, e2)[i] by {
                assert(s1[p1 + i] == s2[p2 + i]);
            }
        }
    } else if is_digit_char(c) {
        lemma_num_end_shift(s1, p1, s2, p2);
        lemma_num_end(s1, p1);
        lemma_num_end(s2, p2);
        let e1 = num_end(s1, p1);
        let e2 = num_end(s2, p2);
        assert(s1.subrange(p1, e1) =~= s2.subrange(p2, e2)) by {
            assert forall|i: int| 0 <= i < e1 - p1 implies #[trigger] s1.subrange(p1, e1)[i] == s2.subrange(p2, e2)[i] by {
                assert(s1[p1 + i] == s2[p2 + i]);
            }
        }
    }
}

/// The whole token stream is the same from any two positions that see the
/// same remaining input: scanning never looks behind the cursor.
pub proof fn lemma_token_stream_shift(s1: Seq<char>, p1: int, s2: Seq<char>, p2: int)
    requires
        same_suffix(s1, p1, s2, p2),
    ensures
        token_stream(s1, p1) == token_stream(s2, p2),
    decreases s1.len() - p1,
{
    lemma_skip_trivia(s1, p1);
    lemma_skip_trivia(s2, p2);
    lemma_skip_trivia_shift(s1, p1, s2, p2);
    let q1 = skip_trivia(s1, p1);
    let q2 = skip_trivia(s2, p2);
    lemma_same_suffix_advance(s1, p1, s2, p2, q1 - p1);
    lemma_scan_token_shift(s1, q1, s2, q2);
    lemma_next_token_bounds(s1, p1);
    lemma_next_token_bounds(s2, p2);
    let step1 = next_token_spec(s1, p1);
    let step2 = next_token_spec(s2, p2);
    if step1.kind == TokenKind::Eof {
        assert(token_stream(s1, p1) =~= token_stream(s2, p2));
    } else {
        lemma_same_suffix_advance(s1, p1, s2, p2, step1.end - p1);
        lemma_token_stream_shift(s1, step1.end, s2, step2.end);
        assert(token_stream(s1, p1) =~= token_stream(s2, p2));
    }
}

} // verus!
