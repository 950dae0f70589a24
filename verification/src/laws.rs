//! The scanner's laws: totality on a single scalar value, termination and
//! idempotence at end of input, round-tripping of integer literals,
//! keyword precedence, and elision of line comments.
use vstd::prelude::*;
use crate::token::TokenKind;
use crate::token::lookup_spec;
use crate::model::is_letter_char;
use crate::model::is_digit_char;
use crate::model::is_ws_char;
use crate::model::at_end;
use crate::model::char_at;
use crate::model::skip_ws_from;
use crate::model::ident_end;
use crate::model::num_end;
use crate::model::str_body_end;
use crate::model::line_end;
use crate::model::comment_at;
use crate::model::skip_trivia;
use crate::model::next_token_spec;
use crate::model::token_stream;
use crate::model::lex_spec;
use crate::model::SpecToken;
use crate::model::lemma_ident_end;
use crate::model::lemma_num_end;
use crate::model::lemma_line_end;
use crate::model::lemma_next_token_bounds;
use crate::model::same_suffix;
use crate::model::lemma_token_stream_shift;
use crate::model::scan_reaches;
use crate::model::lemma_scan_reaches_le;
use crate::model::lemma_skip_ws_from;
use crate::model::lemma_str_body_end;
use crate::model::lemma_skip_trivia;

verus! {

/// Totality on one scalar value: scanning a single character never gets
/// stuck. Whitespace and the null sentinel yield no token at all, and
/// every other character yields exactly one token, classified by the
/// dispatch — a recognized kind or `Illegal`, never a failure.
pub proof fn lemma_single_scalar_total(c: char)
    ensures
        lex_spec(seq![c]).len() <= 1,
        lex_spec(seq![c]).len() == 0 <==> (is_ws_char(c) || c == '\0'),
{
    let s = seq![c];
    assert(s.len() == 1);
    if is_ws_char(c) {
        assert(skip_ws_from(s, 1) == 1);
        assert(skip_ws_from(s, 0) == 1);
        assert(skip_trivia(s, 0) == 1);
        assert(next_token_spec(s, 0).kind == TokenKind::Eof);
        assert(lex_spec(s) =~= Seq::<SpecToken>::empty());
    } else if c == '\0' {
        assert(skip_ws_from(s, 0) == 0);
        assert(skip_trivia(s, 0) == 0);
        assert(next_token_spec(s, 0).kind == TokenKind::Eof);
        assert(lex_spec(s) =~= Seq::<SpecToken>::empty());
    } else {
        assert(skip_ws_from(s, 0) == 0);
        assert(!comment_at(s, 0));
        assert(skip_trivia(s, 0) == 0);
        assert(ident_end(s, 1) == 1);
        assert(num_end(s, 1) == 1);
        assert(str_body_end(s, 1) == 1);
        let step = next_token_spec(s, 0);
        assert(step.kind != TokenKind::Eof);
        assert(step.end == 1);
        assert(skip_ws_from(s, 1) == 1);
        assert(skip_trivia(s, 1) == 1);
        assert(next_token_spec(s, 1).kind == TokenKind::Eof);
        assert(token_stream(s, 1) =~= Seq::<SpecToken>::empty());
        assert(lex_spec(s) =~= seq![SpecToken { kind: step.kind, text: step.text }]);
    }
}

/// Termination: from any cursor position the token stream is finite, with
/// no more tokens than characters left — repeated "produce next token"
/// calls reach end of input.
pub proof fn lemma_stream_finite(s: Seq<char>, pos: int)
    requires
        0 <= pos <= s.len(),
    ensures
        token_stream(s, pos).len() <= s.len() - pos,
    decreases s.len() - pos,
{
    lemma_next_token_bounds(s, pos);
    let step = next_token_spec(s, pos);
    if step.kind != TokenKind::Eof {
        lemma_stream_finite(s, step.end);
    }
}

/// Idempotence at end of input: once the cursor rests at the end (or on
/// the null sentinel), every further call returns the end-of-input token
/// with empty text and leaves the cursor where it was.
pub proof fn lemma_eof_idempotent(s: Seq<char>, pos: int)
    requires
        0 <= pos <= s.len(),
        at_end(s, pos),
    ensures
        next_token_spec(s, pos).kind == TokenKind::Eof,
        next_token_spec(s, pos).text == Seq::<char>::empty(),
        next_token_spec(s, pos).end == pos,
        at_end(s, next_token_spec(s, pos).end),
{
    assert(skip_ws_from(s, pos) == pos);
    assert(!comment_at(s, pos));
    assert(skip_trivia(s, pos) == pos);
}

/// Round trip on integer literals: a text that is one maximal run of
/// decimal digits scans to exactly one integer token whose text is that
/// run, unchanged.
pub proof fn lemma_integer_round_trip(d: Seq<char>)
    requires
        d.len() > 0,
        forall|i: int| 0 <= i < d.len() ==> is_digit_char(d[i]),
    ensures
        lex_spec(d).len() == 1,
        lex_spec(d)[0].kind == TokenKind::Int,
        lex_spec(d)[0].text == d,
{
    assert(skip_ws_from(d, 0) == 0);
    assert(!comment_at(d, 0));
    assert(skip_trivia(d, 0) == 0);
    lemma_num_end(d, 0);
    let e = num_end(d, 0);
    assert(e == d.len());
    let step = next_token_spec(d, 0);
    assert(step.kind == TokenKind::Int);
    assert(step.text =~= d);
    assert(step.end == d.len());
    lemma_eof_idempotent(d, d.len() as int);
    assert(token_stream(d, d.len() as int) =~= Seq::<SpecToken>::empty());
    assert(lex_spec(d) =~= seq![SpecToken { kind: step.kind, text: step.text }]);
}

/// Keyword precedence: a text that is one maximal run of letters scans to
/// exactly one token whose text is the run and whose kind comes from the
/// keyword table — the reserved kind for the seven reserved spellings,
/// and `Identifier` for every other spelling, never the other way round.
pub proof fn lemma_keyword_precedence(w: Seq<char>)
    requires
        w.len() > 0,
        forall|i: int| 0 <= i < w.len() ==> is_letter_char(w[i]),
    ensures
        lex_spec(w).len() == 1,
        lex_spec(w)[0].text == w,
        lex_spec(w)[0].kind == lookup_spec(w),
        lex_spec(w)[0].kind == TokenKind::Identifier <==> (w != "fn"@ && w != "let"@ && w
            != "if"@ && w != "else"@ && w != "true"@ && w != "false"@ && w != "return"@),
{
    assert(is_letter_char(w[0]));
    assert(skip_ws_from(w, 0) == 0);
    assert(!comment_at(w, 0));
    assert(skip_trivia(w, 0) == 0);
    lemma_ident_end(w, 0);
    let e = ident_end(w, 0);
    assert(e == w.len());
    let step = next_token_spec(w, 0);
    assert(step.text =~= w);
    assert(step.kind == lookup_spec(w));
    assert(step.end == w.len());
    lemma_eof_idempotent(w, w.len() as int);
    assert(token_stream(w, w.len() as int) =~= Seq::<SpecToken>::empty());
    assert(lex_spec(w) =~= seq![SpecToken { kind: step.kind, text: step.text }]);
}

/// Comment elision, in place: where a line comment begins, the token
/// stream is exactly the token stream from the end of that comment line —
/// the comment itself contributes zero tokens.
pub proof fn lemma_comment_elision(s: Seq<char>, pos: int)
    requires
        comment_at(s, pos),
    ensures
        token_stream(s, pos) == token_stream(s, line_end(s, pos)),
{
    assert(0 <= pos < s.len());
    assert(skip_ws_from(s, pos) == pos);
    assert(line_end(s, pos) == line_end(s, pos + 1));
    assert(line_end(s, pos + 1) == line_end(s, pos + 2));
    assert(skip_trivia(s, pos) == skip_trivia(s, line_end(s, pos)));
    lemma_line_end(s, pos);
    let q = line_end(s, pos);
    assert(0 <= q <= s.len());
    assert(next_token_spec(s, pos) == next_token_spec(s, q));
    assert(token_stream(s, pos) == token_stream(s, q));
}

/// `line_end` runs exactly to a given stop position: past every character
/// that is neither a newline nor the null sentinel, up to the first one
/// that is (or the end of the text).
proof fn lemma_line_end_runs_to(s: Seq<char>, pos: int, q: int)
    requires
        0 <= pos <= q <= s.len(),
        forall|i: int| pos <= i < q ==> s[i] != '\n' && s[i] != '\0',
        q == s.len() || s[q] == '\n' || s[q] == '\0',
    ensures
        line_end(s, pos) == q,
    decreases q - pos,
{
    if pos < q {
        lemma_line_end_runs_to(s, pos + 1, q);
    }
}

/// Comment elision, with the comment removed from the text: from the
/// point where a line comment begins, the token stream of the text is the
/// same as the token stream of the text with the comment's characters
/// (`//` and everything to the newline) taken out.
pub proof fn lemma_comment_removed(a: Seq<char>, t: Seq<char>, b: Seq<char>)
    requires
        forall|i: int| 0 <= i < t.len() ==> t[i] != '\n' && t[i] != '\0',
        b.len() == 0 || b[0] == '\n',
    ensures
        token_stream(a + seq!['/', '/'] + t + b, a.len() as int) == token_stream(
            a + b,
            a.len() as int,
        ),
{
    let s1 = a + seq!['/', '/'] + t + b;
    let s2 = a + b;
    let n = a.len() as int;
    let q = n + 2 + t.len() as int;
    assert(s1.len() == a.len() + 2 + t.len() + b.len());
    assert(s1[n] == '/');
    assert(s1[n + 1] == '/');
    assert(comment_at(s1, n));
    lemma_comment_elision(s1, n);
    assert forall|i: int| n <= i < q implies s1[i] != '\n' && s1[i] != '\0' by {
        if i >= n + 2 {
            assert(s1[i] == t[i - n - 2]);
        }
    }
    if b.len() > 0 {
        assert(s1[q] == b[0]);
    }
    lemma_line_end_runs_to(s1, n, q);
    assert(same_suffix(s1, q, s2, n)) by {
        assert forall|i: int| 0 <= i < s1.len() - q implies #[trigger] s1[q + i] == s2[n + i] by {
            assert(s1[q + i] == b[i]);
            assert(s2[n + i] == b[i]);
        }
    }
    lemma_token_stream_shift(s1, q, s2, n);
}

/// Two texts that agree on every character before position `m`.
spec fn prefix_eq(s1: Seq<char>, s2: Seq<char>, m: int) -> bool {
    &&& 0 <= m <= s1.len()
    &&& m <= s2.len()
    &&& forall|i: int| 0 <= i < m ==> #[trigger] s1[i] == s2[i]
}

/// A whitespace run that stops before `m` stops at the same place in any
/// text that agrees below `m`.
proof fn lemma_skip_ws_prefix(s1: Seq<char>, s2: Seq<char>, m: int, pos: int)
    requires
        prefix_eq(s1, s2, m),
        0 <= pos,
        skip_ws_from(s2, pos) < m,
    ensures
        skip_ws_from(s1, pos) == skip_ws_from(s2, pos),
    decreases m - pos,
{
    lemma_skip_ws_from(s2, pos);
    if pos < skip_ws_from(s2, pos) {
        assert(s1[pos] == s2[pos]);
        lemma_skip_ws_prefix(s1, s2, m, pos + 1);
    } else {
        assert(s1[pos] == s2[pos]);
    }
}

/// A comment line that stops before `m` stops at the same place in any
/// text that agrees below `m`.
proof fn lemma_line_end_prefix(s1: Seq<char>, s2: Seq<char>, m: int, pos: int)
    requires
        prefix_eq(s1, s2, m),
        0 <= pos,
        line_end(s2, pos) < m,
    ensures
        line_end(s1, pos) == line_end(s2, pos),
    decreases m - pos,
{
    lemma_line_end(s2, pos);
    if pos < line_end(s2, pos) {
        assert(s1[pos] == s2[pos]);
        lemma_line_end_prefix(s1, s2, m, pos + 1);
    } else {
        assert(s1[pos] == s2[pos]);
    }
}

/// A string literal's body that stops before `m` stops at the same place
/// in any text that agrees below `m`.
proof fn lemma_str_body_end_prefix(s1: Seq<char>, s2: Seq<char>, m: int, pos: int)
    requires
        prefix_eq(s1, s2, m),
        0 <= pos,
        str_body_end(s2, pos) < m,
    ensures
        str_body_end(s1, pos) == str_body_end(s2, pos),
    decreases m - pos,
{
    lemma_str_body_end(s2, pos);
    if pos < str_body_end(s2, pos) {
        assert(s1[pos] == s2[pos]);
        lemma_str_body_end_prefix(s1, s2, m, pos + 1);
    } else {
        assert(s1[pos] == s2[pos]);
    }
}

/// A letter run that stops at or before `m` stops at the same place in
/// any text that agrees below `m` and holds no letter at `m`.
proof fn lemma_ident_end_prefix(s1: Seq<char>, s2: Seq<char>, m: int, pos: int)
    requires
        prefix_eq(s1, s2, m),
        0 <= pos,
        ident_end(s2, pos) <= m,
        !is_letter_char(char_at(s1, m)),
        !is_letter_char(char_at(s2, m)),
    ensures
        ident_end(s1, pos) == ident_end(s2, pos),
    decreases m - pos + 1,
{
    lemma_ident_end(s2, pos);
    if pos < ident_end(s2, pos) {
        assert(s1[pos] == s2[pos]);
        lemma_ident_end_prefix(s1, s2, m, pos + 1);
    } else if pos < m {
        assert(s1[pos] == s2[pos]);
    }
}

/// A digit run that stops at or before `m` stops at the same place in
/// any text that agrees below `m` and holds no digit at `m`.
proof fn lemma_num_end_prefix(s1: Seq<char>, s2: Seq<char>, m: int, pos: int)
    requires
        prefix_eq(s1, s2, m),
        0 <= pos,
        num_end(s2, pos) <= m,
        !is_digit_char(char_at(s1, m)),
        !is_digit_char(char_at(s2, m)),
    ensures
        num_end(s1, pos) == num_end(s2, pos),
    decreases m - pos + 1,
{
    lemma_num_end(s2, pos);
    if pos < num_end(s2, pos) {
        assert(s1[pos] == s2[pos]);
        lemma_num_end_prefix(s1, s2, m, pos + 1);
    } else if pos < m {
        assert(s1[pos] == s2[pos]);
    }
}

/// Trivia skipping that stops before `m` stops at the same place in any
/// text that agrees below `m`, provided no comment can form across the
/// junction: the character before `m` is not a slash.
proof fn lemma_skip_trivia_prefix(s1: Seq<char>, s2: Seq<char>, m: int, pos: int)
    requires
        prefix_eq(s1, s2, m),
        0 <= pos,
        skip_trivia(s2, pos) < m,
        m > 0 ==> s1[m - 1] != '/',
    ensures
        skip_trivia(s1, pos) == skip_trivia(s2, pos),
    decreases m - pos,
{
    lemma_skip_ws_from(s2, pos);
    let q = skip_trivia(s2, pos);
    let w = skip_ws_from(s2, pos);
    if comment_at(s2, w) {
        lemma_line_end(s2, w + 2);
        lemma_skip_trivia(s2, line_end(s2, w + 2));
        assert(q == skip_trivia(s2, line_end(s2, w + 2)));
        assert(w + 2 <= line_end(s2, w + 2) <= q < m);
        lemma_skip_ws_prefix(s1, s2, m, pos);
        assert(comment_at(s1, w)) by {
            assert(s1[w] == s2[w]);
            assert(s1[w + 1] == s2[w + 1]);
        }
        lemma_line_end_prefix(s1, s2, m, w + 2);
        lemma_skip_trivia_prefix(s1, s2, m, line_end(s2, w + 2));
    } else {
        assert(q == w);
        lemma_skip_ws_prefix(s1, s2, m, pos);
        assert(!comment_at(s1, w)) by {
            assert(s1[w] == s2[w]);
            if s1[w] == '/' {
                if w + 1 < m {
                    assert(s1[w + 1] == s2[w + 1]);
                } else {
                    assert(w + 1 == m);
                    assert(s1[m - 1] == s1[w]);
                }
            }
        }
    }
}

/// One scan step that ends at or before the junction `n` is the same in
/// the commented and the uncommented text: the step never needs to look
/// at or past `n`, except for one-character peeks that a slash on one
/// side and a newline on the other both refuse.
proof fn lemma_step_prefix(s1: Seq<char>, s2: Seq<char>, n: int, pos: int)
    requires
        prefix_eq(s1, s2, n),
        0 <= pos <= s2.len(),
        char_at(s1, n) == '/',
        char_at(s2, n) == '\n',
        n > 0 ==> s1[n - 1] != '/',
        next_token_spec(s2, pos).kind != TokenKind::Eof,
        next_token_spec(s2, pos).end <= n,
    ensures
        next_token_spec(s1, pos).kind == next_token_spec(s2, pos).kind,
        next_token_spec(s1, pos).text == next_token_spec(s2, pos).text,
        next_token_spec(s1, pos).end == next_token_spec(s2, pos).end,
{
    assert(n < s1.len());
    assert(n < s2.len());
    lemma_skip_trivia(s2, pos);
    let q = skip_trivia(s2, pos);
    let step = next_token_spec(s2, pos);
    let c = char_at(s2, q);
    assert(c != '\0');
    assert(0 <= q < s2.len());
    // the token itself is at least one character, so its start lies
    // strictly before the junction
    lemma_str_body_end(s2, q + 1);
    lemma_ident_end(s2, q);
    lemma_num_end(s2, q);
    assert(q < step.end);
    assert(q < n);
    lemma_skip_trivia_prefix(s1, s2, n, pos);
    assert(s1[q] == s2[q]);
    if c == '"' {
        let e = str_body_end(s2, q + 1);
        assert(e < n) by {
            if char_at(s2, e) == '"' {
                assert(step.end == e + 1);
            } else {
                assert(step.end == e);
                assert(e == n ==> s2[e] == '\n');
            }
        }
        lemma_str_body_end_prefix(s1, s2, n, q + 1);
        assert(s1.subrange(q + 1, e) =~= s2.subrange(q + 1, e)) by {
            assert forall|i: int| 0 <= i < e - (q + 1) implies #[trigger] s1.subrange(q + 1, e)[i]
                == s2.subrange(q + 1, e)[i] by {
                assert(s1[q + 1 + i] == s2[q + 1 + i]);
            }
        }
        assert(s1[e] == s2[e]);
    } else if c == '=' || c == '!' {
        if q + 1 < n {
            assert(s1[q + 1] == s2[q + 1]);
        } else {
            assert(q + 1 == n);
            assert(char_at(s1, n) != '=');
            assert(char_at(s2, n) != '=');
        }
    } else if is_letter_char(c) {
        let e = ident_end(s2, q);
        assert(e <= n);
        lemma_ident_end_prefix(s1, s2, n, q);
        assert(s1.subrange(q, e) =~= s2.subrange(q, e)) by {
            assert forall|i: int| 0 <= i < e - q implies #[trigger] s1.subrange(q, e)[i]
                == s2.subrange(q, e)[i] by {
                assert(s1[q + i] == s2[q + i]);
            }
        }
    } else if is_digit_char(c) {
        let e = num_end(s2, q);
        assert(e <= n);
        lemma_num_end_prefix(s1, s2, n, q);
        assert(s1.subrange(q, e) =~= s2.subrange(q, e)) by {
            assert forall|i: int| 0 <= i < e - q implies #[trigger] s1.subrange(q, e)[i]
                == s2.subrange(q, e)[i] by {
                assert(s1[q + i] == s2[q + i]);
            }
        }
    }
}

/// From any scan position on the way to the junction `n`, the commented
/// and the uncommented text produce the same token stream, given that
/// they already agree from `n` on.
proof fn lemma_stream_prefix(s1: Seq<char>, s2: Seq<char>, n: int, pos: int)
    requires
        prefix_eq(s1, s2, n),
        0 <= pos <= s2.len(),
        char_at(s1, n) == '/',
        char_at(s2, n) == '\n',
        n > 0 ==> s1[n - 1] != '/',
        scan_reaches(s2, pos, n),
        token_stream(s1, n) == token_stream(s2, n),
    ensures
        token_stream(s1, pos) == token_stream(s2, pos),
    decreases n - pos,
{
    lemma_scan_reaches_le(s2, pos, n);
    if pos < n {
        lemma_next_token_bounds(s2, pos);
        let step = next_token_spec(s2, pos);
        lemma_scan_reaches_le(s2, step.end, n);
        lemma_step_prefix(s1, s2, n, pos);
        lemma_stream_prefix(s1, s2, n, step.end);
        assert(n < s1.len());
        assert(token_stream(s1, pos) =~= token_stream(s2, pos));
    }
}

/// Comment elision, whole stream: take a text `a + b` in which the
/// position between `a` and `b` falls on a token boundary, with `b`
/// starting at the newline there. Writing a line comment in that spot —
/// giving `a + "//" + t + b` — leaves the token sequence of the whole
/// text unchanged: it is identical to the text with the comment removed.
/// The junction must not split a `//` pair, so `a` may not end in a
/// slash.
pub proof fn lemma_comment_removed_between_tokens(a: Seq<char>, t: Seq<char>, b: Seq<char>)
    requires
        forall|i: int| 0 <= i < t.len() ==> t[i] != '\n' && t[i] != '\0',
        b.len() > 0,
        b[0] == '\n',
        a.len() > 0 ==> a[a.len() - 1] != '/',
        scan_reaches(a + b, 0, a.len() as int),
    ensures
        lex_spec(a + seq!['/', '/'] + t + b) == lex_spec(a + b),
{
    let s1 = a + seq!['/', '/'] + t + b;
    let s2 = a + b;
    let n = a.len() as int;
    lemma_comment_removed(a, t, b);
    let q = n + 2 + t.len() as int;
    assert(line_end(s1, n) == q) by {
        assert(s1[n] == '/');
        assert(s1[n + 1] == '/');
        assert forall|i: int| n <= i < q implies s1[i] != '\n' && s1[i] != '\0' by {
            if i >= n + 2 {
                assert(s1[i] == t[i - n - 2]);
            }
        }
        assert(s1[q] == b[0]);
        lemma_line_end_runs_to(s1, n, q);
    }
    assert(token_stream(s1, n) == token_stream(s2, n));
    assert(prefix_eq(s1, s2, n));
    assert(char_at(s1, n) == '/');
    assert(char_at(s2, n) == b[0]);
    lemma_stream_prefix(s1, s2, n, 0);
}

} // verus!
