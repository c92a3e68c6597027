//! The scanner's laws: properties of the token stream as a whole, proved
//! over the scanning specification that `next_token` is verified against.

use vstd::prelude::*;

use crate::lexer::digit_run_end;
use crate::lexer::digits_value;
use crate::lexer::int_token_value;
use crate::lexer::is_digit;
use crate::lexer::is_letter;
use crate::lexer::is_recognized;
use crate::lexer::is_whitespace_char;
use crate::lexer::lemma_digit_run;
use crate::lexer::lemma_letter_run;
use crate::lexer::lemma_skip_ws;
use crate::lexer::letter_run_end;
use crate::lexer::skip_ws_from;
use crate::lexer::spec_next_token;
use crate::lexer::spec_token_at;
use crate::token::TokenV;
use crate::token::lookup_ident_v;

verus! {

/// One scanning step stays inside the input, consumes at least one character
/// unless it reports end-of-input, and reports end-of-input exactly when only
/// whitespace is left.
pub proof fn lemma_next_token_bounds(s: Seq<char>, i: int)
    requires
        0 <= i <= s.len(),
    ensures
        i <= spec_next_token(s, i).1 <= s.len(),
        !(spec_next_token(s, i).0 is Eof) ==> spec_next_token(s, i).1 > i,
        !(spec_next_token(s, i).0 is Eof) ==> spec_next_token(s, i).1 > skip_ws_from(s, i),
        spec_next_token(s, i).0 is Eof <==> skip_ws_from(s, i) == s.len(),
        spec_next_token(s, i).0 is Eof ==> spec_next_token(s, i).1 == s.len(),
{
    lemma_skip_ws(s, i);
    let p = skip_ws_from(s, i);
    if p < s.len() {
        let c = s[p];
        if is_letter(c) {
            lemma_letter_run(s, p);
        } else if is_digit(c) {
            lemma_digit_run(s, p);
        }
    }
}

/// Exhaustion is stable: once a call has answered end-of-input, the cursor
/// stands at the end of the input and every further call answers end-of-input
/// from there, never an error.
pub proof fn lemma_eof_stable(s: Seq<char>, i: int)
    requires
        0 <= i <= s.len(),
        spec_next_token(s, i).0 is Eof,
    ensures
        spec_next_token(s, i).1 == s.len(),
        spec_next_token(s, s.len() as int) == (TokenV::Eof, s.len() as int),
{
    lemma_next_token_bounds(s, i);
    assert(skip_ws_from(s, s.len() as int) == s.len());
}

/// The cursor position `n` calls of `next_token` on input `s` reach, starting
/// from position `i`.
pub open spec fn pos_after(s: Seq<char>, i: int, n: nat) -> int
    decreases n,
{
    if n == 0 {
        i
    } else {
        pos_after(s, spec_next_token(s, i).1, (n - 1) as nat)
    }
}

/// The cursor position after `n` calls of `next_token` on input `s`, starting
/// from the beginning.
pub open spec fn state_after(s: Seq<char>, n: nat) -> int {
    pos_after(s, 0, n)
}

proof fn lemma_pos_after_at_end(s: Seq<char>, n: nat)
    ensures
        pos_after(s, s.len() as int, n) == s.len(),
    decreases n,
{
    if n > 0 {
        assert(skip_ws_from(s, s.len() as int) == s.len());
        lemma_pos_after_at_end(s, (n - 1) as nat);
    }
}

proof fn lemma_pos_after_bounds(s: Seq<char>, i: int, n: nat)
    requires
        0 <= i <= s.len(),
    ensures
        i <= pos_after(s, i, n) <= s.len(),
        pos_after(s, i, n) >= i + n || spec_next_token(s, pos_after(s, i, n)).0 is Eof,
    decreases n,
{
    if n > 0 {
        lemma_next_token_bounds(s, i);
        let e = spec_next_token(s, i).1;
        lemma_pos_after_bounds(s, e, (n - 1) as nat);
        if spec_next_token(s, i).0 is Eof {
            lemma_eof_stable(s, i);
            lemma_pos_after_at_end(s, (n - 1) as nat);
        }
    }
}

/// Progress: the scanner exhausts any input within at most as many calls of
/// `next_token` as the input has characters — after any `n` calls with `n` at
/// least the input's length, every further call answers end-of-input, so the
/// cursor never stalls and the end-of-input answer never goes away.
pub proof fn lemma_progress(s: Seq<char>, n: nat)
    requires
        n >= s.len(),
    ensures
        spec_next_token(s, state_after(s, n)).0 is Eof,
{
    lemma_pos_after_bounds(s, 0, n);
    let p = state_after(s, n);
    lemma_next_token_bounds(s, p);
    if p == s.len() {
        assert(skip_ws_from(s, s.len() as int) == s.len());
    }
}

/// Two-character disambiguation: an input starting with `=` yields a single
/// equality token consuming both characters when a second `=` follows, and an
/// assignment token consuming one character otherwise, whatever character
/// follows — that character is left for the next call.
pub proof fn lemma_two_char_disambiguation(s: Seq<char>)
    requires
        s.len() >= 1,
        s[0] == '=',
    ensures
        s.len() >= 2 && s[1] == '=' ==> spec_next_token(s, 0) == (TokenV::Equal, 2int),
        !(s.len() >= 2 && s[1] == '=') ==> spec_next_token(s, 0) == (TokenV::Assign, 1int),
{
    assert(!is_whitespace_char('='));
    assert(skip_ws_from(s, 0) == 0);
}

/// Greedy identifier accumulation: at a lowercase letter the scanner takes
/// the whole maximal run of lowercase letters as one identifier-shaped token,
/// resolved against the keyword table; the first character outside the class
/// — a digit as much as anything else — stops the run and is left unconsumed.
pub proof fn lemma_greedy_identifier_run(s: Seq<char>, i: int)
    requires
        0 <= i < s.len(),
        is_letter(s[i]),
    ensures
        ({
            let j = letter_run_end(s, i);
            &&& spec_next_token(s, i) == (lookup_ident_v(s.subrange(i, j)), j)
            &&& i < j <= s.len()
            &&& forall|k: int| i <= k < j ==> is_letter(s[k])
            &&& (j < s.len() ==> !is_letter(s[j]))
        }),
{
    assert(!is_whitespace_char(s[i]));
    assert(skip_ws_from(s, i) == i);
    lemma_letter_run(s, i);
}

/// Greedy number accumulation: at a digit the scanner takes the whole maximal
/// run of digits as one integer literal carrying the run's base-10 value
/// (zero where that value does not fit a signed 64-bit integer); the first
/// character outside the class — a letter as much as anything else — stops
/// the run and is left unconsumed.
pub proof fn lemma_greedy_number_run(s: Seq<char>, i: int)
    requires
        0 <= i < s.len(),
        is_digit(s[i]),
    ensures
        ({
            let j = digit_run_end(s, i);
            &&& spec_next_token(s, i) == (TokenV::Int(int_token_value(s.subrange(i, j))), j)
            &&& i < j <= s.len()
            &&& forall|k: int| i <= k < j ==> is_digit(s[k])
            &&& (j < s.len() ==> !is_digit(s[j]))
        }),
{
    assert(!is_whitespace_char(s[i]));
    assert(skip_ws_from(s, i) == i);
    lemma_digit_run(s, i);
}

/// Single-character rejection and resumption: a character that no rule
/// matches yields one illegal token consuming exactly that character, and
/// scanning resumes at the next one — the cursor never stalls.
pub proof fn lemma_illegal_then_resume(s: Seq<char>, i: int)
    requires
        0 <= i < s.len(),
        !is_whitespace_char(s[i]),
        !is_recognized(s[i]),
    ensures
        spec_next_token(s, i) == (TokenV::Illegal, i + 1),
{
    assert(skip_ws_from(s, i) == i);
}

/// The whole stream of tokens the scanner yields from position `i`, up to
/// but not including the end-of-input sentinel.
pub open spec fn token_stream_from(s: Seq<char>, i: int) -> Seq<TokenV>
    recommends
        0 <= i <= s.len(),
    decreases s.len() - i,
        when 0 <= i <= s.len()
        via token_stream_from_decreases
{
    let step = spec_next_token(s, i);
    if step.0 is Eof {
        Seq::empty()
    } else {
        seq![step.0] + token_stream_from(s, step.1)
    }
}

#[via_fn]
proof fn token_stream_from_decreases(s: Seq<char>, i: int) {
    lemma_next_token_bounds(s, i);
}

/// The token sequence of a whole input.
pub open spec fn tokens_of(s: Seq<char>) -> Seq<TokenV> {
    token_stream_from(s, 0)
}

proof fn lemma_skip_ws_shift(w: Seq<char>, s: Seq<char>, i: int)
    requires
        0 <= i <= s.len(),
    ensures
        skip_ws_from(w + s, w.len() + i) == w.len() + skip_ws_from(s, i),
    decreases s.len() - i,
{
    if i < s.len() {
        assert((w + s)[w.len() + i] == s[i]);
        if is_whitespace_char(s[i]) {
            lemma_skip_ws_shift(w, s, i + 1);
        }
    }
}

proof fn lemma_letter_run_shift(w: Seq<char>, s: Seq<char>, i: int)
    requires
        0 <= i <= s.len(),
    ensures
        letter_run_end(w + s, w.len() + i) == w.len() + letter_run_end(s, i),
    decreases s.len() - i,
{
    if i < s.len() {
        assert((w + s)[w.len() + i] == s[i]);
        if is_letter(s[i]) {
            lemma_letter_run_shift(w, s, i + 1);
        }
    }
}

proof fn lemma_digit_run_shift(w: Seq<char>, s: Seq<char>, i: int)
    requires
        0 <= i <= s.len(),
    ensures
        digit_run_end(w + s, w.len() + i) == w.len() + digit_run_end(s, i),
    decreases s.len() - i,
{
    if i < s.len() {
        assert((w + s)[w.len() + i] == s[i]);
        if is_digit(s[i]) {
            lemma_digit_run_shift(w, s, i + 1);
        }
    }
}

proof fn lemma_token_at_shift(w: Seq<char>, s: Seq<char>, i: int)
    requires
        0 <= i <= s.len(),
    ensures
        spec_token_at(w + s, w.len() + i).0 == spec_token_at(s, i).0,
        spec_token_at(w + s, w.len() + i).1 == w.len() + spec_token_at(s, i).1,
{
    let ws = w + s;
    if i < s.len() {
        assert(ws[w.len() + i] == s[i]);
        if i + 1 < s.len() {
            assert(ws[w.len() + i + 1] == s[i + 1]);
        }
        let c = s[i];
        if is_letter(c) {
            lemma_letter_run_shift(w, s, i);
            lemma_letter_run(s, i);
            let j = letter_run_end(s, i);
            assert(ws.subrange(w.len() + i, w.len() + j) =~= s.subrange(i, j));
        } else if is_digit(c) {
            lemma_digit_run_shift(w, s, i);
            lemma_digit_run(s, i);
            let j = digit_run_end(s, i);
            assert(ws.subrange(w.len() + i, w.len() + j) =~= s.subrange(i, j));
        }
    }
}

proof fn lemma_token_stream_shift(w: Seq<char>, s: Seq<char>, i: int)
    requires
        0 <= i <= s.len(),
    ensures
        token_stream_from(w + s, w.len() + i) == token_stream_from(s, i),
    decreases s.len() - i,
{
    lemma_skip_ws_shift(w, s, i);
    lemma_skip_ws(s, i);
    let p = skip_ws_from(s, i);
    lemma_token_at_shift(w, s, p);
    lemma_next_token_bounds(s, i);
    let step = spec_next_token(s, i);
    if !(step.0 is Eof) {
        lemma_token_stream_shift(w, s, step.1);
    }
}

proof fn lemma_skip_ws_char(s: Seq<char>, i: int, e: int)
    requires
        0 <= i <= e <= s.len(),
        forall|k: int| i <= k < e ==> is_whitespace_char(s[k]),
        e == s.len() || !is_whitespace_char(s[e]),
    ensures
        skip_ws_from(s, i) == e,
    decreases e - i,
{
    if i < e {
        lemma_skip_ws_char(s, i + 1, e);
    }
}

proof fn lemma_letter_run_char(s: Seq<char>, i: int, e: int)
    requires
        0 <= i <= e <= s.len(),
        forall|k: int| i <= k < e ==> is_letter(s[k]),
        e == s.len() || !is_letter(s[e]),
    ensures
        letter_run_end(s, i) == e,
    decreases e - i,
{
    if i < e {
        lemma_letter_run_char(s, i + 1, e);
    }
}

proof fn lemma_digit_run_char(s: Seq<char>, i: int, e: int)
    requires
        0 <= i <= e <= s.len(),
        forall|k: int| i <= k < e ==> is_digit(s[k]),
        e == s.len() || !is_digit(s[e]),
    ensures
        digit_run_end(s, i) == e,
    decreases e - i,
{
    if i < e {
        lemma_digit_run_char(s, i + 1, e);
    }
}

proof fn lemma_ws_not_token_char(c: char)
    requires
        is_whitespace_char(c),
    ensures
        !is_recognized(c),
        !is_letter(c),
        !is_digit(c),
        c != '=',
{
}

/// The input with a run `w` spliced in at position `j`.
pub open spec fn inserted(s: Seq<char>, w: Seq<char>, j: int) -> Seq<char>
    recommends
        0 <= j <= s.len(),
{
    s.take(j) + w + s.skip(j)
}

proof fn lemma_inserted_facts(s: Seq<char>, w: Seq<char>, j: int)
    requires
        0 <= j <= s.len(),
    ensures
        inserted(s, w, j).len() == s.len() + w.len(),
        forall|k: int| 0 <= k < j ==> inserted(s, w, j)[k] == s[k],
        forall|k: int| j <= k < j + w.len() ==> inserted(s, w, j)[k] == w[k - j],
        forall|k: int|
            j + w.len() <= k < s.len() + w.len() ==> inserted(s, w, j)[k] == s[k - w.len()],
{
}

proof fn lemma_skip_ws_agree(s: Seq<char>, w: Seq<char>, j: int, i: int)
    requires
        0 <= i <= s.len(),
        0 <= j <= s.len(),
        forall|k: int| 0 <= k < w.len() ==> is_whitespace_char(w[k]),
    ensures
        skip_ws_from(s, i) < j ==> skip_ws_from(inserted(s, w, j), i) == skip_ws_from(s, i),
        i <= j <= skip_ws_from(s, i) ==> skip_ws_from(inserted(s, w, j), i) == w.len()
            + skip_ws_from(s, i),
{
    lemma_skip_ws(s, i);
    lemma_inserted_facts(s, w, j);
    let t = inserted(s, w, j);
    let p = skip_ws_from(s, i);
    if p < j {
        lemma_skip_ws_char(t, i, p);
    } else if i <= j {
        assert forall|k: int| i <= k < p + w.len() implies is_whitespace_char(t[k]) by {
            if k >= j + w.len() {
                assert(t[k] == s[k - w.len()]);
            }
        }
        if p == s.len() {
            lemma_skip_ws_char(t, i, p + w.len());
        } else {
            assert(t[p + w.len()] == s[p]);
            lemma_skip_ws_char(t, i, p + w.len());
        }
    }
}

proof fn lemma_token_at_agree(s: Seq<char>, w: Seq<char>, j: int, p: int)
    requires
        0 <= p < j <= s.len(),
        w.len() >= 1,
        forall|k: int| 0 <= k < w.len() ==> is_whitespace_char(w[k]),
        spec_token_at(s, p).1 <= j,
    ensures
        spec_token_at(inserted(s, w, j), p) == spec_token_at(s, p),
{
    lemma_inserted_facts(s, w, j);
    let t = inserted(s, w, j);
    let e = spec_token_at(s, p).1;
    let c = s[p];
    assert(t[p] == c);
    lemma_ws_not_token_char(w[0]);
    if c == '=' || c == '!' {
        if p + 1 < s.len() && s[p + 1] == '=' {
            assert(t[p + 1] == s[p + 1]);
        } else {
            if p + 1 < j {
                assert(t[p + 1] == s[p + 1]);
            } else {
                assert(t[p + 1] == w[0]);
            }
        }
    } else if is_letter(c) {
        lemma_letter_run(s, p);
        assert forall|k: int| p <= k < e implies is_letter(t[k]) by {
            assert(t[k] == s[k]);
        }
        if e < j {
            assert(t[e] == s[e]);
        } else {
            assert(t[e] == w[0]);
        }
        lemma_letter_run_char(t, p, e);
        assert(t.subrange(p, e) =~= s.subrange(p, e));
    } else if is_digit(c) {
        lemma_digit_run(s, p);
        assert forall|k: int| p <= k < e implies is_digit(t[k]) by {
            assert(t[k] == s[k]);
        }
        if e < j {
            assert(t[e] == s[e]);
        } else {
            assert(t[e] == w[0]);
        }
        lemma_digit_run_char(t, p, e);
        assert(t.subrange(p, e) =~= s.subrange(p, e));
    }
}

proof fn lemma_stream_agree(s: Seq<char>, w: Seq<char>, i: int, m: nat)
    requires
        0 <= i <= s.len(),
        w.len() >= 1,
        forall|k: int| 0 <= k < w.len() ==> is_whitespace_char(w[k]),
    ensures
        token_stream_from(inserted(s, w, pos_after(s, i, m)), i) == token_stream_from(s, i),
    decreases m,
{
    let j = pos_after(s, i, m);
    lemma_pos_after_bounds(s, i, m);
    let t = inserted(s, w, j);
    lemma_inserted_facts(s, w, j);
    lemma_skip_ws(s, i);
    lemma_next_token_bounds(s, i);
    let p = skip_ws_from(s, i);
    let step = spec_next_token(s, i);
    if m == 0 {
        lemma_skip_ws_agree(s, w, j, i);
        if step.0 is Eof {
            assert(p == s.len());
            assert(spec_next_token(t, i).0 is Eof);
        } else {
            let u = s.skip(j);
            let a = s.take(j) + w;
            assert(t =~= a + u);
            assert(s =~= s.take(j) + u);
            assert(u[p - j] == s[p]);
            lemma_skip_ws_char(u, p - j, p - j);
            lemma_next_token_bounds(u, p - j);
            let q = spec_token_at(u, p - j).1;
            lemma_token_at_shift(a, u, p - j);
            lemma_token_at_shift(s.take(j), u, p - j);
            assert(step == (spec_token_at(u, p - j).0, j + q));
            assert(spec_next_token(t, i) == (step.0, j + w.len() + q));
            lemma_token_stream_shift(a, u, q);
            lemma_token_stream_shift(s.take(j), u, q);
            assert(token_stream_from(t, i) == seq![step.0] + token_stream_from(
                t,
                j + w.len() + q,
            ));
            assert(token_stream_from(s, i) == seq![step.0] + token_stream_from(s, j + q));
        }
    } else {
        if step.0 is Eof {
            lemma_eof_stable(s, i);
            lemma_pos_after_at_end(s, (m - 1) as nat);
            assert(j == s.len());
            assert(p == s.len());
            lemma_skip_ws_agree(s, w, j, i);
            assert(spec_next_token(t, i).0 is Eof);
        } else {
            let e = step.1;
            lemma_pos_after_bounds(s, e, (m - 1) as nat);
            lemma_skip_ws_agree(s, w, j, i);
            lemma_token_at_agree(s, w, j, p);
            assert(spec_next_token(t, i) == step);
            lemma_stream_agree(s, w, e, (m - 1) as nat);
            assert(token_stream_from(t, i) == seq![step.0] + token_stream_from(t, e));
            assert(token_stream_from(s, i) == seq![step.0] + token_stream_from(s, e));
        }
    }
}

/// Whitespace transparency: the token sequence does not change when a run of
/// whitespace — of any characters and any length, the empty run included — is
/// spliced in between two tokens: at any cursor position that a number of
/// `next_token` calls reaches, the start and the end of the input among them.
pub proof fn lemma_whitespace_between_tokens(s: Seq<char>, w: Seq<char>, n: nat)
    requires
        forall|k: int| 0 <= k < w.len() ==> is_whitespace_char(w[k]),
    ensures
        tokens_of(inserted(s, w, state_after(s, n))) == tokens_of(s),
{
    lemma_pos_after_bounds(s, 0, n);
    if w.len() == 0 {
        assert(inserted(s, w, state_after(s, n)) =~= s);
    } else {
        lemma_stream_agree(s, w, 0, n);
    }
}

/// Whitespace transparency at the front: a run of whitespace ahead of the
/// input changes nothing — the token sequence of the input with the run
/// prepended is the token sequence of the input alone.
pub proof fn lemma_whitespace_prefix_transparent(w: Seq<char>, s: Seq<char>)
    requires
        forall|k: int| 0 <= k < w.len() ==> is_whitespace_char(w[k]),
    ensures
        tokens_of(w + s) == tokens_of(s),
{
    lemma_whitespace_between_tokens(s, w, 0);
    assert(inserted(s, w, 0) =~= w + s);
}

} // verus!
