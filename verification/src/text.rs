//! Character classes and elementary text operations shared by the scanner
//! and the rewriter: whitespace and word characters, runs of characters
//! satisfying a predicate, trimming, and comma-splitting.

use vstd::prelude::*;

verus! {

/// The Unicode `White_Space` characters, the set that both the directive
/// grammar's whitespace and payload trimming go by.
pub open spec fn char_is_whitespace(c: char) -> bool {
    let u = c as u32;
    ||| u == 0x09
    ||| u == 0x0A
    ||| u == 0x0B
    ||| u == 0x0C
    ||| u == 0x0D
    ||| u == 0x20
    ||| u == 0x85
    ||| u == 0xA0
    ||| u == 0x1680
    ||| (0x2000 <= u && u <= 0x200A)
    ||| u == 0x2028
    ||| u == 0x2029
    ||| u == 0x202F
    ||| u == 0x205F
    ||| u == 0x3000
}

/// Word characters, the ones a directive name may consist of:
/// ASCII letters, digits and the underscore.
pub open spec fn char_is_word(c: char) -> bool {
    let u = c as u32;
    ||| (0x30 <= u && u <= 0x39)
    ||| (0x41 <= u && u <= 0x5A)
    ||| (0x61 <= u && u <= 0x7A)
    ||| u == 0x5F
}

pub fn is_whitespace(c: char) -> (r: bool)
    ensures
        r == char_is_whitespace(c),
{
    let u = c as u32;
    u == 0x09 || u == 0x0A || u == 0x0B || u == 0x0C || u == 0x0D || u == 0x20 || u == 0x85
        || u == 0xA0 || u == 0x1680 || (0x2000 <= u && u <= 0x200A) || u == 0x2028 || u == 0x2029
        || u == 0x202F || u == 0x205F || u == 0x3000
}

pub fn is_word_char(c: char) -> (r: bool)
    ensures
        r == char_is_word(c),
{
    let u = c as u32;
    (0x30 <= u && u <= 0x39) || (0x41 <= u && u <= 0x5A) || (0x61 <= u && u <= 0x7A) || u == 0x5F
}

/// The first index at or after `i` whose character falsifies `f`,
/// or `t.len()` when every character from `i` on satisfies `f`.
pub open spec fn run_end(t: Seq<char>, i: int, f: spec_fn(char) -> bool) -> int
    decreases t.len() - i,
{
    if i < 0 || i >= t.len() {
        t.len() as int
    } else if f(t[i]) {
        run_end(t, i + 1, f)
    } else {
        i
    }
}

pub proof fn lemma_run_end(t: Seq<char>, i: int, f: spec_fn(char) -> bool)
    requires
        0 <= i <= t.len(),
    ensures
        i <= run_end(t, i, f) <= t.len(),
        forall|k: int| i <= k < run_end(t, i, f) ==> #[trigger] f(t[k]),
        run_end(t, i, f) < t.len() ==> !f(t[run_end(t, i, f)]),
    decreases t.len() - i,
{
    if i < t.len() && f(t[i]) {
        lemma_run_end(t, i + 1, f);
    }
}

/// A position with the run's defining properties is the run's end.
pub proof fn lemma_run_end_unique(t: Seq<char>, i: int, f: spec_fn(char) -> bool, j: int)
    requires
        0 <= i <= j <= t.len(),
        forall|k: int| i <= k < j ==> #[trigger] f(t[k]),
        j < t.len() ==> !f(t[j]),
    ensures
        j == run_end(t, i, f),
    decreases t.len() - i,
{
    if i < t.len() && f(t[i]) {
        lemma_run_end_unique(t, i + 1, f, j);
    }
}

/// Whitespace, as a predicate value for `run_end`.
pub open spec fn ws_pred() -> spec_fn(char) -> bool {
    |c: char| char_is_whitespace(c)
}

/// Word characters, as a predicate value for `run_end`.
pub open spec fn word_pred() -> spec_fn(char) -> bool {
    |c: char| char_is_word(c)
}

/// Everything but a closing brace: a run of these ends at the first `}`.
pub open spec fn not_rbrace_pred() -> spec_fn(char) -> bool {
    |c: char| c != '}'
}

/// Everything but a line feed: a run of these ends at the first newline.
pub open spec fn not_newline_pred() -> spec_fn(char) -> bool {
    |c: char| c != '\n'
}

/// Everything but a comma: a run of these ends at the first `,`.
pub open spec fn not_comma_pred() -> spec_fn(char) -> bool {
    |c: char| c != ','
}

/// The start of the whitespace run that ends the text: the least index
/// from which every character to the end is whitespace.
pub open spec fn ws_suffix_start(s: Seq<char>) -> int
    decreases s.len(),
{
    if s.len() == 0 {
        0
    } else if !char_is_whitespace(s.last()) {
        s.len() as int
    } else {
        ws_suffix_start(s.drop_last())
    }
}

/// A position with the suffix's defining properties is where the
/// whitespace suffix starts.
pub proof fn lemma_ws_suffix_start_unique(s: Seq<char>, j: int)
    requires
        0 <= j <= s.len(),
        forall|k: int| j <= k < s.len() ==> char_is_whitespace(#[trigger] s[k]),
        j > 0 ==> !char_is_whitespace(s[j - 1]),
    ensures
        j == ws_suffix_start(s),
    decreases s.len(),
{
    if s.len() > 0 && char_is_whitespace(s.last()) {
        assert(forall|k: int|
            0 <= k < s.len() - 1 ==> #[trigger] s.drop_last()[k] == s[k]);
        if j == s.len() {
            assert(!char_is_whitespace(s[j - 1]));
            assert(false);
        }
        lemma_ws_suffix_start_unique(s.drop_last(), j);
    }
}

/// The text with leading and trailing whitespace removed, the meaning of
/// trimming a directive payload.
pub open spec fn trimmed(s: Seq<char>) -> Seq<char> {
    let a = run_end(s, 0, ws_pred());
    if a == s.len() {
        Seq::empty()
    } else {
        s.subrange(a, ws_suffix_start(s))
    }
}

/// The pieces of `s` between commas, from position `a` on: what splitting
/// on the comma character yields. Consecutive commas and commas at either
/// end yield empty pieces; a text without commas is one piece.
pub open spec fn split_commas_from(s: Seq<char>, a: int) -> Seq<Seq<char>>
    decreases s.len() - a,
        when 0 <= a <= s.len()
{
    let r = run_end(s, a, not_comma_pred());
    if r >= s.len() {
        seq![s.subrange(a, s.len() as int)]
    } else {
        proof {
            lemma_run_end(s, a, not_comma_pred());
        }
        seq![s.subrange(a, r)] + split_commas_from(s, r + 1)
    }
}

pub open spec fn split_commas(s: Seq<char>) -> Seq<Seq<char>> {
    split_commas_from(s, 0)
}

/// The first comma at or after `i`, or the end of the text.
pub fn comma_run_from(s: &str, n: usize, i: usize) -> (r: usize)
    requires
        n == s@.len(),
        i <= n,
    ensures
        r == run_end(s@, i as int, not_comma_pred()),
        i <= r <= n,
{
    let mut j = i;
    while j < n && s.get_char(j) != ','
        invariant
            n == s@.len(),
            i <= j <= n,
            forall|k: int| i <= k < j ==> #[trigger] s@[k] != ',',
        decreases n - j,
    {
        j = j + 1;
    }
    proof {
        lemma_run_end_unique(s@, i as int, not_comma_pred(), j as int);
    }
    j
}

/// Remove leading and trailing whitespace, as `str::trim` does.
pub fn trim(s: &str) -> (r: String)
    ensures
        r@ == trimmed(s@),
{
    let n = s.unicode_len();
    let mut a: usize = 0;
    while a < n && is_whitespace(s.get_char(a))
        invariant
            n == s@.len(),
            0 <= a <= n,
            forall|k: int| 0 <= k < a ==> char_is_whitespace(#[trigger] s@[k]),
        decreases n - a,
    {
        a = a + 1;
    }
    if a == n {
        proof {
            lemma_run_end_unique(s@, 0, ws_pred(), a as int);
        }
        return String::new();
    }
    proof {
        lemma_run_end_unique(s@, 0, ws_pred(), a as int);
    }
    let mut b: usize = n;
    while b > 0 && is_whitespace(s.get_char(b - 1))
        invariant
            n == s@.len(),
            a < n,
            !char_is_whitespace(s@[a as int]),
            a < b <= n,
            forall|k: int| b <= k < n ==> char_is_whitespace(#[trigger] s@[k]),
        decreases b,
    {
        assert(b - 1 > a) by {
            assert(!char_is_whitespace(s@[a as int]));
        }
        b = b - 1;
    }
    proof {
        lemma_ws_suffix_start_unique(s@, b as int);
    }
    let piece = s.substring_char(a, b);
    piece.to_owned()
}

} // verus!
