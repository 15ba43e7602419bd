//! The directive scanner. Its grammar has two alternatives, tried in this
//! order at every position of a left-to-right, non-overlapping sweep:
//!
//! * an escaped directive, `\{{#` followed by anything up to the last `}}`
//!   on the same line, which is structurally consumed but never yields an
//!   occurrence, and
//! * a live directive, `{{` then optional whitespace, `#`, a name of word
//!   characters, whitespace, a payload free of `}`, then `}}`; it yields an
//!   occurrence exactly when the name is `author` or `authors` and the
//!   payload is non-empty once trimmed.

use vstd::prelude::*;

use crate::text::char_is_whitespace;
use crate::text::char_is_word;
use crate::text::is_whitespace;
use crate::text::is_word_char;
use crate::text::lemma_run_end;
use crate::text::lemma_run_end_unique;
use crate::text::not_newline_pred;
use crate::text::not_rbrace_pred;
use crate::text::run_end;
use crate::text::trim;
use crate::text::trimmed;
use crate::text::word_pred;
use crate::text::ws_pred;

verus! {

/// The parsed payload of one recognized directive: either a single author
/// identity, or a raw comma-separated list of identities.
#[derive(Debug, Clone, PartialEq)]
pub enum AuthorLinkType {
    SingleAuthor(String),
    MultipleAuthors(String),
}

/// One recognized directive occurrence: its half-open character span in the
/// scanned text, its parsed payload, and the exact text matched.
#[derive(Debug, Clone, PartialEq)]
pub struct AuthorLink {
    pub start_index: usize,
    pub end_index: usize,
    pub link_type: AuthorLinkType,
    pub link_text: String,
}

/// The mathematical shape of a payload.
pub enum LinkPayload {
    Single(Seq<char>),
    Multiple(Seq<char>),
}

/// The mathematical shape of an occurrence.
pub struct Occurrence {
    pub start: int,
    pub end: int,
    pub payload: LinkPayload,
    pub raw: Seq<char>,
}

impl View for AuthorLinkType {
    type V = LinkPayload;

    open spec fn view(&self) -> LinkPayload {
        match self {
            AuthorLinkType::SingleAuthor(a) => LinkPayload::Single(a@),
            AuthorLinkType::MultipleAuthors(a) => LinkPayload::Multiple(a@),
        }
    }
}

impl View for AuthorLink {
    type V = Occurrence;

    open spec fn view(&self) -> Occurrence {
        Occurrence {
            start: self.start_index as int,
            end: self.end_index as int,
            payload: self.link_type@,
            raw: self.link_text@,
        }
    }
}

pub open spec fn links_view(ls: Seq<AuthorLink>) -> Seq<Occurrence> {
    ls.map_values(|l: AuthorLink| l@)
}

/// The index of the first `}` of the last `}}` pair lying wholly inside
/// `[from, limit)`, or `-1` when there is none: where the greedy `anything`
/// of an escaped directive stops.
pub open spec fn last_brace_pair(t: Seq<char>, from: int, limit: int) -> int
    decreases limit - from,
        when from >= 0
{
    if limit - 2 < from || limit > t.len() {
        -1
    } else if t[limit - 2] == '}' && t[limit - 1] == '}' {
        limit - 2
    } else {
        last_brace_pair(t, from, limit - 1)
    }
}

pub proof fn lemma_last_brace_pair(t: Seq<char>, from: int, limit: int)
    requires
        0 <= from,
        limit <= t.len(),
    ensures
        last_brace_pair(t, from, limit) == -1 || (from <= last_brace_pair(t, from, limit)
            && last_brace_pair(t, from, limit) + 2 <= limit
            && t[last_brace_pair(t, from, limit)] == '}'
            && t[last_brace_pair(t, from, limit) + 1] == '}'),
        forall|k: int|
            last_brace_pair(t, from, limit) < k && from <= k && k + 2 <= limit
                ==> !(t[k] == '}' && #[trigger] t[k + 1] == '}'),
    decreases limit - from,
{
    if limit - 2 < from {
    } else if t[limit - 2] == '}' && t[limit - 1] == '}' {
    } else {
        lemma_last_brace_pair(t, from, limit - 1);
    }
}

/// Does the escaped alternative match at position `p`?
pub open spec fn escaped_match_at(t: Seq<char>, p: int) -> bool {
    &&& 0 <= p
    &&& p + 4 <= t.len()
    &&& t[p] == '\\'
    &&& t[p + 1] == '{'
    &&& t[p + 2] == '{'
    &&& t[p + 3] == '#'
    &&& last_brace_pair(t, p + 4, run_end(t, p + 4, not_newline_pred())) >= 0
}

/// One past the escaped match that starts at `p`: two past the first `}` of
/// the last `}}` pair on the line.
pub open spec fn escaped_end(t: Seq<char>, p: int) -> int {
    last_brace_pair(t, p + 4, run_end(t, p + 4, not_newline_pred())) + 2
}

/// Where the `#` of a directive starting at `p` must sit: right after the
/// whitespace that follows the opening braces.
pub open spec fn d_hash(t: Seq<char>, p: int) -> int {
    run_end(t, p + 2, ws_pred())
}

pub open spec fn d_name_start(t: Seq<char>, p: int) -> int {
    d_hash(t, p) + 1
}

/// One past the directive's name: the end of the word-character run.
pub open spec fn d_name_end(t: Seq<char>, p: int) -> int {
    run_end(t, d_name_start(t, p), word_pred())
}

/// The first `}` at or after the directive's name: where the payload stops.
pub open spec fn d_close(t: Seq<char>, p: int) -> int {
    run_end(t, d_name_end(t, p), not_rbrace_pred())
}

/// Does the directive alternative match at position `p`?
pub open spec fn directive_match_at(t: Seq<char>, p: int) -> bool {
    &&& 0 <= p
    &&& p + 2 <= t.len()
    &&& t[p] == '{'
    &&& t[p + 1] == '{'
    &&& d_hash(t, p) < t.len()
    &&& t[d_hash(t, p)] == '#'
    &&& d_name_end(t, p) > d_name_start(t, p)
    &&& d_name_end(t, p) < t.len()
    &&& char_is_whitespace(t[d_name_end(t, p)])
    &&& d_close(t, p) + 2 <= t.len()
    &&& t[d_close(t, p) + 1] == '}'
    &&& d_close(t, p) >= d_name_end(t, p) + 2
}

/// Where the payload starts: after the whitespace that separates it from the
/// name, except that when whitespace runs all the way to the closing braces,
/// the separator keeps one character less and the payload is the last
/// whitespace character alone.
pub open spec fn d_payload_start(t: Seq<char>, p: int) -> int {
    let w = run_end(t, d_name_end(t, p), ws_pred());
    if w < d_close(t, p) {
        w
    } else {
        d_close(t, p) - 1
    }
}

pub open spec fn directive_end(t: Seq<char>, p: int) -> int {
    d_close(t, p) + 2
}

pub open spec fn d_name(t: Seq<char>, p: int) -> Seq<char> {
    t.subrange(d_name_start(t, p), d_name_end(t, p))
}

pub open spec fn d_payload(t: Seq<char>, p: int) -> Seq<char> {
    t.subrange(d_payload_start(t, p), d_close(t, p))
}

/// Does either alternative match at `p`?
pub open spec fn match_at(t: Seq<char>, p: int) -> bool {
    escaped_match_at(t, p) || directive_match_at(t, p)
}

/// One past the structural match at `p`; the escaped alternative is
/// preferred when both apply.
pub open spec fn match_end(t: Seq<char>, p: int) -> int {
    if escaped_match_at(t, p) {
        escaped_end(t, p)
    } else {
        directive_end(t, p)
    }
}

pub open spec fn author_name() -> Seq<char> {
    "author"@
}

pub open spec fn authors_name() -> Seq<char> {
    "authors"@
}

/// What a directive match at `p` resolves to: an occurrence exactly when the
/// name is `author` or `authors` and the trimmed payload is non-empty.
pub open spec fn directive_occurrence(t: Seq<char>, p: int) -> Option<Occurrence> {
    let name = d_name(t, p);
    let pay = trimmed(d_payload(t, p));
    if pay.len() == 0 {
        None
    } else if name == author_name() {
        Some(
            Occurrence {
                start: p,
                end: directive_end(t, p),
                payload: LinkPayload::Single(pay),
                raw: t.subrange(p, directive_end(t, p)),
            },
        )
    } else if name == authors_name() {
        Some(
            Occurrence {
                start: p,
                end: directive_end(t, p),
                payload: LinkPayload::Multiple(pay),
                raw: t.subrange(p, directive_end(t, p)),
            },
        )
    } else {
        None
    }
}

/// The occurrence contributed by the structural match at `p`, if any. An
/// escaped match never contributes one.
pub open spec fn match_occurrence(t: Seq<char>, p: int) -> Option<Occurrence> {
    if escaped_match_at(t, p) {
        None
    } else {
        directive_occurrence(t, p)
    }
}

/// A structural match never ends at or before where it starts, and never
/// past the end of the text.
pub proof fn lemma_match_end_bounds(t: Seq<char>, p: int)
    requires
        match_at(t, p),
    ensures
        p + 2 <= match_end(t, p) <= t.len(),
{
    if escaped_match_at(t, p) {
        lemma_run_end(t, p + 4, not_newline_pred());
        lemma_last_brace_pair(t, p + 4, run_end(t, p + 4, not_newline_pred()));
    } else {
        lemma_run_end(t, p + 2, ws_pred());
    }
}

/// The occurrences of the sweep that starts at position `p`: at each
/// position the escaped alternative, then the directive alternative, is
/// tried; a structural match is skipped over whole, and every other
/// position is passed one character at a time.
pub open spec fn occurrences_from(t: Seq<char>, p: int) -> Seq<Occurrence>
    decreases t.len() - p,
        when 0 <= p
{
    if p >= t.len() {
        Seq::empty()
    } else if match_at(t, p) {
        proof {
            lemma_match_end_bounds(t, p);
        }
        match match_occurrence(t, p) {
            Some(o) => seq![o] + occurrences_from(t, match_end(t, p)),
            None => occurrences_from(t, match_end(t, p)),
        }
    } else {
        occurrences_from(t, p + 1)
    }
}

/// The occurrences of a whole text, in document order.
pub open spec fn spec_occurrences(t: Seq<char>) -> Seq<Occurrence> {
    occurrences_from(t, 0)
}

/// Occurrence spans sit between `lo` and the end of the text, are non-empty,
/// and follow one another without overlap.
pub open spec fn occurrences_bounded(t: Seq<char>, occs: Seq<Occurrence>, lo: int) -> bool {
    forall|j: int|
        0 <= j < occs.len() ==> {
            &&& lo <= (#[trigger] occs[j]).start
            &&& occs[j].start < occs[j].end <= t.len()
            &&& (j + 1 < occs.len() ==> occs[j].end <= occs[j + 1].start)
        }
}

pub proof fn lemma_occurrences_bounded(t: Seq<char>, p: int)
    requires
        0 <= p,
    ensures
        occurrences_bounded(t, occurrences_from(t, p), p),
    decreases t.len() - p,
{
    if p >= t.len() {
    } else if match_at(t, p) {
        lemma_match_end_bounds(t, p);
        lemma_occurrences_bounded(t, match_end(t, p));
        match match_occurrence(t, p) {
            Some(o) => {
                let tail = occurrences_from(t, match_end(t, p));
                let whole = seq![o] + tail;
                assert(whole[0] == o);
                assert(forall|j: int| 1 <= j < whole.len() ==> whole[j] == tail[j - 1]);
            },
            None => {},
        }
    } else {
        lemma_occurrences_bounded(t, p + 1);
    }
}

/// The first index at or after `i` holding a character that is not
/// whitespace, or the end of the text.
fn ws_run_from(s: &str, n: usize, i: usize) -> (r: usize)
    requires
        n == s@.len(),
        i <= n,
    ensures
        r == run_end(s@, i as int, ws_pred()),
        i <= r <= n,
{
    let mut j = i;
    while j < n && is_whitespace(s.get_char(j))
        invariant
            n == s@.len(),
            i <= j <= n,
            forall|k: int| i <= k < j ==> char_is_whitespace(#[trigger] s@[k]),
        decreases n - j,
    {
        j = j + 1;
    }
    proof {
        lemma_run_end_unique(s@, i as int, ws_pred(), j as int);
    }
    j
}

/// The first index at or after `i` holding a non-word character, or the end
/// of the text.
fn word_run_from(s: &str, n: usize, i: usize) -> (r: usize)
    requires
        n == s@.len(),
        i <= n,
    ensures
        r == run_end(s@, i as int, word_pred()),
        i <= r <= n,
{
    let mut j = i;
    while j < n && is_word_char(s.get_char(j))
        invariant
            n == s@.len(),
            i <= j <= n,
            forall|k: int| i <= k < j ==> char_is_word(#[trigger] s@[k]),
        decreases n - j,
    {
        j = j + 1;
    }
    proof {
        lemma_run_end_unique(s@, i as int, word_pred(), j as int);
    }
    j
}

/// The first `}` at or after `i`, or the end of the text.
fn rbrace_run_from(s: &str, n: usize, i: usize) -> (r: usize)
    requires
        n == s@.len(),
        i <= n,
    ensures
        r == run_end(s@, i as int, not_rbrace_pred()),
        i <= r <= n,
{
    let mut j = i;
    while j < n && s.get_char(j) != '}'
        invariant
            n == s@.len(),
            i <= j <= n,
            forall|k: int| i <= k < j ==> #[trigger] s@[k] != '}',
        decreases n - j,
    {
        j = j + 1;
    }
    proof {
        lemma_run_end_unique(s@, i as int, not_rbrace_pred(), j as int);
    }
    j
}

/// The first line feed at or after `i`, or the end of the text.
fn newline_run_from(s: &str, n: usize, i: usize) -> (r: usize)
    requires
        n == s@.len(),
        i <= n,
    ensures
        r == run_end(s@, i as int, not_newline_pred()),
        i <= r <= n,
{
    let mut j = i;
    while j < n && s.get_char(j) != '\n'
        invariant
            n == s@.len(),
            i <= j <= n,
            forall|k: int| i <= k < j ==> #[trigger] s@[k] != '\n',
        decreases n - j,
    {
        j = j + 1;
    }
    proof {
        lemma_run_end_unique(s@, i as int, not_newline_pred(), j as int);
    }
    j
}

/// The first `}` of the last `}}` pair wholly inside `[from, limit)`.
fn last_pair_in(s: &str, from: usize, limit: usize) -> (r: Option<usize>)
    requires
        limit <= s@.len(),
    ensures
        r matches Some(e) ==> last_brace_pair(s@, from as int, limit as int) == e,
        r is None ==> last_brace_pair(s@, from as int, limit as int) == -1,
{
    let mut cur: usize = limit;
    while cur >= 2 && cur - 2 >= from
        invariant
            cur <= limit <= s@.len(),
            last_brace_pair(s@, from as int, limit as int) == last_brace_pair(
                s@,
                from as int,
                cur as int,
            ),
        decreases cur,
    {
        if s.get_char(cur - 2) == '}' && s.get_char(cur - 1) == '}' {
            return Some(cur - 2);
        }
        cur = cur - 1;
    }
    None
}

/// When the escaped alternative matches at `p`, where it ends.
fn try_escaped(s: &str, n: usize, p: usize) -> (r: Option<usize>)
    requires
        n == s@.len(),
        p < n,
    ensures
        r is Some <==> escaped_match_at(s@, p as int),
        r matches Some(e) ==> e == escaped_end(s@, p as int),
{
    if s.get_char(p) != '\\' {
        return None;
    }
    if n - p < 4 {
        return None;
    }
    if s.get_char(p + 1) != '{' || s.get_char(p + 2) != '{' || s.get_char(p + 3) != '#' {
        return None;
    }
    let limit = newline_run_from(s, n, p + 4);
    match last_pair_in(s, p + 4, limit) {
        Some(e) => {
            proof {
                lemma_last_brace_pair(s@, p as int + 4, limit as int);
            }
            Some(e + 2)
        },
        None => None,
    }
}

/// The sub-positions of a directive match: one past the whitespace after the
/// opening braces and the name, and the first `}` of the closing pair.
struct DirectiveMatch {
    name_start: usize,
    name_end: usize,
    close: usize,
}

/// When the directive alternative matches at `p`, its sub-positions.
fn try_directive(s: &str, n: usize, p: usize) -> (r: Option<DirectiveMatch>)
    requires
        n == s@.len(),
        p < n,
    ensures
        r is Some <==> directive_match_at(s@, p as int),
        r matches Some(m) ==> {
            &&& m.name_start == d_name_start(s@, p as int)
            &&& m.name_end == d_name_end(s@, p as int)
            &&& m.close == d_close(s@, p as int)
            &&& m.name_end <= m.close && m.close + 2 <= n && m.name_start <= m.name_end
        },
{
    if n - p < 2 {
        return None;
    }
    if s.get_char(p) != '{' || s.get_char(p + 1) != '{' {
        return None;
    }
    let h = ws_run_from(s, n, p + 2);
    if h == n {
        return None;
    }
    if s.get_char(h) != '#' {
        return None;
    }
    let ns = h + 1;
    let ne = word_run_from(s, n, ns);
    if ne == ns {
        return None;
    }
    if ne == n {
        return None;
    }
    if !is_whitespace(s.get_char(ne)) {
        return None;
    }
    let close = rbrace_run_from(s, n, ne);
    if n - close < 2 {
        return None;
    }
    if s.get_char(close + 1) != '}' {
        return None;
    }
    if close - ne < 2 {
        return None;
    }
    Some(DirectiveMatch { name_start: ns, name_end: ne, close })
}

/// Resolve a directive match: trim the payload, check the name, and build
/// the link that the match contributes, if any.
fn resolve_link(s: &str, n: usize, p: usize, m: &DirectiveMatch) -> (r: Option<AuthorLink>)
    requires
        n == s@.len(),
        p < n,
        directive_match_at(s@, p as int),
        m.name_start == d_name_start(s@, p as int),
        m.name_end == d_name_end(s@, p as int),
        m.close == d_close(s@, p as int),
        m.name_start <= m.name_end <= m.close,
        m.close + 2 <= n,
    ensures
        r is Some <==> directive_occurrence(s@, p as int) is Some,
        r matches Some(l) ==> directive_occurrence(s@, p as int) == Some(l@),
{
    let ghost t = s@;
    let ghost pi = p as int;
    let w = ws_run_from(s, n, m.name_end);
    let ps: usize = if w < m.close {
        w
    } else {
        m.close - 1
    };
    proof {
        lemma_run_end(t, m.name_end as int, ws_pred());
        lemma_run_end(t, pi + 2, ws_pred());
        assert(ps as int == d_payload_start(t, pi));
        assert(m.name_end <= ps < m.close);
        assert(pi < m.close as int);
    }
    let payload_raw = s.substring_char(ps, m.close);
    let payload = trim(payload_raw);
    if payload.as_str().is_empty() {
        return None;
    }
    let name = s.substring_char(m.name_start, m.name_end).to_owned();
    let single = name == String::from_str("author");
    let multiple = name == String::from_str("authors");
    if !single && !multiple {
        return None;
    }
    let end = m.close + 2;
    let link_text = s.substring_char(p, end).to_owned();
    let link_type = if single {
        AuthorLinkType::SingleAuthor(payload)
    } else {
        AuthorLinkType::MultipleAuthors(payload)
    };
    Some(AuthorLink { start_index: p, end_index: end, link_type, link_text })
}

/// Scan a whole text and return its recognized directive occurrences, in
/// document order.
pub fn find_author_links(s: &str) -> (links: Vec<AuthorLink>)
    ensures
        links_view(links@) == spec_occurrences(s@),
{
    let ghost t = s@;
    let n = s.unicode_len();
    let mut links: Vec<AuthorLink> = Vec::new();
    let mut p: usize = 0;
    proof {
        assert(links_view(links@) + occurrences_from(t, 0) =~= occurrences_from(t, 0));
    }
    while p < n
        invariant
            n == t.len(),
            t == s@,
            p <= n,
            spec_occurrences(t) == links_view(links@) + occurrences_from(t, p as int),
        decreases n - p,
    {
        let ghost pi = p as int;
        let ghost links_before = links@;
        match try_escaped(s, n, p) {
            Some(e) => {
                proof {
                    lemma_match_end_bounds(t, pi);
                    assert(occurrences_from(t, pi) == occurrences_from(t, e as int));
                }
                p = e;
            },
            None => {
                match try_directive(s, n, p) {
                    Some(m) => {
                        let e = m.close + 2;
                        proof {
                            lemma_match_end_bounds(t, pi);
                            assert(match_end(t, pi) == e as int);
                        }
                        match resolve_link(s, n, p, &m) {
                            Some(link) => {
                                proof {
                                    assert(match_occurrence(t, pi) == Some(link@));
                                    assert(occurrences_from(t, pi) == seq![link@]
                                        + occurrences_from(t, e as int));
                                }
                                links.push(link);
                                proof {
                                    assert(links_view(links@) =~= links_view(links_before)
                                        + seq![link@]);
                                    assert(links_view(links@) + occurrences_from(t, e as int)
                                        =~= links_view(links_before) + occurrences_from(t, pi));
                                }
                            },
                            None => {
                                proof {
                                    assert(match_occurrence(t, pi) is None);
                                    assert(occurrences_from(t, pi) == occurrences_from(
                                        t,
                                        e as int,
                                    ));
                                }
                            },
                        }
                        p = e;
                    },
                    None => {
                        proof {
                            assert(!match_at(t, pi));
                            assert(occurrences_from(t, pi) == occurrences_from(t, pi + 1));
                        }
                        p = p + 1;
                    },
                }
            },
        }
    }
    proof {
        assert(occurrences_from(t, p as int) =~= Seq::<Occurrence>::empty());
        assert(links_view(links@) + Seq::<Occurrence>::empty() =~= links_view(links@));
    }
    links
}

} // verus!
