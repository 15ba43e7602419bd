//! The engine's laws: properties that hold of every input, stated over the
//! same spec functions the executable contracts use, and proved here.

use vstd::prelude::*;

use crate::rewriter::identities_of;
use crate::rewriter::remove_spans;
use crate::rewriter::spec_identities;
use crate::rewriter::spec_rewritten;
use crate::scanner::author_name;
use crate::scanner::authors_name;
use crate::scanner::d_name;
use crate::scanner::d_payload;
use crate::scanner::escaped_end;
use crate::scanner::escaped_match_at;
use crate::scanner::lemma_match_end_bounds;
use crate::scanner::match_at;
use crate::scanner::match_end;
use crate::scanner::match_occurrence;
use crate::scanner::occurrences_from;
use crate::scanner::spec_occurrences;
use crate::scanner::Occurrence;
use crate::text::split_commas_from;
use crate::text::trimmed;

verus! {

/// The total length of the occurrence spans.
pub open spec fn span_sum(occs: Seq<Occurrence>) -> int
    decreases occs.len(),
{
    if occs.len() == 0 {
        0
    } else {
        (occs[0].end - occs[0].start) + span_sum(occs.drop_first())
    }
}

/// Spans start at or after `lo`, are non-empty, lie inside the text, and
/// follow one another without overlap.
spec fn occurrences_chained(t: Seq<char>, occs: Seq<Occurrence>, lo: int) -> bool
    decreases occs.len(),
{
    occs.len() == 0 || {
        &&& lo <= occs[0].start
        &&& occs[0].start < occs[0].end <= t.len()
        &&& occurrences_chained(t, occs.drop_first(), occs[0].end)
    }
}

proof fn lemma_chained_weaken(t: Seq<char>, occs: Seq<Occurrence>, lo: int, lo2: int)
    requires
        occurrences_chained(t, occs, lo),
        lo2 <= lo,
    ensures
        occurrences_chained(t, occs, lo2),
{
}

proof fn lemma_occurrences_from_chained(t: Seq<char>, p: int)
    requires
        0 <= p,
    ensures
        occurrences_chained(t, occurrences_from(t, p), p),
    decreases t.len() - p,
{
    if p >= t.len() {
    } else if match_at(t, p) {
        lemma_match_end_bounds(t, p);
        lemma_occurrences_from_chained(t, match_end(t, p));
        match match_occurrence(t, p) {
            Some(o) => {
                let tail = occurrences_from(t, match_end(t, p));
                let whole = seq![o] + tail;
                assert(whole[0] == o);
                assert(whole.drop_first() =~= tail);
            },
            None => {
                lemma_chained_weaken(t, occurrences_from(t, match_end(t, p)), match_end(t, p), p);
            },
        }
    } else {
        lemma_occurrences_from_chained(t, p + 1);
        lemma_chained_weaken(t, occurrences_from(t, p + 1), p + 1, p);
    }
}

proof fn lemma_remove_spans_length(t: Seq<char>, occs: Seq<Occurrence>, from: int)
    requires
        0 <= from <= t.len(),
        occurrences_chained(t, occs, from),
    ensures
        remove_spans(t, occs, from).len() + span_sum(occs) == t.len() - from,
    decreases occs.len(),
{
    if occs.len() > 0 {
        lemma_remove_spans_length(t, occs.drop_first(), occs[0].end);
    }
}

/// The length invariant: the rewritten text and the removed occurrence
/// spans together account for every character of the input — nothing else
/// is lost and nothing is added.
pub proof fn lemma_length_invariant(t: Seq<char>)
    ensures
        spec_rewritten(t).len() + span_sum(spec_occurrences(t)) == t.len(),
{
    lemma_occurrences_from_chained(t, 0);
    lemma_remove_spans_length(t, spec_occurrences(t), 0);
}

/// A text in which no occurrence is recognized is rewritten to itself, and
/// yields no identities.
pub proof fn lemma_no_occurrence_no_change(t: Seq<char>)
    requires
        spec_occurrences(t).len() == 0,
    ensures
        spec_rewritten(t) == t,
        spec_identities(t).len() == 0,
{
    assert(spec_rewritten(t) =~= t);
}

/// Does the text hold two adjacent opening braces anywhere? Every directive
/// form, live or escaped, contains them, so a text without them is clean.
pub open spec fn has_adjacent_open_braces(t: Seq<char>) -> bool {
    exists|i: int| 0 <= i && i + 2 <= t.len() && t[i] == '{' && #[trigger] t[i + 1] == '{'
}

proof fn lemma_no_braces_no_match_from(t: Seq<char>, p: int)
    requires
        0 <= p,
        !has_adjacent_open_braces(t),
    ensures
        occurrences_from(t, p).len() == 0,
    decreases t.len() - p,
{
    if p < t.len() {
        if escaped_match_at(t, p) {
            assert(t[p + 1] == '{' && t[(p + 1) + 1] == '{');
            assert(false);
        }
        if match_at(t, p) {
            assert(t[p] == '{' && t[p + 1] == '{');
            assert(false);
        }
        lemma_no_braces_no_match_from(t, p + 1);
    }
}

/// No-op on clean text: a text without double-brace markup is rewritten to
/// itself, with no occurrences and no identities.
pub proof fn lemma_clean_text_unchanged(t: Seq<char>)
    requires
        !has_adjacent_open_braces(t),
    ensures
        spec_occurrences(t).len() == 0,
        spec_rewritten(t) == t,
        spec_identities(t).len() == 0,
{
    lemma_no_braces_no_match_from(t, 0);
    lemma_no_occurrence_no_change(t);
}

/// The tie-break between the two alternatives: where the escaped form
/// matches, the match contributes no occurrence, whatever else would have
/// matched there.
pub proof fn lemma_escaped_yields_no_occurrence(t: Seq<char>, p: int)
    requires
        escaped_match_at(t, p),
    ensures
        match_occurrence(t, p) is None,
{
}

/// An unknown directive name is ignored: a match whose name is neither
/// `author` nor `authors` contributes no occurrence, so its text passes
/// through the rewriter untouched.
pub proof fn lemma_unknown_name_yields_no_occurrence(t: Seq<char>, p: int)
    requires
        d_name(t, p) != author_name(),
        d_name(t, p) != authors_name(),
    ensures
        match_occurrence(t, p) is None,
{
}

/// An empty payload is ignored: a match whose payload trims to nothing
/// contributes no occurrence, so its text passes through the rewriter
/// untouched.
pub proof fn lemma_empty_payload_yields_no_occurrence(t: Seq<char>, p: int)
    requires
        trimmed(d_payload(t, p)).len() == 0,
    ensures
        match_occurrence(t, p) is None,
{
}

/// Escape inviolability for a whole directive: a text that consists of one
/// escaped directive is passed through unchanged, backslash included, and
/// yields no identities.
pub proof fn lemma_whole_escaped_text_unchanged(t: Seq<char>)
    requires
        escaped_match_at(t, 0),
        escaped_end(t, 0) == t.len(),
    ensures
        spec_occurrences(t).len() == 0,
        spec_rewritten(t) == t,
        spec_identities(t).len() == 0,
{
    lemma_match_end_bounds(t, 0);
    assert(occurrences_from(t, 0) == occurrences_from(t, t.len() as int));
    lemma_no_occurrence_no_change(t);
}

/// The identity list is empty exactly when no occurrence was recognized:
/// every occurrence contributes at least one identity record.
pub proof fn lemma_identities_empty_iff_no_occurrence(t: Seq<char>)
    ensures
        spec_identities(t).len() == 0 <==> spec_occurrences(t).len() == 0,
{
    let occs = spec_occurrences(t);
    if occs.len() > 0 {
        match occs[0].payload {
            crate::scanner::LinkPayload::Single(a) => {},
            crate::scanner::LinkPayload::Multiple(l) => {
                assert(split_commas_from(l, 0).len() >= 1);
            },
        }
        assert(identities_of(occs).len() > 0);
    }
}

/// Idempotence of a no-match round trip: when the rewritten text holds no
/// recognizable occurrence, rewriting it again changes nothing and yields
/// no identities.
pub proof fn lemma_no_match_round_trip(t: Seq<char>)
    requires
        spec_occurrences(spec_rewritten(t)).len() == 0,
    ensures
        spec_rewritten(spec_rewritten(t)) == spec_rewritten(t),
        spec_identities(spec_rewritten(t)).len() == 0,
{
    lemma_no_occurrence_no_change(spec_rewritten(t));
}

/// Determinism: the rewriter's contract pins both outputs as functions of
/// the input text alone, so any two results it allows for equal texts are
/// equal.
pub proof fn lemma_rewrite_deterministic(
    t1: Seq<char>,
    out1: Seq<char>,
    ids1: Seq<Seq<char>>,
    t2: Seq<char>,
    out2: Seq<char>,
    ids2: Seq<Seq<char>>,
)
    requires
        t1 == t2,
        out1 == spec_rewritten(t1),
        ids1 == spec_identities(t1),
        out2 == spec_rewritten(t2),
        ids2 == spec_identities(t2),
    ensures
        out1 == out2,
        ids1 == ids2,
{
}

} // verus!
