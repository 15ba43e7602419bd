//! The document rewriter. It drives the scanner once over a text, copies
//! everything outside the recognized occurrence spans verbatim, drops the
//! spans themselves, and collects the referenced author identities in
//! document order — splitting a multiple-identities payload on commas, with
//! no trimming beyond the one the scanner already applied to the whole
//! field.

use vstd::prelude::*;

use crate::scanner::find_author_links;
use crate::scanner::lemma_occurrences_bounded;
use crate::scanner::links_view;
use crate::scanner::occurrences_bounded;
use crate::scanner::spec_occurrences;
use crate::scanner::AuthorLinkType;
use crate::scanner::LinkPayload;
use crate::scanner::Occurrence;
use crate::text::comma_run_from;
use crate::text::split_commas;
use crate::text::split_commas_from;

verus! {

/// One resolved author reference: a free-form identity string.
#[derive(Debug, Clone, PartialEq)]
pub struct GithubAuthor {
    pub username: String,
}

impl View for GithubAuthor {
    type V = Seq<char>;

    open spec fn view(&self) -> Seq<char> {
        self.username@
    }
}

/// The identity strings a list of author records holds, in order.
pub open spec fn author_names(v: Seq<GithubAuthor>) -> Seq<Seq<char>> {
    v.map_values(|g: GithubAuthor| g@)
}

/// The identity records one occurrence contributes: a single identity as
/// itself, a multiple-identities field split on the comma character.
pub open spec fn occurrence_records(o: Occurrence) -> Seq<Seq<char>> {
    match o.payload {
        LinkPayload::Single(a) => seq![a],
        LinkPayload::Multiple(l) => split_commas(l),
    }
}

/// The identity records of a list of occurrences, in order.
pub open spec fn identities_of(occs: Seq<Occurrence>) -> Seq<Seq<char>>
    decreases occs.len(),
{
    if occs.len() == 0 {
        Seq::empty()
    } else {
        occurrence_records(occs[0]) + identities_of(occs.drop_first())
    }
}

/// The text that remains when the occurrence spans are removed: the part of
/// `t` from `from` on, without the spans of `occs`.
pub open spec fn remove_spans(t: Seq<char>, occs: Seq<Occurrence>, from: int) -> Seq<char>
    decreases occs.len(),
{
    if occs.len() == 0 {
        t.subrange(from, t.len() as int)
    } else {
        t.subrange(from, occs[0].start) + remove_spans(t, occs.drop_first(), occs[0].end)
    }
}

/// The rewritten form of a text: every recognized occurrence span removed,
/// all other characters kept verbatim, in order.
pub open spec fn spec_rewritten(t: Seq<char>) -> Seq<char> {
    remove_spans(t, spec_occurrences(t), 0)
}

/// The identity records of a text, in document order, then left-to-right
/// within a multiple-identities field.
pub open spec fn spec_identities(t: Seq<char>) -> Seq<Seq<char>> {
    identities_of(spec_occurrences(t))
}

/// Append one author record per comma-separated piece of `list`, in order.
fn push_split(list: &str, authors: &mut Vec<GithubAuthor>)
    ensures
        author_names(final(authors)@) == author_names(old(authors)@) + split_commas(list@),
{
    let ghost l = list@;
    let n = list.unicode_len();
    let mut a: usize = 0;
    let ghost mut done: Seq<Seq<char>> = Seq::empty();
    proof {
        assert(done + split_commas_from(l, 0) =~= split_commas(l));
    }
    loop
        invariant_except_break
            split_commas(l) == done + split_commas_from(l, a as int),
        invariant
            n == l.len(),
            l == list@,
            a <= n,
            author_names(authors@) == author_names(old(authors)@) + done,
        ensures
            author_names(authors@) == author_names(old(authors)@) + split_commas(l),
        decreases n - a,
    {
        let ghost authors_before = authors@;
        let ghost done_before = done;
        let c = comma_run_from(list, n, a);
        let piece = list.substring_char(a, c).to_owned();
        authors.push(GithubAuthor { username: piece });
        proof {
            done = done + seq![l.subrange(a as int, c as int)];
            assert(author_names(authors@) =~= author_names(authors_before) + seq![
                l.subrange(a as int, c as int),
            ]);
            assert(author_names(authors@) =~= author_names(old(authors)@) + done);
        }
        if c == n {
            proof {
                assert(split_commas_from(l, a as int) =~= seq![l.subrange(a as int, n as int)]);
                assert(done =~= done_before + split_commas_from(l, a as int));
                assert(done =~= split_commas(l));
                assert(author_names(authors@) =~= author_names(old(authors)@) + split_commas(l));
            }
            break;
        }
        proof {
            assert(split_commas_from(l, a as int) == seq![l.subrange(a as int, c as int)]
                + split_commas_from(l, c as int + 1));
            assert(split_commas(l) =~= done + split_commas_from(l, c as int + 1));
        }
        a = c + 1;
    }
}

/// Rewrite one document: return its text with every recognized directive
/// occurrence removed and everything else kept byte for byte, together with
/// the referenced author identities in document order.
pub fn remove_all_links(s: &str) -> (res: (String, Vec<GithubAuthor>))
    ensures
        res.0@ == spec_rewritten(s@),
        author_names(res.1@) == spec_identities(s@),
{
    let ghost t = s@;
    let n = s.unicode_len();
    let links = find_author_links(s);
    let ghost occs = spec_occurrences(t);
    proof {
        lemma_occurrences_bounded(t, 0);
        assert(occs.skip(0) =~= occs);
        assert(Seq::<char>::empty() + remove_spans(t, occs, 0) =~= remove_spans(t, occs, 0));
        assert(author_names(Seq::<GithubAuthor>::empty()) + identities_of(occs) =~= identities_of(
            occs,
        ));
    }
    let mut replaced = String::new();
    let mut authors: Vec<GithubAuthor> = Vec::new();
    let mut prev: usize = 0;
    let mut i: usize = 0;
    while i < links.len()
        invariant
            t == s@,
            n == t.len(),
            links_view(links@) == occs,
            occs == spec_occurrences(t),
            occurrences_bounded(t, occs, 0),
            i <= links.len(),
            occs.len() == links.len(),
            prev <= n,
            i < links.len() ==> prev as int <= occs[i as int].start,
            spec_rewritten(t) == replaced@ + remove_spans(t, occs.skip(i as int), prev as int),
            spec_identities(t) == author_names(authors@) + identities_of(occs.skip(i as int)),
        decreases links.len() - i,
    {
        let ghost replaced_before = replaced@;
        let ghost authors_before = authors@;
        let link = &links[i];
        proof {
            assert(link@ == links_view(links@)[i as int]);
            assert(link@ == occs[i as int]);
            assert(occs.skip(i as int)[0] == occs[i as int]);
            assert(occs.skip(i as int).drop_first() =~= occs.skip(i as int + 1));
            assert(occs[i as int].start < occs[i as int].end <= n);
        }
        let start = link.start_index;
        let end = link.end_index;
        replaced.append(s.substring_char(prev, start));
        match &link.link_type {
            AuthorLinkType::SingleAuthor(a) => {
                authors.push(GithubAuthor { username: a.clone() });
                proof {
                    assert(author_names(authors@) =~= author_names(authors_before) + seq![a@]);
                    assert(occurrence_records(occs[i as int]) == seq![a@]);
                }
            },
            AuthorLinkType::MultipleAuthors(list) => {
                push_split(list.as_str(), &mut authors);
                proof {
                    assert(occurrence_records(occs[i as int]) == split_commas(list@));
                }
            },
        }
        proof {
            assert(remove_spans(t, occs.skip(i as int), prev as int) == t.subrange(
                prev as int,
                occs[i as int].start,
            ) + remove_spans(t, occs.skip(i as int + 1), occs[i as int].end));
            assert(replaced@ + remove_spans(t, occs.skip(i as int + 1), end as int)
                =~= replaced_before + remove_spans(t, occs.skip(i as int), prev as int));
            assert(identities_of(occs.skip(i as int)) == occurrence_records(occs[i as int])
                + identities_of(occs.skip(i as int + 1)));
            assert(author_names(authors@) + identities_of(occs.skip(i as int + 1))
                =~= author_names(authors_before) + identities_of(occs.skip(i as int)));
            if i as int + 1 < occs.len() {
                assert(occs[i as int].end <= occs[i as int + 1].start);
            }
        }
        prev = end;
        i = i + 1;
    }
    proof {
        assert(occs.skip(i as int) =~= Seq::<Occurrence>::empty());
        assert(remove_spans(t, occs.skip(i as int), prev as int) == t.subrange(
            prev as int,
            n as int,
        ));
        assert(identities_of(occs.skip(i as int)) =~= Seq::<Seq<char>>::empty());
        assert(author_names(authors@) + Seq::<Seq<char>>::empty() =~= author_names(authors@));
    }
    replaced.append(s.substring_char(prev, n));
    (replaced, authors)
}

} // verus!
