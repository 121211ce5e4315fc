//! The ranked multi-term query on the index.

use crate::index::{postings_for, IndexView, Posting, SearchIndex};
use crate::text::{
    is_white_space, lemma_lex_lt_asymmetric, lemma_lex_lt_total, lemma_lex_lt_transitive,
    lemma_trimmed_len, lex_lt, lowercased, precedes, same_text, split, split_on, to_lowercase,
    trim, trimmed, views,
};
use vstd::prelude::*;
use vstd::string::*;

verus! {

/// A note that a query found, with the number of times it was found.
pub struct SearchHit {
    pub url: String,
    pub title: String,
    pub hits: usize,
}

/// The characters and the count of a hit.
pub struct HitView {
    pub url: Seq<char>,
    pub title: Seq<char>,
    pub hits: usize,
}

impl View for SearchHit {
    type V = HitView;

    open spec fn view(&self) -> HitView {
        HitView { url: self.url@, title: self.title@, hits: self.hits }
    }
}

/// How a query ended.
pub enum SearchOutcome {
    /// The query, trimmed, has fewer than three characters; nothing was looked up.
    QueryTooShort,
    /// No sub-term of the query is a token of the index.
    NoResults,
    /// The notes found, best first.
    Results(Vec<SearchHit>),
}

/// The least number of characters that a query must have once it is trimmed.
pub const MIN_QUERY_CHARS: usize = 3;

/// The sub-terms of a query: its pieces between spaces, each in lower case.
pub open spec fn query_terms(term: Seq<char>) -> Seq<Seq<char>> {
    split_on(term, ' ').map_values(|piece: Seq<char>| lowercased(piece))
}

/// Every posting that the sub-terms find, sub-term by sub-term.
pub open spec fn found_by(index: IndexView, terms: Seq<Seq<char>>) -> Seq<(Seq<char>, Seq<char>)>
    decreases terms.len(),
{
    if terms.len() == 0 {
        Seq::empty()
    } else {
        found_by(index, terms.drop_last()) + postings_for(index, terms.last())
    }
}

/// Whether some hit of `tally` is for `url`.
pub open spec fn has_url(tally: Seq<HitView>, url: Seq<char>) -> bool {
    exists|i: int| 0 <= i < tally.len() && (#[trigger] tally[i]).url == url
}

/// Whether `i` is the place of the first hit of `tally` for `url`.
pub open spec fn is_slot(tally: Seq<HitView>, url: Seq<char>, i: int) -> bool {
    &&& 0 <= i < tally.len()
    &&& tally[i].url == url
    &&& forall|j: int| 0 <= j < i ==> (#[trigger] tally[j]).url != url
}

/// No two hits are for the same address.
pub open spec fn distinct_urls(tally: Seq<HitView>) -> bool {
    forall|i: int, j: int|
        0 <= i < j < tally.len() ==> (#[trigger] tally[i]).url != (#[trigger] tally[j]).url
}

/// `hit` found once more. The count stops at `usize::MAX`.
pub open spec fn bumped(hit: HitView) -> HitView {
    HitView {
        url: hit.url,
        title: hit.title,
        hits: if hit.hits < usize::MAX {
            (hit.hits + 1) as usize
        } else {
            hit.hits
        },
    }
}

/// `tally` after `posting` was found: its address counts once more, or enters at the
/// end with a count of one and the posting's title.
pub open spec fn count_hit(tally: Seq<HitView>, posting: (Seq<char>, Seq<char>)) -> Seq<HitView> {
    if has_url(tally, posting.0) {
        let i = choose|i: int| is_slot(tally, posting.0, i);
        tally.update(i, bumped(tally[i]))
    } else {
        tally.push(HitView { url: posting.0, title: posting.1, hits: 1 })
    }
}

/// The hits per address of a list of found postings, in order of first finding.
pub open spec fn tally_of(found: Seq<(Seq<char>, Seq<char>)>) -> Seq<HitView>
    decreases found.len(),
{
    if found.len() == 0 {
        Seq::empty()
    } else {
        count_hit(tally_of(found.drop_last()), found.last())
    }
}

/// How many of the found postings are for `url`.
pub open spec fn count_url(found: Seq<(Seq<char>, Seq<char>)>, url: Seq<char>) -> nat
    decreases found.len(),
{
    if found.len() == 0 {
        0
    } else if found.last().0 == url {
        count_url(found.drop_last(), url) + 1
    } else {
        count_url(found.drop_last(), url)
    }
}

/// The title of the first of the found postings that is for `url`.
pub open spec fn first_title(found: Seq<(Seq<char>, Seq<char>)>, url: Seq<char>) -> Seq<char>
    decreases found.len(),
{
    if found.len() == 0 {
        Seq::empty()
    } else if count_url(found.drop_last(), url) > 0 {
        first_title(found.drop_last(), url)
    } else {
        found.last().1
    }
}

/// A count as a hit holds it: it stops at `usize::MAX`.
pub open spec fn capped(n: nat) -> usize {
    if n <= usize::MAX {
        n as usize
    } else {
        usize::MAX
    }
}

/// The order of the results: more hits first; among equal counts, the address that
/// comes first in lexicographic order by code point.
pub open spec fn ranks_before(a: HitView, b: HitView) -> bool {
    a.hits > b.hits || (a.hits == b.hits && lex_lt(a.url, b.url))
}

/// `ranked` holds exactly the hits of `tally`, each before all that it ranks before.
pub open spec fn is_ranking_of(ranked: Seq<HitView>, tally: Seq<HitView>) -> bool {
    &&& ranked.len() == tally.len()
    &&& forall|i: int| 0 <= i < ranked.len() ==> tally.contains(#[trigger] ranked[i])
    &&& forall|i: int| 0 <= i < tally.len() ==> ranked.contains(#[trigger] tally[i])
    &&& forall|i: int, j: int|
        0 <= i < j < ranked.len() ==> ranks_before(#[trigger] ranked[i], #[trigger] ranked[j])
}

/// What `query` owes for `term` on `index`.
pub open spec fn answers(index: IndexView, term: Seq<char>, outcome: SearchOutcome) -> bool {
    let found = found_by(index, query_terms(term));
    match outcome {
        SearchOutcome::QueryTooShort => trimmed(term).len() < MIN_QUERY_CHARS,
        SearchOutcome::NoResults => trimmed(term).len() >= MIN_QUERY_CHARS && found.len() == 0,
        SearchOutcome::Results(hits) => {
            &&& trimmed(term).len() >= MIN_QUERY_CHARS
            &&& found.len() > 0
            &&& is_ranking_of(views(hits@), tally_of(found))
        },
    }
}

/// Whether a query that is trimmed already has enough characters to be looked
/// up.
pub fn long_enough(trimmed_query: &str) -> (r: bool)
    ensures
        r == (trimmed_query@.len() >= MIN_QUERY_CHARS),
{
    trimmed_query.unicode_len() >= MIN_QUERY_CHARS
}

/// Whether `a` ranks before `b`.
fn outranks(a: &SearchHit, b: &SearchHit) -> (r: bool)
    ensures
        r == ranks_before(a@, b@),
{
    a.hits > b.hits || (a.hits == b.hits && precedes(a.url.as_str(), b.url.as_str()))
}

/// Counts one found posting in `tally`, as `count_hit` describes.
fn record_hit(tally: &mut Vec<SearchHit>, posting: &Posting)
    ensures
        views(final(tally)@) == count_hit(views(old(tally)@), posting@),
{
    let ghost before = views(tally@);
    let mut i: usize = 0;
    while i < tally.len()
        invariant
            i <= tally.len(),
            views(tally@) == before,
            before == views(old(tally)@),
            forall|j: int| 0 <= j < i ==> (#[trigger] before[j]).url != posting@.0,
        decreases tally.len() - i,
    {
        if same_text(tally[i].url.as_str(), posting.url.as_str()) {
            assert(before[i as int].url == posting@.0);
            assert(is_slot(before, posting@.0, i as int));
            let ghost chosen = choose|c: int| is_slot(before, posting@.0, c);
            assert(chosen == i) by {
                if chosen < i {
                    assert(before[chosen].url != posting@.0);
                } else if i < chosen {
                    assert(before[i as int].url != posting@.0);
                }
            }
            if tally[i].hits < usize::MAX {
                tally[i].hits = tally[i].hits + 1;
            }
            assert(views(tally@) =~= before.update(i as int, bumped(before[i as int])));
            return ;
        }
        i = i + 1;
    }
    tally.push(SearchHit { url: posting.url.clone(), title: posting.title.clone(), hits: 1 });
    assert(views(tally@) =~= before.push(
        HitView { url: posting@.0, title: posting@.1, hits: 1 },
    ));
}

/// The hits in ranking order.
fn rank(tally: &Vec<SearchHit>) -> (ranked: Vec<SearchHit>)
    requires
        distinct_urls(views(tally@)),
    ensures
        is_ranking_of(views(ranked@), views(tally@)),
{
    let ghost all = views(tally@);
    let mut ranked: Vec<SearchHit> = Vec::new();
    let mut k: usize = 0;
    while k < tally.len()
        invariant
            k <= tally.len(),
            all == views(tally@),
            distinct_urls(all),
            is_ranking_of(views(ranked@), all.take(k as int)),
        decreases tally.len() - k,
    {
        let hit = &tally[k];
        let ghost sorted = views(ranked@);
        let mut p: usize = 0;
        while p < ranked.len() && !outranks(hit, &ranked[p])
            invariant
                p <= ranked.len(),
                k < tally.len(),
                sorted == views(ranked@),
                all == views(tally@),
                hit@ == all[k as int],
                distinct_urls(all),
                is_ranking_of(sorted, all.take(k as int)),
                forall|q: int| 0 <= q < p ==> ranks_before(#[trigger] sorted[q], hit@),
            decreases ranked.len() - p,
        {
            proof {
                let other = sorted[p as int];
                assert(all.take(k as int).contains(other));
                let j = choose|j: int| 0 <= j < k && all.take(k as int)[j] == other;
                assert(all[j].url != all[k as int].url);
                lemma_ranks_total(other, hit@);
            }
            p = p + 1;
        }
        ranked.insert(p, SearchHit { url: hit.url.clone(), title: hit.title.clone(), hits: hit.hits });
        proof {
            let grown = views(ranked@);
            let upto = all.take(k + 1);
            assert(grown =~= sorted.insert(p as int, hit@));
            assert forall|i: int| 0 <= i < grown.len() implies upto.contains(
                #[trigger] grown[i],
            ) by {
                if i == p {
                    assert(upto[k as int] == grown[i]);
                } else {
                    let o = if i < p { sorted[i] } else { sorted[i - 1] };
                    assert(all.take(k as int).contains(o));
                    let j = choose|j: int| 0 <= j < k && all.take(k as int)[j] == o;
                    assert(upto[j] == grown[i]);
                }
            }
            assert forall|i: int| 0 <= i < upto.len() implies grown.contains(#[trigger] upto[i]) by {
                if i == k {
                    assert(grown[p as int] == upto[i]);
                } else {
                    assert(sorted.contains(all.take(k as int)[i]));
                    let j = choose|j: int| 0 <= j < sorted.len() && sorted[j] == upto[i];
                    if j < p {
                        assert(grown[j] == upto[i]);
                    } else {
                        assert(grown[j + 1] == upto[i]);
                    }
                }
            }
            assert forall|i: int, j: int| 0 <= i < j < grown.len() implies ranks_before(
                #[trigger] grown[i],
                #[trigger] grown[j],
            ) by {
                if j == p {
                    assert(grown[i] == sorted[i]);
                } else if i == p {
                    assert(grown[j] == sorted[j - 1]);
                    if j - 1 > p {
                        lemma_ranks_transitive(hit@, sorted[p as int], sorted[j - 1]);
                    }
                } else {
                    let a = if i < p { i } else { i - 1 };
                    let b = if j < p { j } else { j - 1 };
                    assert(grown[i] == sorted[a]);
                    assert(grown[j] == sorted[b]);
                }
            }
        }
        k = k + 1;
    }
    assert(all.take(k as int) =~= all);
    ranked
}

/// Puts a tally into ranking order, or reports that it is empty.
pub fn outcome_of(tally: &Vec<SearchHit>) -> (outcome: SearchOutcome)
    requires
        distinct_urls(views(tally@)),
    ensures
        tally.len() == 0 ==> outcome is NoResults,
        tally.len() > 0 ==> (outcome matches SearchOutcome::Results(hits) && is_ranking_of(
            views(hits@),
            views(tally@),
        )),
{
    if tally.len() == 0 {
        SearchOutcome::NoResults
    } else {
        SearchOutcome::Results(rank(tally))
    }
}

impl SearchIndex {
    /// The hits per address that the sub-terms `terms` find, in order of first
    /// finding. The sub-terms are looked up as they are.
    pub fn tally(&self, terms: &Vec<String>) -> (tally: Vec<SearchHit>)
        ensures
            views(tally@) == tally_of(found_by(self@, terms.deep_view())),
    {
        let mut tally: Vec<SearchHit> = Vec::new();
        let mut k: usize = 0;
        assert(terms.deep_view().take(0) =~= Seq::<Seq<char>>::empty());
        assert(views(tally@) =~= Seq::<HitView>::empty());
        while k < terms.len()
            invariant
                k <= terms.len(),
                views(tally@) == tally_of(found_by(self@, terms.deep_view().take(k as int))),
            decreases terms.len() - k,
        {
            let ghost before = found_by(self@, terms.deep_view().take(k as int));
            let ghost term = terms.deep_view()[k as int];
            assert(term == terms[k as int]@);
            assert(terms.deep_view().take(k + 1).drop_last() =~= terms.deep_view().take(k as int));
            match self.postings(terms[k].as_str()) {
                Some(list) => {
                    let ghost postings = views(list@);
                    let mut j: usize = 0;
                    assert(before + postings.take(0) =~= before);
                    while j < list.len()
                        invariant
                            j <= list.len(),
                            postings == views(list@),
                            views(tally@) == tally_of(before + postings.take(j as int)),
                        decreases list.len() - j,
                    {
                        record_hit(&mut tally, &list[j]);
                        proof {
                            let grown = before + postings.take(j + 1);
                            assert(grown.drop_last() =~= before + postings.take(j as int));
                            assert(grown.last() == list[j as int]@);
                        }
                        j = j + 1;
                    }
                    assert(postings.take(j as int) =~= postings);
                },
                None => {
                    assert(before + postings_for(self@, term) =~= before);
                },
            }
            k = k + 1;
        }
        assert(terms.deep_view().take(k as int) =~= terms.deep_view());
        tally
    }

    /// Answers a query: too short, nothing found, or the notes found in ranking
    /// order.
    pub fn query(&self, term: &str) -> (outcome: SearchOutcome)
        ensures
            answers(self@, term@, outcome),
    {
        if !long_enough(trim(term)) {
            return SearchOutcome::QueryTooShort;
        }
        let pieces = split(term, ' ');
        let mut terms: Vec<String> = Vec::new();
        let mut k: usize = 0;
        while k < pieces.len()
            invariant
                k <= pieces.len(),
                terms.deep_view() == query_terms(term@).take(k as int),
                pieces.deep_view() == split_on(term@, ' '),
            decreases pieces.len() - k,
        {
            let ghost done = terms.deep_view();
            let lower = to_lowercase(pieces[k].as_str());
            assert(pieces.deep_view()[k as int] == pieces[k as int]@);
            terms.push(lower);
            assert(terms.deep_view() =~= done.push(lower@));
            assert(terms.deep_view() =~= query_terms(term@).take(k + 1));
            k = k + 1;
        }
        assert(query_terms(term@).take(k as int) =~= query_terms(term@));
        let tally = self.tally(&terms);
        proof {
            lemma_tally_distinct(found_by(self@, query_terms(term@)));
            lemma_tally_empty(found_by(self@, query_terms(term@)));
        }
        outcome_of(&tally)
    }
}

/// A query of fewer than three characters is too short, whatever it holds. One
/// of three characters or more that neither starts nor ends with white space
/// is looked up.
pub proof fn law_minimum_length(index: IndexView, term: Seq<char>, outcome: SearchOutcome)
    requires
        answers(index, term, outcome),
    ensures
        term.len() < MIN_QUERY_CHARS ==> outcome is QueryTooShort,
        term.len() >= MIN_QUERY_CHARS && !is_white_space(term.first()) && !is_white_space(
            term.last(),
        ) ==> !(outcome is QueryTooShort),
{
    lemma_trimmed_len(term);
}

/// Some hit for an address has a first one.
pub proof fn lemma_first_slot(tally: Seq<HitView>, url: Seq<char>)
    requires
        has_url(tally, url),
    ensures
        exists|i: int| is_slot(tally, url, i),
    decreases tally.len(),
{
    if tally.last().url == url && !has_url(tally.drop_last(), url) {
        assert(is_slot(tally, url, tally.len() - 1)) by {
            assert forall|j: int| 0 <= j < tally.len() - 1 implies (#[trigger] tally[j]).url
                != url by {
                if tally[j].url == url {
                    assert(tally.drop_last()[j].url == url);
                }
            }
        }
    } else {
        let w = choose|i: int| 0 <= i < tally.len() && (#[trigger] tally[i]).url == url;
        if w < tally.len() - 1 {
            assert(tally.drop_last()[w].url == url);
        }
        lemma_first_slot(tally.drop_last(), url);
        let i = choose|i: int| is_slot(tally.drop_last(), url, i);
        assert(is_slot(tally, url, i)) by {
            assert(tally[i] == tally.drop_last()[i]);
            assert forall|j: int| 0 <= j < i implies (#[trigger] tally[j]).url != url by {
                assert(tally[j] == tally.drop_last()[j]);
            }
        }
    }
}

/// Counting a hit keeps the addresses of a tally distinct.
pub proof fn lemma_count_hit_distinct(tally: Seq<HitView>, posting: (Seq<char>, Seq<char>))
    requires
        distinct_urls(tally),
    ensures
        distinct_urls(count_hit(tally, posting)),
{
    if has_url(tally, posting.0) {
        lemma_first_slot(tally, posting.0);
    }
}

/// A tally lists every address once.
pub proof fn lemma_tally_distinct(found: Seq<(Seq<char>, Seq<char>)>)
    ensures
        distinct_urls(tally_of(found)),
    decreases found.len(),
{
    if found.len() > 0 {
        lemma_tally_distinct(found.drop_last());
        lemma_count_hit_distinct(tally_of(found.drop_last()), found.last());
    }
}

/// A tally is empty exactly when nothing was found.
pub proof fn lemma_tally_empty(found: Seq<(Seq<char>, Seq<char>)>)
    ensures
        tally_of(found).len() == 0 <==> found.len() == 0,
{
    if found.len() > 0 {
        let before = tally_of(found.drop_last());
        if has_url(before, found.last().0) {
            lemma_first_slot(before, found.last().0);
        }
    }
}

/// What a tally says: it lists exactly the addresses that were found, each once,
/// with the number of postings found for it and the title of the first of them.
pub proof fn law_tally_counts(found: Seq<(Seq<char>, Seq<char>)>)
    ensures
        distinct_urls(tally_of(found)),
        forall|i: int|
            0 <= i < tally_of(found).len() ==> {
                let hit = #[trigger] tally_of(found)[i];
                &&& count_url(found, hit.url) > 0
                &&& hit.hits == capped(count_url(found, hit.url))
                &&& hit.title == first_title(found, hit.url)
            },
        forall|url: Seq<char>| count_url(found, url) > 0 ==> has_url(tally_of(found), url),
    decreases found.len(),
{
    lemma_tally_distinct(found);
    if found.len() > 0 {
        let head = found.drop_last();
        let posting = found.last();
        let before = tally_of(head);
        let after = tally_of(found);
        law_tally_counts(head);
        lemma_tally_distinct(head);
        if has_url(before, posting.0) {
            lemma_first_slot(before, posting.0);
            let at = choose|i: int| is_slot(before, posting.0, i);
            assert forall|i: int| 0 <= i < after.len() implies {
                let hit = #[trigger] after[i];
                &&& count_url(found, hit.url) > 0
                &&& hit.hits == capped(count_url(found, hit.url))
                &&& hit.title == first_title(found, hit.url)
            } by {
                let old_hit = before[i];
                if i != at {
                    assert(old_hit.url != posting.0) by {
                        if i < at {
                            assert(before[i].url != before[at].url);
                        } else {
                            assert(before[at].url != before[i].url);
                        }
                    }
                }
            }
            assert forall|url: Seq<char>| count_url(found, url) > 0 implies has_url(
                after,
                url,
            ) by {
                if url == posting.0 {
                    assert(after[at].url == url);
                } else {
                    assert(has_url(before, url));
                    let w = choose|i: int| 0 <= i < before.len() && (#[trigger] before[i]).url == url;
                    assert(after[w].url == url);
                }
            }
        } else {
            assert(count_url(head, posting.0) == 0);
            assert forall|i: int| 0 <= i < after.len() implies {
                let hit = #[trigger] after[i];
                &&& count_url(found, hit.url) > 0
                &&& hit.hits == capped(count_url(found, hit.url))
                &&& hit.title == first_title(found, hit.url)
            } by {
                if i < before.len() {
                    assert(after[i] == before[i]);
                    assert(before[i].url != posting.0);
                }
            }
            assert forall|url: Seq<char>| count_url(found, url) > 0 implies has_url(
                after,
                url,
            ) by {
                if url == posting.0 {
                    assert(after[before.len() as int].url == url);
                } else {
                    assert(has_url(before, url));
                    let w = choose|i: int| 0 <= i < before.len() && (#[trigger] before[i]).url == url;
                    assert(after[w].url == url);
                }
            }
        }
    }
}

/// Of two hits for different addresses one ranks before the other.
pub proof fn lemma_ranks_total(a: HitView, b: HitView)
    requires
        a.url != b.url,
    ensures
        ranks_before(a, b) || ranks_before(b, a),
{
    lemma_lex_lt_total(a.url, b.url);
}

/// `ranks_before` is transitive.
pub proof fn lemma_ranks_transitive(a: HitView, b: HitView, c: HitView)
    requires
        ranks_before(a, b),
        ranks_before(b, c),
    ensures
        ranks_before(a, c),
{
    if a.hits == b.hits && b.hits == c.hits {
        lemma_lex_lt_transitive(a.url, b.url, c.url);
    }
}

/// No two hits rank before each other.
pub proof fn lemma_ranks_asymmetric(a: HitView, b: HitView)
    requires
        ranks_before(a, b),
    ensures
        !ranks_before(b, a),
{
    if a.hits == b.hits {
        lemma_lex_lt_asymmetric(a.url, b.url);
    }
}

/// Two rankings of one tally agree at every place.
proof fn lemma_ranking_agrees(first: Seq<HitView>, second: Seq<HitView>, tally: Seq<HitView>, i: int)
    requires
        is_ranking_of(first, tally),
        is_ranking_of(second, tally),
        0 <= i < first.len(),
    ensures
        first[i] == second[i],
    decreases i,
{
    assert forall|k: int| 0 <= k < i implies first[k] == second[k] by {
        lemma_ranking_agrees(first, second, tally, k);
    }
    // Where `first[i]` stands in `second`, and where `second[i]` stands in `first`.
    assert(tally.contains(first[i]));
    let t1 = choose|t: int| 0 <= t < tally.len() && tally[t] == first[i];
    assert(second.contains(tally[t1]));
    let a = choose|a: int| 0 <= a < second.len() && second[a] == first[i];
    assert(tally.contains(second[i]));
    let t2 = choose|t: int| 0 <= t < tally.len() && tally[t] == second[i];
    assert(first.contains(tally[t2]));
    let b = choose|b: int| 0 <= b < first.len() && first[b] == second[i];
    if a < i {
        // `first[i]` equals `second[a]`, which equals `first[a]`: it ranks before itself.
        assert(first[a] == second[a]);
        assert(ranks_before(first[a], first[i]));
        lemma_ranks_asymmetric(first[a], first[i]);
    } else if b < i {
        assert(first[b] == second[b]);
        assert(ranks_before(second[b], second[i]));
        lemma_ranks_asymmetric(second[b], second[i]);
    } else if a > i && b > i {
        assert(ranks_before(second[i], second[a]));
        assert(ranks_before(first[i], first[b]));
        lemma_ranks_asymmetric(second[i], second[a]);
    }
}

/// A tally has one ranking only: two lists that both rank it are the same list.
pub proof fn law_ranking_unique(first: Seq<HitView>, second: Seq<HitView>, tally: Seq<HitView>)
    requires
        is_ranking_of(first, tally),
        is_ranking_of(second, tally),
    ensures
        first == second,
{
    assert forall|i: int| 0 <= i < first.len() implies first[i] == second[i] by {
        lemma_ranking_agrees(first, second, tally, i);
    }
    assert(first =~= second);
}

} // verus!
