//! What holds of the book whatever is done with it.

use crate::book::{
    lemma_bootstrap_keeps_wf, lemma_fail_keeps_wf, lemma_load_keeps_wf, lemma_remove_keeps_wf,
    lemma_request_keeps_wf, lemma_truncate_keeps_wf, step_for, BookView, Step, HOME_ID, HOME_URL,
};
use crate::page::NoteView;
use crate::repository::{lemma_evict_all_effect, RepositoryView};
use crate::index::IndexView;
use crate::trail::{lemma_position, position};
use vstd::prelude::*;

verus! {

/// One thing that is done with a book.
pub enum Op {
    /// The home page is put in place.
    Bootstrap,
    /// A navigation from the page `origin` to `url`, with `id` at hand.
    Activate { origin: Seq<char>, url: Seq<char>, id: Seq<char> },
    /// The note for the shell `id` arrives.
    Load { id: Seq<char>, note: NoteView },
    /// The fetch for the shell `id` fails.
    Fail { id: Seq<char> },
    /// The page `id` is removed.
    Remove { id: Seq<char> },
}

/// The book after `op`. A navigation from a page that is not on the trail is
/// not made.
pub open spec fn apply(book: BookView, op: Op) -> BookView {
    match op {
        Op::Bootstrap => book.bootstrap(),
        Op::Activate { origin, url, id } => if book.trail.contains(origin) {
            book.activate(origin, url, id)
        } else {
            book
        },
        Op::Load { id, note } => book.load(id, note),
        Op::Fail { id } => book.fail(id),
        Op::Remove { id } => book.remove(id),
    }
}

/// The book after `ops`, one after the other.
pub open spec fn run(book: BookView, ops: Seq<Op>) -> BookView
    decreases ops.len(),
{
    if ops.len() == 0 {
        book
    } else {
        apply(run(book, ops.drop_last()), ops.last())
    }
}

/// A book without pages.
pub open spec fn blank(index: IndexView) -> BookView {
    BookView { pages: RepositoryView::empty(), trail: Seq::empty(), index }
}

/// Whatever is done with a book, in whatever order, its invariant holds
/// afterwards. In particular the two indices of the repository hold the same
/// pages at every point: each address leads to a page whose identifier leads
/// back to it, and each identifier to a page whose address leads back.
pub proof fn law_indices_agree(book: BookView, ops: Seq<Op>)
    requires
        book.wf(),
    ensures
        run(book, ops).wf(),
        run(book, ops).pages.wf(),
    decreases ops.len(),
{
    if ops.len() > 0 {
        let before = run(book, ops.drop_last());
        law_indices_agree(book, ops.drop_last());
        match ops.last() {
            Op::Bootstrap => {
                lemma_bootstrap_keeps_wf(before);
            },
            Op::Activate { origin, url, id } => {
                if before.trail.contains(origin) {
                    lemma_truncate_keeps_wf(before, origin);
                    lemma_request_keeps_wf(before.truncate_after(origin), url, id);
                }
            },
            Op::Load { id, note } => {
                lemma_load_keeps_wf(before, id, note);
            },
            Op::Fail { id } => {
                lemma_fail_keeps_wf(before, id);
            },
            Op::Remove { id } => {
                lemma_remove_keeps_wf(before, id);
            },
        }
    }
}

/// The same, from a book without pages on.
pub proof fn law_indices_agree_from_blank(index: IndexView, ops: Seq<Op>)
    ensures
        run(blank(index), ops).wf(),
        run(blank(index), ops).pages.wf(),
{
    law_indices_agree(blank(index), ops);
}

/// Two requests for one address lead to at most one fetch. Where the first
/// registers a shell, the second finds it and waits for the same page.
pub proof fn law_one_fetch_per_address(
    book: BookView,
    url: Seq<char>,
    id1: Seq<char>,
    id2: Seq<char>,
    first: Step,
    second: Step,
)
    requires
        book.wf(),
        step_for(book, url, id1, first),
        step_for(book.request(url, id1), url, id2, second),
    ensures
        !(first is Fetch && second is Fetch),
        first is Fetch ==> (second matches Step::Await(waiting) && waiting@ == id1),
        book.request(url, id1).pages.by_url.contains_key(url) ==> book.request(url, id1).request(
            url,
            id2,
        ) == book.request(url, id1),
        first matches Step::Show(shown) ==> (second matches Step::Show(again) && again@ == shown@),
        first matches Step::Await(waiting) ==> (second matches Step::Await(again) && again@
            == waiting@),
{
    if !book.pages.by_url.contains_key(url) && !book.pages.by_id.contains_key(id1) {
        if book.trail.contains(id1) {
            let w = choose|i: int| 0 <= i < book.trail.len() && book.trail[i] == id1;
            assert(book.pages.by_id.contains_key(book.trail[w]));
        }
    }
}

/// Cutting the trail behind a page leaves the trail ending with that page, and
/// every page that was behind it is gone from the repository under both keys.
pub proof fn law_truncation(book: BookView, origin: Seq<char>)
    requires
        book.wf(),
        book.trail.contains(origin),
    ensures
        book.truncate_after(origin).trail == book.trail.take(position(book.trail, origin) + 1),
        book.truncate_after(origin).trail.last() == origin,
        forall|i: int|
            position(book.trail, origin) < i < book.trail.len() ==> {
                &&& !book.truncate_after(origin).pages.by_id.contains_key(#[trigger] book.trail[i])
                &&& !book.truncate_after(origin).pages.by_url.contains_key(
                    book.pages.by_id[book.trail[i]].url,
                )
            },
        forall|i: int|
            0 <= i <= position(book.trail, origin) ==> {
                &&& book.truncate_after(origin).pages.by_id.contains_key(#[trigger] book.trail[i])
                &&& book.truncate_after(origin).pages.by_id[book.trail[i]]
                    == book.pages.by_id[book.trail[i]]
            },
{
    lemma_position(book.trail, origin);
    lemma_truncate_keeps_wf(book, origin);
    let p = position(book.trail, origin);
    let cut = book.evicted_by(origin);
    let after = book.truncate_after(origin);
    assert forall|i: int| p < i < book.trail.len() implies {
        &&& !after.pages.by_id.contains_key(#[trigger] book.trail[i])
        &&& !after.pages.by_url.contains_key(book.pages.by_id[book.trail[i]].url)
    } by {
        assert(cut[i - p - 1] == book.trail[i]);
        assert(cut.contains(book.trail[i]));
        let gone = book.pages.by_id[book.trail[i]];
        assert(book.pages.by_id.contains_key(book.trail[i]));
        if after.pages.by_url.contains_key(gone.url) {
            assert(after.pages.by_id.contains_key(after.pages.by_url[gone.url].id));
            lemma_evict_all_effect(book.pages, cut);
            assert(book.pages.by_url.contains_key(gone.url));
        }
    }
    assert forall|i: int| 0 <= i <= p implies {
        &&& after.pages.by_id.contains_key(#[trigger] book.trail[i])
        &&& after.pages.by_id[book.trail[i]] == book.pages.by_id[book.trail[i]]
    } by {
        assert(after.trail[i] == book.trail[i]);
    }
}

/// The home page is never evicted by a cut, and a cut behind the top of the
/// trail changes nothing. So a cut behind the home page, while it is the top,
/// leaves the book as it was.
pub proof fn law_home_page_stays(book: BookView, origin: Seq<char>)
    requires
        book.wf(),
        book.trail.contains(origin),
    ensures
        !book.evicted_by(origin).contains(HOME_ID@),
        book.truncate_after(origin).pages.by_id.contains_key(HOME_ID@),
        book.truncate_after(origin).trail[0] == HOME_ID@,
        book.trail.last() == origin ==> book.truncate_after(origin) == book,
        book.remove(HOME_ID@) == book,
{
    lemma_position(book.trail, origin);
    lemma_truncate_keeps_wf(book, origin);
    let after = book.truncate_after(origin);
    assert(after.pages.by_id.contains_key(after.trail[0]));
    if book.trail.last() == origin {
        let top = book.trail.len() - 1;
        let p = position(book.trail, origin);
        assert(p == top);
        assert(book.evicted_by(origin) =~= Seq::<Seq<char>>::empty());
        assert(after.trail =~= book.trail);
    }
}

/// A failed fetch leaves no shell: the book is as it was before the page was
/// asked for, the address is under neither key, and a later request for the
/// same address fetches again.
pub proof fn law_failed_fetch_leaves_no_shell(
    book: BookView,
    url: Seq<char>,
    id: Seq<char>,
    next_id: Seq<char>,
    retry: Step,
)
    requires
        book.wf(),
        book.trail.len() > 0,
        !book.pages.by_url.contains_key(url),
        !book.pages.by_id.contains_key(id),
        !book.pages.by_id.contains_key(next_id),
        step_for(book.request(url, id).fail(id), url, next_id, retry),
    ensures
        book.request(url, id).pending(id),
        book.request(url, id).fail(id) == book,
        !book.request(url, id).fail(id).pages.by_url.contains_key(url),
        !book.request(url, id).fail(id).pages.by_id.contains_key(id),
        retry is Fetch,
{
    let asked = book.request(url, id);
    if book.trail.contains(id) {
        let w = choose|i: int| 0 <= i < book.trail.len() && book.trail[i] == id;
        assert(book.pages.by_id.contains_key(book.trail[w]));
    }
    let after = asked.fail(id);
    assert(after.pages.by_url =~= book.pages.by_url);
    assert(after.pages.by_id =~= book.pages.by_id);
}

/// Whatever is done with a book, once the home page is in place it is the page
/// under the home identifier and the page under the home address.
pub proof fn law_home_page_keys(book: BookView, ops: Seq<Op>)
    requires
        book.wf(),
    ensures
        run(book, ops).trail.len() > 0 ==> {
            &&& run(book, ops).pages.by_id.contains_key(HOME_ID@)
            &&& run(book, ops).pages.by_url.contains_key(HOME_URL@)
            &&& run(book, ops).pages.by_id[HOME_ID@].url == HOME_URL@
            &&& run(book, ops).pages.by_url[HOME_URL@].id == HOME_ID@
            &&& run(book, ops).pages.by_url[HOME_URL@] == run(book, ops).pages.by_id[HOME_ID@]
        },
{
    law_indices_agree(book, ops);
    let after = run(book, ops);
    if after.trail.len() > 0 {
        assert(after.pages.by_id.contains_key(after.trail[0]));
    }
}

/// The home page is put in place once: a second attempt changes nothing, and
/// the book never holds a second page under the home identifier.
pub proof fn law_bootstrap_once(book: BookView)
    requires
        book.wf(),
    ensures
        book.bootstrap().bootstrap() == book.bootstrap(),
        book.bootstrap().trail.len() > 0,
        book.bootstrap().trail[0] == HOME_ID@,
        book.bootstrap().pages.by_id.contains_key(HOME_ID@),
        book.trail.len() > 0 ==> book.bootstrap() == book,
{
    lemma_bootstrap_keeps_wf(book);
    let after = book.bootstrap();
    assert(after.pages.by_id.contains_key(after.trail[0]));
}

} // verus!
