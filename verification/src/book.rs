//! The book: the repository of live pages, the trail through them and the search
//! index, with the rule that a navigation from the middle of the trail abandons
//! everything visited after it.

use crate::page::{reply_outcome, FetchReply, Note, NoteView, Page, PageError, PageView};
use crate::repository::{
    lemma_evict_all_effect, lemma_evict_keeps_wf, lemma_fill_keeps_wf, lemma_register_keeps_wf,
    PageRepository, RepositoryView,
};
use crate::index::{get_search_index, index_of, IndexView, SearchData, SearchIndex};
use crate::search::{
    answers, distinct_urls, is_ranking_of, outcome_of, SearchHit, SearchOutcome,
};
use crate::text::{same_text, views};
use crate::trail::{is_position, lemma_position, position, NavigationStack};
use crate::utils::{parse_url, resolution_of};
use vstd::prelude::*;
use vstd::string::*;

verus! {

/// The identifier of the home page.
pub const HOME_ID: &'static str = "page-0";

/// The address of the home page.
pub const HOME_URL: &'static str = "/";

/// The home page: a page without a note under its well-known keys.
pub open spec fn home_page() -> PageView {
    PageView { url: HOME_URL@, id: HOME_ID@, note: None }
}

/// What a book holds: the live pages, the trail of identifiers and the index.
pub struct BookView {
    pub pages: RepositoryView,
    pub trail: Seq<Seq<char>>,
    pub index: IndexView,
}

impl BookView {
    /// The invariant of the book. The two indices hold the same pages; the
    /// trail names live pages, none twice; it starts with the home page, which
    /// has the home address; and before the home page is there, no page is.
    pub open spec fn wf(self) -> bool {
        &&& self.pages.wf()
        &&& self.trail.no_duplicates()
        &&& forall|i: int|
            0 <= i < self.trail.len() ==> self.pages.by_id.contains_key(#[trigger] self.trail[i])
        &&& self.trail.len() > 0 ==> self.trail[0] == HOME_ID@
        &&& self.trail.len() > 0 ==> self.pages.by_id[HOME_ID@].url == HOME_URL@
        &&& self.trail.len() == 0 ==> forall|id: Seq<char>| !self.pages.by_id.contains_key(id)
    }

    /// A live page that is not on the trail: a shell whose note is on its way.
    pub open spec fn pending(self, id: Seq<char>) -> bool {
        self.pages.by_id.contains_key(id) && !self.trail.contains(id)
    }

    /// The book after the home page was put in place. This happens once: a book
    /// that has its home page is left as it is.
    pub open spec fn bootstrap(self) -> BookView {
        if self.trail.len() == 0 {
            BookView {
                pages: self.pages.register(home_page()),
                trail: seq![HOME_ID@],
                index: self.index,
            }
        } else {
            self
        }
    }

    /// The identifiers behind `origin` on the trail, oldest first.
    pub open spec fn evicted_by(self, origin: Seq<char>) -> Seq<Seq<char>> {
        self.trail.skip(position(self.trail, origin) + 1)
    }

    /// The book after the trail was cut off behind `origin`: the pages behind it
    /// are evicted, and the trail ends with `origin`.
    pub open spec fn truncate_after(self, origin: Seq<char>) -> BookView {
        BookView {
            pages: self.pages.evict_all(self.evicted_by(origin)),
            trail: self.trail.take(position(self.trail, origin) + 1),
            index: self.index,
        }
    }

    /// The book after the page for `url` was asked for, with `id` at hand for a
    /// new page. A shell enters only if the address is unknown and the
    /// identifier is free.
    pub open spec fn request(self, url: Seq<char>, id: Seq<char>) -> BookView {
        if self.pages.by_url.contains_key(url) || self.pages.by_id.contains_key(id) {
            self
        } else {
            BookView {
                pages: self.pages.register(PageView { url, id, note: None }),
                trail: self.trail,
                index: self.index,
            }
        }
    }

    /// The book after a navigation from the page `origin` to `url`.
    pub open spec fn activate(self, origin: Seq<char>, url: Seq<char>, id: Seq<char>) -> BookView {
        self.truncate_after(origin).request(url, id)
    }

    /// The book after the note of the shell `id` arrived: the page holds the
    /// note and is the new top of the trail. Where `id` is no shell, nothing
    /// changes.
    pub open spec fn load(self, id: Seq<char>, note: NoteView) -> BookView {
        if self.pending(id) {
            BookView {
                pages: self.pages.fill(id, note),
                trail: self.trail.push(id),
                index: self.index,
            }
        } else {
            self
        }
    }

    /// The book after the fetch for the shell `id` failed: the shell is gone.
    /// Where `id` is no shell, nothing changes.
    pub open spec fn fail(self, id: Seq<char>) -> BookView {
        if self.pending(id) {
            BookView { pages: self.pages.evict(id), trail: self.trail, index: self.index }
        } else {
            self
        }
    }

    /// The book after the page `id` was removed: it is gone from the repository
    /// and from the trail. The home page is never removed.
    pub open spec fn remove(self, id: Seq<char>) -> BookView {
        if id == HOME_ID@ {
            self
        } else {
            BookView {
                pages: self.pages.evict(id),
                trail: if self.trail.contains(id) {
                    self.trail.remove(position(self.trail, id))
                } else {
                    self.trail
                },
                index: self.index,
            }
        }
    }
}

/// Putting the home page in place keeps the invariant.
pub proof fn lemma_bootstrap_keeps_wf(book: BookView)
    requires
        book.wf(),
    ensures
        book.bootstrap().wf(),
{
    if book.trail.len() == 0 {
        assert(!book.pages.by_url.contains_key(home_page().url)) by {
            if book.pages.by_url.contains_key(home_page().url) {
                assert(book.pages.by_id.contains_key(book.pages.by_url[home_page().url].id));
            }
        }
        lemma_register_keeps_wf(book.pages, home_page());
    }
}

/// Cutting the trail keeps the invariant. The pages that were cut off are gone
/// from the repository, the others are as they were, and the home page stays.
pub proof fn lemma_truncate_keeps_wf(book: BookView, origin: Seq<char>)
    requires
        book.wf(),
        book.trail.contains(origin),
    ensures
        book.truncate_after(origin).wf(),
        book.truncate_after(origin).trail.len() > 0,
        book.truncate_after(origin).trail.last() == origin,
        !book.evicted_by(origin).contains(HOME_ID@),
        forall|id: Seq<char>|
            book.evicted_by(origin).contains(id) ==> !book.truncate_after(
                origin,
            ).pages.by_id.contains_key(id),
        forall|id: Seq<char>| #[trigger]
            book.truncate_after(origin).pages.by_id.contains_key(id) <==> book.pages.by_id.contains_key(
                id,
            ) && !book.evicted_by(origin).contains(id),
        forall|id: Seq<char>| #[trigger]
            book.truncate_after(origin).pages.by_id.contains_key(id) ==> book.truncate_after(
                origin,
            ).pages.by_id[id] == book.pages.by_id[id],
{
    lemma_position(book.trail, origin);
    let p = position(book.trail, origin);
    let cut = book.evicted_by(origin);
    let after = book.truncate_after(origin);
    lemma_evict_all_effect(book.pages, cut);
    assert forall|i: int| 0 <= i < after.trail.len() implies after.pages.by_id.contains_key(
        #[trigger] after.trail[i],
    ) by {
        assert(after.trail[i] == book.trail[i]);
        assert(book.pages.by_id.contains_key(book.trail[i]));
        if cut.contains(book.trail[i]) {
            let w = choose|w: int| 0 <= w < cut.len() && cut[w] == book.trail[i];
            assert(book.trail[p + 1 + w] == book.trail[i]);
        }
    }
    assert(after.trail[0] == book.trail[0]);
    if cut.contains(HOME_ID@) {
        let w = choose|w: int| 0 <= w < cut.len() && cut[w] == HOME_ID@;
        assert(book.trail[p + 1 + w] == book.trail[0]);
    }
}

/// Asking for a page keeps the invariant of a book that has its home page.
pub proof fn lemma_request_keeps_wf(book: BookView, url: Seq<char>, id: Seq<char>)
    requires
        book.wf(),
        book.trail.len() > 0,
    ensures
        book.request(url, id).wf(),
{
    if !book.pages.by_url.contains_key(url) && !book.pages.by_id.contains_key(id) {
        lemma_register_keeps_wf(book.pages, PageView { url, id, note: None });
    }
}

/// The arrival of a note keeps the invariant.
pub proof fn lemma_load_keeps_wf(book: BookView, id: Seq<char>, note: NoteView)
    requires
        book.wf(),
    ensures
        book.load(id, note).wf(),
{
    if book.pending(id) {
        lemma_fill_keeps_wf(book.pages, id, note);
        let after = book.load(id, note);
        assert(book.trail.len() > 0);
        assert forall|i: int, j: int|
            0 <= i < after.trail.len() && 0 <= j < after.trail.len() && i != j implies after.trail[i]
            != after.trail[j] by {
            if i < book.trail.len() {
                assert(book.trail.contains(book.trail[i]));
            }
            if j < book.trail.len() {
                assert(book.trail.contains(book.trail[j]));
            }
        }
        assert forall|i: int| 0 <= i < after.trail.len() implies after.pages.by_id.contains_key(
            #[trigger] after.trail[i],
        ) by {
            if i < book.trail.len() {
                assert(book.pages.by_id.contains_key(book.trail[i]));
            }
        }
    }
}

/// A failed fetch keeps the invariant.
pub proof fn lemma_fail_keeps_wf(book: BookView, id: Seq<char>)
    requires
        book.wf(),
    ensures
        book.fail(id).wf(),
{
    if book.pending(id) {
        lemma_evict_keeps_wf(book.pages, id);
        let after = book.fail(id);
        assert forall|i: int| 0 <= i < after.trail.len() implies after.pages.by_id.contains_key(
            #[trigger] after.trail[i],
        ) by {
            assert(book.trail.contains(book.trail[i]));
            assert(book.pages.by_id.contains_key(book.trail[i]));
        }
    }
}

/// Removing a page keeps the invariant.
pub proof fn lemma_remove_keeps_wf(book: BookView, id: Seq<char>)
    requires
        book.wf(),
    ensures
        book.remove(id).wf(),
{
    if id != HOME_ID@ {
        lemma_evict_keeps_wf(book.pages, id);
        let after = book.remove(id);
        if book.trail.contains(id) {
            lemma_position(book.trail, id);
            let p = position(book.trail, id);
            assert(p > 0);
            assert forall|i: int| 0 <= i < after.trail.len() implies after.trail[i] != id
                && after.pages.by_id.contains_key(#[trigger] after.trail[i]) by {
                let k = if i < p { i } else { i + 1 };
                assert(after.trail[i] == book.trail[k]);
                assert(book.pages.by_id.contains_key(book.trail[k]));
            }
            assert forall|i: int, j: int|
                0 <= i < after.trail.len() && 0 <= j < after.trail.len() && i != j implies after.trail[i]
                != after.trail[j] by {
                let a = if i < p { i } else { i + 1 };
                let b = if j < p { j } else { j + 1 };
                assert(after.trail[i] == book.trail[a]);
                assert(after.trail[j] == book.trail[b]);
            }
            assert(after.trail[0] == book.trail[0]);
        } else {
            assert forall|i: int| 0 <= i < after.trail.len() implies after.pages.by_id.contains_key(
                #[trigger] after.trail[i],
            ) by {
                assert(book.trail.contains(book.trail[i]));
                assert(book.pages.by_id.contains_key(book.trail[i]));
            }
        }
    }
}

/// What a navigation asks of its caller next.
pub enum Step {
    /// The page is on the trail already: bring it into view.
    Show(Page),
    /// A fetch for this address is under way; the shell has this identifier.
    /// No second fetch is to be made.
    Await(String),
    /// A shell was registered: fetch the note for `url` and report back what
    /// came of it under `id`.
    Fetch { id: String, url: String },
    /// The identifier at hand for a new page belongs to a live page. Nothing was
    /// registered.
    IdInUse,
}

/// What a navigation did and what it asks for.
pub struct Activation {
    /// The pages that left the trail and the repository, oldest first.
    pub evicted: Vec<Page>,
    pub step: Step,
}

/// How the report on a fetch ended.
pub enum Completion {
    /// The note arrived; the page is the new top of the trail.
    Loaded(Page),
    /// The fetch failed; the shell is gone.
    Failed(PageError),
    /// No shell was waiting under this identifier. Nothing changed.
    Stale,
}

/// The step that a request for `url` owes on `book`, with `id` at hand for a new
/// page.
pub open spec fn step_for(book: BookView, url: Seq<char>, id: Seq<char>, step: Step) -> bool {
    if book.pages.by_url.contains_key(url) {
        let page = book.pages.by_url[url];
        if book.trail.contains(page.id) {
            step matches Step::Show(shown) && shown@ == page
        } else {
            step matches Step::Await(waiting) && waiting@ == page.id
        }
    } else if book.pages.by_id.contains_key(id) {
        step is IdInUse
    } else {
        step matches Step::Fetch { id: new_id, url: new_url } && new_id@ == id && new_url@ == url
    }
}

/// The pages that a cut behind `origin` hands back: those behind it on the
/// trail, oldest first.
pub open spec fn evicted_pages(book: BookView, origin: Seq<char>, evicted: Seq<PageView>) -> bool {
    &&& evicted.len() == book.evicted_by(origin).len()
    &&& forall|i: int|
        0 <= i < evicted.len() ==> #[trigger] evicted[i] == book.pages.by_id[book.evicted_by(
            origin,
        )[i]]
}

/// What the report `reply` on the fetch for `id` owes on `before`.
pub open spec fn completes(
    before: BookView,
    id: Seq<char>,
    reply: FetchReply,
    completion: Completion,
    after: BookView,
) -> bool {
    if before.pending(id) {
        match completion {
            Completion::Loaded(page) => {
                &&& page.note matches Some(note)
                &&& reply_outcome(reply, Ok::<Note, PageError>(note))
                &&& after == before.load(id, note@)
                &&& page@ == after.pages.by_id[id]
            },
            Completion::Failed(error) => {
                &&& reply_outcome(reply, Err::<Note, PageError>(error))
                &&& after == before.fail(id)
            },
            Completion::Stale => false,
        }
    } else {
        completion is Stale && after == before
    }
}

/// The book of one session.
pub struct Book {
    pages: PageRepository,
    page_list: NavigationStack,
    search_index: SearchIndex,
}

impl View for Book {
    type V = BookView;

    closed spec fn view(&self) -> BookView {
        BookView { pages: self.pages@, trail: self.page_list@, index: self.search_index@ }
    }
}

impl Book {
    /// The invariant of the book: that of its view.
    pub open spec fn wf(&self) -> bool {
        self@.wf()
    }

    /// A book without pages, with the index of `corpus`.
    pub fn new(corpus: &Vec<SearchData>) -> (book: Book)
        ensures
            book.wf(),
            book@.pages == RepositoryView::empty(),
            book@.trail == Seq::<Seq<char>>::empty(),
            book@.index == index_of(views(corpus@)),
    {
        Book {
            pages: PageRepository::new(),
            page_list: NavigationStack::new(),
            search_index: get_search_index(corpus),
        }
    }

    /// Puts the home page in place: under its well-known keys in the
    /// repository, and at the start of the trail. A book that has its home page
    /// refuses, and nothing changes.
    pub fn add_home_page(&mut self) -> (added: bool)
        requires
            old(self).wf(),
        ensures
            final(self).wf(),
            added == (old(self)@.trail.len() == 0),
            final(self)@ == old(self)@.bootstrap(),
    {
        if self.page_list.len() > 0 {
            return false;
        }
        proof {
            lemma_bootstrap_keeps_wf(self@);
        }
        assert(!self@.pages.by_url.contains_key(HOME_URL@)) by {
            if self@.pages.by_url.contains_key(HOME_URL@) {
                assert(self@.pages.by_id.contains_key(self@.pages.by_url[HOME_URL@].id));
            }
        }
        let page = Page::shell(String::from_str(HOME_URL), String::from_str(HOME_ID));
        assert(page@ == home_page());
        self.pages.insert_page(page);
        self.page_list.append(String::from_str(HOME_ID));
        assert(self@.trail =~= seq![HOME_ID@]);
        true
    }

    /// The live page for `url`, if there is one.
    pub fn get_page(&self, url: &str) -> (found: Option<&Page>)
        ensures
            match found {
                Some(page) => self@.pages.by_url.contains_key(url@) && page@
                    == self@.pages.by_url[url@],
                None => !self@.pages.by_url.contains_key(url@),
            },
    {
        self.pages.get(url)
    }

    /// The live page with the identifier `id`, if there is one.
    pub fn get_page_by_id(&self, id: &str) -> (found: Option<&Page>)
        ensures
            match found {
                Some(page) => self@.pages.by_id.contains_key(id@) && page@
                    == self@.pages.by_id[id@],
                None => !self@.pages.by_id.contains_key(id@),
            },
    {
        self.pages.get_by_id(id)
    }

    /// The identifiers on the trail, oldest first.
    pub fn trail(&self) -> (ids: Vec<String>)
        ensures
            ids.deep_view() == self@.trail,
    {
        let mut ids: Vec<String> = Vec::new();
        let mut k: usize = 0;
        while k < self.page_list.len()
            invariant
                k <= self.page_list@.len(),
                ids.deep_view() == self.page_list@.take(k as int),
            decreases self.page_list@.len() - k,
        {
            let ghost done = ids.deep_view();
            let id = self.page_list.get(k).clone();
            ids.push(id);
            assert(ids.deep_view() =~= done.push(id@));
            assert(ids.deep_view() =~= self.page_list@.take(k + 1));
            k = k + 1;
        }
        assert(self.page_list@.take(k as int) =~= self.page_list@);
        ids
    }

    /// Whether the page `id` is on the trail.
    pub fn on_trail(&self, id: &str) -> (r: bool)
        ensures
            r == self@.trail.contains(id@),
    {
        self.page_list.position_of(id).is_some()
    }

    /// Removes the page `id` from the repository and from the trail, and hands
    /// it back. The home page is never removed, and removing a page that is
    /// not there changes nothing.
    pub fn remove_page(&mut self, id: &str) -> (removed: Option<Page>)
        requires
            old(self).wf(),
        ensures
            final(self).wf(),
            final(self)@ == old(self)@.remove(id@),
            match removed {
                Some(page) => id@ != HOME_ID@ && old(self)@.pages.by_id.contains_key(id@) && page@
                    == old(self)@.pages.by_id[id@],
                None => id@ == HOME_ID@ || !old(self)@.pages.by_id.contains_key(id@),
            },
    {
        if same_text(id, HOME_ID) {
            return None;
        }
        proof {
            lemma_remove_keeps_wf(self@, id@);
        }
        let removed = self.pages.remove(id);
        self.page_list.remove(id);
        removed
    }

    /// Cuts the trail off behind the page `page_id` and evicts the pages that
    /// were cut off, oldest first. With `page_id` on top nothing happens.
    pub fn remove_pages_right_of(&mut self, page_id: &str) -> (evicted: Vec<Page>)
        requires
            old(self).wf(),
            old(self)@.trail.contains(page_id@),
        ensures
            final(self).wf(),
            final(self)@ == old(self)@.truncate_after(page_id@),
            evicted_pages(old(self)@, page_id@, views(evicted@)),
    {
        let ghost before = self@;
        let ghost cut = before.evicted_by(page_id@);
        proof {
            lemma_position(before.trail, page_id@);
            lemma_truncate_keeps_wf(before, page_id@);
        }
        let removed = self.page_list.truncate_after(page_id);
        let mut evicted: Vec<Page> = Vec::new();
        let mut k: usize = 0;
        assert(cut.take(0) =~= Seq::<Seq<char>>::empty());
        while k < removed.len()
            invariant
                k <= removed.len(),
                removed.deep_view() == cut,
                cut == before.evicted_by(page_id@),
                before.wf(),
                before.trail.contains(page_id@),
                is_position(before.trail, page_id@, position(before.trail, page_id@)),
                self.pages.wf(),
                self.pages@ == before.pages.evict_all(cut.take(k as int)),
                self.page_list@ == before.trail.take(position(before.trail, page_id@) + 1),
                self.search_index@ == before.index,
                evicted.len() == k,
                forall|i: int|
                    0 <= i < k ==> (#[trigger] evicted[i])@ == before.pages.by_id[cut[i]],
            decreases removed.len() - k,
        {
            let ghost p = position(before.trail, page_id@);
            let ghost id = cut[k as int];
            assert(id == removed[k as int]@);
            proof {
                lemma_evict_all_effect(before.pages, cut.take(k as int));
                assert(cut.len() == removed.len());
                assert(cut == before.trail.skip(p + 1));
                assert(id == before.trail[p + 1 + k]);
                assert(before.pages.by_id.contains_key(id));
                if cut.take(k as int).contains(id) {
                    let w = choose|w: int| 0 <= w < k && cut.take(k as int)[w] == id;
                    assert(before.trail[p + 1 + w] == id);
                }
                assert(cut.take(k + 1).drop_last() =~= cut.take(k as int));
            }
            match self.pages.remove(removed[k].as_str()) {
                Some(page) => {
                    evicted.push(page);
                },
                None => {},
            }
            k = k + 1;
        }
        assert(cut.take(k as int) =~= cut);
        assert(views(evicted@).len() == cut.len());
        evicted
    }

    /// Navigates from the page `origin_id` to `url`, with `id` at hand should a
    /// new page be needed. First the trail is cut off behind the origin. Then
    /// the page for `url` is looked up, and a shell is registered under `id`
    /// where there is none.
    pub fn add_page_with_id(&mut self, url: String, origin_id: &str, id: String) -> (activation:
        Activation)
        requires
            old(self).wf(),
            old(self)@.trail.contains(origin_id@),
        ensures
            final(self).wf(),
            final(self)@ == old(self)@.activate(origin_id@, url@, id@),
            evicted_pages(old(self)@, origin_id@, views(activation.evicted@)),
            step_for(old(self)@.truncate_after(origin_id@), url@, id@, activation.step),
    {
        proof {
            lemma_truncate_keeps_wf(self@, origin_id@);
        }
        let evicted = self.remove_pages_right_of(origin_id);
        let ghost cut = self@;
        proof {
            lemma_request_keeps_wf(cut, url@, id@);
        }
        let existing = match self.pages.get(url.as_str()) {
            Some(page) => Some(page.clone()),
            None => None,
        };
        let step = match existing {
            Some(page) => {
                if self.on_trail(page.id.as_str()) {
                    Step::Show(page)
                } else {
                    Step::Await(page.id)
                }
            },
            None => {
                if self.pages.get_by_id(id.as_str()).is_some() {
                    Step::IdInUse
                } else {
                    self.pages.insert_page(Page::shell(url.clone(), id.clone()));
                    Step::Fetch { id, url }
                }
            },
        };
        Activation { evicted, step }
    }

    /// Navigates from the page `origin_id` to `url`, as `add_page_with_id` does,
    /// with a fresh random identifier at hand.
    pub fn add_page(&mut self, url: String, origin_id: &str) -> (activation: Activation)
        requires
            old(self).wf(),
            old(self)@.trail.contains(origin_id@),
        ensures
            final(self).wf(),
            evicted_pages(old(self)@, origin_id@, views(activation.evicted@)),
            exists|id: Seq<char>|
                {
                    &&& id.len() == 36
                    &&& id != HOME_ID@
                    &&& final(self)@ == #[trigger] old(self)@.activate(origin_id@, url@, id)
                    &&& step_for(old(self)@.truncate_after(origin_id@), url@, id, activation.step)
                },
    {
        let id = new_page_id();
        let ghost chosen = id@;
        proof {
            reveal_strlit("page-0");
        }
        let activation = self.add_page_with_id(url, origin_id, id);
        assert(self@ == old(self)@.activate(origin_id@, url@, chosen));
        activation
    }

    /// Resolves the link target `raw` against `origin`, the origin of the
    /// current document, and navigates there from the page `origin_id`.
    pub fn activate(&mut self, raw: &String, origin_id: &str, origin: &str) -> (activation:
        Activation)
        requires
            old(self).wf(),
            old(self)@.trail.contains(origin_id@),
        ensures
            final(self).wf(),
            evicted_pages(old(self)@, origin_id@, views(activation.evicted@)),
            exists|id: Seq<char>|
                {
                    &&& id.len() == 36
                    &&& id != HOME_ID@
                    &&& final(self)@ == #[trigger] old(self)@.activate(
                        origin_id@,
                        resolution_of(raw@, origin@).href(),
                        id,
                    )
                    &&& step_for(
                        old(self)@.truncate_after(origin_id@),
                        resolution_of(raw@, origin@).href(),
                        id,
                        activation.step,
                    )
                },
    {
        let target = parse_url(raw, origin);
        self.add_page(target.href().clone(), origin_id)
    }

    /// Takes in the report on the fetch for the shell `id`. On success the page
    /// holds the note and is the new top of the trail. On failure the shell
    /// leaves the repository, as if the page had never been asked for.
    pub fn finish_page(&mut self, id: &str, reply: FetchReply) -> (completion: Completion)
        requires
            old(self).wf(),
        ensures
            final(self).wf(),
            completes(old(self)@, id@, reply, completion, final(self)@),
    {
        let ghost before = self@;
        let mut shell = match self.pages.get_by_id(id) {
            Some(page) => page.clone(),
            None => {
                return Completion::Stale;
            },
        };
        if self.on_trail(id) {
            return Completion::Stale;
        }
        match shell.init(reply) {
            Ok(_) => {
                match shell.note {
                    Some(note) => {
                        proof {
                            lemma_load_keeps_wf(before, id@, note@);
                        }
                        let copy = note.clone();
                        self.pages.set_note(id, note);
                        self.page_list.append(String::from_str(id));
                        let page = Page { url: shell.url, id: shell.id, note: Some(copy) };
                        Completion::Loaded(page)
                    },
                    // `init` reports success only with the note in place.
                    None => Completion::Stale,
                }
            },
            Err(error) => {
                proof {
                    lemma_fail_keeps_wf(before, id@);
                }
                self.pages.remove(id);
                Completion::Failed(error)
            },
        }
    }

    /// Answers a query on the index of the book.
    pub fn search(&self, term: &str) -> (outcome: SearchOutcome)
        ensures
            answers(self@.index, term@, outcome),
    {
        self.search_index.query(term)
    }

    /// Puts a tally of hits into ranking order, or reports that it is empty.
    pub fn show_search_results(&self, tally: &Vec<SearchHit>) -> (outcome: SearchOutcome)
        requires
            distinct_urls(views(tally@)),
        ensures
            tally.len() == 0 ==> outcome is NoResults,
            tally.len() > 0 ==> (outcome matches SearchOutcome::Results(hits) && is_ranking_of(
                views(hits@),
                views(tally@),
            )),
    {
        outcome_of(tally)
    }
}

/// Calls `uuid::Uuid::new_v4` and writes the identifier out with `to_string`,
/// in its hyphenated form of 36 characters. The identifier is random: nothing
/// else is promised of it. The call panics where the random source of the
/// system fails.
#[verifier::external_body]
fn new_page_id() -> (id: String)
    ensures
        id@.len() == 36,
{
    uuid::Uuid::new_v4().to_string()
}

} // verus!
