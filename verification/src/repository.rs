//! The store of live pages, reachable by address and by identifier.

use crate::page::{Note, NoteView, Page, PageView};
use vstd::hash_map::StringHashMap;
use vstd::prelude::*;
use vstd::string::*;

verus! {

/// The two indices of a repository: the pages by address and by identifier.
pub struct RepositoryView {
    pub by_url: Map<Seq<char>, PageView>,
    pub by_id: Map<Seq<char>, PageView>,
}

impl RepositoryView {
    /// The two indices hold the same pages: every page found under its address
    /// is found under its identifier, and the other way round.
    pub open spec fn wf(self) -> bool {
        &&& forall|url: Seq<char>| #[trigger]
            self.by_url.contains_key(url) ==> {
                &&& self.by_url[url].url == url
                &&& self.by_id.contains_key(self.by_url[url].id)
                &&& self.by_id[self.by_url[url].id] == self.by_url[url]
            }
        &&& forall|id: Seq<char>| #[trigger]
            self.by_id.contains_key(id) ==> {
                &&& self.by_id[id].id == id
                &&& self.by_url.contains_key(self.by_id[id].url)
                &&& self.by_url[self.by_id[id].url] == self.by_id[id]
            }
    }

    /// The repository without pages.
    pub open spec fn empty() -> RepositoryView {
        RepositoryView { by_url: Map::empty(), by_id: Map::empty() }
    }

    /// Whether `page` can enter: neither its address nor its identifier is taken.
    pub open spec fn admits(self, page: PageView) -> bool {
        !self.by_url.contains_key(page.url) && !self.by_id.contains_key(page.id)
    }

    /// The repository with `page` under both keys.
    pub open spec fn register(self, page: PageView) -> RepositoryView {
        RepositoryView {
            by_url: self.by_url.insert(page.url, page),
            by_id: self.by_id.insert(page.id, page),
        }
    }

    /// The repository without the page `id`, under either key. Nothing changes
    /// where no page has that identifier.
    pub open spec fn evict(self, id: Seq<char>) -> RepositoryView {
        if self.by_id.contains_key(id) {
            RepositoryView {
                by_url: self.by_url.remove(self.by_id[id].url),
                by_id: self.by_id.remove(id),
            }
        } else {
            self
        }
    }

    /// The repository after the pages `ids` were evicted one by one, in order.
    pub open spec fn evict_all(self, ids: Seq<Seq<char>>) -> RepositoryView
        decreases ids.len(),
    {
        if ids.len() == 0 {
            self
        } else {
            self.evict_all(ids.drop_last()).evict(ids.last())
        }
    }

    /// The repository with the note `note` on the page `id`. Nothing changes
    /// where no page has that identifier.
    pub open spec fn fill(self, id: Seq<char>, note: NoteView) -> RepositoryView {
        if self.by_id.contains_key(id) {
            let page = PageView { url: self.by_id[id].url, id, note: Some(note) };
            self.register(page)
        } else {
            self
        }
    }
}

/// A page that is admitted leaves the two indices holding the same pages.
pub proof fn lemma_register_keeps_wf(repository: RepositoryView, page: PageView)
    requires
        repository.wf(),
        repository.admits(page),
    ensures
        repository.register(page).wf(),
{
    let after = repository.register(page);
    assert forall|url: Seq<char>| #[trigger] after.by_url.contains_key(url) implies {
        &&& after.by_url[url].url == url
        &&& after.by_id.contains_key(after.by_url[url].id)
        &&& after.by_id[after.by_url[url].id] == after.by_url[url]
    } by {
        if url != page.url {
            assert(repository.by_url.contains_key(url));
            assert(repository.by_id.contains_key(repository.by_url[url].id));
        }
    }
    assert forall|id: Seq<char>| #[trigger] after.by_id.contains_key(id) implies {
        &&& after.by_id[id].id == id
        &&& after.by_url.contains_key(after.by_id[id].url)
        &&& after.by_url[after.by_id[id].url] == after.by_id[id]
    } by {
        if id != page.id {
            assert(repository.by_id.contains_key(id));
            assert(repository.by_url.contains_key(repository.by_id[id].url));
        }
    }
}

/// An eviction leaves the two indices holding the same pages.
pub proof fn lemma_evict_keeps_wf(repository: RepositoryView, id: Seq<char>)
    requires
        repository.wf(),
    ensures
        repository.evict(id).wf(),
{
    let after = repository.evict(id);
    if repository.by_id.contains_key(id) {
        let gone = repository.by_id[id];
        assert(repository.by_url.contains_key(gone.url));
        assert forall|url: Seq<char>| #[trigger] after.by_url.contains_key(url) implies {
            &&& after.by_url[url].url == url
            &&& after.by_id.contains_key(after.by_url[url].id)
            &&& after.by_id[after.by_url[url].id] == after.by_url[url]
        } by {
            assert(repository.by_url.contains_key(url));
            assert(repository.by_id.contains_key(repository.by_url[url].id));
        }
        assert forall|other: Seq<char>| #[trigger] after.by_id.contains_key(other) implies {
            &&& after.by_id[other].id == other
            &&& after.by_url.contains_key(after.by_id[other].url)
            &&& after.by_url[after.by_id[other].url] == after.by_id[other]
        } by {
            assert(repository.by_id.contains_key(other));
            assert(repository.by_url.contains_key(repository.by_id[other].url));
        }
    }
}

/// Evicting several pages leaves the two indices holding the same pages.
pub proof fn lemma_evict_all_keeps_wf(repository: RepositoryView, ids: Seq<Seq<char>>)
    requires
        repository.wf(),
    ensures
        repository.evict_all(ids).wf(),
    decreases ids.len(),
{
    if ids.len() > 0 {
        lemma_evict_all_keeps_wf(repository, ids.drop_last());
        lemma_evict_keeps_wf(repository.evict_all(ids.drop_last()), ids.last());
    }
}

/// What evicting several pages comes to: exactly the pages with one of the
/// identifiers leave, under both keys, and the others stay as they were.
pub proof fn lemma_evict_all_effect(repository: RepositoryView, ids: Seq<Seq<char>>)
    requires
        repository.wf(),
    ensures
        repository.evict_all(ids).wf(),
        forall|id: Seq<char>| #[trigger]
            repository.evict_all(ids).by_id.contains_key(id) <==> repository.by_id.contains_key(id)
                && !ids.contains(id),
        forall|id: Seq<char>| #[trigger]
            repository.evict_all(ids).by_id.contains_key(id) ==> repository.evict_all(ids).by_id[id]
                == repository.by_id[id],
        forall|url: Seq<char>| #[trigger]
            repository.evict_all(ids).by_url.contains_key(url) <==> repository.by_url.contains_key(
                url,
            ) && !ids.contains(repository.by_url[url].id),
        forall|url: Seq<char>| #[trigger]
            repository.evict_all(ids).by_url.contains_key(url) ==> repository.evict_all(
                ids,
            ).by_url[url] == repository.by_url[url],
    decreases ids.len(),
{
    lemma_evict_all_keeps_wf(repository, ids);
    if ids.len() > 0 {
        let head = ids.drop_last();
        let mid = repository.evict_all(head);
        let after = repository.evict_all(ids);
        lemma_evict_all_effect(repository, head);
        lemma_evict_all_keeps_wf(repository, head);
        assert forall|id: Seq<char>| #[trigger]
            after.by_id.contains_key(id) <==> repository.by_id.contains_key(id) && !ids.contains(
                id,
            ) by {
            if ids.contains(id) {
                let w = choose|i: int| 0 <= i < ids.len() && ids[i] == id;
                if w < ids.len() - 1 {
                    assert(head[w] == id);
                }
            }
            if head.contains(id) {
                let w = choose|i: int| 0 <= i < head.len() && head[i] == id;
                assert(ids[w] == id);
            }
            assert(mid.by_id.contains_key(id) <==> repository.by_id.contains_key(id)
                && !head.contains(id));
            if id == ids.last() {
                assert(ids[ids.len() - 1] == id);
            }
        }
        assert forall|url: Seq<char>| #[trigger]
            after.by_url.contains_key(url) <==> repository.by_url.contains_key(url)
                && !ids.contains(repository.by_url[url].id) by {
            assert(mid.by_url.contains_key(url) <==> repository.by_url.contains_key(url)
                && !head.contains(repository.by_url[url].id));
            if repository.by_url.contains_key(url) {
                let id = repository.by_url[url].id;
                if ids.contains(id) {
                    let w = choose|i: int| 0 <= i < ids.len() && ids[i] == id;
                    if w < ids.len() - 1 {
                        assert(head[w] == id);
                    }
                }
                if head.contains(id) {
                    let w = choose|i: int| 0 <= i < head.len() && head[i] == id;
                    assert(ids[w] == id);
                }
                if id == ids.last() {
                    assert(ids[ids.len() - 1] == id);
                }
                if mid.by_url.contains_key(url) {
                    assert(mid.by_url[url] == repository.by_url[url]);
                    assert(mid.by_id.contains_key(id));
                    if mid.by_id.contains_key(ids.last()) && mid.by_id[ids.last()].url == url {
                        assert(mid.by_id[mid.by_url[url].id] == mid.by_url[url]);
                    }
                }
            }
        }
    }
}

/// A note that arrives leaves the two indices holding the same pages.
pub proof fn lemma_fill_keeps_wf(repository: RepositoryView, id: Seq<char>, note: NoteView)
    requires
        repository.wf(),
    ensures
        repository.fill(id, note).wf(),
{
    let after = repository.fill(id, note);
    if repository.by_id.contains_key(id) {
        let shell = repository.by_id[id];
        assert(repository.by_url.contains_key(shell.url));
        assert forall|url: Seq<char>| #[trigger] after.by_url.contains_key(url) implies {
            &&& after.by_url[url].url == url
            &&& after.by_id.contains_key(after.by_url[url].id)
            &&& after.by_id[after.by_url[url].id] == after.by_url[url]
        } by {
            if url != shell.url {
                assert(repository.by_url.contains_key(url));
                assert(repository.by_id.contains_key(repository.by_url[url].id));
            }
        }
        assert forall|other: Seq<char>| #[trigger] after.by_id.contains_key(other) implies {
            &&& after.by_id[other].id == other
            &&& after.by_url.contains_key(after.by_id[other].url)
            &&& after.by_url[after.by_id[other].url] == after.by_id[other]
        } by {
            if other != id {
                assert(repository.by_id.contains_key(other));
                assert(repository.by_url.contains_key(repository.by_id[other].url));
            }
        }
    }
}

/// The store of live pages. Both indices are changed together, so that they
/// always hold the same pages.
pub struct PageRepository {
    by_url: StringHashMap<Page>,
    by_id: StringHashMap<Page>,
}

impl View for PageRepository {
    type V = RepositoryView;

    closed spec fn view(&self) -> RepositoryView {
        RepositoryView {
            by_url: self.by_url@.map_values(|page: Page| page@),
            by_id: self.by_id@.map_values(|page: Page| page@),
        }
    }
}

impl PageRepository {
    /// The invariant of the repository: its two indices hold the same pages.
    pub open spec fn wf(&self) -> bool {
        self@.wf()
    }

    /// A repository without pages.
    pub fn new() -> (repository: PageRepository)
        ensures
            repository@ == RepositoryView::empty(),
            repository.wf(),
    {
        let repository = PageRepository { by_url: StringHashMap::new(), by_id: StringHashMap::new() };
        assert(repository@.by_url =~= Map::empty());
        assert(repository@.by_id =~= Map::empty());
        repository
    }

    /// The live page for `url`, if there is one.
    pub fn get(&self, url: &str) -> (found: Option<&Page>)
        ensures
            match found {
                Some(page) => self@.by_url.contains_key(url@) && page@ == self@.by_url[url@],
                None => !self@.by_url.contains_key(url@),
            },
    {
        self.by_url.get(url)
    }

    /// The live page with the identifier `id`, if there is one.
    pub fn get_by_id(&self, id: &str) -> (found: Option<&Page>)
        ensures
            match found {
                Some(page) => self@.by_id.contains_key(id@) && page@ == self@.by_id[id@],
                None => !self@.by_id.contains_key(id@),
            },
    {
        self.by_id.get(id)
    }

    /// Puts `page` under both keys. A page whose address or identifier is taken
    /// is refused, and nothing changes.
    pub fn insert_page(&mut self, page: Page) -> (entered: bool)
        requires
            old(self).wf(),
        ensures
            final(self).wf(),
            entered == old(self)@.admits(page@),
            entered ==> final(self)@ == old(self)@.register(page@),
            !entered ==> final(self)@ == old(self)@,
    {
        if self.by_url.contains_key(page.url.as_str()) || self.by_id.contains_key(
            page.id.as_str(),
        ) {
            return false;
        }
        let ghost before = self@;
        let copy = page.clone();
        self.by_url.insert(page.url.clone(), copy);
        self.by_id.insert(page.id.clone(), page);
        assert(self@.by_url =~= before.by_url.insert(page@.url, page@));
        assert(self@.by_id =~= before.by_id.insert(page@.id, page@));
        proof {
            lemma_register_keeps_wf(before, page@);
        }
        true
    }

    /// Takes the page `id` out of both indices and hands it back. Removing an
    /// identifier that no page has changes nothing.
    pub fn remove(&mut self, id: &str) -> (removed: Option<Page>)
        requires
            old(self).wf(),
        ensures
            final(self).wf(),
            final(self)@ == old(self)@.evict(id@),
            match removed {
                Some(page) => old(self)@.by_id.contains_key(id@) && page@ == old(self)@.by_id[id@],
                None => !old(self)@.by_id.contains_key(id@),
            },
    {
        let ghost before = self@;
        let page = match self.by_id.get(id) {
            Some(page) => page.clone(),
            None => {
                return None;
            },
        };
        self.by_id.remove(id);
        self.by_url.remove(page.url.as_str());
        assert(self@.by_url =~= before.by_url.remove(page@.url));
        assert(self@.by_id =~= before.by_id.remove(id@));
        proof {
            lemma_evict_keeps_wf(before, id@);
        }
        Some(page)
    }

    /// Puts `note` on the page `id`, under both keys. Nothing changes where no
    /// page has that identifier.
    pub fn set_note(&mut self, id: &str, note: Note) -> (filled: bool)
        requires
            old(self).wf(),
        ensures
            final(self).wf(),
            filled == old(self)@.by_id.contains_key(id@),
            final(self)@ == old(self)@.fill(id@, note@),
    {
        let ghost before = self@;
        let shell = match self.by_id.get(id) {
            Some(page) => page.clone(),
            None => {
                return false;
            },
        };
        let page = Page { url: shell.url, id: shell.id, note: Some(note) };
        let copy = page.clone();
        self.by_url.insert(page.url.clone(), copy);
        self.by_id.insert(page.id.clone(), page);
        assert(self@.by_url =~= before.by_url.insert(page@.url, page@));
        assert(self@.by_id =~= before.by_id.insert(page@.id, page@));
        proof {
            lemma_fill_keeps_wf(before, id@, note@);
        }
        true
    }
}

} // verus!
