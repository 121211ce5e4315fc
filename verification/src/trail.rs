//! The trail: the identifiers of the visited pages, oldest first.

use crate::text::same_text;
use vstd::prelude::*;
use vstd::string::*;

verus! {

/// Whether `i` is the place of the first occurrence of `id` in `trail`.
pub open spec fn is_position(trail: Seq<Seq<char>>, id: Seq<char>, i: int) -> bool {
    &&& 0 <= i < trail.len()
    &&& trail[i] == id
    &&& forall|j: int| 0 <= j < i ==> #[trigger] trail[j] != id
}

/// The place of the first occurrence of `id` in `trail`. It is only meaningful
/// where `trail` contains `id`.
pub open spec fn position(trail: Seq<Seq<char>>, id: Seq<char>) -> int {
    choose|i: int| is_position(trail, id, i)
}

/// An identifier on the trail has a first place there.
pub proof fn lemma_position(trail: Seq<Seq<char>>, id: Seq<char>)
    requires
        trail.contains(id),
    ensures
        is_position(trail, id, position(trail, id)),
    decreases trail.len(),
{
    let head = trail.drop_last();
    if head.contains(id) {
        lemma_position(head, id);
        let p = position(head, id);
        assert(is_position(trail, id, p)) by {
            assert(trail[p] == head[p]);
            assert forall|j: int| 0 <= j < p implies #[trigger] trail[j] != id by {
                assert(trail[j] == head[j]);
            }
        }
    } else {
        let w = choose|i: int| 0 <= i < trail.len() && trail[i] == id;
        if w < trail.len() - 1 {
            assert(head[w] == id);
        }
        assert(is_position(trail, id, trail.len() - 1)) by {
            assert forall|j: int| 0 <= j < trail.len() - 1 implies #[trigger] trail[j] != id by {
                if trail[j] == id {
                    assert(head[j] == id);
                }
            }
        }
    }
}

/// The first place of an identifier is the only place that `is_position` accepts.
pub proof fn lemma_position_unique(trail: Seq<Seq<char>>, id: Seq<char>, i: int)
    requires
        is_position(trail, id, i),
    ensures
        position(trail, id) == i,
{
    let p = position(trail, id);
    if p < i {
        assert(trail[p] != id);
    } else if i < p {
        assert(trail[i] != id);
    }
}

/// The ordered trail of visited pages. It holds identifiers only; the pages
/// themselves live in the repository.
pub struct NavigationStack {
    ids: Vec<String>,
}

impl View for NavigationStack {
    type V = Seq<Seq<char>>;

    closed spec fn view(&self) -> Seq<Seq<char>> {
        self.ids.deep_view()
    }
}

impl NavigationStack {
    /// An empty trail.
    pub fn new() -> (trail: NavigationStack)
        ensures
            trail@ == Seq::<Seq<char>>::empty(),
    {
        let trail = NavigationStack { ids: Vec::new() };
        assert(trail@ =~= Seq::<Seq<char>>::empty());
        trail
    }

    /// The number of pages on the trail.
    pub fn len(&self) -> (n: usize)
        ensures
            n == self@.len(),
    {
        self.ids.len()
    }

    /// The identifier at place `i`.
    pub fn get(&self, i: usize) -> (id: &String)
        requires
            i < self@.len(),
        ensures
            id@ == self@[i as int],
    {
        &self.ids[i]
    }

    /// Puts `id` at the end: it is the new top of the trail.
    pub fn append(&mut self, id: String)
        ensures
            final(self)@ == old(self)@.push(id@),
    {
        self.ids.push(id);
        assert(self@ =~= old(self)@.push(id@));
    }

    /// The place of `id` on the trail, looked up from the oldest page on.
    pub fn position_of(&self, id: &str) -> (found: Option<usize>)
        ensures
            match found {
                Some(i) => is_position(self@, id@, i as int),
                None => !self@.contains(id@),
            },
    {
        let mut i: usize = 0;
        while i < self.ids.len()
            invariant
                i <= self.ids.len(),
                forall|j: int| 0 <= j < i ==> #[trigger] self@[j] != id@,
            decreases self.ids.len() - i,
        {
            if same_text(self.ids[i].as_str(), id) {
                return Some(i);
            }
            i = i + 1;
        }
        None
    }

    /// Cuts the trail off behind `id` and hands back what was cut off, oldest
    /// first. With `id` on top nothing is cut off.
    pub fn truncate_after(&mut self, id: &str) -> (removed: Vec<String>)
        requires
            old(self)@.contains(id@),
        ensures
            final(self)@ == old(self)@.take(position(old(self)@, id@) + 1),
            removed.deep_view() == old(self)@.skip(position(old(self)@, id@) + 1),
    {
        let ghost before = self@;
        let at = match self.position_of(id) {
            Some(at) => at,
            None => {
                return Vec::new();
            },
        };
        proof {
            lemma_position_unique(before, id@, at as int);
        }
        assert(before.len() == self.ids.len());
        let removed = self.ids.split_off(at + 1);
        assert(self@ =~= before.take(at + 1));
        assert(removed.deep_view() =~= before.skip(at + 1));
        removed
    }

    /// Takes `id` off the trail, wherever it stands. A trail without `id` is
    /// left as it is.
    pub fn remove(&mut self, id: &str) -> (removed: bool)
        ensures
            removed == old(self)@.contains(id@),
            removed ==> final(self)@ == old(self)@.remove(position(old(self)@, id@)),
            !removed ==> final(self)@ == old(self)@,
    {
        let ghost before = self@;
        match self.position_of(id) {
            Some(at) => {
                proof {
                    lemma_position_unique(before, id@, at as int);
                }
                self.ids.remove(at);
                assert(self@ =~= before.remove(at as int));
                true
            },
            None => false,
        }
    }
}

} // verus!
