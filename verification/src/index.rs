//! The inverted index over the corpus: for each token the notes it occurs in.

use crate::text::{lowercased, same_text, split, split_on, to_lowercase, views};
use vstd::hash_map::StringHashMap;
use vstd::prelude::*;
use vstd::string::*;

verus! {

/// One record of the corpus that the index is built from.
pub struct SearchData {
    pub title: String,
    pub content: String,
    pub id: String,
    pub url: String,
}

/// The characters of a corpus record.
pub struct RecordView {
    pub title: Seq<char>,
    pub content: Seq<char>,
    pub id: Seq<char>,
    pub url: Seq<char>,
}

impl View for SearchData {
    type V = RecordView;

    open spec fn view(&self) -> RecordView {
        RecordView { title: self.title@, content: self.content@, id: self.id@, url: self.url@ }
    }
}

/// Where the corpus of a site with the origin `origin` is fetched from.
pub fn corpus_endpoint(origin: &str) -> (endpoint: String)
    ensures
        endpoint@ == origin@ + "/search/index.json"@,
{
    String::from_str(origin).concat("/search/index.json")
}

/// A note that a token occurs in: its address and its title.
pub struct Posting {
    pub url: String,
    pub title: String,
}

impl View for Posting {
    type V = (Seq<char>, Seq<char>);

    open spec fn view(&self) -> (Seq<char>, Seq<char>) {
        (self.url@, self.title@)
    }
}

/// What an index holds: for each token the notes it occurs in, each once, in the
/// order in which the corpus first gave them.
pub type IndexView = Map<Seq<char>, Seq<(Seq<char>, Seq<char>)>>;

/// The tokens of a record: title, one space, content, split at every space, each
/// piece in lower case.
pub open spec fn tokens_of(record: RecordView) -> Seq<Seq<char>> {
    split_on(record.title + seq![' '] + record.content, ' ').map_values(
        |piece: Seq<char>| lowercased(piece),
    )
}

/// The notes listed under `token`; none where the token is unknown.
pub open spec fn postings_for(index: IndexView, token: Seq<char>) -> Seq<(Seq<char>, Seq<char>)> {
    if index.contains_key(token) {
        index[token]
    } else {
        Seq::empty()
    }
}

/// `index` with `posting` listed under `token`, unless it is listed there already.
pub open spec fn add_posting(
    index: IndexView,
    token: Seq<char>,
    posting: (Seq<char>, Seq<char>),
) -> IndexView {
    if postings_for(index, token).contains(posting) {
        index
    } else {
        index.insert(token, postings_for(index, token).push(posting))
    }
}

/// `index` with `posting` listed under each of `tokens`.
pub open spec fn add_tokens(
    index: IndexView,
    tokens: Seq<Seq<char>>,
    posting: (Seq<char>, Seq<char>),
) -> IndexView
    decreases tokens.len(),
{
    if tokens.len() == 0 {
        index
    } else {
        add_posting(add_tokens(index, tokens.drop_last(), posting), tokens.last(), posting)
    }
}

/// The index of a corpus: every record listed under each of its tokens.
pub open spec fn index_of(corpus: Seq<RecordView>) -> IndexView
    decreases corpus.len(),
{
    if corpus.len() == 0 {
        Map::empty()
    } else {
        add_tokens(
            index_of(corpus.drop_last()),
            tokens_of(corpus.last()),
            (corpus.last().url, corpus.last().title),
        )
    }
}

/// Whether every token of `index` lists each of its notes once.
pub open spec fn lists_once(index: IndexView) -> bool {
    forall|token: Seq<char>| #[trigger] postings_for(index, token).no_duplicates()
}

/// The inverted index. It is built once and only read afterwards.
pub struct SearchIndex {
    slots: StringHashMap<usize>,
    lists: Vec<Vec<Posting>>,
}

/// Every token has a list of its own.
pub closed spec fn table_wf(slots: Map<Seq<char>, usize>, lists: Seq<Vec<Posting>>) -> bool {
    &&& forall|t: Seq<char>| slots.contains_key(t) ==> (#[trigger] slots[t]) < lists.len()
    &&& forall|t1: Seq<char>, t2: Seq<char>|
        slots.contains_key(t1) && slots.contains_key(t2) && #[trigger] slots[t1]
            == #[trigger] slots[t2] ==> t1 == t2
}

/// The index that a table of slots and lists stands for.
pub closed spec fn table_view(slots: Map<Seq<char>, usize>, lists: Seq<Vec<Posting>>) -> IndexView {
    Map::new(
        |t: Seq<char>| slots.contains_key(t),
        |t: Seq<char>| views(lists[slots[t] as int]@),
    )
}

impl View for SearchIndex {
    type V = IndexView;

    closed spec fn view(&self) -> IndexView {
        table_view(self.slots@, self.lists@)
    }
}

impl SearchIndex {
    #[verifier::type_invariant]
    spec fn well_formed(&self) -> bool {
        table_wf(self.slots@, self.lists@)
    }

    /// The notes listed under `token`, if the index knows the token. The token
    /// is looked up as it is.
    pub fn postings(&self, token: &str) -> (found: Option<&Vec<Posting>>)
        ensures
            match found {
                Some(list) => self@.contains_key(token@) && views(list@) == self@[token@],
                None => !self@.contains_key(token@),
            },
    {
        proof {
            use_type_invariant(self);
        }
        match self.slots.get(token) {
            Some(slot) => Some(&self.lists[*slot]),
            None => None,
        }
    }
}

/// Whether `list` holds a posting with this address and title.
fn lists_posting(list: &Vec<Posting>, url: &str, title: &str) -> (r: bool)
    ensures
        r == views(list@).contains((url@, title@)),
{
    let mut i: usize = 0;
    while i < list.len()
        invariant
            i <= list.len(),
            forall|j: int| 0 <= j < i ==> views(list@)[j] != (url@, title@),
        decreases list.len() - i,
    {
        if same_text(list[i].url.as_str(), url) && same_text(list[i].title.as_str(), title) {
            assert(views(list@)[i as int] == (url@, title@));
            return true;
        }
        i = i + 1;
    }
    false
}

/// An index in the making: notes are listed under tokens one by one.
pub struct IndexBuilder {
    slots: StringHashMap<usize>,
    lists: Vec<Vec<Posting>>,
}

impl View for IndexBuilder {
    type V = IndexView;

    closed spec fn view(&self) -> IndexView {
        table_view(self.slots@, self.lists@)
    }
}

impl IndexBuilder {
    /// The invariant of the builder: every token has a list of its own.
    pub closed spec fn wf(&self) -> bool {
        table_wf(self.slots@, self.lists@)
    }

    /// A builder that lists nothing yet.
    pub fn new() -> (builder: IndexBuilder)
        ensures
            builder.wf(),
            builder@ == Map::<Seq<char>, Seq<(Seq<char>, Seq<char>)>>::empty(),
    {
        let builder = IndexBuilder { slots: StringHashMap::new(), lists: Vec::new() };
        assert(builder@ =~= Map::empty());
        builder
    }

    /// Lists the note with this address and title under `token`, unless it is
    /// listed there already. The token is taken as it is.
    pub fn list(&mut self, token: String, url: &String, title: &String)
        requires
            old(self).wf(),
        ensures
            final(self).wf(),
            final(self)@ == add_posting(old(self)@, token@, (url@, title@)),
    {
        let ghost before = self@;
        let ghost posting = (url@, title@);
        let found = match self.slots.get(token.as_str()) {
            Some(slot) => Some(*slot),
            None => None,
        };
        match found {
            Some(slot) => {
                if !lists_posting(&self.lists[slot], url.as_str(), title.as_str()) {
                    let ghost old_lists = self.lists@;
                    self.lists[slot].push(Posting { url: url.clone(), title: title.clone() });
                    assert(views(self.lists@[slot as int]@) =~= views(old_lists[slot as int]@).push(
                        posting,
                    ));
                    assert(self@ =~= add_posting(before, token@, posting));
                }
            },
            None => {
                let slot = self.lists.len();
                let mut list: Vec<Posting> = Vec::new();
                list.push(Posting { url: url.clone(), title: title.clone() });
                assert(views(list@) =~= Seq::<(Seq<char>, Seq<char>)>::empty().push(posting));
                self.lists.push(list);
                self.slots.insert(token, slot);
                assert(self@ =~= add_posting(before, token@, posting));
            },
        }
    }

    /// The finished index. It holds what the builder lists.
    pub fn build(self) -> (index: SearchIndex)
        requires
            self.wf(),
        ensures
            index@ == self@,
    {
        SearchIndex { slots: self.slots, lists: self.lists }
    }
}

/// Builds the index of `corpus`.
pub fn get_search_index(corpus: &Vec<SearchData>) -> (index: SearchIndex)
    ensures
        index@ == index_of(views(corpus@)),
{
    let mut builder = IndexBuilder::new();
    let mut k: usize = 0;
    while k < corpus.len()
        invariant
            k <= corpus.len(),
            builder.wf(),
            builder@ == index_of(views(corpus@).take(k as int)),
        decreases corpus.len() - k,
    {
        let record = &corpus[k];
        let ghost before = builder@;
        let ghost posting = (record.url@, record.title@);
        proof {
            reveal_strlit(" ");
        }
        let text = record.title.clone().concat(" ").concat(record.content.as_str());
        assert(text@ =~= record@.title + seq![' '] + record@.content);
        let pieces = split(text.as_str(), ' ');
        let ghost tokens = tokens_of(record@);
        let mut j: usize = 0;
        while j < pieces.len()
            invariant
                j <= pieces.len(),
                pieces.deep_view() == split_on(text@, ' '),
                text@ == record@.title + seq![' '] + record@.content,
                tokens == tokens_of(record@),
                posting == (record.url@, record.title@),
                builder.wf(),
                builder@ == add_tokens(before, tokens.take(j as int), posting),
            decreases pieces.len() - j,
        {
            let token = to_lowercase(pieces[j].as_str());
            assert(pieces.deep_view()[j as int] == pieces[j as int]@);
            assert(tokens.take(j + 1).drop_last() =~= tokens.take(j as int));
            builder.list(token, &record.url, &record.title);
            j = j + 1;
        }
        assert(tokens.take(j as int) =~= tokens);
        assert(views(corpus@).take(k + 1).drop_last() =~= views(corpus@).take(k as int));
        k = k + 1;
    }
    assert(views(corpus@).take(k as int) =~= views(corpus@));
    builder.build()
}

/// What listing a note under one token comes to.
pub proof fn lemma_add_posting(
    index: IndexView,
    token: Seq<char>,
    posting: (Seq<char>, Seq<char>),
)
    requires
        lists_once(index),
    ensures
        lists_once(add_posting(index, token, posting)),
        forall|t: Seq<char>, q: (Seq<char>, Seq<char>)|
            #[trigger] postings_for(add_posting(index, token, posting), t).contains(q) <==> (
            postings_for(index, t).contains(q) || (t == token && q == posting)),
{
    let after = add_posting(index, token, posting);
    let old_list = postings_for(index, token);
    assert(old_list.no_duplicates());
    assert forall|t: Seq<char>| #[trigger] postings_for(after, t).no_duplicates() by {
        assert(postings_for(index, t).no_duplicates());
    }
    assert forall|t: Seq<char>, q: (Seq<char>, Seq<char>)|
        #[trigger] postings_for(after, t).contains(q) <==> (postings_for(index, t).contains(q) || (
        t == token && q == posting)) by {
        if t == token && !old_list.contains(posting) {
            let new_list = old_list.push(posting);
            assert(postings_for(after, t) == new_list);
            if old_list.contains(q) {
                let w = choose|i: int| 0 <= i < old_list.len() && old_list[i] == q;
                assert(new_list[w] == q);
            }
            if q == posting {
                assert(new_list[old_list.len() as int] == q);
            }
        }
    }
}

/// What listing a note under several tokens comes to.
pub proof fn lemma_add_tokens(
    index: IndexView,
    tokens: Seq<Seq<char>>,
    posting: (Seq<char>, Seq<char>),
)
    requires
        lists_once(index),
    ensures
        lists_once(add_tokens(index, tokens, posting)),
        forall|t: Seq<char>, q: (Seq<char>, Seq<char>)|
            #[trigger] postings_for(add_tokens(index, tokens, posting), t).contains(q) <==> (
            postings_for(index, t).contains(q) || (tokens.contains(t) && q == posting)),
    decreases tokens.len(),
{
    if tokens.len() > 0 {
        let head = tokens.drop_last();
        let mid = add_tokens(index, head, posting);
        let after = add_tokens(index, tokens, posting);
        lemma_add_tokens(index, head, posting);
        lemma_add_posting(mid, tokens.last(), posting);
        assert forall|t: Seq<char>, q: (Seq<char>, Seq<char>)|
            #[trigger] postings_for(after, t).contains(q) <==> (postings_for(index, t).contains(q)
                || (tokens.contains(t) && q == posting)) by {
            assert(postings_for(mid, t).contains(q) <==> (postings_for(index, t).contains(q) || (
            head.contains(t) && q == posting)));
            if head.contains(t) {
                let w = choose|i: int| 0 <= i < head.len() && head[i] == t;
                assert(tokens[w] == t);
            }
            if tokens.contains(t) {
                let w = choose|i: int| 0 <= i < tokens.len() && tokens[i] == t;
                if w < tokens.len() - 1 {
                    assert(head[w] == t);
                }
            }
            if t == tokens.last() {
                assert(tokens[tokens.len() - 1] == t);
            }
        }
    }
}

/// What an index lists: a note stands under a token exactly when some record of
/// the corpus has that address and title and has the token among its tokens.
/// No token lists a note twice.
pub proof fn law_index_lists(corpus: Seq<RecordView>)
    ensures
        lists_once(index_of(corpus)),
        forall|t: Seq<char>, q: (Seq<char>, Seq<char>)|
            #[trigger] postings_for(index_of(corpus), t).contains(q) <==> exists|i: int|
                0 <= i < corpus.len() && q == ((#[trigger] corpus[i]).url, corpus[i].title)
                    && tokens_of(corpus[i]).contains(t),
    decreases corpus.len(),
{
    if corpus.len() == 0 {
        assert forall|t: Seq<char>| #[trigger]
            postings_for(index_of(corpus), t).no_duplicates() by {}
    } else {
        let head = corpus.drop_last();
        let record = corpus.last();
        let posting = (record.url, record.title);
        law_index_lists(head);
        lemma_add_tokens(index_of(head), tokens_of(record), posting);
        assert forall|t: Seq<char>, q: (Seq<char>, Seq<char>)|
            #[trigger] postings_for(index_of(corpus), t).contains(q) <==> exists|i: int|
                0 <= i < corpus.len() && q == ((#[trigger] corpus[i]).url, corpus[i].title)
                    && tokens_of(corpus[i]).contains(t) by {
            let holds = |i: int|
                0 <= i < corpus.len() && q == (corpus[i].url, corpus[i].title) && tokens_of(
                    corpus[i],
                ).contains(t);
            if postings_for(index_of(head), t).contains(q) {
                let w = choose|i: int|
                    0 <= i < head.len() && q == ((#[trigger] head[i]).url, head[i].title)
                        && tokens_of(head[i]).contains(t);
                assert(corpus[w] == head[w]);
                assert(holds(w));
            }
            if tokens_of(record).contains(t) && q == posting {
                assert(corpus[corpus.len() - 1] == record);
                assert(holds(corpus.len() - 1));
            }
            if exists|i: int|
                0 <= i < corpus.len() && q == ((#[trigger] corpus[i]).url, corpus[i].title)
                    && tokens_of(corpus[i]).contains(t) {
                let w = choose|i: int|
                    0 <= i < corpus.len() && q == ((#[trigger] corpus[i]).url, corpus[i].title)
                        && tokens_of(corpus[i]).contains(t);
                if w < corpus.len() - 1 {
                    assert(head[w] == corpus[w]);
                }
            }
        }
    }
}

} // verus!
