use notebook::index::{get_search_index, IndexBuilder, SearchData};
use notebook::search::{long_enough, outcome_of, SearchHit, SearchOutcome};
use notebook::text::{precedes, same_text, split};

fn record(title: &str, content: &str, id: &str, url: &str) -> SearchData {
    SearchData {
        title: title.to_string(),
        content: content.to_string(),
        id: id.to_string(),
        url: url.to_string(),
    }
}

fn cats_and_dogs() -> Vec<SearchData> {
    vec![
        record("Cats", "cats are great", "1", "/a"),
        record("Dogs", "cats and dogs", "2", "/b"),
    ]
}

fn results(outcome: SearchOutcome) -> Vec<(String, String, usize)> {
    match outcome {
        SearchOutcome::Results(hits) => {
            hits.into_iter().map(|hit| (hit.url, hit.title, hit.hits)).collect()
        }
        SearchOutcome::NoResults => panic!("no results"),
        SearchOutcome::QueryTooShort => panic!("query too short"),
    }
}

fn hit(url: &str, title: &str, hits: usize) -> (String, String, usize) {
    (url.to_string(), title.to_string(), hits)
}

#[test]
fn two_characters_are_too_short() {
    let index = get_search_index(&cats_and_dogs());
    assert!(matches!(index.query("ab"), SearchOutcome::QueryTooShort));
}

#[test]
fn three_characters_are_looked_up() {
    let index = get_search_index(&cats_and_dogs());
    assert!(matches!(index.query("abc"), SearchOutcome::NoResults));
    assert!(matches!(index.query("are"), SearchOutcome::Results(_)));
}

#[test]
fn the_query_is_trimmed_before_it_is_measured() {
    let index = get_search_index(&cats_and_dogs());
    assert!(matches!(index.query("  ab  "), SearchOutcome::QueryTooShort));
    assert!(matches!(index.query("\t\n a \r\n"), SearchOutcome::QueryTooShort));
    assert!(matches!(index.query(""), SearchOutcome::QueryTooShort));
}

#[test]
fn white_space_of_every_kind_is_trimmed() {
    let index = get_search_index(&cats_and_dogs());
    let spaces = [
        '\u{9}', '\u{a}', '\u{b}', '\u{c}', '\u{d}', '\u{20}', '\u{85}', '\u{a0}', '\u{1680}',
        '\u{2000}', '\u{2001}', '\u{2002}', '\u{2003}', '\u{2004}', '\u{2005}', '\u{2006}',
        '\u{2007}', '\u{2008}', '\u{2009}', '\u{200a}', '\u{2028}', '\u{2029}', '\u{202f}',
        '\u{205f}', '\u{3000}',
    ];
    assert_eq!(spaces.len(), 25);
    for space in spaces {
        let query = format!("{}{}ab{}", space, space, space);
        assert!(matches!(index.query(&query), SearchOutcome::QueryTooShort));
    }
    // Neighbours of the white space characters are kept.
    for kept in ['\u{8}', '\u{e}', '\u{1f}', '\u{200b}', '\u{180e}', '\u{feff}'] {
        let query = format!("{}ab", kept);
        assert!(matches!(index.query(&query), SearchOutcome::NoResults));
    }
}

#[test]
fn the_length_is_counted_in_characters() {
    let index = get_search_index(&vec![record("\u{e9}t", "x", "1", "/e")]);
    assert!(matches!(index.query("\u{e9}t"), SearchOutcome::QueryTooShort));
    assert!(matches!(index.query("\u{e9}t\u{e9}"), SearchOutcome::NoResults));
}

#[test]
fn cats_finds_both_notes_with_one_hit_each() {
    let index = get_search_index(&cats_and_dogs());
    assert_eq!(results(index.query("cats")), vec![hit("/a", "Cats", 1), hit("/b", "Dogs", 1)]);
}

#[test]
fn more_hits_rank_first() {
    let index = get_search_index(&cats_and_dogs());
    assert_eq!(
        results(index.query("cats dogs")),
        vec![hit("/b", "Dogs", 2), hit("/a", "Cats", 1)]
    );
}

#[test]
fn equal_counts_are_ordered_by_address() {
    let corpus = vec![
        record("Zed", "owl", "1", "/z"),
        record("Bee", "owl", "2", "/b"),
        record("Emu", "owl", "3", "/e"),
    ];
    let index = get_search_index(&corpus);
    assert_eq!(
        results(index.query("owl")),
        vec![hit("/b", "Bee", 1), hit("/e", "Emu", 1), hit("/z", "Zed", 1)]
    );
}

#[test]
fn a_repeated_sub_term_counts_again() {
    let index = get_search_index(&cats_and_dogs());
    assert_eq!(
        results(index.query("cats cats")),
        vec![hit("/a", "Cats", 2), hit("/b", "Dogs", 2)]
    );
}

#[test]
fn a_token_repeated_in_a_note_is_listed_once() {
    let index = get_search_index(&vec![record("Owl", "owl owl owl", "1", "/o")]);
    assert_eq!(results(index.query("owl")), vec![hit("/o", "Owl", 1)]);
}

#[test]
fn tokens_and_sub_terms_are_compared_in_lower_case() {
    let index = get_search_index(&cats_and_dogs());
    assert_eq!(results(index.query("CATS")), vec![hit("/a", "Cats", 1), hit("/b", "Dogs", 1)]);
    assert_eq!(results(index.query("Great")), vec![hit("/a", "Cats", 1)]);
    let shouting = get_search_index(&vec![record("LOUD", "NOISE", "1", "/l")]);
    assert_eq!(results(shouting.query("noise")), vec![hit("/l", "LOUD", 1)]);
    assert_eq!(results(shouting.query("loud")), vec![hit("/l", "LOUD", 1)]);
}

#[test]
fn punctuation_stays_part_of_a_token() {
    let index = get_search_index(&vec![record("Note", "cats, dogs.", "1", "/n")]);
    assert!(matches!(index.query("cats"), SearchOutcome::NoResults));
    assert_eq!(results(index.query("cats,")), vec![hit("/n", "Note", 1)]);
}

#[test]
fn an_unknown_term_gives_no_results() {
    let index = get_search_index(&cats_and_dogs());
    assert!(matches!(index.query("zebra"), SearchOutcome::NoResults));
}

#[test]
fn an_empty_corpus_gives_an_empty_index() {
    let index = get_search_index(&Vec::new());
    assert!(matches!(index.query("cats"), SearchOutcome::NoResults));
}

#[test]
fn the_first_title_found_for_an_address_is_kept() {
    let corpus = vec![record("First", "owl", "1", "/o"), record("Second", "owl", "2", "/o")];
    let index = get_search_index(&corpus);
    assert_eq!(results(index.query("owl")), vec![hit("/o", "First", 2)]);
}

#[test]
fn tally_counts_in_order_of_first_finding() {
    let index = get_search_index(&cats_and_dogs());
    let tally = index.tally(&vec!["dogs".to_string(), "cats".to_string()]);
    let seen: Vec<(String, String, usize)> =
        tally.into_iter().map(|h| (h.url, h.title, h.hits)).collect();
    assert_eq!(seen, vec![hit("/b", "Dogs", 2), hit("/a", "Cats", 1)]);
}

#[test]
fn tally_looks_sub_terms_up_as_they_are() {
    let index = get_search_index(&cats_and_dogs());
    assert!(index.tally(&vec!["CATS".to_string()]).is_empty());
}

#[test]
fn an_empty_tally_is_reported_as_no_results() {
    assert!(matches!(outcome_of(&Vec::new()), SearchOutcome::NoResults));
}

#[test]
fn a_tally_is_put_into_ranking_order() {
    let tally = vec![
        SearchHit { url: "/c".to_string(), title: "C".to_string(), hits: 1 },
        SearchHit { url: "/a".to_string(), title: "A".to_string(), hits: 1 },
        SearchHit { url: "/b".to_string(), title: "B".to_string(), hits: 3 },
    ];
    assert_eq!(
        results(outcome_of(&tally)),
        vec![hit("/b", "B", 3), hit("/a", "A", 1), hit("/c", "C", 1)]
    );
}

#[test]
fn split_keeps_empty_pieces() {
    assert_eq!(split("", ' '), vec![""]);
    assert_eq!(split("a b", ' '), vec!["a", "b"]);
    assert_eq!(split("a  b", ' '), vec!["a", "", "b"]);
    assert_eq!(split(" a ", ' '), vec!["", "a", ""]);
    assert_eq!(split("caf\u{e9} au lait", ' '), vec!["caf\u{e9}", "au", "lait"]);
}

#[test]
fn precedes_is_the_lexicographic_order() {
    assert!(precedes("/a", "/b"));
    assert!(!precedes("/b", "/a"));
    assert!(!precedes("/a", "/a"));
    assert!(precedes("/a", "/aa"));
    assert!(!precedes("/aa", "/a"));
    assert!(precedes("", "a"));
    assert!(!precedes("", ""));
    assert!(precedes("Z", "a"));
    assert!(precedes("z", "\u{e9}"));
}

#[test]
fn same_text_compares_character_by_character() {
    assert!(same_text("page-0", "page-0"));
    assert!(!same_text("page-0", "page-1"));
    assert!(!same_text("page", "page-0"));
    assert!(!same_text("page-0", "page"));
    assert!(same_text("", ""));
}

#[test]
fn a_query_needs_three_characters_once_trimmed() {
    assert!(!long_enough(""));
    assert!(!long_enough("ab"));
    assert!(long_enough("abc"));
    assert!(long_enough("abcd"));
    assert!(!long_enough("\u{e9}\u{e9}"));
    assert!(long_enough("\u{e9}\u{e9}\u{e9}"));
}

#[test]
fn a_builder_lists_each_note_once_under_a_token() {
    let mut builder = IndexBuilder::new();
    let (a, b) = ("/a".to_string(), "/b".to_string());
    let (first, second) = ("A".to_string(), "B".to_string());
    builder.list("owl".to_string(), &a, &first);
    builder.list("owl".to_string(), &b, &second);
    builder.list("owl".to_string(), &a, &first);
    builder.list("Owl".to_string(), &a, &first);
    let index = builder.build();
    let owls: Vec<(String, String)> = index
        .postings("owl")
        .unwrap()
        .iter()
        .map(|posting| (posting.url.clone(), posting.title.clone()))
        .collect();
    assert_eq!(owls, vec![("/a".to_string(), "A".to_string()), ("/b".to_string(), "B".to_string())]);
    assert_eq!(index.postings("Owl").unwrap().len(), 1);
    assert!(index.postings("emu").is_none());
}

#[test]
fn the_index_lists_the_notes_in_the_order_of_the_corpus() {
    let index = get_search_index(&cats_and_dogs());
    let cats: Vec<String> =
        index.postings("cats").unwrap().iter().map(|posting| posting.url.clone()).collect();
    assert_eq!(cats, vec!["/a".to_string(), "/b".to_string()]);
    assert_eq!(index.postings("dogs").unwrap().len(), 1);
    assert!(index.postings("Cats").is_none());
}
