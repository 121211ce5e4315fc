use notebook::book::{Activation, Book, Completion, Step, HOME_ID, HOME_URL};
use notebook::page::{
    classify, is_failure_status, reason_or_default, FetchReply, Note, Page, PageError,
    FETCH_TIMEOUT_MILLIS,
};
use notebook::repository::PageRepository;
use notebook::index::SearchData;
use notebook::search::SearchOutcome;
use notebook::trail::NavigationStack;

fn note(title: &str) -> Note {
    Note { title: title.to_string(), content: format!("<p>{}</p>", title) }
}

fn arrived(title: &str) -> FetchReply {
    FetchReply::Response { status: 200, body: Ok(note(title)) }
}

fn status(code: u16) -> FetchReply {
    FetchReply::Response { status: code, body: Err("no body".to_string()) }
}

fn started() -> Book {
    let mut book = Book::new(&Vec::new());
    assert!(book.add_home_page());
    book
}

fn fetch_id(activation: &Activation) -> String {
    match &activation.step {
        Step::Fetch { id, .. } => id.clone(),
        _ => panic!("a fetch was expected"),
    }
}

/// Visits `url` from `origin` under `id` and lets the note arrive.
fn visit(book: &mut Book, url: &str, origin: &str, id: &str) {
    let activation = book.add_page_with_id(url.to_string(), origin, id.to_string());
    assert_eq!(fetch_id(&activation), id);
    assert!(matches!(book.finish_page(id, arrived(url)), Completion::Loaded(_)));
}

fn trail_of(items: &[&str]) -> Vec<String> {
    items.iter().map(|item| item.to_string()).collect()
}

/// The trail `[home, a, b, c]`.
fn four_pages() -> Book {
    let mut book = started();
    visit(&mut book, "/a", HOME_ID, "a");
    visit(&mut book, "/b", "a", "b");
    visit(&mut book, "/c", "b", "c");
    assert_eq!(book.trail(), trail_of(&[HOME_ID, "a", "b", "c"]));
    book
}

fn live(book: &Book, url: &str, id: &str) -> bool {
    let by_url = book.get_page(url).map(|page| page.id.clone());
    let by_id = book.get_page_by_id(id).map(|page| page.url.clone());
    assert_eq!(by_url.is_some(), by_id.is_some());
    if let (Some(found_id), Some(found_url)) = (&by_url, &by_id) {
        assert_eq!(found_id, id);
        assert_eq!(found_url, url);
    }
    by_url.is_some()
}

#[test]
fn a_new_book_is_empty() {
    let book = Book::new(&Vec::new());
    assert!(book.trail().is_empty());
    assert!(book.get_page(HOME_URL).is_none());
    assert!(book.get_page_by_id(HOME_ID).is_none());
}

#[test]
fn the_home_page_has_its_well_known_keys() {
    let book = started();
    assert_eq!(HOME_ID, "page-0");
    assert_eq!(HOME_URL, "/");
    assert_eq!(book.trail(), trail_of(&["page-0"]));
    assert!(live(&book, "/", "page-0"));
    assert!(book.get_page("/").unwrap().note.is_none());
}

#[test]
fn the_home_page_is_put_in_place_once() {
    let mut book = started();
    assert!(!book.add_home_page());
    assert_eq!(book.trail(), trail_of(&[HOME_ID]));
    assert!(live(&book, HOME_URL, HOME_ID));
    visit(&mut book, "/a", HOME_ID, "a");
    assert!(!book.add_home_page());
    assert_eq!(book.trail(), trail_of(&[HOME_ID, "a"]));
}

#[test]
fn a_navigation_registers_a_shell_and_asks_for_a_fetch() {
    let mut book = started();
    let activation = book.add_page_with_id("/a".to_string(), HOME_ID, "a".to_string());
    assert!(activation.evicted.is_empty());
    match activation.step {
        Step::Fetch { id, url } => {
            assert_eq!(id, "a");
            assert_eq!(url, "/a");
        }
        _ => panic!("a fetch was expected"),
    }
    assert!(live(&book, "/a", "a"));
    assert!(book.get_page("/a").unwrap().note.is_none());
    assert!(!book.on_trail("a"));
    assert_eq!(book.trail(), trail_of(&[HOME_ID]));
}

#[test]
fn a_note_that_arrives_fills_the_page_and_tops_the_trail() {
    let mut book = started();
    book.add_page_with_id("/a".to_string(), HOME_ID, "a".to_string());
    match book.finish_page("a", arrived("A")) {
        Completion::Loaded(page) => {
            assert_eq!(page.id, "a");
            assert_eq!(page.url, "/a");
            assert_eq!(page.note.unwrap().title, "A");
        }
        _ => panic!("the page should have loaded"),
    }
    assert_eq!(book.trail(), trail_of(&[HOME_ID, "a"]));
    assert!(live(&book, "/a", "a"));
    let stored = book.get_page("/a").unwrap().note.as_ref().unwrap();
    assert_eq!(stored.title, "A");
    assert_eq!(stored.content, "<p>A</p>");
    assert_eq!(book.get_page_by_id("a").unwrap().note.as_ref().unwrap().title, "A");
}

#[test]
fn two_requests_for_one_address_make_one_fetch() {
    let mut book = started();
    let first = book.add_page_with_id("/a".to_string(), HOME_ID, "a".to_string());
    assert_eq!(fetch_id(&first), "a");
    let second = book.add_page_with_id("/a".to_string(), HOME_ID, "other".to_string());
    match second.step {
        Step::Await(id) => assert_eq!(id, "a"),
        _ => panic!("the second request should wait for the first"),
    }
    assert!(book.get_page_by_id("other").is_none());
    assert!(matches!(book.finish_page("a", arrived("A")), Completion::Loaded(_)));
    let third = book.add_page_with_id("/a".to_string(), "a", "third".to_string());
    match third.step {
        Step::Show(page) => assert_eq!(page.id, "a"),
        _ => panic!("the page should be shown"),
    }
    assert_eq!(book.trail(), trail_of(&[HOME_ID, "a"]));
}

#[test]
fn truncation_evicts_what_was_visited_after_the_origin() {
    let mut book = four_pages();
    let evicted = book.remove_pages_right_of("a");
    let gone: Vec<String> = evicted.iter().map(|page| page.id.clone()).collect();
    assert_eq!(gone, trail_of(&["b", "c"]));
    assert_eq!(book.trail(), trail_of(&[HOME_ID, "a"]));
    assert!(!live(&book, "/b", "b"));
    assert!(!live(&book, "/c", "c"));
    assert!(live(&book, "/a", "a"));
    assert!(live(&book, HOME_URL, HOME_ID));
}

#[test]
fn truncation_behind_the_top_changes_nothing() {
    let mut book = four_pages();
    assert!(book.remove_pages_right_of("c").is_empty());
    assert_eq!(book.trail(), trail_of(&[HOME_ID, "a", "b", "c"]));
    assert!(live(&book, "/c", "c"));
}

#[test]
fn truncation_behind_the_home_page_on_top_changes_nothing() {
    let mut book = started();
    assert!(book.remove_pages_right_of(HOME_ID).is_empty());
    assert_eq!(book.trail(), trail_of(&[HOME_ID]));
    assert!(live(&book, HOME_URL, HOME_ID));
}

#[test]
fn truncation_behind_the_home_page_keeps_the_home_page() {
    let mut book = four_pages();
    let evicted = book.remove_pages_right_of(HOME_ID);
    let gone: Vec<String> = evicted.iter().map(|page| page.id.clone()).collect();
    assert_eq!(gone, trail_of(&["a", "b", "c"]));
    assert_eq!(book.trail(), trail_of(&[HOME_ID]));
    assert!(live(&book, HOME_URL, HOME_ID));
}

#[test]
fn a_navigation_from_the_middle_abandons_the_branch() {
    let mut book = four_pages();
    let activation = book.add_page_with_id("/d".to_string(), "a", "d".to_string());
    let gone: Vec<String> = activation.evicted.iter().map(|page| page.url.clone()).collect();
    assert_eq!(gone, trail_of(&["/b", "/c"]));
    assert_eq!(fetch_id(&activation), "d");
    assert!(matches!(book.finish_page("d", arrived("D")), Completion::Loaded(_)));
    assert_eq!(book.trail(), trail_of(&[HOME_ID, "a", "d"]));
    assert!(!live(&book, "/b", "b"));
}

#[test]
fn a_page_that_was_evicted_is_fetched_again() {
    let mut book = four_pages();
    let activation = book.add_page_with_id("/c".to_string(), "a", "again".to_string());
    match activation.step {
        Step::Fetch { id, url } => {
            assert_eq!(id, "again");
            assert_eq!(url, "/c");
        }
        _ => panic!("a fetch was expected"),
    }
}

#[test]
fn a_failed_navigation_still_abandons_the_branch() {
    let mut book = four_pages();
    book.add_page_with_id("/d".to_string(), "a", "d".to_string());
    assert!(matches!(book.finish_page("d", status(500)), Completion::Failed(_)));
    assert_eq!(book.trail(), trail_of(&[HOME_ID, "a"]));
    assert!(!live(&book, "/d", "d"));
    assert!(!live(&book, "/b", "b"));
    assert!(!live(&book, "/c", "c"));
}

#[test]
fn a_404_leaves_no_shell_and_the_next_request_fetches_again() {
    let mut book = started();
    book.add_page_with_id("/missing".to_string(), HOME_ID, "m".to_string());
    match book.finish_page("m", status(404)) {
        Completion::Failed(PageError::NotFound { reason }) => assert_eq!(reason, "Not Found"),
        _ => panic!("the fetch should have failed as not found"),
    }
    assert!(book.get_page("/missing").is_none());
    assert!(book.get_page_by_id("m").is_none());
    assert_eq!(book.trail(), trail_of(&[HOME_ID]));
    let retry = book.add_page_with_id("/missing".to_string(), HOME_ID, "m2".to_string());
    assert_eq!(fetch_id(&retry), "m2");
}

#[test]
fn a_transport_failure_leaves_no_shell() {
    let mut book = started();
    book.add_page_with_id("/a".to_string(), HOME_ID, "a".to_string());
    let reply = FetchReply::Transport { message: "connection refused".to_string() };
    match book.finish_page("a", reply) {
        Completion::Failed(PageError::TransportError { message }) => {
            assert_eq!(message, "connection refused")
        }
        _ => panic!("the fetch should have failed in transport"),
    }
    assert!(!live(&book, "/a", "a"));
}

#[test]
fn a_body_that_is_no_note_leaves_no_shell() {
    let mut book = started();
    book.add_page_with_id("/a".to_string(), HOME_ID, "a".to_string());
    let reply = FetchReply::Response { status: 200, body: Err("missing field".to_string()) };
    match book.finish_page("a", reply) {
        Completion::Failed(PageError::DecodeError { message }) => {
            assert_eq!(message, "missing field")
        }
        _ => panic!("the fetch should have failed in decoding"),
    }
    assert!(!live(&book, "/a", "a"));
}

#[test]
fn a_report_without_a_shell_is_stale() {
    let mut book = four_pages();
    assert!(matches!(book.finish_page("nobody", arrived("X")), Completion::Stale));
    assert!(matches!(book.finish_page("a", arrived("X")), Completion::Stale));
    assert!(matches!(book.finish_page(HOME_ID, status(404)), Completion::Stale));
    assert_eq!(book.trail(), trail_of(&[HOME_ID, "a", "b", "c"]));
    assert_eq!(book.get_page("/a").unwrap().note.as_ref().unwrap().title, "/a");
    assert!(live(&book, HOME_URL, HOME_ID));
}

#[test]
fn an_identifier_in_use_registers_nothing() {
    let mut book = four_pages();
    let activation = book.add_page_with_id("/d".to_string(), "c", "a".to_string());
    assert!(matches!(activation.step, Step::IdInUse));
    assert!(book.get_page("/d").is_none());
    assert_eq!(book.get_page_by_id("a").unwrap().url, "/a");
    assert_eq!(book.trail(), trail_of(&[HOME_ID, "a", "b", "c"]));
}

#[test]
fn removing_a_page_takes_it_out_of_both_indices_and_the_trail() {
    let mut book = four_pages();
    let removed = book.remove_page("b").unwrap();
    assert_eq!(removed.url, "/b");
    assert!(!live(&book, "/b", "b"));
    assert_eq!(book.trail(), trail_of(&[HOME_ID, "a", "c"]));
    assert!(book.remove_page("b").is_none());
    assert_eq!(book.trail(), trail_of(&[HOME_ID, "a", "c"]));
}

#[test]
fn the_home_page_is_never_removed() {
    let mut book = four_pages();
    assert!(book.remove_page(HOME_ID).is_none());
    assert!(live(&book, HOME_URL, HOME_ID));
    assert_eq!(book.trail(), trail_of(&[HOME_ID, "a", "b", "c"]));
}

#[test]
fn removing_a_shell_makes_its_report_stale() {
    let mut book = started();
    book.add_page_with_id("/a".to_string(), HOME_ID, "a".to_string());
    assert!(book.remove_page("a").is_some());
    assert!(matches!(book.finish_page("a", arrived("A")), Completion::Stale));
    assert!(!live(&book, "/a", "a"));
}

#[test]
fn fresh_identifiers_are_hyphenated_and_differ() {
    let mut book = started();
    let first = fetch_id(&book.add_page("/a".to_string(), HOME_ID));
    let second = fetch_id(&book.add_page("/b".to_string(), HOME_ID));
    assert_ne!(first, second);
    assert_ne!(first, HOME_ID);
    assert_eq!(first.chars().count(), 36);
    assert_eq!(second.chars().count(), 36);
    assert_eq!(first.len(), 36);
    assert_eq!(first.matches('-').count(), 4);
    assert!(live(&book, "/a", &first));
    assert!(live(&book, "/b", &second));
}

#[test]
fn activate_resolves_the_target_first() {
    let mut book = started();
    let activation = book.activate(&"/notes/a".to_string(), HOME_ID, "https://example.org");
    match activation.step {
        Step::Fetch { url, .. } => assert_eq!(url, "https://example.org/notes/a"),
        _ => panic!("a fetch was expected"),
    }
    assert!(book.get_page("https://example.org/notes/a").is_some());
}

#[test]
fn the_book_answers_queries_on_its_corpus() {
    let corpus = vec![SearchData {
        title: "Owls".to_string(),
        content: "night birds".to_string(),
        id: "1".to_string(),
        url: "/owls".to_string(),
    }];
    let book = Book::new(&corpus);
    assert!(matches!(book.search("ow"), SearchOutcome::QueryTooShort));
    assert!(matches!(book.search("cats"), SearchOutcome::NoResults));
    match book.search("birds owls") {
        SearchOutcome::Results(hits) => {
            assert_eq!(hits.len(), 1);
            assert_eq!(hits[0].url, "/owls");
            assert_eq!(hits[0].title, "Owls");
            assert_eq!(hits[0].hits, 2);
        }
        _ => panic!("results were expected"),
    }
    assert!(matches!(book.show_search_results(&Vec::new()), SearchOutcome::NoResults));
}

#[test]
fn every_status_but_200_to_299_is_a_failure() {
    assert!(!is_failure_status(200));
    assert!(!is_failure_status(204));
    assert!(!is_failure_status(299));
    assert!(is_failure_status(0));
    assert!(is_failure_status(101));
    assert!(is_failure_status(199));
    assert!(is_failure_status(300));
    assert!(is_failure_status(301));
    assert!(is_failure_status(304));
    assert!(is_failure_status(400));
    assert!(is_failure_status(404));
    assert!(is_failure_status(500));
    assert!(is_failure_status(599));
    assert!(is_failure_status(600));
    assert!(is_failure_status(u16::MAX));
}

#[test]
fn a_redirect_with_a_note_in_its_body_is_not_found() {
    let reply = FetchReply::Response { status: 301, body: Ok(note("A")) };
    match classify(reply) {
        Err(PageError::NotFound { reason }) => assert_eq!(reason, "Moved Permanently"),
        _ => panic!("not found was expected"),
    }
    match classify(FetchReply::Response { status: 101, body: Ok(note("A")) }) {
        Err(PageError::NotFound { reason }) => assert_eq!(reason, "Switching Protocols"),
        _ => panic!("not found was expected"),
    }
}

#[test]
fn a_number_that_is_no_status_code_is_reported_as_note_not_found() {
    for code in [0, 99, 1000, u16::MAX] {
        match classify(status(code)) {
            Err(PageError::NotFound { reason }) => assert_eq!(reason, "Note not found"),
            _ => panic!("not found was expected"),
        }
    }
    match classify(status(600)) {
        Err(PageError::NotFound { reason }) => assert_eq!(reason, "Note not found"),
        _ => panic!("not found was expected"),
    }
}

#[test]
fn a_success_status_is_never_not_found() {
    for code in [200, 201, 204, 299] {
        assert!(classify(FetchReply::Response { status: code, body: Ok(note("A")) }).is_ok());
        let broken = FetchReply::Response { status: code, body: Err("bad".to_string()) };
        assert!(matches!(classify(broken), Err(PageError::DecodeError { .. })));
    }
}

#[test]
fn a_fetch_that_timed_out_fails_in_transport_and_leaves_no_shell() {
    assert_eq!(FETCH_TIMEOUT_MILLIS, 10000);
    let mut book = started();
    book.add_page_with_id("/slow".to_string(), HOME_ID, "s".to_string());
    match book.finish_page("s", FetchReply::TimedOut) {
        Completion::Failed(PageError::TransportError { message }) => {
            assert_eq!(message, "The request timed out")
        }
        _ => panic!("the fetch should have failed in transport"),
    }
    assert!(!live(&book, "/slow", "s"));
    assert_eq!(book.trail(), trail_of(&[HOME_ID]));
}

#[test]
fn a_redirect_leaves_no_shell() {
    let mut book = started();
    book.add_page_with_id("/moved".to_string(), HOME_ID, "m".to_string());
    let reply = FetchReply::Response { status: 302, body: Ok(note("Moved")) };
    assert!(matches!(
        book.finish_page("m", reply),
        Completion::Failed(PageError::NotFound { .. })
    ));
    assert!(!live(&book, "/moved", "m"));
}

#[test]
fn a_failure_status_is_reported_with_its_canonical_reason() {
    match classify(status(503)) {
        Err(PageError::NotFound { reason }) => assert_eq!(reason, "Service Unavailable"),
        _ => panic!("not found was expected"),
    }
    match classify(status(418)) {
        Err(PageError::NotFound { reason }) => assert_eq!(reason, "I'm a teapot"),
        _ => panic!("not found was expected"),
    }
}

#[test]
fn a_failure_status_without_a_reason_is_reported_as_note_not_found() {
    match classify(status(499)) {
        Err(PageError::NotFound { reason }) => assert_eq!(reason, "Note not found"),
        _ => panic!("not found was expected"),
    }
    assert_eq!(reason_or_default(None), "Note not found");
    assert_eq!(reason_or_default(Some("Gone".to_string())), "Gone");
}

#[test]
fn a_failure_status_wins_over_the_body() {
    let reply = FetchReply::Response { status: 404, body: Ok(note("A")) };
    assert!(matches!(classify(reply), Err(PageError::NotFound { .. })));
}

#[test]
fn init_fills_the_page_on_success_only() {
    let mut page = Page::shell("/a".to_string(), "a".to_string());
    assert!(page.init(status(404)).is_err());
    assert!(page.note.is_none());
    assert!(page.init(arrived("A")).is_ok());
    assert_eq!(page.note.as_ref().unwrap().title, "A");
    assert_eq!(page.url, "/a");
    assert_eq!(page.id, "a");
}

#[test]
fn the_repository_keeps_both_indices_together() {
    let mut pages = PageRepository::new();
    assert!(pages.insert_page(Page::shell("/a".to_string(), "a".to_string())));
    assert!(!pages.insert_page(Page::shell("/a".to_string(), "b".to_string())));
    assert!(!pages.insert_page(Page::shell("/b".to_string(), "a".to_string())));
    assert!(pages.get("/b").is_none());
    assert!(pages.get_by_id("b").is_none());
    assert_eq!(pages.get("/a").unwrap().id, "a");
    assert_eq!(pages.get_by_id("a").unwrap().url, "/a");
    assert!(pages.set_note("a", note("A")));
    assert!(!pages.set_note("b", note("B")));
    assert_eq!(pages.get("/a").unwrap().note.as_ref().unwrap().title, "A");
    assert_eq!(pages.get_by_id("a").unwrap().note.as_ref().unwrap().title, "A");
    assert_eq!(pages.remove("a").unwrap().url, "/a");
    assert!(pages.remove("a").is_none());
    assert!(pages.get("/a").is_none());
    assert!(pages.get_by_id("a").is_none());
}

#[test]
fn the_trail_is_cut_behind_the_first_occurrence() {
    let mut trail = NavigationStack::new();
    for id in ["h", "a", "b", "c"] {
        trail.append(id.to_string());
    }
    assert_eq!(trail.len(), 4);
    assert_eq!(trail.position_of("b"), Some(2));
    assert_eq!(trail.position_of("x"), None);
    assert_eq!(trail.get(1), "a");
    assert_eq!(trail.truncate_after("a"), trail_of(&["b", "c"]));
    assert_eq!(trail.len(), 2);
    assert!(trail.truncate_after("a").is_empty());
    assert!(trail.remove("h"));
    assert!(!trail.remove("h"));
    assert_eq!(trail.position_of("a"), Some(0));
}
