use notebook::book::{Book, Completion, HOME_ID};
use notebook::links::{route, Routing};
use notebook::page::{FetchReply, Note, Page};
use notebook::utils::{
    after_first_parse, after_second_parse, get_origin, locate, parse_url, same_document,
    same_origin, FirstStep, Link, ParseFailure, Resolution,
};

const ORIGIN: &str = "https://example.org";

fn resolved(raw: &str) -> Link {
    match parse_url(&raw.to_string(), ORIGIN) {
        Resolution::Resolved(link) => link,
        Resolution::Unresolved(_) => panic!("the target should resolve"),
    }
}

#[test]
fn an_absolute_target_is_its_own_resolution() {
    let link = resolved("https://example.org/notes/a");
    assert_eq!(link.href, "https://example.org/notes/a");
    assert_eq!(link.document, "https://example.org/notes/a");
    assert_eq!(link.scheme, "https");
    assert_eq!(link.host, Some("example.org".to_string()));
    assert_eq!(link.port, None);
    assert_eq!(link.fragment, None);
}

#[test]
fn an_address_is_brought_into_canonical_form() {
    assert_eq!(resolved("HTTPS://Example.ORG").href, "https://example.org/");
    assert_eq!(resolved("https://example.org:443/a").port, None);
    assert_eq!(resolved("https://example.org:8443/a").port, Some(8443));
}

#[test]
fn a_relative_target_is_prefixed_with_the_origin() {
    let link = resolved("/notes/a");
    assert_eq!(link.href, "https://example.org/notes/a");
    assert_eq!(link.host, Some("example.org".to_string()));
}

#[test]
fn a_fragment_is_kept() {
    assert_eq!(resolved("/notes/a#fn1").fragment, Some("fn1".to_string()));
    assert_eq!(resolved("https://example.org/a#top").fragment, Some("top".to_string()));
    assert_eq!(resolved("/notes/a").fragment, None);
}

#[test]
fn a_malformed_target_is_handed_back_unresolved() {
    match parse_url(&"https://exa mple.org/".to_string(), ORIGIN) {
        Resolution::Unresolved(raw) => assert_eq!(raw, "https://exa mple.org/"),
        Resolution::Resolved(_) => panic!("the target should not resolve"),
    }
}

#[test]
fn a_second_failure_ends_the_resolution() {
    let target = parse_url(&"/notes/a".to_string(), "not an origin");
    match &target {
        Resolution::Unresolved(raw) => assert_eq!(raw, "/notes/a"),
        Resolution::Resolved(_) => panic!("the target should not resolve"),
    }
    assert_eq!(target.href(), "/notes/a");
}

#[test]
fn the_first_parse_decides_whether_to_retry() {
    let raw = "/a".to_string();
    match after_first_parse(&raw, ORIGIN, Err(ParseFailure::RelativeWithoutBase)) {
        FirstStep::Retry(prefixed) => assert_eq!(prefixed, "https://example.org/a"),
        FirstStep::Done(_) => panic!("a retry was expected"),
    }
    match after_first_parse(&raw, ORIGIN, Err(ParseFailure::Malformed)) {
        FirstStep::Done(Resolution::Unresolved(given)) => assert_eq!(given, "/a"),
        _ => panic!("the target should be handed back"),
    }
    match after_first_parse(&raw, ORIGIN, Ok(resolved("/b"))) {
        FirstStep::Done(Resolution::Resolved(link)) => {
            assert_eq!(link.href, "https://example.org/b")
        }
        _ => panic!("the link should be handed on"),
    }
}

#[test]
fn the_second_parse_is_the_last() {
    let raw = "/a".to_string();
    for failure in [ParseFailure::RelativeWithoutBase, ParseFailure::Malformed] {
        match after_second_parse(&raw, Err(failure)) {
            Resolution::Unresolved(given) => assert_eq!(given, "/a"),
            Resolution::Resolved(_) => panic!("the target should be handed back"),
        }
    }
    match after_second_parse(&raw, Ok(resolved("/b"))) {
        Resolution::Resolved(link) => assert_eq!(link.href, "https://example.org/b"),
        Resolution::Unresolved(_) => panic!("the link should be handed on"),
    }
}

#[test]
fn origins_are_compared_by_scheme_host_and_port() {
    let here = resolved("https://example.org/");
    assert!(same_origin(&here, &resolved("https://example.org/notes/a#x")));
    assert!(same_origin(&here, &resolved("https://example.org:443/")));
    assert!(!same_origin(&here, &resolved("http://example.org/")));
    assert!(!same_origin(&here, &resolved("https://example.com/")));
    assert!(!same_origin(&here, &resolved("https://example.org:8443/")));
    assert!(!same_origin(&here, &resolved("mailto:someone@example.org")));
}

#[test]
fn the_origin_of_a_link_is_its_scheme_host_and_port() {
    let origin = get_origin(&resolved("https://example.org:8443/notes/a?x=1#y"));
    assert_eq!(origin.scheme, "https");
    assert_eq!(origin.host, Some("example.org".to_string()));
    assert_eq!(origin.port, Some(8443));
}

#[test]
fn the_document_is_located_where_its_origin_parses() {
    assert_eq!(locate(ORIGIN).unwrap().href, "https://example.org/");
    assert!(locate("null").is_none());
}

#[test]
fn the_document_of_a_link_is_its_address_without_the_fragment() {
    assert_eq!(resolved("/notes/a#fn1").document, "https://example.org/notes/a");
    assert_eq!(resolved("/notes/a?x=1#fn1").document, "https://example.org/notes/a?x=1");
    assert_eq!(resolved("/notes/a").document, "https://example.org/notes/a");
    assert_eq!(resolved("#top").document, "https://example.org/");
    assert!(same_document(&resolved("/notes/a#one"), &resolved("/notes/a#two")));
    assert!(same_document(&resolved("/notes/a#one"), &resolved("/notes/a")));
    assert!(!same_document(&resolved("/notes/a#one"), &resolved("/notes/b#one")));
    assert!(!same_document(&resolved("/notes/a"), &resolved("/notes/a?x=1")));
}

#[test]
fn routing_follows_origins_and_the_current_document() {
    let here = locate("https://example.org/");
    let inside = Resolution::Resolved(resolved("/notes/a"));
    let footnote = Resolution::Resolved(resolved("#fn1"));
    let elsewhere = Resolution::Resolved(resolved("/notes/a#fn1"));
    let outside = Resolution::Resolved(resolved("https://elsewhere.net/x"));
    let outside_fragment = Resolution::Resolved(resolved("https://elsewhere.net/#fn1"));
    let broken = Resolution::Unresolved("https://exa mple.org/".to_string());
    assert_eq!(route(&inside, &here), Routing::InApp);
    assert_eq!(route(&footnote, &here), Routing::Fragment);
    assert_eq!(route(&elsewhere, &here), Routing::InApp);
    assert_eq!(route(&outside, &here), Routing::External);
    assert_eq!(route(&outside_fragment, &here), Routing::External);
    assert_eq!(route(&broken, &here), Routing::External);
    assert_eq!(route(&inside, &None), Routing::External);
    assert_eq!(route(&footnote, &None), Routing::External);
}

#[test]
fn a_fragment_is_skipped_only_in_the_current_document() {
    let note = locate("https://example.org/notes/a#intro");
    let same = Resolution::Resolved(resolved("/notes/a#fn1"));
    let other = Resolution::Resolved(resolved("/notes/b#fn1"));
    let whole = Resolution::Resolved(resolved("/notes/a"));
    let root = Resolution::Resolved(resolved("#fn1"));
    assert_eq!(route(&same, &note), Routing::Fragment);
    assert_eq!(route(&other, &note), Routing::InApp);
    assert_eq!(route(&whole, &note), Routing::InApp);
    assert_eq!(route(&root, &note), Routing::InApp);
}

#[test]
fn the_links_of_a_page_are_planned_in_order() {
    let mut book = Book::new(&Vec::new());
    book.add_home_page();
    let visited = "https://example.org/notes/seen".to_string();
    book.add_page_with_id(visited.clone(), HOME_ID, "seen".to_string());
    let note = Note { title: "Seen".to_string(), content: String::new() };
    let reply = FetchReply::Response { status: 200, body: Ok(note) };
    assert!(matches!(book.finish_page("seen", reply), Completion::Loaded(_)));

    let page = Page::shell("/".to_string(), HOME_ID.to_string());
    let hrefs = vec![
        "/notes/seen".to_string(),
        "/notes/new".to_string(),
        "#fn1".to_string(),
        "https://elsewhere.net/x".to_string(),
        "/notes/new#section".to_string(),
    ];
    let plans = page.setup_links(&book, &hrefs, ORIGIN, "https://example.org/");
    assert_eq!(plans.len(), 5);
    assert_eq!(plans[0].target.href(), "https://example.org/notes/seen");
    assert!(plans[0].visited);
    assert_eq!(plans[0].routing, Routing::InApp);
    assert_eq!(plans[1].target.href(), "https://example.org/notes/new");
    assert!(!plans[1].visited);
    assert_eq!(plans[1].routing, Routing::InApp);
    assert_eq!(plans[2].target.href(), "https://example.org/#fn1");
    assert_eq!(plans[2].routing, Routing::Fragment);
    assert!(!plans[3].visited);
    assert_eq!(plans[3].routing, Routing::External);
    assert_eq!(plans[4].target.href(), "https://example.org/notes/new#section");
    assert_eq!(plans[4].routing, Routing::InApp);
}
