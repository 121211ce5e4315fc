//! The decoration of the links of a page: which are marked as visited, which
//! leave the book, which are skipped and which navigate within it.

use crate::book::{Book, BookView};
use crate::page::Page;
use crate::utils::{
    locate, parse_url, parsed, resolution_of, same_document, same_origin, shares_document,
    shares_origin, Link, LinkView, Resolution, ResolutionView,
};
use vstd::prelude::*;
use vstd::string::*;

verus! {

/// Where a link leads when it is activated.
#[derive(Clone, Copy, PartialEq, Eq, Structural, Debug)]
pub enum Routing {
    /// Out of the book: the link opens in a new tab and is not bound.
    External,
    /// To a fragment of the current document: the link is left to the browser
    /// and is not bound.
    Fragment,
    /// To a note of the book: the link is bound to the navigation.
    InApp,
}

/// What is to be done with one link of a page.
pub struct LinkPlan {
    /// The target of the link, resolved.
    pub target: Resolution,
    /// Whether the book holds a live page for the target.
    pub visited: bool,
    pub routing: Routing,
}

/// The routing of a link in the document at `here`. A link whose origin differs
/// from the document's is external; so is one whose target could not be
/// resolved, and every link where the document's own address is unknown. Of
/// the others, a link into the current document, to one of its fragments, is
/// skipped: its address has a fragment and is the document's address up to
/// that fragment. All the rest navigate within the book, also a link to a
/// fragment of another note.
pub open spec fn routing_of(target: ResolutionView, here: Option<LinkView>) -> Routing {
    match (target, here) {
        (ResolutionView::Resolved(link), Some(document)) => {
            if !shares_origin(link, document) {
                Routing::External
            } else if link.fragment is Some && shares_document(link, document) {
                Routing::Fragment
            } else {
                Routing::InApp
            }
        },
        _ => Routing::External,
    }
}

/// The address of the current document as `locate` finds it.
pub open spec fn located(location: Seq<char>) -> Option<LinkView> {
    match parsed(location) {
        Ok(link) => Some(link),
        Err(_) => None,
    }
}

/// The plan that the link target `raw` is owed on `book`, in the document at
/// `location`, whose origin is `origin`.
pub open spec fn plan_for(
    book: BookView,
    raw: Seq<char>,
    origin: Seq<char>,
    location: Seq<char>,
    plan: LinkPlan,
) -> bool {
    let target = resolution_of(raw, origin);
    &&& plan.target@ == target
    &&& plan.visited == book.pages.by_url.contains_key(target.href())
    &&& plan.routing == routing_of(target, located(location))
}

/// Decides the routing of a resolved link, given the address of the current
/// document.
pub fn route(target: &Resolution, here: &Option<Link>) -> (routing: Routing)
    ensures
        routing == routing_of(
            target@,
            match here {
                Some(document) => Some(document@),
                None => None,
            },
        ),
{
    match (target, here) {
        (Resolution::Resolved(link), Some(document)) => {
            if !same_origin(link, document) {
                Routing::External
            } else if link.fragment.is_some() && same_document(link, document) {
                Routing::Fragment
            } else {
                Routing::InApp
            }
        },
        _ => Routing::External,
    }
}

impl Page {
    /// Plans the decoration of the links of this page. `hrefs` holds their
    /// targets as the markup gives them, `origin` the origin of the current
    /// document and `location` its address. The plans come in the order of
    /// the links.
    pub fn setup_links(
        &self,
        book: &Book,
        hrefs: &Vec<String>,
        origin: &str,
        location: &str,
    ) -> (plans: Vec<LinkPlan>)
        ensures
            plans.len() == hrefs.len(),
            forall|i: int|
                0 <= i < plans.len() ==> plan_for(
                    book@,
                    hrefs[i]@,
                    origin@,
                    location@,
                    #[trigger] plans[i],
                ),
    {
        let here = locate(location);
        let mut plans: Vec<LinkPlan> = Vec::new();
        let mut k: usize = 0;
        while k < hrefs.len()
            invariant
                k <= hrefs.len(),
                plans.len() == k,
                match here {
                    Some(link) => located(location@) == Some(link@),
                    None => located(location@) is None,
                },
                forall|i: int|
                    0 <= i < k ==> plan_for(
                        book@,
                        hrefs[i]@,
                        origin@,
                        location@,
                        #[trigger] plans[i],
                    ),
            decreases hrefs.len() - k,
        {
            let target = parse_url(&hrefs[k], origin);
            let visited = book.get_page(target.href().as_str()).is_some();
            let routing = route(&target, &here);
            plans.push(LinkPlan { target, visited, routing });
            k = k + 1;
        }
        plans
    }
}

} // verus!
