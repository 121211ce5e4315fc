//! Resolution of link targets to absolute addresses, and the comparison of
//! origins.

use vstd::prelude::*;
use vstd::string::*;

verus! {

/// An absolute address, with the parts of it that routing reads.
pub struct Link {
    /// The address in its canonical serialization.
    pub href: String,
    /// The address without its fragment: it names the document.
    pub document: String,
    pub scheme: String,
    pub host: Option<String>,
    /// The port, where the address names one that is not the scheme's default.
    pub port: Option<u16>,
    /// The fragment, where the address has one.
    pub fragment: Option<String>,
}

/// The characters of a link.
pub struct LinkView {
    pub href: Seq<char>,
    pub document: Seq<char>,
    pub scheme: Seq<char>,
    pub host: Option<Seq<char>>,
    pub port: Option<u16>,
    pub fragment: Option<Seq<char>>,
}

impl View for Link {
    type V = LinkView;

    open spec fn view(&self) -> LinkView {
        LinkView {
            href: self.href@,
            document: self.document@,
            scheme: self.scheme@,
            host: match self.host {
                Some(host) => Some(host@),
                None => None,
            },
            port: self.port,
            fragment: match self.fragment {
                Some(fragment) => Some(fragment@),
                None => None,
            },
        }
    }
}

/// Why a string is no absolute address.
#[derive(Clone, Copy, PartialEq, Eq, Structural, Debug)]
pub enum ParseFailure {
    /// The string is a relative reference; it needs a base.
    RelativeWithoutBase,
    /// The string is malformed in another way.
    Malformed,
}

/// What `Url::parse` makes of the string `raw`: the parts of the address, or the
/// kind of failure.
pub uninterp spec fn parsed(raw: Seq<char>) -> Result<LinkView, ParseFailure>;

/// Calls `url::Url::parse` and reads the parts of the address off the result
/// (`as_str`, the slice up to `Position::AfterQuery`, `scheme`, `host_str`,
/// `port`, `fragment`). Parsing follows the URL
/// standard, so the contract only names the outcome. Of the parser's errors only
/// `RelativeUrlWithoutBase` is told apart.
#[verifier::external_body]
fn parse_absolute(raw: &str) -> (r: Result<Link, ParseFailure>)
    ensures
        match r {
            Ok(link) => parsed(raw@) == Ok::<LinkView, ParseFailure>(link@),
            Err(failure) => parsed(raw@) == Err::<LinkView, ParseFailure>(failure),
        },
{
    match url::Url::parse(raw) {
        Ok(u) => Ok(Link {
            href: u.as_str().to_string(),
            document: u[..url::Position::AfterQuery].to_string(),
            scheme: u.scheme().to_string(),
            host: u.host_str().map(String::from),
            port: u.port(),
            fragment: u.fragment().map(String::from),
        }),
        Err(url::ParseError::RelativeUrlWithoutBase) => Err(ParseFailure::RelativeWithoutBase),
        Err(_) => Err(ParseFailure::Malformed),
    }
}

/// A link target after resolution.
pub enum Resolution {
    /// The target as an absolute address.
    Resolved(Link),
    /// The target could not be resolved; it is handed back as it was given.
    Unresolved(String),
}

/// The characters of a resolution.
pub enum ResolutionView {
    Resolved(LinkView),
    Unresolved(Seq<char>),
}

impl View for Resolution {
    type V = ResolutionView;

    open spec fn view(&self) -> ResolutionView {
        match self {
            Resolution::Resolved(link) => ResolutionView::Resolved(link@),
            Resolution::Unresolved(raw) => ResolutionView::Unresolved(raw@),
        }
    }
}

impl ResolutionView {
    /// The address to ask for: the canonical one, or the target as given.
    pub open spec fn href(self) -> Seq<char> {
        match self {
            ResolutionView::Resolved(link) => link.href,
            ResolutionView::Unresolved(raw) => raw,
        }
    }
}

/// How the first parse of a target went on.
pub enum FirstStep {
    /// Resolution is over.
    Done(Resolution),
    /// The target is relative: this string, the origin followed by the target,
    /// is to be parsed in its place.
    Retry(String),
}

/// The target `raw` resolved against the origin `origin`: `raw` itself where it
/// is an absolute address; else, where it is relative, the origin followed by
/// `raw`, parsed once; else `raw` unresolved.
pub open spec fn resolution_of(raw: Seq<char>, origin: Seq<char>) -> ResolutionView {
    match parsed(raw) {
        Ok(link) => ResolutionView::Resolved(link),
        Err(ParseFailure::RelativeWithoutBase) => match parsed(origin + raw) {
            Ok(link) => ResolutionView::Resolved(link),
            Err(_) => ResolutionView::Unresolved(raw),
        },
        Err(ParseFailure::Malformed) => ResolutionView::Unresolved(raw),
    }
}

/// Decides what follows the parse of the target itself.
pub fn after_first_parse(raw: &String, origin: &str, first: Result<Link, ParseFailure>) -> (step:
    FirstStep)
    ensures
        match first {
            Ok(link) => step == FirstStep::Done(Resolution::Resolved(link)),
            Err(ParseFailure::RelativeWithoutBase) => step matches FirstStep::Retry(prefixed)
                && prefixed@ == origin@ + raw@,
            Err(ParseFailure::Malformed) => step matches FirstStep::Done(
                Resolution::Unresolved(given),
            ) && given@ == raw@,
        },
{
    match first {
        Ok(link) => FirstStep::Done(Resolution::Resolved(link)),
        Err(ParseFailure::RelativeWithoutBase) => {
            FirstStep::Retry(String::from_str(origin).concat(raw.as_str()))
        },
        Err(ParseFailure::Malformed) => FirstStep::Done(Resolution::Unresolved(raw.clone())),
    }
}

/// Decides what follows the parse of the origin followed by the target. There
/// is no third attempt.
pub fn after_second_parse(raw: &String, second: Result<Link, ParseFailure>) -> (r: Resolution)
    ensures
        match second {
            Ok(link) => r == Resolution::Resolved(link),
            Err(_) => r matches Resolution::Unresolved(given) && given@ == raw@,
        },
{
    match second {
        Ok(link) => Resolution::Resolved(link),
        Err(_) => Resolution::Unresolved(raw.clone()),
    }
}

/// Resolves a link target against the origin of the current document.
pub fn parse_url(raw: &String, origin: &str) -> (r: Resolution)
    ensures
        r@ == resolution_of(raw@, origin@),
{
    let first = parse_absolute(raw.as_str());
    match after_first_parse(raw, origin, first) {
        FirstStep::Done(r) => r,
        FirstStep::Retry(prefixed) => {
            let second = parse_absolute(prefixed.as_str());
            after_second_parse(raw, second)
        },
    }
}

/// The address of the current document, where `location` is an absolute
/// address.
pub fn locate(location: &str) -> (here: Option<Link>)
    ensures
        match here {
            Some(link) => parsed(location@) == Ok::<LinkView, ParseFailure>(link@),
            None => parsed(location@) is Err,
        },
{
    match parse_absolute(location) {
        Ok(link) => Some(link),
        Err(_) => None,
    }
}

/// Scheme, host and port of an address.
pub struct Origin {
    pub scheme: String,
    pub host: Option<String>,
    pub port: Option<u16>,
}

/// The origin of `link`.
pub fn get_origin(link: &Link) -> (origin: Origin)
    ensures
        origin.scheme == link.scheme,
        origin.host == link.host,
        origin.port == link.port,
{
    let host = match &link.host {
        Some(host) => Some(host.clone()),
        None => None,
    };
    Origin { scheme: link.scheme.clone(), host, port: link.port }
}

/// Two addresses share an origin when scheme, host and port are all equal.
pub open spec fn shares_origin(a: LinkView, b: LinkView) -> bool {
    a.scheme == b.scheme && a.host == b.host && a.port == b.port
}

/// Whether `a` and `b` share an origin.
pub fn same_origin(a: &Link, b: &Link) -> (r: bool)
    ensures
        r == shares_origin(a@, b@),
{
    let hosts = match (&a.host, &b.host) {
        (Some(x), Some(y)) => *x == *y,
        (None, None) => true,
        _ => false,
    };
    let ports = match (a.port, b.port) {
        (Some(x), Some(y)) => x == y,
        (None, None) => true,
        _ => false,
    };
    a.scheme == b.scheme && hosts && ports
}

/// Two addresses name the same document when they are equal up to the
/// fragment.
pub open spec fn shares_document(a: LinkView, b: LinkView) -> bool {
    a.document == b.document
}

/// Whether `a` and `b` name the same document.
pub fn same_document(a: &Link, b: &Link) -> (r: bool)
    ensures
        r == shares_document(a@, b@),
{
    a.document == b.document
}

impl Resolution {
    /// The address to ask for: the canonical one, or the target as given.
    pub fn href(&self) -> (href: &String)
        ensures
            href@ == self@.href(),
    {
        match self {
            Resolution::Resolved(link) => &link.href,
            Resolution::Unresolved(raw) => raw,
        }
    }
}

} // verus!
