//! A loaded note and the classification of what a fetch of it brought back.

use vstd::prelude::*;
use vstd::string::*;

verus! {

/// Title and body of a note, as the server sent them. The body is markup that is
/// passed through to rendering untouched.
pub struct Note {
    pub title: String,
    pub content: String,
}

/// The characters of a note.
pub struct NoteView {
    pub title: Seq<char>,
    pub content: Seq<char>,
}

impl View for Note {
    type V = NoteView;

    open spec fn view(&self) -> NoteView {
        NoteView { title: self.title@, content: self.content@ }
    }
}

impl Clone for Note {
    fn clone(&self) -> (copy: Self)
        ensures
            copy == *self,
    {
        Note { title: self.title.clone(), content: self.content.clone() }
    }
}

/// One page of the book: a note under its address and its identifier. A page
/// without a note is a shell whose content has not arrived, or the home page,
/// which is rendered before the book exists.
pub struct Page {
    pub url: String,
    pub id: String,
    pub note: Option<Note>,
}

/// The characters of a page.
pub struct PageView {
    pub url: Seq<char>,
    pub id: Seq<char>,
    pub note: Option<NoteView>,
}

impl View for Page {
    type V = PageView;

    open spec fn view(&self) -> PageView {
        PageView {
            url: self.url@,
            id: self.id@,
            note: match self.note {
                Some(note) => Some(note@),
                None => None,
            },
        }
    }
}

impl Clone for Page {
    fn clone(&self) -> (copy: Self)
        ensures
            copy == *self,
    {
        let note = match &self.note {
            Some(note) => Some(note.clone()),
            None => None,
        };
        Page { url: self.url.clone(), id: self.id.clone(), note }
    }
}

/// What came back from the request for a note.
pub enum FetchReply {
    /// The request failed before any response arrived.
    Transport { message: String },
    /// No response arrived within `FETCH_TIMEOUT_MILLIS`.
    TimedOut,
    /// A response arrived. `body` is the decoded note, or the decoder's complaint.
    Response { status: u16, body: Result<Note, String> },
}

/// Why a page could not be loaded.
pub enum PageError {
    /// The server answered with a status other than 200 to 299.
    NotFound { reason: String },
    /// The response body is not a note.
    DecodeError { message: String },
    /// The request failed in transport, or no response arrived in time.
    TransportError { message: String },
}

impl PageError {
    /// The text to show for the error: the reason or the message that it holds.
    pub open spec fn text(self) -> Seq<char> {
        match self {
            PageError::NotFound { reason } => reason@,
            PageError::DecodeError { message } => message@,
            PageError::TransportError { message } => message@,
        }
    }

    /// The text to show for the error.
    pub fn message(&self) -> (message: String)
        ensures
            message@ == self.text(),
    {
        match self {
            PageError::NotFound { reason } => reason.clone(),
            PageError::DecodeError { message } => message.clone(),
            PageError::TransportError { message } => message.clone(),
        }
    }
}

/// Where the note of the page at `url` is fetched from.
pub fn note_endpoint(url: &str) -> (endpoint: String)
    ensures
        endpoint@ == url@ + "/index.json"@,
{
    String::from_str(url).concat("/index.json")
}

/// The reason phrase that `StatusCode::canonical_reason` returns for the status
/// code `status`.
pub uninterp spec fn canonical_reason(status: u16) -> Option<Seq<char>>;

/// Calls `reqwest::StatusCode::canonical_reason` on the status code `status`.
/// The phrase comes from a table of registered codes, so the contract only names
/// it. `StatusCode::from_u16` accepts every code from 100 to 999.
#[verifier::external_body]
fn canonical_reason_of(status: u16) -> (reason: Option<String>)
    requires
        100 <= status <= 999,
    ensures
        reason is Some <==> canonical_reason(status) is Some,
        reason matches Some(text) ==> canonical_reason(status) == Some(text@),
{
    match reqwest::StatusCode::from_u16(status) {
        Ok(code) => code.canonical_reason().map(String::from),
        Err(_) => None,
    }
}

/// How long a fetch may take, in milliseconds. A fetch that takes longer is
/// given up and reported as timed out.
pub const FETCH_TIMEOUT_MILLIS: u32 = 10000;

/// What is reported for a fetch that timed out.
pub open spec fn timeout_message() -> Seq<char> {
    "The request timed out"@
}

/// A status is a failure unless it is a success status, 200 to 299.
pub open spec fn is_failure(status: u16) -> bool {
    !(200 <= status < 300)
}

/// Whether `status` is a failure: any status but 200 to 299.
pub fn is_failure_status(status: u16) -> (r: bool)
    ensures
        r == is_failure(status),
{
    !(200 <= status && status < 300)
}

/// Whether `status` is a status code at all: a number of three digits.
pub open spec fn is_status_code(status: u16) -> bool {
    100 <= status <= 999
}

/// The phrase reported for a failure status with no canonical reason.
pub open spec fn default_reason() -> Seq<char> {
    "Note not found"@
}

/// The reason reported for a failure status: its canonical phrase where it has
/// one.
pub open spec fn reason_for(canonical: Option<Seq<char>>) -> Seq<char> {
    match canonical {
        Some(text) => text,
        None => default_reason(),
    }
}

/// The reason reported for the failure status `status`: its canonical phrase
/// where it is a status code and has one, else the default.
pub open spec fn reason_of(status: u16) -> Seq<char> {
    if is_status_code(status) {
        reason_for(canonical_reason(status))
    } else {
        default_reason()
    }
}

/// The reason to report, given the canonical phrase of the status if there is one.
pub fn reason_or_default(canonical: Option<String>) -> (reason: String)
    ensures
        reason@ == reason_for(
            match canonical {
                Some(text) => Some(text@),
                None => None,
            },
        ),
{
    match canonical {
        Some(text) => text,
        None => String::from_str("Note not found"),
    }
}

/// What a reply means for the page that asked: the note, or the error.
pub open spec fn reply_outcome(reply: FetchReply, r: Result<Note, PageError>) -> bool {
    match reply {
        FetchReply::Transport { message } => r matches Err(PageError::TransportError { message: m })
            && m == message,
        FetchReply::TimedOut => r matches Err(PageError::TransportError { message: m }) && m@
            == timeout_message(),
        FetchReply::Response { status, body } => if is_failure(status) {
            r matches Err(PageError::NotFound { reason }) && reason@ == reason_of(status)
        } else {
            match body {
                Ok(note) => r == Ok::<Note, PageError>(note),
                Err(message) => r matches Err(PageError::DecodeError { message: m }) && m
                    == message,
            }
        },
    }
}

/// Classifies a reply. A failure status wins over whatever the body held, and a
/// fetch that timed out counts as a failure in transport.
pub fn classify(reply: FetchReply) -> (r: Result<Note, PageError>)
    ensures
        reply_outcome(reply, r),
{
    match reply {
        FetchReply::Transport { message } => Err(PageError::TransportError { message }),
        FetchReply::TimedOut => Err(
            PageError::TransportError { message: String::from_str("The request timed out") },
        ),
        FetchReply::Response { status, body } => {
            if is_failure_status(status) {
                let canonical = if 100 <= status && status <= 999 {
                    canonical_reason_of(status)
                } else {
                    None
                };
                Err(PageError::NotFound { reason: reason_or_default(canonical) })
            } else {
                match body {
                    Ok(note) => Ok(note),
                    Err(message) => Err(PageError::DecodeError { message }),
                }
            }
        },
    }
}

impl Page {
    /// A shell for `url` under `id`: a page whose note has not arrived.
    pub fn shell(url: String, id: String) -> (page: Page)
        ensures
            page.url == url,
            page.id == id,
            page.note is None,
    {
        Page { url, id, note: None }
    }

    /// Takes in the reply to the request for this page's note. On success the
    /// page holds the note; on failure it is left as it was.
    pub fn init(&mut self, reply: FetchReply) -> (r: Result<(), PageError>)
        ensures
            final(self).url == old(self).url,
            final(self).id == old(self).id,
            match r {
                Ok(_) => final(self).note matches Some(note) && reply_outcome(
                    reply,
                    Ok::<Note, PageError>(note),
                ),
                Err(e) => final(self).note == old(self).note && reply_outcome(
                    reply,
                    Err::<Note, PageError>(e),
                ),
            },
    {
        match classify(reply) {
            Ok(note) => {
                self.note = Some(note);
                Ok(())
            },
            Err(e) => Err(e),
        }
    }
}

} // verus!
