//! What a polling source asks of a server, and what it makes of the answer.
//!
//! From the first successful answer with an `ETag` on, a conditional poll sends
//! the last `ETag` along as `If-None-Match`. A server that answers `304 Not Modified` has
//! nothing new: the answer is handed on with an empty body.

use crate::buffer;
use bytes::Bytes;
use vstd::prelude::*;

verus! {

/// How many answers may wait for the consumer before polling pauses.
pub const POLL_CHANNEL_CAPACITY: usize = 8;

/// The status of an answer that has nothing new.
pub const NOT_MODIFIED: u16 = 304;

/// A request: where to, and with which headers.
#[derive(Debug, PartialEq, Eq)]
pub struct RequestSpec {
    pub url: String,
    pub headers: Vec<(String, String)>,
}

/// The texts of a list of headers.
pub open spec fn header_texts(headers: Seq<(String, String)>) -> Seq<(Seq<char>, Seq<char>)> {
    headers.map_values(|h: (String, String)| (h.0@, h.1@))
}

impl RequestSpec {
    /// A request without headers of its own.
    pub fn new(url: &str) -> (r: RequestSpec)
        ensures
            r.url@ == url@,
            r.headers@.len() == 0,
    {
        RequestSpec { url: url.to_string(), headers: Vec::new() }
    }

    /// The request with one more header.
    pub fn header(self, name: &str, value: &str) -> (r: RequestSpec)
        ensures
            r.url == self.url,
            header_texts(r.headers@) == header_texts(self.headers@).push((name@, value@)),
    {
        let mut headers: Vec<(String, String)> = self.headers;
        let h: (String, String) = (name.to_string(), value.to_string());
        headers.push(h);
        assert(header_texts(headers@) =~= header_texts(self.headers@).push((name@, value@)));
        RequestSpec { url: self.url, headers }
    }
}

/// An answer.
pub struct HttpResponse {
    pub status: u16,
    pub headers: Vec<(String, String)>,
    /// The body: empty where nothing was modified.
    pub body: Bytes,
    pub not_modified: bool,
}

/// What can go wrong with a poll.
#[derive(Debug, PartialEq, Eq)]
pub enum HttpError {
    /// The request could not be carried out.
    Transport(String),
    /// The request could not be built.
    Build(String),
}

/// The error of a request that failed, by whether it failed to be built.
pub fn failure(is_builder: bool, message: String) -> (r: HttpError)
    ensures
        r == (if is_builder {
            HttpError::Build(message)
        } else {
            HttpError::Transport(message)
        }),
{
    if is_builder {
        HttpError::Build(message)
    } else {
        HttpError::Transport(message)
    }
}

/// Whether a status is that of a successful answer.
pub open spec fn is_success(status: u16) -> bool {
    200 <= status < 300
}

/// What a polling source remembers from one poll to the next.
pub struct PollState {
    use_etag: bool,
    etag: Option<String>,
}

/// The model of [`PollState`].
pub struct PollView {
    /// Whether polls are conditional.
    pub use_etag: bool,
    /// The last tag.
    pub etag: Option<Seq<char>>,
}

impl View for PollState {
    type V = PollView;

    closed spec fn view(&self) -> PollView {
        PollView {
            use_etag: self.use_etag,
            etag: match self.etag {
                Some(s) => Some(s@),
                None => None,
            },
        }
    }
}

impl PollView {
    /// The tag that a request is made conditional on.
    pub open spec fn condition(self) -> Option<Seq<char>> {
        if self.use_etag {
            self.etag
        } else {
            None
        }
    }

    /// What is remembered after an answer. Only an answer with something new
    /// brings a new tag, and only a successful one the first.
    pub open spec fn after(self, status: u16, etag: Option<Seq<char>>) -> PollView {
        if self.use_etag && status != NOT_MODIFIED && etag is Some && (is_success(status)
            || self.etag is Some) {
            PollView { etag, ..self }
        } else {
            self
        }
    }
}

impl PollState {
    /// A source that has not polled yet.
    pub fn new(use_etag: bool) -> (r: PollState)
        ensures
            r@ == (PollView { use_etag, etag: None }),
    {
        PollState { use_etag, etag: None }
    }

    /// The tag to send as `If-None-Match`, if any.
    pub fn condition(&self) -> (r: Option<&str>)
        ensures
            r is Some <==> self@.condition() is Some,
            r matches Some(s) ==> self@.condition() == Some(s@),
    {
        if self.use_etag {
            match &self.etag {
                Some(s) => Some(s.as_str()),
                None => None,
            }
        } else {
            None
        }
    }

    /// Note an answer and the tag that came with it. Returns whether its body is
    /// to be read.
    pub fn saw(&mut self, status: u16, etag: Option<&str>) -> (r: bool)
        ensures
            r == (status != NOT_MODIFIED),
            final(self)@ == old(self)@.after(
                status,
                match etag {
                    Some(s) => Some(s@),
                    None => None,
                },
            ),
    {
        let counts: bool = (200 <= status && status < 300) || self.etag.is_some();
        if self.use_etag && status != NOT_MODIFIED && counts {
            if let Some(s) = etag {
                self.etag = Some(s.to_string());
            }
        }
        status != NOT_MODIFIED
    }
}

/// The answer of `status`, with the body that was read. Where nothing was
/// modified, the body is left out.
pub fn response(status: u16, headers: Vec<(String, String)>, body: Vec<u8>) -> (r: HttpResponse)
    ensures
        r.status == status,
        r.headers == headers,
        r.not_modified == (status == NOT_MODIFIED),
        buffer::contents(r.body) == if status == NOT_MODIFIED {
            Seq::<u8>::empty()
        } else {
            body@
        },
{
    if status == NOT_MODIFIED {
        let empty: Vec<u8> = Vec::new();
        HttpResponse { status, headers, body: buffer::buffer_of(empty), not_modified: true }
    } else {
        HttpResponse { status, headers, body: buffer::buffer_of(body), not_modified: false }
    }
}

// ---------------------------------------------------------------------------
// Laws
// ---------------------------------------------------------------------------
/// A tag is remembered until a modified answer brings another: an answer that
/// has nothing new does not change what the next poll is conditional on.
pub proof fn unmodified_keeps_the_tag(poll: PollView, etag: Option<Seq<char>>)
    ensures
        poll.after(NOT_MODIFIED, etag) == poll,
        poll.after(NOT_MODIFIED, etag).condition() == poll.condition(),
{
}

/// The tag of a successful answer is what the next conditional poll sends; once
/// there was one, that of any answer but an unmodified one.
pub proof fn new_tag_is_sent(poll: PollView, status: u16, etag: Seq<char>)
    requires
        poll.use_etag,
        status != NOT_MODIFIED,
        is_success(status) || poll.condition() is Some,
    ensures
        poll.after(status, Some(etag)).condition() == Some(etag),
{
}

/// Without a successful answer no poll is conditional: an answer that reports a
/// failure brings no first tag.
pub proof fn failures_bring_no_first_tag(poll: PollView, status: u16, etag: Option<Seq<char>>)
    requires
        poll.condition() is None,
        !is_success(status),
    ensures
        poll.after(status, etag).condition() is None,
{
}

/// A plain poll is never conditional.
pub proof fn plain_polls_are_unconditional(poll: PollView, status: u16, etag: Option<Seq<char>>)
    requires
        !poll.use_etag,
    ensures
        poll.condition() is None,
        poll.after(status, etag).condition() is None,
{
}

/// What an answer leaves behind: the tag changes exactly if polls are
/// conditional, the answer carries one, it is not the answer that nothing was
/// modified, and it is either successful (a status from 200 to 299) or not the
/// first; and then it is the tag of the answer.
pub proof fn tags_come_from_answers(poll: PollView, status: u16, etag: Option<Seq<char>>)
    ensures
        ({
            let after = poll.after(status, etag);
            &&& after.use_etag == poll.use_etag
            &&& poll.use_etag && etag is Some && status != 304 && (200 <= status <= 299
                || poll.etag is Some) ==> after.etag == etag
            &&& !poll.use_etag || etag is None || status == 304 || (!(200 <= status <= 299)
                && poll.etag is None) ==> after.etag == poll.etag
        }),
        poll.use_etag ==> poll.condition() == poll.etag,
        !poll.use_etag ==> poll.condition() is None,
        is_success(status) <==> 200 <= status <= 299,
        NOT_MODIFIED == 304,
{
}

} // verus!
