//! The metadata HTTP endpoint: routing a request by its first line, the
//! response head, and server-sent-event framing of the metadata.

use vstd::prelude::*;
use crate::decimal::{decimal, decimal_chars, push_chars};
use crate::text::{find_char, find_in, range_eq, run_len, scan_run, str_chars};

verus! {

/// What a request asks for.
#[derive(Clone, Copy, Debug, PartialEq, Eq, Structural)]
pub enum Route {
    /// The request is empty.
    BadRequest,
    /// The method is not `GET`.
    MethodNotAllowed,
    /// `/` or `/index.html`: the viewer page.
    Index,
    /// `/metadata` or `/metadata.json`: the latest metadata.
    Metadata,
    /// `/events`: the metadata as a stream of server-sent events.
    Events,
    /// `/health`.
    Health,
    /// Any other path.
    NotFound,
}

/// The first line of a request: up to the first line feed.
pub open spec fn first_line(s: Seq<char>) -> Seq<char> {
    s.take(find_char(s, '\n') as int)
}

/// The first whitespace-separated token of `s`, or nothing.
pub open spec fn first_token(s: Seq<char>) -> Seq<char> {
    let t = s.skip(run_len(s, true) as int);
    t.take(run_len(t, false) as int)
}

/// What follows the first token of `s`.
pub open spec fn after_first_token(s: Seq<char>) -> Seq<char> {
    let t = s.skip(run_len(s, true) as int);
    t.skip(run_len(t, false) as int)
}

/// Where a request goes: by the method and the path, the first two
/// whitespace-separated tokens of its first line.
pub open spec fn spec_route(request: Seq<char>) -> Route {
    let line = first_line(request);
    let method = first_token(line);
    let path = first_token(after_first_token(line));
    if request.len() == 0 {
        Route::BadRequest
    } else if method != "GET"@ {
        Route::MethodNotAllowed
    } else if path == "/"@ || path == "/index.html"@ {
        Route::Index
    } else if path == "/metadata"@ || path == "/metadata.json"@ {
        Route::Metadata
    } else if path == "/events"@ {
        Route::Events
    } else if path == "/health"@ {
        Route::Health
    } else {
        Route::NotFound
    }
}

/// Bounds `(start, end)` of the first token of `s[from..to]`, and where the
/// rest begins (`end`).
fn token_bounds(s: &Vec<char>, from: usize, to: usize) -> (r: (usize, usize))
    requires from <= to <= s@.len(),
    ensures
        from <= r.0 <= r.1 <= to,
        s@.subrange(r.0 as int, r.1 as int) == first_token(s@.subrange(from as int, to as int)),
        s@.subrange(r.1 as int, to as int) == after_first_token(s@.subrange(from as int, to as int)),
{
    let start = scan_run(s, from, to, true);
    let end = scan_run(s, start, to, false);
    proof {
        let sub = s@.subrange(from as int, to as int);
        let t = sub.skip(run_len(sub, true) as int);
        assert(t =~= s@.subrange(start as int, to as int));
        assert(t.take(run_len(t, false) as int) =~= s@.subrange(start as int, end as int));
        assert(t.skip(run_len(t, false) as int) =~= s@.subrange(end as int, to as int));
    }
    (start, end)
}

/// Routes a request by its text.
pub fn route(request: &str) -> (r: Route)
    ensures r == spec_route(request@),
{
    let s = str_chars(request);
    let n = s.len();
    let line_end = find_in(&s, 0, n, '\n');
    proof {
        assert(s@.subrange(0, n as int) =~= request@);
        assert(s@.subrange(0, line_end as int) =~= first_line(request@));
    }
    let (m0, m1) = token_bounds(&s, 0, line_end);
    let (p0, p1) = token_bounds(&s, m1, line_end);
    if n == 0 {
        return Route::BadRequest;
    }
    let get: [char; 3] = ['G', 'E', 'T'];
    proof {
        reveal_strlit("GET");
        reveal_strlit("/");
        reveal_strlit("/index.html");
        reveal_strlit("/metadata");
        reveal_strlit("/metadata.json");
        reveal_strlit("/events");
        reveal_strlit("/health");
        assert(get@ =~= "GET"@);
    }
    if !range_eq(&s, m0, m1, &get) {
        return Route::MethodNotAllowed;
    }
    let root: [char; 1] = ['/'];
    let index: [char; 11] = ['/', 'i', 'n', 'd', 'e', 'x', '.', 'h', 't', 'm', 'l'];
    let metadata: [char; 9] = ['/', 'm', 'e', 't', 'a', 'd', 'a', 't', 'a'];
    let metadata_json: [char; 14] = ['/', 'm', 'e', 't', 'a', 'd', 'a', 't', 'a', '.', 'j', 's', 'o', 'n'];
    let events: [char; 7] = ['/', 'e', 'v', 'e', 'n', 't', 's'];
    let health: [char; 7] = ['/', 'h', 'e', 'a', 'l', 't', 'h'];
    proof {
        assert(root@ =~= "/"@);
        assert(index@ =~= "/index.html"@);
        assert(metadata@ =~= "/metadata"@);
        assert(metadata_json@ =~= "/metadata.json"@);
        assert(events@ =~= "/events"@);
        assert(health@ =~= "/health"@);
    }
    if range_eq(&s, p0, p1, &root) || range_eq(&s, p0, p1, &index) {
        Route::Index
    } else if range_eq(&s, p0, p1, &metadata) || range_eq(&s, p0, p1, &metadata_json) {
        Route::Metadata
    } else if range_eq(&s, p0, p1, &events) {
        Route::Events
    } else if range_eq(&s, p0, p1, &health) {
        Route::Health
    } else {
        Route::NotFound
    }
}

/// The reason phrase written after a status code.
pub open spec fn status_text(status: u16) -> Seq<char> {
    if status == 400 {
        "Bad Request"@
    } else if status == 404 {
        "Not Found"@
    } else if status == 405 {
        "Method Not Allowed"@
    } else {
        "OK"@
    }
}

/// The head of a response: status line, the fixed headers, the content type
/// and length, and the blank line.
pub open spec fn spec_response_head(status: u16, content_type: Seq<char>, body_len: nat) -> Seq<char> {
    "HTTP/1.1 "@ + decimal(status as nat) + " "@ + status_text(status) + "\r\n"@
        + "Access-Control-Allow-Origin: *\r\n"@
        + "Cache-Control: no-store\r\n"@
        + "Content-Type: "@ + content_type + "\r\n"@
        + "Content-Length: "@ + decimal(body_len) + "\r\n"@
        + "Connection: close\r\n\r\n"@
}

fn push_str(out: &mut String, s: &str)
    ensures final(out)@ == old(out)@ + s@,
{
    let chars = str_chars(s);
    push_chars(out, chars.as_slice());
}

/// The head of a response with `status`, `content_type` and a body of
/// `body_len` bytes; the connection closes after the body.
pub fn write_response(status: u16, content_type: &str, body_len: usize) -> (head: String)
    ensures head@ == spec_response_head(status, content_type@, body_len as nat),
{
    let mut out = String::new();
    push_str(&mut out, "HTTP/1.1 ");
    let code = decimal_chars(status as u64);
    push_chars(&mut out, code.as_slice());
    push_str(&mut out, " ");
    let text = if status == 400 {
        "Bad Request"
    } else if status == 404 {
        "Not Found"
    } else if status == 405 {
        "Method Not Allowed"
    } else {
        "OK"
    };
    push_str(&mut out, text);
    push_str(&mut out, "\r\n");
    push_str(&mut out, "Access-Control-Allow-Origin: *\r\n");
    push_str(&mut out, "Cache-Control: no-store\r\n");
    push_str(&mut out, "Content-Type: ");
    push_str(&mut out, content_type);
    push_str(&mut out, "\r\n");
    push_str(&mut out, "Content-Length: ");
    let len = decimal_chars(body_len as u64);
    push_chars(&mut out, len.as_slice());
    push_str(&mut out, "\r\n");
    push_str(&mut out, "Connection: close\r\n\r\n");
    assert(out@ =~= spec_response_head(status, content_type@, body_len as nat));
    out
}

/// The head of the event stream, with a retry delay of one second.
pub open spec fn spec_event_stream_headers() -> Seq<char> {
    "HTTP/1.1 200 OK\r\nAccess-Control-Allow-Origin: *\r\nCache-Control: no-store\r\nContent-Type: text/event-stream\r\nConnection: keep-alive\r\n\r\nretry: 1000\r\n\r\n"@
}

pub fn write_event_stream_headers() -> (head: String)
    ensures head@ == spec_event_stream_headers(),
{
    String::from_str("HTTP/1.1 200 OK\r\nAccess-Control-Allow-Origin: *\r\nCache-Control: no-store\r\nContent-Type: text/event-stream\r\nConnection: keep-alive\r\n\r\nretry: 1000\r\n\r\n")
}

/// A line without the carriage return that ended it.
pub open spec fn strip_cr(line: Seq<char>) -> Seq<char> {
    if line.len() > 0 && line.last() == '\r' { line.drop_last() } else { line }
}

/// The `data:` lines of an event carrying `s`: one a line of `s`, as
/// `str::lines` splits it.
pub open spec fn data_lines(s: Seq<char>) -> Seq<char>
    decreases s.len(),
{
    if s.len() == 0 {
        Seq::empty()
    } else {
        let k = find_char(s, '\n') as int;
        if k >= s.len() {
            "data: "@ + s + "\n"@
        } else {
            "data: "@ + strip_cr(s.take(k)) + "\n"@ + data_lines(s.skip(k + 1))
        }
    }
}

/// A server-sent event named `metadata` carrying `body`.
pub open spec fn spec_sse_event(body: Seq<char>) -> Seq<char> {
    "event: metadata\n"@ + data_lines(body) + "\n"@
}

/// Frames `body` as a server-sent event named `metadata`.
pub fn write_sse_event(body: &str) -> (event: String)
    ensures event@ == spec_sse_event(body@),
{
    let s = str_chars(body);
    let n = s.len();
    let mut out = String::new();
    push_str(&mut out, "event: metadata\n");
    let ghost head = out@;
    let mut pos: usize = 0;
    proof {
        assert(body@.skip(0) =~= body@);
    }
    while pos < n
        invariant
            s@ == body@,
            n == s@.len(),
            pos <= n,
            head + data_lines(body@) == out@ + data_lines(body@.skip(pos as int)),
        decreases n - pos,
    {
        let k = find_in(&s, pos, n, '\n');
        let ghost rest = body@.skip(pos as int);
        proof {
            assert(s@.subrange(pos as int, n as int) =~= rest);
        }
        push_str(&mut out, "data: ");
        let mut end = k;
        if k < n && end > pos && s[end - 1] == '\r' {
            end = end - 1;
        }
        push_chars(&mut out, vstd::slice::slice_subrange(s.as_slice(), pos, end));
        push_str(&mut out, "\n");
        proof {
            let kk = (k - pos) as int;
            if k < n {
                assert(rest.take(kk) =~= s@.subrange(pos as int, k as int));
                assert(strip_cr(rest.take(kk)) =~= s@.subrange(pos as int, end as int));
                assert(rest.skip(kk + 1) =~= body@.skip(k + 1));
            } else {
                assert(rest =~= s@.subrange(pos as int, end as int));
                assert(body@.skip(n as int) =~= Seq::<char>::empty());
            }
        }
        if k == n {
            pos = n;
        } else {
            pos = k + 1;
        }
    }
    proof {
        assert(body@.skip(n as int) =~= Seq::<char>::empty());
    }
    push_str(&mut out, "\n");
    assert(out@ =~= spec_sse_event(body@));
    out
}

/// The content type of a response.
#[derive(Clone, Copy, Debug, PartialEq, Eq, Structural)]
pub enum ContentType {
    PlainText,
    Html,
    Json,
}

/// What is sent back for a route other than the event stream.
#[derive(Clone, Copy, Debug, PartialEq, Eq, Structural)]
pub enum Body {
    /// The text `bad request`.
    BadRequest,
    /// The text `method not allowed`.
    MethodNotAllowed,
    /// The viewer page.
    IndexPage,
    /// The latest metadata.
    LatestMetadata,
    /// The text `ok`.
    Healthy,
    /// The text `not found`.
    NotFound,
}

/// Status, content type and body of the answer to a route; the event stream
/// is answered otherwise.
pub open spec fn spec_reply(r: Route) -> Option<(u16, ContentType, Body)> {
    match r {
        Route::BadRequest => Some((400u16, ContentType::PlainText, Body::BadRequest)),
        Route::MethodNotAllowed => Some((405u16, ContentType::PlainText, Body::MethodNotAllowed)),
        Route::Index => Some((200u16, ContentType::Html, Body::IndexPage)),
        Route::Metadata => Some((200u16, ContentType::Json, Body::LatestMetadata)),
        Route::Events => None,
        Route::Health => Some((200u16, ContentType::PlainText, Body::Healthy)),
        Route::NotFound => Some((404u16, ContentType::PlainText, Body::NotFound)),
    }
}

pub fn reply(r: Route) -> (out: Option<(u16, ContentType, Body)>)
    ensures out == spec_reply(r),
{
    match r {
        Route::BadRequest => Some((400u16, ContentType::PlainText, Body::BadRequest)),
        Route::MethodNotAllowed => Some((405u16, ContentType::PlainText, Body::MethodNotAllowed)),
        Route::Index => Some((200u16, ContentType::Html, Body::IndexPage)),
        Route::Metadata => Some((200u16, ContentType::Json, Body::LatestMetadata)),
        Route::Events => None,
        Route::Health => Some((200u16, ContentType::PlainText, Body::Healthy)),
        Route::NotFound => Some((404u16, ContentType::PlainText, Body::NotFound)),
    }
}

/// How a request is answered, by the method and path of its first line: an
/// empty request gets 400, a method other than `GET` 405, a known path 200
/// with plain text `ok` for `/health`, the viewer page for `/` and
/// `/index.html` and the latest metadata as JSON for `/metadata` and
/// `/metadata.json`; `/events` is answered by the event stream instead; any
/// other path gets 404.
pub proof fn lemma_reply_to_request(request: Seq<char>)
    ensures ({
        let line = first_line(request);
        let method = first_token(line);
        let path = first_token(after_first_token(line));
        let answer = spec_reply(spec_route(request));
        &&& request.len() == 0 ==> answer == Some((400u16, ContentType::PlainText, Body::BadRequest))
        &&& request.len() > 0 && method != "GET"@ ==> answer == Some((405u16, ContentType::PlainText, Body::MethodNotAllowed))
        &&& request.len() > 0 && method == "GET"@ ==> {
            &&& path == "/health"@ ==> answer == Some((200u16, ContentType::PlainText, Body::Healthy))
            &&& (path == "/"@ || path == "/index.html"@) ==> answer == Some((200u16, ContentType::Html, Body::IndexPage))
            &&& (path == "/metadata"@ || path == "/metadata.json"@)
                ==> answer == Some((200u16, ContentType::Json, Body::LatestMetadata))
            &&& path == "/events"@ ==> answer is None
            &&& !(path == "/"@ || path == "/index.html"@ || path == "/metadata"@ || path == "/metadata.json"@
                || path == "/events"@ || path == "/health"@)
                ==> answer == Some((404u16, ContentType::PlainText, Body::NotFound))
        }
    }),
{
    reveal_strlit("/");
    reveal_strlit("/index.html");
    reveal_strlit("/metadata");
    reveal_strlit("/metadata.json");
    reveal_strlit("/events");
    reveal_strlit("/health");
    assert("/"@.len() == 1 && "/index.html"@.len() == 11 && "/metadata"@.len() == 9);
    assert("/metadata.json"@.len() == 14 && "/events"@.len() == 7 && "/health"@.len() == 7);
    assert("/events"@[1] != "/health"@[1]);
    assert("/events"@ != "/health"@);
}

/// What came of binding a listener to one port.
#[derive(Clone, Copy, Debug, PartialEq, Eq, Structural)]
pub enum BindOutcome {
    Bound,
    /// The port is in use by another listener.
    Busy,
    /// Any other failure.
    Failed,
}

/// What to do after a bind.
#[derive(Clone, Copy, Debug, PartialEq, Eq, Structural)]
pub enum PortStep {
    /// Try this port next.
    Try(u16),
    /// Listening on `port`; `moved` when it is not the first one asked for.
    Listening { port: u16, moved: bool },
    /// Give up with the error of that bind.
    Fail,
    /// Every candidate was busy.
    AllBusy,
}

/// The search for a free port: the candidates run from `first` up to
/// `first` plus the number of additional ports (saturating at the largest
/// port), tried in order; `current` is the one being tried.
#[derive(Clone, Copy, Debug, PartialEq, Eq, Structural)]
pub struct PortSearch {
    pub first: u16,
    pub last: u16,
    pub current: u16,
}

impl PortSearch {
    pub open spec fn wf(self) -> bool {
        self.first <= self.current <= self.last
    }

    /// Starts at `port`, with `additional` ports after it as candidates.
    pub fn new(port: u16, additional: u16) -> (s: PortSearch)
        ensures
            s.wf(),
            s.first == port,
            s.current == port,
            s.last == if port + additional > u16::MAX { u16::MAX as int } else { port + additional },
    {
        PortSearch { first: port, last: port.saturating_add(additional), current: port }
    }

    /// The port to bind now.
    pub fn port(&self) -> (p: u16)
        ensures p == self.current,
    {
        self.current
    }

    /// Takes what came of binding the current port and says what to do: a
    /// busy port moves on to the next candidate, or, after the last one,
    /// gives up as all busy; any other failure gives up at once.
    pub fn on_bind(&mut self, outcome: BindOutcome) -> (step: PortStep)
        requires old(self).wf(),
        ensures
            final(self).wf(),
            final(self).first == old(self).first,
            final(self).last == old(self).last,
            step == match outcome {
                BindOutcome::Bound => PortStep::Listening {
                    port: old(self).current,
                    moved: old(self).current != old(self).first,
                },
                BindOutcome::Failed => PortStep::Fail,
                BindOutcome::Busy => if old(self).current < old(self).last {
                    PortStep::Try((old(self).current + 1) as u16)
                } else {
                    PortStep::AllBusy
                },
            },
            step matches PortStep::Try(p) ==> p == final(self).current && final(self).current == old(self).current + 1,
            !(step is Try) ==> final(self).current == old(self).current,
    {
        match outcome {
            BindOutcome::Bound => PortStep::Listening { port: self.current, moved: self.current != self.first },
            BindOutcome::Failed => PortStep::Fail,
            BindOutcome::Busy => {
                if self.current < self.last {
                    self.current = self.current + 1;
                    PortStep::Try(self.current)
                } else {
                    PortStep::AllBusy
                }
            },
        }
    }
}

} // verus!
