//! One client connection, from the first byte to the close: a state
//! machine that is told what happened on the wire and says what to do next.

use vstd::prelude::*;
use vstd::utf8::{decode_utf8, encode_utf8, valid_utf8};
use crate::addr::{
    addr_text, binary_body_len, binary_rest, from_binary, parse_addr_text, parse_text, read_binary,
    write_text, AddrView, ClientAddr,
};
use crate::config::{site_for, Config, ForwardingView, IpForwarding, SiteConfig};
use crate::forward::{encode, encode_head};
use crate::number::{parse_number, read_number, Radix};
use crate::request::{
    body_is_chunked, body_length, content_length, find_first, first_header, header_views, host_of,
    is_chunked, parse_request, read_request, read_response_length, request_host,
    request_keep_alive, response_length, wants_keep_alive, Header,
};
use crate::text::{
    append, ascii, ascii_bytes, crlf, ends_with, has_suffix, head_end, prefix, text_of, to_vec,
    utf8_str,
};

verus! {

/// The most bytes that one read of a body asks for.
pub const BLOCK: usize = 4096;

/// Where a connection stands: what the machine is waiting for.
#[derive(Clone, Copy, Debug, PartialEq, Eq, Structural)]
pub enum Phase {
    /// Nothing has happened yet.
    Idle,
    /// A byte of the line that gives the client's address.
    ForwardedLine,
    /// The tag byte of the client's address in binary form.
    ForwardedTag,
    /// What follows the tag byte.
    ForwardedBody,
    /// A byte of a request head.
    RequestHead,
    /// The backend's answer to a dial.
    Dialing,
    /// The request head's way to the backend.
    SendingHead,
    /// A block of the request body.
    Body,
    /// That block's way to the backend.
    BodyWrite,
    /// A byte of a chunk's size line.
    ChunkLine,
    /// The size line's way to the backend.
    ChunkLineWrite,
    /// A byte of the response head.
    ResponseHead,
    /// That byte's way to the client.
    ResponseHeadWrite,
    /// A block of the response body.
    ResponseBody,
    /// That block's way to the client.
    ResponseBodyWrite,
    /// All that the backend sends until it closes.
    ResponseAll,
    /// Its way to the client.
    ResponseAllWrite,
    /// The log line of a finished request.
    Logged,
    /// The shutdown of a backend connection that serves one request only.
    ClosingBackend,
    /// The connection is over.
    Closed,
}

/// What the machine asks for.
#[derive(Debug)]
pub enum Action {
    /// Read from the client: at least one byte and at most this many.
    ReadClient(usize),
    /// Read exactly this many bytes from the client.
    ReadClientExact(usize),
    /// Read from the backend: at least one byte and at most this many.
    ReadBackend(usize),
    /// Read from the backend until it closes.
    ReadBackendToEnd,
    /// Write all these bytes to the backend.
    WriteBackend(Vec<u8>),
    /// Write all these bytes to the client.
    WriteClient(Vec<u8>),
    /// Open a connection to the backend at this address.
    Dial(String),
    /// Shut the backend connection down.
    CloseBackend,
    /// Log this line.
    Log(Vec<u8>),
    /// Shut both directions of both connections down; nothing follows.
    Close,
}

/// What an `Action` holds.
pub enum ActionView {
    ReadClient(usize),
    ReadClientExact(usize),
    ReadBackend(usize),
    ReadBackendToEnd,
    WriteBackend(Seq<u8>),
    WriteClient(Seq<u8>),
    Dial(Seq<char>),
    CloseBackend,
    Log(Seq<u8>),
    Close,
}

impl View for Action {
    type V = ActionView;

    open spec fn view(&self) -> ActionView {
        match self {
            Action::ReadClient(n) => ActionView::ReadClient(*n),
            Action::ReadClientExact(n) => ActionView::ReadClientExact(*n),
            Action::ReadBackend(n) => ActionView::ReadBackend(*n),
            Action::ReadBackendToEnd => ActionView::ReadBackendToEnd,
            Action::WriteBackend(b) => ActionView::WriteBackend(b@),
            Action::WriteClient(b) => ActionView::WriteClient(b@),
            Action::Dial(host) => ActionView::Dial(host@),
            Action::CloseBackend => ActionView::CloseBackend,
            Action::Log(line) => ActionView::Log(line@),
            Action::Close => ActionView::Close,
        }
    }
}

/// What happened on the wire.
#[derive(Debug)]
pub enum Event {
    /// The connection was accepted.
    Start,
    /// A read gave these bytes.
    Data(Vec<u8>),
    /// A read met the end of the stream.
    End,
    /// What was asked for is done.
    Done,
    /// What was asked for failed or took too long.
    Failed,
}

/// What an `Event` holds.
pub enum EventView {
    Start,
    Data(Seq<u8>),
    End,
    Done,
    Failed,
}

impl View for Event {
    type V = EventView;

    open spec fn view(&self) -> EventView {
        match self {
            Event::Start => EventView::Start,
            Event::Data(b) => EventView::Data(b@),
            Event::End => EventView::End,
            Event::Done => EventView::Done,
            Event::Failed => EventView::Failed,
        }
    }
}

/// What a client connection keeps from its first request on.
#[derive(Debug)]
pub struct Connection {
    /// The site that the first request chose.
    pub site: SiteConfig,
    /// Did the first request ask to keep the connection?
    pub keep_alive: bool,
    /// The host that the first request named.
    pub host: Vec<u8>,
}

/// What a `Connection` holds.
pub struct ConnView {
    pub site: SiteConfig,
    pub keep_alive: bool,
    pub host: Seq<u8>,
}

impl View for Connection {
    type V = ConnView;

    open spec fn view(&self) -> ConnView {
        ConnView { site: self.site, keep_alive: self.keep_alive, host: self.host@ }
    }
}

/// The state of one client connection.
#[derive(Debug)]
pub struct Engine {
    /// What the machine is waiting for.
    pub phase: Phase,
    /// Did the client come in over TLS?
    pub https: bool,
    /// The address at the other end of the client's socket.
    pub peer: ClientAddr,
    /// The address that counts as the client's.
    pub addr: ClientAddr,
    /// The bytes gathered so far of what is being read.
    pub buf: Vec<u8>,
    /// What the first request fixed, once it has been read.
    pub conn: Option<Connection>,
    /// Is a backend connection open once what was asked for is done?
    pub backend_open: bool,
    /// How many bytes of the body, or of the chunk, are still to come.
    pub remaining: usize,
    /// Is what is being handed on a chunk?
    pub in_chunk: bool,
    /// Is that chunk the last one?
    pub last_chunk: bool,
    /// The tag byte of the address that is being read.
    pub tag: u8,
    /// The length of the request's body, where it could be read.
    pub length: Option<usize>,
    /// Does the request's body come in chunks?
    pub chunked: bool,
    /// The request's method.
    pub method: Vec<u8>,
    /// The request's target.
    pub target: Vec<u8>,
}

/// What an `Engine` holds.
pub struct EngineView {
    pub phase: Phase,
    pub https: bool,
    pub peer: AddrView,
    pub addr: AddrView,
    pub buf: Seq<u8>,
    pub conn: Option<ConnView>,
    pub backend_open: bool,
    pub remaining: usize,
    pub in_chunk: bool,
    pub last_chunk: bool,
    pub tag: u8,
    pub length: Option<usize>,
    pub chunked: bool,
    pub method: Seq<u8>,
    pub target: Seq<u8>,
}

impl View for Engine {
    type V = EngineView;

    open spec fn view(&self) -> EngineView {
        EngineView {
            phase: self.phase,
            https: self.https,
            peer: self.peer@,
            addr: self.addr@,
            buf: self.buf@,
            conn: match self.conn {
                Some(c) => Some(c@),
                None => None,
            },
            backend_open: self.backend_open,
            remaining: self.remaining,
            in_chunk: self.in_chunk,
            last_chunk: self.last_chunk,
            tag: self.tag,
            length: self.length,
            chunked: self.chunked,
            method: self.method@,
            target: self.target@,
        }
    }
}

/// The state of a connection that was just accepted.
pub open spec fn fresh(peer: AddrView, https: bool) -> EngineView {
    EngineView {
        phase: Phase::Idle,
        https,
        peer,
        addr: peer,
        buf: Seq::empty(),
        conn: None,
        backend_open: false,
        remaining: 0,
        in_chunk: false,
        last_chunk: false,
        tag: 0,
        length: None,
        chunked: false,
        method: Seq::empty(),
        target: Seq::empty(),
    }
}

/// The one byte that a read gave, where it gave just one.
pub open spec fn one_byte(e: EventView) -> Option<u8> {
    match e {
        EventView::Data(b) => if b.len() == 1 {
            Some(b[0])
        } else {
            None
        },
        _ => None,
    }
}

/// The most bytes that the next read of a body asks for.
pub open spec fn block_of(remaining: usize) -> usize {
    if remaining < 4096 {
        remaining
    } else {
        4096
    }
}

/// The connection is given up: both sides are shut down.
pub open spec fn close(s: EngineView) -> (EngineView, ActionView) {
    (EngineView { phase: Phase::Closed, backend_open: false, ..s }, ActionView::Close)
}

/// A request head is read, byte by byte.
pub open spec fn read_head(s: EngineView) -> (EngineView, ActionView) {
    (EngineView { phase: Phase::RequestHead, buf: Seq::empty(), ..s }, ActionView::ReadClient(1))
}

/// The next block of the body is read.
pub open spec fn read_body(s: EngineView) -> (EngineView, ActionView) {
    (EngineView { phase: Phase::Body, ..s }, ActionView::ReadClient(block_of(s.remaining)))
}

/// A chunk's size line is read, byte by byte.
pub open spec fn read_chunk_line(s: EngineView) -> (EngineView, ActionView) {
    (EngineView { phase: Phase::ChunkLine, buf: Seq::empty(), ..s }, ActionView::ReadClient(1))
}

/// The next block of the response body is read.
pub open spec fn read_response(s: EngineView) -> (EngineView, ActionView) {
    (EngineView { phase: Phase::ResponseBody, ..s }, ActionView::ReadBackend(block_of(s.remaining)))
}

/// The response is read: its head first where the backend's connection
/// is kept, and all that the backend sends otherwise.
pub open spec fn begin_response(s: EngineView) -> (EngineView, ActionView) {
    match s.conn {
        Some(c) => if c.site.support_keep_alive {
            (
                EngineView { phase: Phase::ResponseHead, buf: Seq::empty(), ..s },
                ActionView::ReadBackend(1),
            )
        } else {
            (EngineView { phase: Phase::ResponseAll, ..s }, ActionView::ReadBackendToEnd)
        },
        None => close(s),
    }
}

/// The request's body is handed on: by its length where that is not zero,
/// in chunks where the request says so, and not at all otherwise.
pub open spec fn begin_body(s: EngineView) -> (EngineView, ActionView) {
    match s.length {
        Some(n) => if n > 0 {
            read_body(EngineView { remaining: n, in_chunk: false, last_chunk: false, ..s })
        } else if s.chunked {
            read_chunk_line(s)
        } else {
            begin_response(s)
        },
        None => close(s),
    }
}

/// The scheme's name for a connection with or without TLS.
pub open spec fn scheme(https: bool) -> Seq<u8> {
    if https {
        ascii("https"@)
    } else {
        ascii("http"@)
    }
}

/// The line that reports a finished request: the client's address, `>`,
/// the method, the scheme and the host of the first request, and the target.
pub open spec fn log_line(s: EngineView) -> Seq<u8> {
    addr_text(s.addr) + ascii(" > "@) + s.method + ascii(" "@) + scheme(s.https) + ascii("://"@) + (
    match s.conn {
        Some(c) => c.host,
        None => Seq::empty(),
    }) + ascii(" "@) + s.target
}

/// The request is finished: it is logged.
pub open spec fn finish(s: EngineView) -> (EngineView, ActionView) {
    (EngineView { phase: Phase::Logged, ..s }, ActionView::Log(log_line(s)))
}

/// The head in `buf` goes to the backend, with the client's address in the
/// form the site asks for. The connection is given up where the body's
/// length could not be read or the head cannot be rewritten.
pub open spec fn send_head(s: EngineView) -> (EngineView, ActionView) {
    match s.conn {
        Some(c) => match (
            s.length,
            encode(s.buf, s.addr, c.site.ip_forwarding@, text_of(c.site.replace_host)),
        ) {
            (Some(_), Some(out)) => (
                EngineView { phase: Phase::SendingHead, ..s },
                ActionView::WriteBackend(out),
            ),
            _ => close(s),
        },
        None => close(s),
    }
}

/// The address that counts as the client's for a request with the headers
/// `hs`: where a proxy in front hands it on in a header, that header's
/// value if the request has the header and the socket's peer if not;
/// otherwise the address known so far. There is none where the header's
/// value is no address.
pub open spec fn effective_addr(
    s: EngineView,
    incoming: ForwardingView,
    hs: Seq<(Seq<u8>, Seq<u8>)>,
) -> Option<AddrView> {
    match incoming {
        ForwardingView::Header(name) => match first_header(hs, encode_utf8(name), false) {
            Some(v) => parse_addr_text(v),
            None => Some(s.peer),
        },
        _ => Some(s.addr),
    }
}

/// What the first request of a connection fixes: the site that serves the
/// host it names, whether it asks to keep the connection, and that host.
/// Nothing where no site serves the host.
pub open spec fn choose_conn(config: &Config, hs: Seq<(Seq<u8>, Seq<u8>)>) -> Option<ConnView> {
    let host = host_of(hs);
    if valid_utf8(host) {
        match site_for(config.sites@, decode_utf8(host)) {
            Some(i) => Some(
                ConnView { site: config.sites@[i], keep_alive: wants_keep_alive(hs), host },
            ),
            None => None,
        }
    } else {
        None
    }
}

/// The state with what a request head says: the client's address, the
/// method and the target, and how the body is framed.
pub open spec fn framed(
    s: EngineView,
    addr: AddrView,
    method: Seq<u8>,
    target: Seq<u8>,
    hs: Seq<(Seq<u8>, Seq<u8>)>,
) -> EngineView {
    EngineView {
        addr,
        method,
        target,
        length: match content_length(hs, usize::MAX as nat) {
            Some(n) => Some(n as usize),
            None => None,
        },
        chunked: is_chunked(hs),
        ..s
    }
}

/// A request head is complete in `buf`. The first request of a connection
/// chooses the site by its host and has the backend dialled. A later one
/// goes to the backend that is open, or has the site's backend dialled
/// anew where none is.
pub open spec fn on_head(s: EngineView, config: &Config) -> (EngineView, ActionView) {
    match parse_request(s.buf) {
        Some(h) => match effective_addr(s, config.incoming_ip_forwarding@, h.headers) {
            Some(a) => {
                let s1 = framed(s, a, h.method, h.target, h.headers);
                match s.conn {
                    Some(c) => if s.backend_open {
                        send_head(s1)
                    } else {
                        (EngineView { phase: Phase::Dialing, ..s1 }, ActionView::Dial(c.site.host@))
                    },
                    None => match choose_conn(config, h.headers) {
                        Some(c) => (
                            EngineView { phase: Phase::Dialing, conn: Some(c), ..s1 },
                            ActionView::Dial(c.site.host@),
                        ),
                        None => close(s),
                    },
                }
            },
            None => close(s),
        },
        None => close(s),
    }
}

/// What follows a finished request: the next request where the first one
/// asked to keep the connection and the site lets it, after the shutdown
/// of the backend connection where the site's backend serves one request
/// each; the close otherwise.
pub open spec fn after_request(s: EngineView) -> (EngineView, ActionView) {
    match s.conn {
        Some(c) => if c.keep_alive && c.site.enable_keep_alive {
            if c.site.support_keep_alive {
                read_head(s)
            } else {
                (
                    EngineView { phase: Phase::ClosingBackend, backend_open: false, ..s },
                    ActionView::CloseBackend,
                )
            }
        } else {
            close(s)
        },
        None => close(s),
    }
}

/// The machine's step: the state and the action that follow from a state
/// and what happened. Whatever failed, and whatever the machine did not
/// ask for, ends the connection.
pub open spec fn next(s: EngineView, config: &Config, e: EventView) -> (EngineView, ActionView) {
    match s.phase {
        Phase::Idle => match e {
            EventView::Start => match config.incoming_ip_forwarding@ {
                ForwardingView::Simple => (
                    EngineView { phase: Phase::ForwardedLine, buf: Seq::empty(), ..s },
                    ActionView::ReadClient(1),
                ),
                ForwardingView::Modern => (
                    EngineView { phase: Phase::ForwardedTag, ..s },
                    ActionView::ReadClient(1),
                ),
                _ => read_head(s),
            },
            _ => close(s),
        },
        Phase::ForwardedLine => match one_byte(e) {
            Some(b) => if b == 10 {
                match parse_addr_text(s.buf) {
                    Some(a) => read_head(EngineView { addr: a, ..s }),
                    None => close(s),
                }
            } else {
                (EngineView { buf: s.buf.push(b), ..s }, ActionView::ReadClient(1))
            },
            None => close(s),
        },
        Phase::ForwardedTag => match one_byte(e) {
            Some(t) => match binary_body_len(t) {
                Some(n) => (
                    EngineView { phase: Phase::ForwardedBody, tag: t, ..s },
                    ActionView::ReadClientExact(n as usize),
                ),
                None => close(s),
            },
            None => close(s),
        },
        Phase::ForwardedBody => match e {
            EventView::Data(b) => match from_binary(s.tag, b) {
                Some(a) => read_head(EngineView { addr: a, ..s }),
                None => close(s),
            },
            _ => close(s),
        },
        Phase::RequestHead => match one_byte(e) {
            Some(b) => {
                let buf = s.buf.push(b);
                if ends_with(buf, head_end()) {
                    on_head(EngineView { buf: buf.subrange(0, buf.len() - 4), ..s }, config)
                } else {
                    (EngineView { buf, ..s }, ActionView::ReadClient(1))
                }
            },
            None => close(s),
        },
        Phase::Dialing => match e {
            EventView::Done => send_head(EngineView { backend_open: true, ..s }),
            _ => close(s),
        },
        Phase::SendingHead => match e {
            EventView::Done => begin_body(s),
            _ => close(s),
        },
        Phase::Body => match e {
            EventView::Data(b) => if 1 <= b.len() <= block_of(s.remaining) {
                (
                    EngineView {
                        phase: Phase::BodyWrite,
                        remaining: (s.remaining - b.len()) as usize,
                        ..s
                    },
                    ActionView::WriteBackend(b),
                )
            } else {
                close(s)
            },
            EventView::End => if s.in_chunk {
                close(s)
            } else {
                begin_response(s)
            },
            _ => close(s),
        },
        Phase::BodyWrite => match e {
            EventView::Done => if s.remaining > 0 {
                read_body(s)
            } else if s.in_chunk && !s.last_chunk {
                read_chunk_line(s)
            } else {
                begin_response(s)
            },
            _ => close(s),
        },
        Phase::ChunkLine => match one_byte(e) {
            Some(b) => {
                let buf = s.buf.push(b);
                let s1 = EngineView { buf, ..s };
                if ends_with(buf, crlf()) {
                    match parse_number(buf.subrange(0, buf.len() - 2), 16, (usize::MAX - 2) as nat) {
                        Some(n) => (
                            EngineView {
                                phase: Phase::ChunkLineWrite,
                                remaining: (n + 2) as usize,
                                in_chunk: true,
                                last_chunk: n == 0,
                                ..s1
                            },
                            ActionView::WriteBackend(buf),
                        ),
                        None => close(s1),
                    }
                } else {
                    (s1, ActionView::ReadClient(1))
                }
            },
            None => close(s),
        },
        Phase::ChunkLineWrite => match e {
            EventView::Done => read_body(s),
            _ => close(s),
        },
        Phase::ResponseHead => match one_byte(e) {
            Some(b) => (
                EngineView { phase: Phase::ResponseHeadWrite, buf: s.buf.push(b), ..s },
                ActionView::WriteClient(seq![b]),
            ),
            None => close(s),
        },
        Phase::ResponseHeadWrite => match e {
            EventView::Done => if ends_with(s.buf, head_end()) {
                match response_length(s.buf.subrange(0, s.buf.len() - 4), usize::MAX as nat) {
                    Some(n) => if n > 0 {
                        read_response(EngineView { remaining: n as usize, ..s })
                    } else {
                        finish(s)
                    },
                    None => close(s),
                }
            } else {
                (EngineView { phase: Phase::ResponseHead, ..s }, ActionView::ReadBackend(1))
            },
            _ => close(s),
        },
        Phase::ResponseBody => match e {
            EventView::Data(b) => if 1 <= b.len() <= block_of(s.remaining) {
                (
                    EngineView {
                        phase: Phase::ResponseBodyWrite,
                        remaining: (s.remaining - b.len()) as usize,
                        ..s
                    },
                    ActionView::WriteClient(b),
                )
            } else {
                close(s)
            },
            EventView::End => finish(s),
            _ => close(s),
        },
        Phase::ResponseBodyWrite => match e {
            EventView::Done => if s.remaining > 0 {
                read_response(s)
            } else {
                finish(s)
            },
            _ => close(s),
        },
        Phase::ResponseAll => match e {
            EventView::Data(b) => (
                EngineView { phase: Phase::ResponseAllWrite, ..s },
                ActionView::WriteClient(b),
            ),
            EventView::End => (
                EngineView { phase: Phase::ResponseAllWrite, ..s },
                ActionView::WriteClient(Seq::empty()),
            ),
            _ => close(s),
        },
        Phase::ResponseAllWrite => match e {
            EventView::Done => finish(s),
            _ => close(s),
        },
        Phase::Logged => match e {
            EventView::Failed => close(s),
            _ => after_request(s),
        },
        Phase::ClosingBackend => match e {
            EventView::Failed => close(s),
            _ => read_head(s),
        },
        Phase::Closed => close(s),
    }
}

/// The one byte that a read gave, where it gave just one.
fn single(event: &Event) -> (r: Option<u8>)
    ensures
        r == one_byte(event@),
{
    match event {
        Event::Data(b) => if b.len() == 1 {
            Some(b[0])
        } else {
            None
        },
        _ => None,
    }
}

/// The most bytes that the next read of a body asks for.
fn block(remaining: usize) -> (r: usize)
    ensures
        r == block_of(remaining),
{
    if remaining < BLOCK {
        remaining
    } else {
        BLOCK
    }
}

impl Engine {
    /// The state of a connection that was just accepted from `peer`.
    pub fn new(peer: ClientAddr, https: bool) -> (r: Engine)
        ensures
            r@ == fresh(peer@, https),
    {
        Engine {
            phase: Phase::Idle,
            https,
            peer,
            addr: peer,
            buf: Vec::new(),
            conn: None,
            backend_open: false,
            remaining: 0,
            in_chunk: false,
            last_chunk: false,
            tag: 0,
            length: None,
            chunked: false,
            method: Vec::new(),
            target: Vec::new(),
        }
    }

    fn close(&mut self) -> (r: Action)
        ensures
            (final(self)@, r@) == close(old(self)@),
    {
        self.phase = Phase::Closed;
        self.backend_open = false;
        Action::Close
    }

    fn read_head(&mut self) -> (r: Action)
        ensures
            (final(self)@, r@) == read_head(old(self)@),
    {
        self.phase = Phase::RequestHead;
        self.buf = Vec::new();
        Action::ReadClient(1)
    }

    fn read_body(&mut self) -> (r: Action)
        ensures
            (final(self)@, r@) == read_body(old(self)@),
    {
        self.phase = Phase::Body;
        Action::ReadClient(block(self.remaining))
    }

    fn read_chunk_line(&mut self) -> (r: Action)
        ensures
            (final(self)@, r@) == read_chunk_line(old(self)@),
    {
        self.phase = Phase::ChunkLine;
        self.buf = Vec::new();
        Action::ReadClient(1)
    }

    fn read_response(&mut self) -> (r: Action)
        ensures
            (final(self)@, r@) == read_response(old(self)@),
    {
        self.phase = Phase::ResponseBody;
        Action::ReadBackend(block(self.remaining))
    }

    fn begin_response(&mut self) -> (r: Action)
        ensures
            (final(self)@, r@) == begin_response(old(self)@),
    {
        let kept: Option<bool> = match &self.conn {
            Some(c) => Some(c.site.support_keep_alive),
            None => None,
        };
        match kept {
            Some(true) => {
                self.phase = Phase::ResponseHead;
                self.buf = Vec::new();
                Action::ReadBackend(1)
            },
            Some(false) => {
                self.phase = Phase::ResponseAll;
                Action::ReadBackendToEnd
            },
            None => self.close(),
        }
    }

    fn begin_body(&mut self) -> (r: Action)
        ensures
            (final(self)@, r@) == begin_body(old(self)@),
    {
        match self.length {
            Some(n) => if n > 0 {
                self.remaining = n;
                self.in_chunk = false;
                self.last_chunk = false;
                self.read_body()
            } else if self.chunked {
                self.read_chunk_line()
            } else {
                self.begin_response()
            },
            None => self.close(),
        }
    }

    /// The line that reports the request.
    fn log_line(&self) -> (r: Vec<u8>)
        ensures
            r@ == log_line(self@),
    {
        proof {
            reveal_strlit(" > ");
            reveal_strlit(" ");
            reveal_strlit("://");
            reveal_strlit("http");
            reveal_strlit("https");
        }
        let mut out: Vec<u8> = Vec::new();
        write_text(&mut out, &self.addr);
        append(&mut out, ascii_bytes(" > "));
        append(&mut out, self.method.as_slice());
        append(&mut out, ascii_bytes(" "));
        if self.https {
            append(&mut out, ascii_bytes("https"));
        } else {
            append(&mut out, ascii_bytes("http"));
        }
        append(&mut out, ascii_bytes("://"));
        match &self.conn {
            Some(c) => {
                append(&mut out, c.host.as_slice());
            },
            None => {},
        }
        append(&mut out, ascii_bytes(" "));
        append(&mut out, self.target.as_slice());
        assert(out@ =~= log_line(self@));
        out
    }

    fn finish(&mut self) -> (r: Action)
        ensures
            (final(self)@, r@) == finish(old(self)@),
    {
        let line = self.log_line();
        self.phase = Phase::Logged;
        Action::Log(line)
    }

    fn send_head(&mut self) -> (r: Action)
        ensures
            (final(self)@, r@) == send_head(old(self)@),
    {
        let out: Option<Vec<u8>> = match &self.conn {
            Some(c) => if self.length.is_some() {
                encode_head(
                    self.buf.as_slice(),
                    &self.addr,
                    &c.site.ip_forwarding,
                    &c.site.replace_host,
                )
            } else {
                None
            },
            None => None,
        };
        match out {
            Some(bytes) => {
                self.phase = Phase::SendingHead;
                Action::WriteBackend(bytes)
            },
            None => self.close(),
        }
    }

    /// The address that counts as the client's for a request.
    fn client_addr(&self, mode: &IpForwarding, headers: &Vec<Header>) -> (r: Option<ClientAddr>)
        ensures
            match r {
                Some(a) => effective_addr(self@, mode@, header_views(headers@)) == Some(a@),
                None => effective_addr(self@, mode@, header_views(headers@)) is None,
            },
    {
        match mode {
            IpForwarding::Header(name) => match find_first(
                headers,
                name.as_str().as_bytes(),
                false,
            ) {
                Some(i) => parse_text(headers[i].value.as_slice()),
                None => Some(self.peer),
            },
            _ => Some(self.addr),
        }
    }

    /// What the first request of a connection fixes.
    fn first_request(config: &Config, headers: &Vec<Header>) -> (r: Option<Connection>)
        ensures
            match r {
                Some(c) => choose_conn(config, header_views(headers@)) == Some(c@),
                None => choose_conn(config, header_views(headers@)) is None,
            },
    {
        let host = request_host(headers);
        let name = match utf8_str(host.as_slice()) {
            Some(t) => t,
            None => {
                return None;
            },
        };
        proof {
            vstd::utf8::encode_utf8_decode_utf8(name@);
        }
        let site = match config.get_site(name) {
            Some(s) => s.clone(),
            None => {
                return None;
            },
        };
        let keep_alive = request_keep_alive(headers);
        Some(Connection { site, keep_alive, host })
    }

    fn on_head(&mut self, config: &Config) -> (r: Action)
        ensures
            (final(self)@, r@) == on_head(old(self)@, config),
    {
        let head = match read_request(self.buf.as_slice()) {
            Some(h) => h,
            None => {
                return self.close();
            },
        };
        let addr = match self.client_addr(&config.incoming_ip_forwarding, &head.headers) {
            Some(a) => a,
            None => {
                return self.close();
            },
        };
        let length = body_length(&head.headers);
        let chunked = body_is_chunked(&head.headers);
        if self.conn.is_none() {
            let conn = match Engine::first_request(config, &head.headers) {
                Some(c) => c,
                None => {
                    return self.close();
                },
            };
            let dial = conn.site.host.clone();
            self.addr = addr;
            self.method = head.method;
            self.target = head.target;
            self.length = length;
            self.chunked = chunked;
            self.conn = Some(conn);
            self.phase = Phase::Dialing;
            Action::Dial(dial)
        } else {
            self.addr = addr;
            self.method = head.method;
            self.target = head.target;
            self.length = length;
            self.chunked = chunked;
            if self.backend_open {
                self.send_head()
            } else {
                let dial: Option<String> = match &self.conn {
                    Some(c) => Some(c.site.host.clone()),
                    None => None,
                };
                match dial {
                    Some(host) => {
                        self.phase = Phase::Dialing;
                        Action::Dial(host)
                    },
                    None => self.close(),
                }
            }
        }
    }

    fn after_request(&mut self) -> (r: Action)
        ensures
            (final(self)@, r@) == after_request(old(self)@),
    {
        let flags: Option<(bool, bool)> = match &self.conn {
            Some(c) => Some((c.keep_alive && c.site.enable_keep_alive, c.site.support_keep_alive)),
            None => None,
        };
        match flags {
            Some((true, true)) => self.read_head(),
            Some((true, false)) => {
                self.phase = Phase::ClosingBackend;
                self.backend_open = false;
                Action::CloseBackend
            },
            _ => self.close(),
        }
    }

    fn on_forwarded(&mut self, event: Event) -> (r: Action)
        requires
            old(self).phase == Phase::ForwardedLine || old(self).phase == Phase::ForwardedTag || old(
                self,
            ).phase == Phase::ForwardedBody,
        ensures
            forall|config: &Config| (final(self)@, r@) == #[trigger] next(old(self)@, config, event@),
    {
        match self.phase {
            Phase::ForwardedLine => match single(&event) {
                Some(b) => if b == 10 {
                    match parse_text(self.buf.as_slice()) {
                        Some(a) => {
                            self.addr = a;
                            self.read_head()
                        },
                        None => self.close(),
                    }
                } else {
                    self.buf.push(b);
                    Action::ReadClient(1)
                },
                None => self.close(),
            },
            Phase::ForwardedTag => match single(&event) {
                Some(t) => match binary_rest(t) {
                    Some(n) => {
                        self.phase = Phase::ForwardedBody;
                        self.tag = t;
                        Action::ReadClientExact(n)
                    },
                    None => self.close(),
                },
                None => self.close(),
            },
            _ => match event {
                Event::Data(b) => match read_binary(self.tag, b.as_slice()) {
                    Some(a) => {
                        self.addr = a;
                        self.read_head()
                    },
                    None => self.close(),
                },
                _ => self.close(),
            },
        }
    }

    fn on_request(&mut self, config: &Config, event: Event) -> (r: Action)
        requires
            old(self).phase == Phase::RequestHead,
        ensures
            (final(self)@, r@) == next(old(self)@, config, event@),
    {
        match single(&event) {
            Some(b) => {
                self.buf.push(b);
                let term: Vec<u8> = vec![13u8, 10u8, 13u8, 10u8];
                assert(term@ =~= head_end());
                if has_suffix(self.buf.as_slice(), term.as_slice()) {
                    let n: usize = self.buf.len() - 4;
                    self.buf.truncate(n);
                    self.on_head(config)
                } else {
                    Action::ReadClient(1)
                }
            },
            None => self.close(),
        }
    }

    fn on_body(&mut self, event: Event) -> (r: Action)
        requires
            old(self).phase == Phase::Body || old(self).phase == Phase::BodyWrite || old(self).phase
                == Phase::ChunkLine || old(self).phase == Phase::ChunkLineWrite || old(self).phase
                == Phase::SendingHead,
        ensures
            forall|config: &Config| (final(self)@, r@) == #[trigger] next(old(self)@, config, event@),
    {
        match self.phase {
            Phase::SendingHead => match event {
                Event::Done => self.begin_body(),
                _ => self.close(),
            },
            Phase::Body => match event {
                Event::Data(b) => if 1 <= b.len() && b.len() <= block(self.remaining) {
                    self.phase = Phase::BodyWrite;
                    self.remaining = self.remaining - b.len();
                    Action::WriteBackend(b)
                } else {
                    self.close()
                },
                Event::End => if self.in_chunk {
                    self.close()
                } else {
                    self.begin_response()
                },
                _ => self.close(),
            },
            Phase::BodyWrite => match event {
                Event::Done => if self.remaining > 0 {
                    self.read_body()
                } else if self.in_chunk && !self.last_chunk {
                    self.read_chunk_line()
                } else {
                    self.begin_response()
                },
                _ => self.close(),
            },
            Phase::ChunkLine => match single(&event) {
                Some(b) => {
                    self.buf.push(b);
                    let term: Vec<u8> = vec![13u8, 10u8];
                    assert(term@ =~= crlf());
                    if has_suffix(self.buf.as_slice(), term.as_slice()) {
                        let digits = prefix(self.buf.as_slice(), self.buf.len() - 2);
                        match read_number(digits.as_slice(), Radix::Sixteen, usize::MAX - 2) {
                            Some(n) => {
                                self.phase = Phase::ChunkLineWrite;
                                self.remaining = n + 2;
                                self.in_chunk = true;
                                self.last_chunk = n == 0;
                                Action::WriteBackend(to_vec(self.buf.as_slice()))
                            },
                            None => self.close(),
                        }
                    } else {
                        Action::ReadClient(1)
                    }
                },
                None => self.close(),
            },
            _ => match event {
                Event::Done => self.read_body(),
                _ => self.close(),
            },
        }
    }

    fn on_response(&mut self, event: Event) -> (r: Action)
        requires
            old(self).phase == Phase::ResponseHead || old(self).phase == Phase::ResponseHeadWrite
                || old(self).phase == Phase::ResponseBody || old(self).phase
                == Phase::ResponseBodyWrite || old(self).phase == Phase::ResponseAll || old(
                self,
            ).phase == Phase::ResponseAllWrite,
        ensures
            forall|config: &Config| (final(self)@, r@) == #[trigger] next(old(self)@, config, event@),
    {
        match self.phase {
            Phase::ResponseHead => match single(&event) {
                Some(b) => {
                    self.phase = Phase::ResponseHeadWrite;
                    self.buf.push(b);
                    let copy: Vec<u8> = vec![b];
                    assert(copy@ =~= seq![b]);
                    Action::WriteClient(copy)
                },
                None => self.close(),
            },
            Phase::ResponseHeadWrite => match event {
                Event::Done => {
                    let term: Vec<u8> = vec![13u8, 10u8, 13u8, 10u8];
                    assert(term@ =~= head_end());
                    if has_suffix(self.buf.as_slice(), term.as_slice()) {
                        let head = prefix(self.buf.as_slice(), self.buf.len() - 4);
                        match read_response_length(head.as_slice()) {
                            Some(n) => if n > 0 {
                                self.remaining = n;
                                self.read_response()
                            } else {
                                self.finish()
                            },
                            None => self.close(),
                        }
                    } else {
                        self.phase = Phase::ResponseHead;
                        Action::ReadBackend(1)
                    }
                },
                _ => self.close(),
            },
            Phase::ResponseBody => match event {
                Event::Data(b) => if 1 <= b.len() && b.len() <= block(self.remaining) {
                    self.phase = Phase::ResponseBodyWrite;
                    self.remaining = self.remaining - b.len();
                    Action::WriteClient(b)
                } else {
                    self.close()
                },
                Event::End => self.finish(),
                _ => self.close(),
            },
            Phase::ResponseBodyWrite => match event {
                Event::Done => if self.remaining > 0 {
                    self.read_response()
                } else {
                    self.finish()
                },
                _ => self.close(),
            },
            Phase::ResponseAll => match event {
                Event::Data(b) => {
                    self.phase = Phase::ResponseAllWrite;
                    Action::WriteClient(b)
                },
                Event::End => {
                    self.phase = Phase::ResponseAllWrite;
                    Action::WriteClient(Vec::new())
                },
                _ => self.close(),
            },
            _ => match event {
                Event::Done => self.finish(),
                _ => self.close(),
            },
        }
    }

    /// Takes the machine one step on: told what happened, it moves to the
    /// next state and says what to do.
    pub fn step(&mut self, config: &Config, event: Event) -> (r: Action)
        ensures
            (final(self)@, r@) == next(old(self)@, config, event@),
    {
        match self.phase {
            Phase::Idle => match event {
                Event::Start => match &config.incoming_ip_forwarding {
                    IpForwarding::Simple => {
                        self.phase = Phase::ForwardedLine;
                        self.buf = Vec::new();
                        Action::ReadClient(1)
                    },
                    IpForwarding::Modern => {
                        self.phase = Phase::ForwardedTag;
                        Action::ReadClient(1)
                    },
                    _ => self.read_head(),
                },
                _ => self.close(),
            },
            Phase::ForwardedLine | Phase::ForwardedTag | Phase::ForwardedBody => self.on_forwarded(
                event,
            ),
            Phase::RequestHead => self.on_request(config, event),
            Phase::Dialing => match event {
                Event::Done => {
                    self.backend_open = true;
                    self.send_head()
                },
                _ => self.close(),
            },
            Phase::SendingHead | Phase::Body | Phase::BodyWrite | Phase::ChunkLine
            | Phase::ChunkLineWrite => self.on_body(event),
            Phase::ResponseHead | Phase::ResponseHeadWrite | Phase::ResponseBody
            | Phase::ResponseBodyWrite | Phase::ResponseAll | Phase::ResponseAllWrite => self.on_response(
                event,
            ),
            Phase::Logged => match event {
                Event::Failed => self.close(),
                _ => self.after_request(),
            },
            Phase::ClosingBackend => match event {
                Event::Failed => self.close(),
                _ => self.read_head(),
            },
            Phase::Closed => self.close(),
        }
    }
}

} // verus!
