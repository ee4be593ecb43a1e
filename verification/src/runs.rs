//! What holds of every run of the connection machine, whatever happens on
//! the wire: how many backend connections are open, and what of a request's
//! body reaches the backend.

use vstd::prelude::*;
use crate::addr::AddrView;
use crate::config::Config;
use crate::forward::{address_prefix, encode, hosted_head, outgoing_head};
use crate::text::{head_end, text_of};
use crate::server::{
    after_request, begin_body, begin_response, block_of, close, finish, fresh, next, on_head,
    one_byte, read_body, read_chunk_line, read_head, read_response, send_head, ActionView,
    EngineView, EventView, Phase,
};

verus! {

/// How many backend connections are open once the driver has carried out
/// `action` and seen `event`: a dial that is done opens one, the shutdown
/// of the backend connection closes it, and the close of the whole
/// connection leaves none.
pub open spec fn open_after(open: nat, action: Option<ActionView>, event: EventView) -> nat {
    match action {
        Some(ActionView::Dial(_)) => if event is Done {
            open + 1
        } else {
            open
        },
        Some(ActionView::CloseBackend) => if open > 0 {
            (open - 1) as nat
        } else {
            0
        },
        Some(ActionView::Close) => 0,
        _ => open,
    }
}

/// The machine and the wire agree: `pending` is what the machine asked for
/// last, and `open` backend connections are open before it is carried out.
pub open spec fn coherent(s: EngineView, pending: Option<ActionView>, open: nat) -> bool {
    &&& s.conn is None ==> !s.backend_open
    &&& s.phase == Phase::Dialing ==> s.conn is Some
    &&& match pending {
        Some(ActionView::Close) => s.phase == Phase::Closed && !s.backend_open && open <= 1,
        Some(ActionView::CloseBackend) => s.phase == Phase::ClosingBackend && !s.backend_open
            && open <= 1,
        Some(ActionView::Dial(_)) => s.phase == Phase::Dialing && !s.backend_open && open == 0,
        _ => {
            &&& s.phase != Phase::Closed
            &&& s.phase != Phase::ClosingBackend
            &&& s.phase != Phase::Dialing
            &&& open == if s.backend_open {
                1nat
            } else {
                0nat
            }
        },
    }
}

/// The machine asked for nothing that opens or closes a connection, and
/// as many backend connections are open as it takes to be.
pub open spec fn at_rest(s: EngineView, open: nat) -> bool {
    &&& s.conn is None ==> !s.backend_open
    &&& open == if s.backend_open {
        1nat
    } else {
        0nat
    }
}

/// The machine and the wire agree after `step`, with `open` connections.
pub open spec fn agree(step: (EngineView, ActionView), open: nat) -> bool {
    coherent(step.0, Some(step.1), open)
}

proof fn lemma_close(s: EngineView, open: nat)
    requires
        open <= 1,
    ensures
        agree(close(s), open),
{
}

proof fn lemma_reads(s: EngineView, open: nat)
    requires
        at_rest(s, open),
    ensures
        agree(read_head(s), open),
        agree(read_body(s), open),
        agree(read_chunk_line(s), open),
        agree(read_response(s), open),
        agree(finish(s), open),
{
}

proof fn lemma_begin_response(s: EngineView, open: nat)
    requires
        at_rest(s, open),
    ensures
        agree(begin_response(s), open),
{
}

proof fn lemma_begin_body(s: EngineView, open: nat)
    requires
        at_rest(s, open),
    ensures
        agree(begin_body(s), open),
{
    lemma_begin_response(s, open);
    lemma_reads(s, open);
    match s.length {
        Some(n) => {
            lemma_reads(
                EngineView { remaining: n, in_chunk: false, last_chunk: false, ..s },
                open,
            );
        },
        None => {},
    }
}

proof fn lemma_send_head(s: EngineView, open: nat)
    requires
        at_rest(s, open),
    ensures
        agree(send_head(s), open),
{
}

proof fn lemma_on_head(s: EngineView, config: &Config, open: nat)
    requires
        at_rest(s, open),
    ensures
        agree(on_head(s, config), open),
{
    match crate::request::parse_request(s.buf) {
        Some(h) => match crate::server::effective_addr(
            s,
            config.incoming_ip_forwarding@,
            h.headers,
        ) {
            Some(a) => {
                let s1 = crate::server::framed(s, a, h.method, h.target, h.headers);
                lemma_send_head(s1, open);
            },
            None => {},
        },
        None => {},
    }
}

proof fn lemma_after_request(s: EngineView, open: nat)
    requires
        at_rest(s, open),
    ensures
        agree(after_request(s), open),
{
    lemma_reads(s, open);
}

/// A step keeps the machine and the wire in agreement, and at most one
/// backend connection is open before and after it.
pub proof fn lemma_step_coherent(
    s: EngineView,
    pending: Option<ActionView>,
    open: nat,
    config: &Config,
    e: EventView,
)
    requires
        coherent(s, pending, open),
    ensures
        open <= 1,
        open_after(open, pending, e) <= 1,
        coherent(next(s, config, e).0, Some(next(s, config, e).1), open_after(open, pending, e)),
{
    let after = open_after(open, pending, e);
    lemma_close(s, after);
    match s.phase {
        Phase::Idle => {
            lemma_reads(s, after);
        },
        Phase::ForwardedLine => {
            match one_byte(e) {
                Some(b) => {
                    match crate::addr::parse_addr_text(s.buf) {
                        Some(a) => {
                            lemma_reads(EngineView { addr: a, ..s }, after);
                        },
                        None => {},
                    }
                },
                None => {},
            }
        },
        Phase::ForwardedTag => {},
        Phase::ForwardedBody => {
            match e {
                EventView::Data(b) => match crate::addr::from_binary(s.tag, b) {
                    Some(a) => {
                        lemma_reads(EngineView { addr: a, ..s }, after);
                    },
                    None => {},
                },
                _ => {},
            }
        },
        Phase::RequestHead => {
            match one_byte(e) {
                Some(b) => {
                    let buf = s.buf.push(b);
                    if crate::text::ends_with(buf, crate::text::head_end()) {
                        lemma_on_head(
                            EngineView { buf: buf.subrange(0, buf.len() - 4), ..s },
                            config,
                            after,
                        );
                    }
                },
                None => {},
            }
        },
        Phase::Dialing => {
            if e is Done {
                lemma_send_head(EngineView { backend_open: true, ..s }, after);
            }
        },
        Phase::SendingHead => {
            lemma_begin_body(s, after);
        },
        Phase::Body => {
            lemma_begin_response(s, after);
        },
        Phase::BodyWrite => {
            lemma_reads(s, after);
            lemma_begin_response(s, after);
        },
        Phase::ChunkLine => {},
        Phase::ChunkLineWrite => {
            lemma_reads(s, after);
        },
        Phase::ResponseHead => {},
        Phase::ResponseHeadWrite => {
            lemma_reads(s, after);
            if e is Done && crate::text::ends_with(s.buf, crate::text::head_end()) {
                match crate::request::response_length(
                    s.buf.subrange(0, s.buf.len() - 4),
                    usize::MAX as nat,
                ) {
                    Some(n) => {
                        lemma_reads(EngineView { remaining: n as usize, ..s }, after);
                    },
                    None => {},
                }
            }
        },
        Phase::ResponseBody => {
            lemma_reads(s, after);
        },
        Phase::ResponseBodyWrite => {
            lemma_reads(s, after);
        },
        Phase::ResponseAll => {},
        Phase::ResponseAllWrite => {
            lemma_reads(s, after);
        },
        Phase::Logged => {
            lemma_after_request(s, after);
        },
        Phase::ClosingBackend => {
            lemma_reads(s, after);
        },
        Phase::Closed => {},
    }
}

/// The machine after the events of `events`, one after the other, from
/// the accept on: its state, what it asked for last, and how many backend
/// connections are open before that is carried out.
pub open spec fn run(config: &Config, peer: AddrView, https: bool, events: Seq<EventView>) -> (
    EngineView,
    Option<ActionView>,
    nat,
)
    decreases events.len(),
{
    if events.len() == 0 {
        (fresh(peer, https), None, 0)
    } else {
        let before = run(config, peer, https, events.drop_last());
        let step = next(before.0, config, events.last());
        (step.0, Some(step.1), open_after(before.2, before.1, events.last()))
    }
}

/// At most one backend connection is open at any time of any run.
pub proof fn lemma_one_backend(config: &Config, peer: AddrView, https: bool, events: Seq<EventView>)
    ensures
        run(config, peer, https, events).2 <= 1,
        coherent(
            run(config, peer, https, events).0,
            run(config, peer, https, events).1,
            run(config, peer, https, events).2,
        ),
    decreases events.len(),
{
    if events.len() > 0 {
        let before = run(config, peer, https, events.drop_last());
        lemma_one_backend(config, peer, https, events.drop_last());
        lemma_step_coherent(before.0, before.1, before.2, config, events.last());
    }
}

/// The machine asks for a dial only while no backend connection is open.
pub proof fn lemma_dial_when_closed(
    config: &Config,
    peer: AddrView,
    https: bool,
    events: Seq<EventView>,
)
    ensures
        run(config, peer, https, events).1 matches Some(ActionView::Dial(_)) ==> run(
            config,
            peer,
            https,
            events,
        ).2 == 0,
{
    lemma_one_backend(config, peer, https, events);
}

/// The bytes of a request body that a step takes from the client: a block
/// of the body, or a byte of a chunk's size line.
pub open spec fn body_read(s: EngineView, e: EventView) -> Seq<u8> {
    match e {
        EventView::Data(b) => if s.phase == Phase::Body && 1 <= b.len() <= block_of(s.remaining) {
            b
        } else if s.phase == Phase::ChunkLine && b.len() == 1 {
            b
        } else {
            Seq::empty()
        },
        _ => Seq::empty(),
    }
}

/// The bytes of a request body that a step hands to the backend.
pub open spec fn body_written(s: EngineView, a: ActionView) -> Seq<u8> {
    match a {
        ActionView::WriteBackend(b) => if s.phase == Phase::Body || s.phase == Phase::ChunkLine {
            b
        } else {
            Seq::empty()
        },
        _ => Seq::empty(),
    }
}

/// A step hands a block of the body on as it came: what is written to the
/// backend is what was read from the client, byte for byte, no more is
/// asked of the client than is still to come, and what is still to come
/// goes down by the block's length.
pub proof fn lemma_block_handed_on(s: EngineView, config: &Config, b: Seq<u8>)
    requires
        s.phase == Phase::Body,
        1 <= b.len() <= block_of(s.remaining),
    ensures
        next(s, config, EventView::Data(b)).1 == ActionView::WriteBackend(b),
        next(s, config, EventView::Data(b)).0.remaining + b.len() == s.remaining,
        block_of(s.remaining) <= s.remaining,
        block_of(s.remaining) <= 4096,
{
}

/// All bytes of request bodies that the client gave in a run.
pub open spec fn taken(config: &Config, peer: AddrView, https: bool, events: Seq<EventView>) -> Seq<
    u8,
>
    decreases events.len(),
{
    if events.len() == 0 {
        Seq::empty()
    } else {
        taken(config, peer, https, events.drop_last()) + body_read(
            run(config, peer, https, events.drop_last()).0,
            events.last(),
        )
    }
}

/// All bytes of request bodies that went to the backend in a run.
pub open spec fn given(config: &Config, peer: AddrView, https: bool, events: Seq<EventView>) -> Seq<
    u8,
>
    decreases events.len(),
{
    if events.len() == 0 {
        Seq::empty()
    } else {
        given(config, peer, https, events.drop_last()) + body_written(
            run(config, peer, https, events.drop_last()).0,
            run(config, peer, https, events).1.unwrap(),
        )
    }
}

/// What went to the backend of the bodies and what is gathered of a size
/// line make up what the client gave.
pub open spec fn relayed(s: EngineView, taken: Seq<u8>, given: Seq<u8>) -> bool {
    if s.phase == Phase::ChunkLine {
        taken == given + s.buf
    } else if s.phase == Phase::Closed {
        given.is_prefix_of(taken)
    } else {
        taken == given
    }
}

/// A step keeps what went to the backend in line with what the client gave.
pub proof fn lemma_step_relayed(
    s: EngineView,
    config: &Config,
    e: EventView,
    taken: Seq<u8>,
    given: Seq<u8>,
)
    requires
        relayed(s, taken, given),
    ensures
        relayed(
            next(s, config, e).0,
            taken + body_read(s, e),
            given + body_written(s, next(s, config, e).1),
        ),
{
    let step = next(s, config, e);
    let t2 = taken + body_read(s, e);
    let g2 = given + body_written(s, step.1);
    if s.phase == Phase::ChunkLine {
        match one_byte(e) {
            Some(b) => {
                let buf = s.buf.push(b);
                assert(body_read(s, e) =~= seq![b]);
                assert(t2 =~= given + buf);
                if step.0.phase == Phase::Closed {
                    assert(g2 =~= given);
                    assert(given.is_prefix_of(t2));
                } else if step.0.phase == Phase::ChunkLineWrite {
                    assert(g2 =~= given + buf);
                } else {
                    assert(g2 =~= given);
                }
            },
            None => {
                assert(g2 =~= given);
                assert(given.is_prefix_of(t2));
            },
        }
    } else if s.phase == Phase::Body {
        assert(body_read(s, e) =~= body_written(s, step.1));
        lemma_body_exits(s, config, e);
        if step.0.phase == Phase::Closed {
            assert(given.is_prefix_of(t2));
        }
    } else if s.phase == Phase::Closed {
        assert(t2 =~= taken);
        assert(g2 =~= given);
    } else {
        assert(t2 =~= taken);
        assert(g2 =~= given);
        lemma_no_line_entered(s, config, e);
        if step.0.phase == Phase::ChunkLine {
            assert(step.0.buf =~= Seq::<u8>::empty());
            assert(t2 =~= g2 + step.0.buf);
        } else if step.0.phase == Phase::Closed {
            assert(g2.is_prefix_of(t2));
        }
    }
}

/// From the reading of a body the machine goes to the writing of the
/// block, to the response or to the close.
proof fn lemma_body_exits(s: EngineView, config: &Config, e: EventView)
    requires
        s.phase == Phase::Body,
    ensures
        next(s, config, e).0.phase != Phase::ChunkLine,
{
}

/// Wherever the machine starts to read a size line, it has gathered
/// nothing of it yet.
proof fn lemma_no_line_entered(s: EngineView, config: &Config, e: EventView)
    requires
        s.phase != Phase::ChunkLine,
    ensures
        next(s, config, e).0.phase == Phase::ChunkLine ==> next(s, config, e).0.buf
            == Seq::<u8>::empty(),
{
    match s.phase {
        Phase::RequestHead => {
            match one_byte(e) {
                Some(b) => {
                    let buf = s.buf.push(b);
                    if crate::text::ends_with(buf, crate::text::head_end()) {
                        let s0 = EngineView { buf: buf.subrange(0, buf.len() - 4), ..s };
                        assert(on_head(s0, config).0.phase != Phase::ChunkLine);
                    }
                },
                None => {},
            }
        },
        Phase::Dialing => {
            assert(send_head(EngineView { backend_open: true, ..s }).0.phase != Phase::ChunkLine);
        },
        _ => {},
    }
}

/// In every run, what went to the backend of the request bodies is what
/// the client gave of them, byte for byte and in the same number, but for
/// the bytes gathered of a size line that is still being read and for what
/// came in when the connection was given up.
pub proof fn lemma_body_relayed(config: &Config, peer: AddrView, https: bool, events: Seq<EventView>)
    ensures
        relayed(
            run(config, peer, https, events).0,
            taken(config, peer, https, events),
            given(config, peer, https, events),
        ),
        given(config, peer, https, events).is_prefix_of(taken(config, peer, https, events)),
    decreases events.len(),
{
    if events.len() > 0 {
        let front = events.drop_last();
        lemma_body_relayed(config, peer, https, front);
        let before = run(config, peer, https, front);
        lemma_step_relayed(
            before.0,
            config,
            events.last(),
            taken(config, peer, https, front),
            given(config, peer, https, front),
        );
    } else {
        assert(fresh(peer, https).phase == Phase::Idle);
    }
    let s = run(config, peer, https, events).0;
    let t = taken(config, peer, https, events);
    let g = given(config, peer, https, events);
    if s.phase == Phase::ChunkLine {
        assert(t.subrange(0, g.len() as int) =~= g);
    }
}

/// Whenever a step sends a request head to the backend, what it writes is
/// the client's address in the form that the site asks for, the outgoing
/// head and the blank line, and nothing else: the head in the new state's
/// buffer, encoded for the address that counts as the client's.
pub proof fn lemma_head_encoded(s: EngineView, config: &Config, e: EventView)
    requires
        next(s, config, e).0.phase == Phase::SendingHead,
        s.phase == Phase::RequestHead || s.phase == Phase::Dialing,
    ensures
        ({
            let after = next(s, config, e).0;
            let site = after.conn.unwrap().site;
            let base = hosted_head(after.buf, text_of(site.replace_host));
            &&& after.conn is Some
            &&& base is Some
            &&& encode(after.buf, after.addr, site.ip_forwarding@, text_of(site.replace_host)) is Some
            &&& next(s, config, e).1 == ActionView::WriteBackend(
                address_prefix(site.ip_forwarding@, after.addr) + outgoing_head(
                    base.unwrap(),
                    site.ip_forwarding@,
                    after.addr,
                ) + head_end(),
            )
        }),
{
    if s.phase == Phase::RequestHead {
        match one_byte(e) {
            Some(b) => {
                let buf = s.buf.push(b);
                if crate::text::ends_with(buf, head_end()) {
                    let s0 = EngineView { buf: buf.subrange(0, buf.len() - 4), ..s };
                    lemma_on_head_sends(s0, config);
                }
            },
            None => {},
        }
    }
}

/// Where the machine sends a head as soon as it is complete, it sends the
/// head encoded.
proof fn lemma_on_head_sends(s: EngineView, config: &Config)
    requires
        on_head(s, config).0.phase == Phase::SendingHead,
    ensures
        ({
            let after = on_head(s, config).0;
            let site = after.conn.unwrap().site;
            &&& after.conn is Some
            &&& on_head(s, config).1 == ActionView::WriteBackend(
                encode(
                    after.buf,
                    after.addr,
                    site.ip_forwarding@,
                    text_of(site.replace_host),
                ).unwrap(),
            )
            &&& encode(after.buf, after.addr, site.ip_forwarding@, text_of(site.replace_host)) is Some
        }),
{
    match crate::request::parse_request(s.buf) {
        Some(h) => match crate::server::effective_addr(
            s,
            config.incoming_ip_forwarding@,
            h.headers,
        ) {
            Some(a) => {
                let s1 = crate::server::framed(s, a, h.method, h.target, h.headers);
                assert(send_head(s1).0.phase == Phase::SendingHead ==> send_head(s1).0.buf == s1.buf);
            },
            None => {},
        },
        None => {},
    }
}

/// What the first request of a connection fixed stays as it is: every
/// later request goes to the same site, whatever host it names.
#[verifier::rlimit(50)]
pub proof fn lemma_connection_fixed(s: EngineView, config: &Config, e: EventView)
    requires
        s.conn is Some,
    ensures
        next(s, config, e).0.conn == s.conn,
{
    if s.phase == Phase::RequestHead {
        match one_byte(e) {
            Some(b) => {
                let buf = s.buf.push(b);
                if crate::text::ends_with(buf, head_end()) {
                    let s0 = EngineView { buf: buf.subrange(0, buf.len() - 4), ..s };
                    assert(on_head(s0, config).0.conn == s.conn);
                }
            },
            None => {},
        }
    }
}

/// Every dial goes to the backend of the connection's site.
pub proof fn lemma_dial_target(s: EngineView, config: &Config, e: EventView)
    ensures
        next(s, config, e).1 matches ActionView::Dial(host) ==> next(s, config, e).0.conn is Some
            && host == next(s, config, e).0.conn.unwrap().site.host@,
{
    if s.phase == Phase::RequestHead {
        match one_byte(e) {
            Some(b) => {
                let buf = s.buf.push(b);
                if crate::text::ends_with(buf, head_end()) {
                    let s0 = EngineView { buf: buf.subrange(0, buf.len() - 4), ..s };
                    let step = on_head(s0, config);
                    assert(step.1 matches ActionView::Dial(host) ==> step.0.conn is Some && host
                        == step.0.conn.unwrap().site.host@);
                }
            },
            None => {},
        }
    }
}

} // verus!
