//! What is written to a backend before a request's body: the request head,
//! with the client's address in the form that the site asks for.

use vstd::prelude::*;
use vstd::utf8::encode_utf8;
use crate::addr::{addr_text, binary_form, write_binary, write_text, AddrView, ClientAddr};
use crate::config::{ForwardingView, IpForwarding};
use crate::request::{header_of, read_header};
use crate::text::{
    append, ascii, ascii_bytes, colon_space, crlf, eq_ignore_case, equals_ignore_case, head_end,
    join, lemma_join_push, lemma_split_pieces, split, split_bytes, text_of, views,
};

verus! {

/// Lines with a line break between every two of them.
pub open spec fn join_lines(ls: Seq<Seq<u8>>) -> Seq<u8> {
    join(ls, crlf())
}

/// A line with the value of its header replaced by `host`, where the line
/// writes a header whose key is `Host` in any case; the line itself
/// otherwise.
pub open spec fn host_line(line: Seq<u8>, host: Seq<u8>) -> Seq<u8> {
    match header_of(line) {
        Some(h) => if eq_ignore_case(h.0, ascii("host"@)) {
            h.0 + colon_space() + host
        } else {
            line
        },
        None => line,
    }
}

/// Every line after the first writes a header.
pub open spec fn headers_only(ls: Seq<Seq<u8>>) -> bool {
    forall|k: int| 1 <= k < ls.len() ==> header_of(#[trigger] ls[k]) is Some
}

/// The lines of a head after its `Host` headers got the value `host`.
pub open spec fn host_lines(ls: Seq<Seq<u8>>, host: Seq<u8>) -> Seq<Seq<u8>> {
    Seq::new(
        ls.len(),
        |k: int|
            if k == 0 {
                ls[0]
            } else {
                host_line(ls[k], host)
            },
    )
}

/// The head with the value of every `Host` header replaced by `host`: the
/// first line and all other headers stay as they are. There is no such
/// head where a line after the first writes no header.
pub open spec fn rewrite_host(head: Seq<u8>, host: Seq<u8>) -> Option<Seq<u8>> {
    let ls = split(head, crlf());
    if headers_only(ls) {
        Some(join_lines(host_lines(ls, host)))
    } else {
        None
    }
}

/// A line is handed on beside a header named `name`: it writes a header,
/// and one with another key.
pub open spec fn kept(line: Seq<u8>, name: Seq<u8>) -> bool {
    match header_of(line) {
        Some(h) => !eq_ignore_case(h.0, name),
        None => false,
    }
}

/// The lines among `ls` that are handed on beside a header named `name`.
pub open spec fn kept_lines(ls: Seq<Seq<u8>>, name: Seq<u8>) -> Seq<Seq<u8>>
    decreases ls.len(),
{
    if ls.len() == 0 {
        Seq::empty()
    } else if kept(ls.last(), name) {
        kept_lines(ls.drop_last(), name).push(ls.last())
    } else {
        kept_lines(ls.drop_last(), name)
    }
}

/// The lines of the head that carries the client's address in a header:
/// the first line, the headers with another key than `name`, and a header
/// `name` whose value is the address.
pub open spec fn header_mode_lines(head: Seq<u8>, name: Seq<u8>, addr: Seq<u8>) -> Seq<Seq<u8>> {
    let ls = split(head, crlf());
    seq![ls[0]] + kept_lines(ls.subrange(1, ls.len() as int), name) + seq![
        name + colon_space() + addr,
    ]
}

/// The bytes that stand before the head: the address as a line of text,
/// the address in binary form, or nothing.
pub open spec fn address_prefix(mode: ForwardingView, addr: AddrView) -> Seq<u8> {
    match mode {
        ForwardingView::Simple => addr_text(addr) + seq![10u8],
        ForwardingView::Modern => binary_form(addr),
        ForwardingView::Header(_) => Seq::empty(),
        ForwardingView::Off => Seq::empty(),
    }
}

/// The head as the backend gets it: with the address in a header where the
/// scheme asks for one, and unchanged otherwise.
pub open spec fn outgoing_head(head: Seq<u8>, mode: ForwardingView, addr: AddrView) -> Seq<u8> {
    match mode {
        ForwardingView::Header(name) => join_lines(
            header_mode_lines(head, encode_utf8(name), addr_text(addr)),
        ),
        _ => head,
    }
}

/// The head after the site's replacement host, if it has one, was put in.
pub open spec fn hosted_head(head: Seq<u8>, replace_host: Option<Seq<char>>) -> Option<Seq<u8>> {
    match replace_host {
        Some(host) => rewrite_host(head, encode_utf8(host)),
        None => Some(head),
    }
}

/// What is written to the backend for a request head: the address prefix,
/// the outgoing head and the blank line that ends it. Nothing is written
/// where the site has a replacement host and the head has a line after
/// the first that writes no header.
pub open spec fn encode(
    head: Seq<u8>,
    addr: AddrView,
    mode: ForwardingView,
    replace_host: Option<Seq<char>>,
) -> Option<Seq<u8>> {
    match hosted_head(head, replace_host) {
        Some(base) => Some(address_prefix(mode, addr) + outgoing_head(base, mode, addr) + head_end()),
        None => None,
    }
}

/// Splits a head at its line breaks.
fn break_lines(head: &[u8]) -> (r: Vec<Vec<u8>>)
    ensures
        views(r@) == split(head@, crlf()),
        r@.len() >= 1,
{
    let sep: Vec<u8> = vec![13u8, 10u8];
    assert(sep@ =~= crlf());
    let lines = split_bytes(head, sep.as_slice());
    proof {
        lemma_split_pieces(head@, crlf());
        assert(views(lines@).len() == lines@.len());
    }
    lines
}

/// Puts `host` in as the value of every `Host` header of the head.
pub fn replace_host(head: &[u8], host: &[u8]) -> (r: Option<Vec<u8>>)
    ensures
        match r {
            Some(out) => rewrite_host(head@, host@) == Some(out@),
            None => rewrite_host(head@, host@) is None,
        },
{
    let lines = break_lines(head);
    let ghost ls = split(head@, crlf());
    let ghost target = host_lines(ls, host@);
    let mut out: Vec<u8> = Vec::new();
    assert(views(lines@)[0] == lines@[0]@);
    append(&mut out, lines[0].as_slice());
    assert(target.subrange(0, 1) =~= seq![ls[0]]);
    assert(out@ =~= join_lines(target.subrange(0, 1)));
    let mut k: usize = 1;
    while k < lines.len()
        invariant
            1 <= k <= lines@.len(),
            ls == split(head@, crlf()),
            views(lines@) == ls,
            target == host_lines(ls, host@),
            forall|j: int| 1 <= j < k ==> header_of(#[trigger] ls[j]) is Some,
            out@ == join_lines(target.subrange(0, k as int)),
        decreases lines@.len() - k,
    {
        proof {
            reveal_strlit("host");
            assert(views(lines@)[k as int] == lines@[k as int]@);
            assert(views(lines@).len() == lines@.len());
            lemma_join_push(target.subrange(0, k as int), crlf(), target[k as int]);
            assert(target.subrange(0, k as int).push(target[k as int]) =~= target.subrange(
                0,
                k + 1,
            ));
        }
        let line = lines[k].as_slice();
        match read_header(line) {
            Some(h) => {
                out.push(13);
                out.push(10);
                if equals_ignore_case(h.key.as_slice(), ascii_bytes("host")) {
                    append(&mut out, h.key.as_slice());
                    out.push(58);
                    out.push(32);
                    append(&mut out, host);
                } else {
                    append(&mut out, line);
                }
                assert(out@ =~= join_lines(target.subrange(0, k as int)) + crlf() + target[k as int]);
            },
            None => {
                return None;
            },
        }
        k += 1;
    }
    proof {
        assert(views(lines@).len() == lines@.len());
        assert(target.subrange(0, k as int) =~= target);
    }
    Some(out)
}

/// Appends the head that carries the address `addr` in a header `name`.
fn write_header_mode(out: &mut Vec<u8>, head: &[u8], name: &[u8], addr: &[u8])
    ensures
        final(out)@ == old(out)@ + join_lines(header_mode_lines(head@, name@, addr@)),
{
    let lines = break_lines(head);
    let ghost ls = split(head@, crlf());
    let ghost rest = ls.subrange(1, ls.len() as int);
    assert(views(lines@)[0] == lines@[0]@);
    append(out, lines[0].as_slice());
    let ghost done: Seq<Seq<u8>> = seq![ls[0]];
    assert(join_lines(done) == ls[0]);
    assert(rest.subrange(0, 0) =~= Seq::<Seq<u8>>::empty());
    let mut k: usize = 1;
    while k < lines.len()
        invariant
            1 <= k <= lines@.len(),
            ls == split(head@, crlf()),
            views(lines@) == ls,
            rest == ls.subrange(1, ls.len() as int),
            done == seq![ls[0]] + kept_lines(rest.subrange(0, k - 1), name@),
            out@ == old(out)@ + join_lines(done),
        decreases lines@.len() - k,
    {
        let ghost seen = rest.subrange(0, k - 1);
        let ghost next = rest.subrange(0, k as int);
        proof {
            assert(views(lines@)[k as int] == lines@[k as int]@);
            assert(views(lines@).len() == lines@.len());
            assert(next.drop_last() =~= seen);
            assert(next.last() == ls[k as int]);
        }
        let line = lines[k].as_slice();
        let keep = match read_header(line) {
            Some(h) => !equals_ignore_case(h.key.as_slice(), name),
            None => false,
        };
        if keep {
            out.push(13);
            out.push(10);
            append(out, line);
            proof {
                lemma_join_push(done, crlf(), line@);
                assert(done.push(line@) =~= seq![ls[0]] + kept_lines(next, name@));
                done = done.push(line@);
                assert(out@ =~= old(out)@ + join_lines(done));
            }
        }
        k += 1;
    }
    out.push(13);
    out.push(10);
    append(out, name);
    out.push(58);
    out.push(32);
    append(out, addr);
    proof {
        assert(views(lines@).len() == lines@.len());
        assert(rest.subrange(0, k - 1) =~= rest);
        let last = name@ + colon_space() + addr@;
        lemma_join_push(done, crlf(), last);
        assert(done.push(last) =~= header_mode_lines(head@, name@, addr@));
        assert(out@ =~= old(out)@ + join_lines(done) + crlf() + last);
    }
}

/// The bytes to write to the backend for a request head: the address
/// prefix that the scheme asks for, the outgoing head, and the blank line.
pub fn encode_head(
    head: &[u8],
    addr: &ClientAddr,
    mode: &IpForwarding,
    replace: &Option<String>,
) -> (r: Option<Vec<u8>>)
    ensures
        match r {
            Some(out) => encode(head@, addr@, mode@, text_of(*replace)) == Some(out@),
            None => encode(head@, addr@, mode@, text_of(*replace)) is None,
        },
{
    let hosted: Option<Vec<u8>> = match replace {
        Some(h) => replace_host(head, h.as_str().as_bytes()),
        None => None,
    };
    if replace.is_some() && hosted.is_none() {
        return None;
    }
    let base: &[u8] = match &hosted {
        Some(b) => b.as_slice(),
        None => head,
    };
    let mut out: Vec<u8> = Vec::new();
    match mode {
        IpForwarding::Header(name) => {
            let text = crate::addr::to_text(addr);
            write_header_mode(&mut out, base, name.as_str().as_bytes(), text.as_slice());
        },
        IpForwarding::Simple => {
            write_text(&mut out, addr);
            out.push(10);
            append(&mut out, base);
        },
        IpForwarding::Modern => {
            write_binary(&mut out, addr);
            append(&mut out, base);
        },
        IpForwarding::Off => {
            append(&mut out, base);
        },
    }
    out.push(13);
    out.push(10);
    out.push(13);
    out.push(10);
    assert(out@ =~= address_prefix(mode@, addr@) + outgoing_head(base@, mode@, addr@) + head_end());
    Some(out)
}

} // verus!
