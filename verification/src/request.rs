//! The head of an HTTP message: its first line and its headers.

use vstd::prelude::*;
use vstd::slice::slice_subrange;
use vstd::utf8::valid_utf8;
use crate::number::{parse_number, read_number, Radix};
use crate::scan::{first_hit, first_true, last_hit, last_true};
use crate::text::{
    ascii, ascii_bytes, colon_space, crlf, eq_ignore_case, equals, equals_ignore_case, find,
    find_bytes, lemma_find_from, lemma_split_pieces, split, split_bytes, to_vec, trim, trim_bytes,
    trim_end, trimmed_end, utf8_str, views,
};

verus! {

/// One header of a message.
#[derive(Debug)]
pub struct Header {
    /// What stands before the first colon and space of the line.
    pub key: Vec<u8>,
    /// What stands after them.
    pub value: Vec<u8>,
}

impl View for Header {
    type V = (Seq<u8>, Seq<u8>);

    open spec fn view(&self) -> (Seq<u8>, Seq<u8>) {
        (self.key@, self.value@)
    }
}

/// The keys and values that a vector of headers holds.
pub open spec fn header_views(hs: Seq<Header>) -> Seq<(Seq<u8>, Seq<u8>)> {
    Seq::new(hs.len(), |i: int| hs[i]@)
}

/// The header that a line writes: the line is one where it holds a colon
/// followed by a space, and the first such pair parts key and value.
pub open spec fn header_of(line: Seq<u8>) -> Option<(Seq<u8>, Seq<u8>)> {
    match find(line, colon_space()) {
        Some(i) => Some((line.subrange(0, i), line.subrange(i + 2, line.len() as int))),
        None => None,
    }
}

/// The headers among the given lines, in their order.
pub open spec fn headers_of(ls: Seq<Seq<u8>>) -> Seq<(Seq<u8>, Seq<u8>)>
    decreases ls.len(),
{
    if ls.len() == 0 {
        Seq::empty()
    } else {
        match header_of(ls.last()) {
            Some(h) => headers_of(ls.drop_last()).push(h),
            None => headers_of(ls.drop_last()),
        }
    }
}

/// Reads the header that a line writes.
pub fn read_header(line: &[u8]) -> (r: Option<Header>)
    ensures
        match r {
            Some(h) => header_of(line@) == Some(h@),
            None => header_of(line@) is None,
        },
{
    let sep: Vec<u8> = vec![58u8, 32u8];
    assert(sep@ =~= colon_space());
    match find_bytes(line, sep.as_slice()) {
        Some(i) => {
            let n: usize = line.len();
            proof {
                lemma_find_from(line@, colon_space(), 0);
                assert(crate::text::matches_at(line@, colon_space(), i as int));
                assert(i + 2 <= n);
            }
            let key = to_vec(slice_subrange(line, 0, i));
            let value = to_vec(slice_subrange(line, i + 2, n));
            Some(Header { key, value })
        },
        None => None,
    }
}

/// The lines from index `from` on; none where there are not so many.
pub open spec fn lines_from(ls: Seq<Seq<u8>>, from: int) -> Seq<Seq<u8>> {
    if 0 <= from <= ls.len() {
        ls.subrange(from, ls.len() as int)
    } else {
        Seq::empty()
    }
}

/// Reads the headers among the lines from index `from` on.
pub fn read_headers(lines: &Vec<Vec<u8>>, from: usize) -> (r: Vec<Header>)
    ensures
        header_views(r@) == headers_of(lines_from(views(lines@), from as int)),
{
    let mut out: Vec<Header> = Vec::new();
    if from > lines.len() {
        assert(header_views(out@) =~= Seq::<(Seq<u8>, Seq<u8>)>::empty());
        return out;
    }
    let mut i: usize = from;
    let ghost all = views(lines@);
    assert(all.subrange(from as int, from as int) =~= Seq::<Seq<u8>>::empty());
    assert(header_views(out@) =~= Seq::<(Seq<u8>, Seq<u8>)>::empty());
    while i < lines.len()
        invariant
            from <= i <= lines@.len(),
            all == views(lines@),
            header_views(out@) == headers_of(all.subrange(from as int, i as int)),
        decreases lines@.len() - i,
    {
        let ghost done = all.subrange(from as int, i as int);
        let ghost next = all.subrange(from as int, i + 1);
        proof {
            assert(next.drop_last() =~= done);
            assert(next.last() == lines@[i as int]@);
        }
        let ghost before = header_views(out@);
        match read_header(lines[i].as_slice()) {
            Some(h) => {
                let ghost hv = h@;
                out.push(h);
                assert(header_views(out@) =~= before.push(hv));
            },
            None => {},
        }
        i += 1;
    }
    assert(views(lines@).len() == lines@.len());
    out
}

/// For each header, whether its key is `key`, the case of ASCII letters
/// being ignored where `fold` is set.
pub open spec fn key_flags(hs: Seq<(Seq<u8>, Seq<u8>)>, key: Seq<u8>, fold: bool) -> Seq<bool> {
    Seq::new(
        hs.len(),
        |i: int|
            if fold {
                eq_ignore_case(hs[i].0, key)
            } else {
                hs[i].0 == key
            },
    )
}

/// The value of the first header with the given key.
pub open spec fn first_header(hs: Seq<(Seq<u8>, Seq<u8>)>, key: Seq<u8>, fold: bool) -> Option<
    Seq<u8>,
> {
    match first_hit(key_flags(hs, key, fold)) {
        Some(i) => Some(hs[i].1),
        None => None,
    }
}

/// The value of the last header with the given key, whatever the case of
/// its ASCII letters.
pub open spec fn last_header(hs: Seq<(Seq<u8>, Seq<u8>)>, key: Seq<u8>) -> Option<Seq<u8>> {
    match last_hit(key_flags(hs, key, true)) {
        Some(i) => Some(hs[i].1),
        None => None,
    }
}

/// For each header, whether its key is `key`.
fn flag_keys(headers: &Vec<Header>, key: &[u8], fold: bool) -> (r: Vec<bool>)
    ensures
        r@ == key_flags(header_views(headers@), key@, fold),
{
    let mut flags: Vec<bool> = Vec::new();
    let mut i: usize = 0;
    while i < headers.len()
        invariant
            i <= headers@.len(),
            flags@.len() == i,
            forall|j: int|
                0 <= j < i ==> flags@[j] == key_flags(header_views(headers@), key@, fold)[j],
        decreases headers@.len() - i,
    {
        let hit = if fold {
            equals_ignore_case(headers[i].key.as_slice(), key)
        } else {
            equals(headers[i].key.as_slice(), key)
        };
        flags.push(hit);
        i += 1;
    }
    assert(flags@ =~= key_flags(header_views(headers@), key@, fold));
    flags
}

/// The index of the first header with the given key.
pub fn find_first(headers: &Vec<Header>, key: &[u8], fold: bool) -> (r: Option<usize>)
    ensures
        match r {
            Some(i) => i < headers@.len() && first_hit(
                key_flags(header_views(headers@), key@, fold),
            ) == Some(i as int),
            None => first_hit(key_flags(header_views(headers@), key@, fold)) is None,
        },
{
    let flags = flag_keys(headers, key, fold);
    proof {
        crate::scan::lemma_first_hit(flags@);
    }
    first_true(flags.as_slice())
}

/// The index of the last header with the given key, whatever the case of
/// its ASCII letters.
pub fn find_last(headers: &Vec<Header>, key: &[u8]) -> (r: Option<usize>)
    ensures
        match r {
            Some(i) => i < headers@.len() && last_hit(
                key_flags(header_views(headers@), key@, true),
            ) == Some(i as int),
            None => last_hit(key_flags(header_views(headers@), key@, true)) is None,
        },
{
    let flags = flag_keys(headers, key, true);
    proof {
        crate::scan::lemma_last_hit(flags@);
    }
    last_true(flags.as_slice())
}

/// The host that a request names: the value of its last `Host` header, and
/// the empty text where it has none.
pub open spec fn host_of(hs: Seq<(Seq<u8>, Seq<u8>)>) -> Seq<u8> {
    match last_header(hs, ascii("host"@)) {
        Some(v) => v,
        None => Seq::empty(),
    }
}

/// Whether a request asks to keep its connection: the value of its last
/// `Connection` header is exactly `keep-alive`.
pub open spec fn wants_keep_alive(hs: Seq<(Seq<u8>, Seq<u8>)>) -> bool {
    last_header(hs, ascii("connection"@)) == Some(ascii("keep-alive"@))
}

/// The length of the body that the first `Content-Length` header
/// announces: zero where there is no such header, and nothing where its
/// value is no number of at most `max`.
pub open spec fn content_length(hs: Seq<(Seq<u8>, Seq<u8>)>, max: nat) -> Option<nat> {
    match first_header(hs, ascii("content-length"@), true) {
        Some(v) => parse_number(v, 10, max),
        None => Some(0),
    }
}

/// Whether `chunked` is among the comma-separated items of `value`, spaces
/// round an item being ignored.
pub open spec fn lists_chunked(value: Seq<u8>) -> bool {
    exists|k: int|
        0 <= k < split(value, seq![44u8]).len() && trim(
            #[trigger] split(value, seq![44u8])[k],
            32,
        ) == ascii("chunked"@)
}

/// Whether the body comes in chunks: the first `Transfer-Encoding` header
/// lists `chunked`.
pub open spec fn is_chunked(hs: Seq<(Seq<u8>, Seq<u8>)>) -> bool {
    match first_header(hs, ascii("transfer-encoding"@), true) {
        Some(v) => lists_chunked(v),
        None => false,
    }
}

/// The host that the request names.
pub fn request_host(headers: &Vec<Header>) -> (r: Vec<u8>)
    ensures
        r@ == host_of(header_views(headers@)),
{
    proof {
        reveal_strlit("host");
    }
    match find_last(headers, ascii_bytes("host")) {
        Some(i) => to_vec(headers[i].value.as_slice()),
        None => Vec::new(),
    }
}

/// Does the request ask to keep its connection?
pub fn request_keep_alive(headers: &Vec<Header>) -> (r: bool)
    ensures
        r == wants_keep_alive(header_views(headers@)),
{
    proof {
        reveal_strlit("connection");
        reveal_strlit("keep-alive");
    }
    match find_last(headers, ascii_bytes("connection")) {
        Some(i) => equals(headers[i].value.as_slice(), ascii_bytes("keep-alive")),
        None => false,
    }
}

/// The length of the body that the headers announce.
pub fn body_length(headers: &Vec<Header>) -> (r: Option<usize>)
    ensures
        match r {
            Some(n) => content_length(header_views(headers@), usize::MAX as nat) == Some(n as nat),
            None => content_length(header_views(headers@), usize::MAX as nat) is None,
        },
{
    proof {
        reveal_strlit("content-length");
    }
    match find_first(headers, ascii_bytes("content-length"), true) {
        Some(i) => read_number(headers[i].value.as_slice(), Radix::Ten, usize::MAX),
        None => Some(0),
    }
}

/// Is `chunked` among the comma-separated items of `value`?
pub fn value_lists_chunked(value: &[u8]) -> (r: bool)
    ensures
        r == lists_chunked(value@),
{
    proof {
        reveal_strlit("chunked");
    }
    let comma: Vec<u8> = vec![44u8];
    assert(comma@ =~= seq![44u8]);
    let items = split_bytes(value, comma.as_slice());
    let ghost pieces = split(value@, seq![44u8]);
    let mut i: usize = 0;
    while i < items.len()
        invariant
            i <= items@.len(),
            pieces == split(value@, seq![44u8]),
            views(items@) == pieces,
            forall|k: int| 0 <= k < i ==> trim(#[trigger] pieces[k], 32) != ascii("chunked"@),
        decreases items@.len() - i,
    {
        proof {
            reveal_strlit("chunked");
            assert(views(items@)[i as int] == items@[i as int]@);
        }
        let item = trim_bytes(items[i].as_slice(), 32);
        if equals(item.as_slice(), ascii_bytes("chunked")) {
            return true;
        }
        i += 1;
    }
    assert(views(items@).len() == items@.len());
    false
}

/// Does the body come in chunks?
pub fn body_is_chunked(headers: &Vec<Header>) -> (r: bool)
    ensures
        r == is_chunked(header_views(headers@)),
{
    proof {
        reveal_strlit("transfer-encoding");
    }
    match find_first(headers, ascii_bytes("transfer-encoding"), true) {
        Some(i) => value_lists_chunked(headers[i].value.as_slice()),
        None => false,
    }
}

/// The head of a request.
#[derive(Debug)]
pub struct RequestHead {
    /// The first field of the request line.
    pub method: Vec<u8>,
    /// The second field of the request line.
    pub target: Vec<u8>,
    /// The headers, in their order.
    pub headers: Vec<Header>,
}

/// What a `RequestHead` holds.
pub struct HeadView {
    pub method: Seq<u8>,
    pub target: Seq<u8>,
    pub headers: Seq<(Seq<u8>, Seq<u8>)>,
}

impl View for RequestHead {
    type V = HeadView;

    open spec fn view(&self) -> HeadView {
        HeadView {
            method: self.method@,
            target: self.target@,
            headers: header_views(self.headers@),
        }
    }
}

/// The lines of a head: the pieces between its line breaks, the zero
/// bytes at the head's end being left out.
pub open spec fn head_lines(head: Seq<u8>) -> Seq<Seq<u8>> {
    split(trim_end(head, 0), crlf())
}

/// The headers of a head: those that its lines after the first write.
pub open spec fn head_headers(head: Seq<u8>) -> Seq<(Seq<u8>, Seq<u8>)> {
    headers_of(head_lines(head).subrange(1, head_lines(head).len() as int))
}

/// A head that can be read: it is not empty and it is UTF-8.
pub open spec fn readable(head: Seq<u8>) -> bool {
    head.len() > 0 && valid_utf8(head)
}

/// What a request head holds. A head is a request head where it can be
/// read and its first line has two fields or more, single spaces parting
/// them; the first is the method and the second the target.
pub open spec fn parse_request(head: Seq<u8>) -> Option<HeadView> {
    let fields = split(head_lines(head)[0], seq![32u8]);
    if readable(head) && fields.len() >= 2 {
        Some(HeadView { method: fields[0], target: fields[1], headers: head_headers(head) })
    } else {
        None
    }
}

/// Splits a head into its lines.
pub fn read_lines(head: &[u8]) -> (r: Vec<Vec<u8>>)
    ensures
        views(r@) == head_lines(head@),
        r@.len() >= 1,
{
    let end = trimmed_end(head, 0);
    let sep: Vec<u8> = vec![13u8, 10u8];
    assert(sep@ =~= crlf());
    let lines = split_bytes(slice_subrange(head, 0, end), sep.as_slice());
    proof {
        lemma_split_pieces(trim_end(head@, 0), crlf());
        assert(views(lines@).len() == lines@.len());
    }
    lines
}

/// Reads a request head.
pub fn read_request(head: &[u8]) -> (r: Option<RequestHead>)
    ensures
        match r {
            Some(h) => parse_request(head@) == Some(h@),
            None => parse_request(head@) is None,
        },
{
    if head.len() == 0 || utf8_str(head).is_none() {
        return None;
    }
    let lines = read_lines(head);
    let space: Vec<u8> = vec![32u8];
    assert(space@ =~= seq![32u8]);
    assert(views(lines@)[0] == lines@[0]@);
    let fields = split_bytes(lines[0].as_slice(), space.as_slice());
    assert(views(fields@).len() == fields@.len());
    if fields.len() < 2 {
        return None;
    }
    assert(views(fields@)[0] == fields@[0]@);
    assert(views(fields@)[1] == fields@[1]@);
    let method = to_vec(fields[0].as_slice());
    let target = to_vec(fields[1].as_slice());
    let headers = read_headers(&lines, 1);
    Some(RequestHead { method, target, headers })
}

/// The length of the body that a response head announces: nothing where
/// the head cannot be read or its `Content-Length` is no number.
pub open spec fn response_length(head: Seq<u8>, max: nat) -> Option<nat> {
    if readable(head) {
        content_length(head_headers(head), max)
    } else {
        None
    }
}

/// Reads the length of the body that a response head announces.
pub fn read_response_length(head: &[u8]) -> (r: Option<usize>)
    ensures
        match r {
            Some(n) => response_length(head@, usize::MAX as nat) == Some(n as nat),
            None => response_length(head@, usize::MAX as nat) is None,
        },
{
    if head.len() == 0 || utf8_str(head).is_none() {
        return None;
    }
    let lines = read_lines(head);
    let headers = read_headers(&lines, 1);
    body_length(&headers)
}

} // verus!
