//! What holds of the head that a backend gets: which headers it has, and
//! what the client's address and the replacement host look like in it.

use vstd::prelude::*;
use vstd::utf8::encode_utf8;
use crate::addr::{addr_text, binary_form, AddrView};
use crate::addr_text::lemma_addr_text_plain;
use crate::scan::{first_hit, lemma_first_hit};
use crate::config::ForwardingView;
use crate::forward::{
    address_prefix, encode, header_mode_lines, host_line, host_lines, hosted_head, join_lines,
    kept, kept_lines, outgoing_head, rewrite_host,
};
use crate::request::{first_header, header_of, headers_of, key_flags};
use crate::text::{
    ascii, colon_space, contains, crlf, ends_piece, eq_ignore_case, find, head_end,
    lemma_find_from, lemma_find_is, lemma_find_none, lemma_split_join, lemma_split_pieces,
    lower_seq, matches_at, plain, split,
};

verus! {

/// A plain text holds no line break.
pub proof fn lemma_plain_unbroken(s: Seq<u8>)
    requires
        plain(s),
    ensures
        !contains(s, crlf()),
{
    assert forall|j: int| 0 <= j implies !matches_at(s, crlf(), j) by {
        if matches_at(s, crlf(), j) {
            assert(s.subrange(j, j + 2)[0] == 13);
        }
    }
    lemma_find_none(s, crlf());
}

/// A text that holds a pattern has a place where the pattern stands.
pub proof fn lemma_match_contains(s: Seq<u8>, pat: Seq<u8>, j: int)
    requires
        matches_at(s, pat, j),
    ensures
        contains(s, pat),
{
    lemma_find_from(s, pat, 0);
}

/// A line break found in `a + b` lies in `a`, lies in `b`, or has its
/// carriage return at the end of `a` and its line feed at the start of `b`.
pub proof fn lemma_break_in_concat(a: Seq<u8>, b: Seq<u8>, j: int)
    requires
        matches_at(a + b, crlf(), j),
    ensures
        matches_at(a, crlf(), j) || matches_at(b, crlf(), j - a.len()) || (j == a.len() - 1
            && b.len() > 0 && b[0] == 10 && a.last() == 13),
{
    let s = a + b;
    let m = s.subrange(j, j + 2);
    assert(m[0] == 13 && m[1] == 10);
    if j + 2 <= a.len() {
        assert(a.subrange(j, j + 2) =~= m);
    } else if j >= a.len() {
        assert(b.subrange(j - a.len(), j - a.len() + 2) =~= m);
    } else {
        assert(s[j + 1] == b[0]);
        assert(s[j] == a.last());
    }
}

/// The first line break of `line + break + rest` ends `line`, where `line`
/// holds none.
pub proof fn lemma_first_break(line: Seq<u8>, rest: Seq<u8>)
    requires
        !contains(line, crlf()),
    ensures
        find(line + crlf() + rest, crlf()) == Some(line.len() as int),
{
    let s = line + crlf() + rest;
    let n = line.len() as int;
    assert(s.subrange(n, n + 2) =~= crlf());
    assert forall|j: int| 0 <= j < n implies !matches_at(s, crlf(), j) by {
        if matches_at(s, crlf(), j) {
            let m = s.subrange(j, j + 2);
            assert(m[0] == 13 && m[1] == 10);
            if j + 2 <= n {
                assert(line.subrange(j, j + 2) =~= m);
                lemma_match_contains(line, crlf(), j);
            } else {
                assert(s[j + 1] == 13);
            }
        }
    }
    lemma_find_is(s, crlf(), n);
}

/// Splitting what was joined gives the lines back, where no line holds a
/// line break.
pub proof fn lemma_split_lines(ls: Seq<Seq<u8>>)
    requires
        ls.len() >= 1,
        forall|k: int| 0 <= k < ls.len() ==> !contains(#[trigger] ls[k], crlf()),
    ensures
        split(join_lines(ls), crlf()) == ls,
{
    assert forall|k: int| 0 <= k < ls.len() implies ends_piece(#[trigger] ls[k], crlf()) by {
        lemma_first_break(ls[k], Seq::empty());
        assert(ls[k] + crlf() + Seq::<u8>::empty() =~= ls[k] + crlf());
    }
    lemma_split_join(ls, crlf());
}

/// The header that `key: value` writes has the key `key` and the value
/// `value`, where `key` holds no colon followed by a space.
pub proof fn lemma_header_of_pair(key: Seq<u8>, value: Seq<u8>)
    requires
        !contains(key, colon_space()),
    ensures
        header_of(key + colon_space() + value) == Some((key, value)),
{
    let s = key + colon_space() + value;
    let n = key.len() as int;
    assert(s.subrange(n, n + 2) =~= colon_space());
    assert forall|j: int| 0 <= j < n implies !matches_at(s, colon_space(), j) by {
        if matches_at(s, colon_space(), j) {
            let m = s.subrange(j, j + 2);
            assert(m[0] == 58 && m[1] == 32);
            if j + 2 <= n {
                assert(key.subrange(j, j + 2) =~= m);
                lemma_match_contains(key, colon_space(), j);
            } else {
                assert(s[j + 1] == 58);
            }
        }
    }
    lemma_find_is(s, colon_space(), n);
    assert(s.subrange(0, n) =~= key);
    assert(s.subrange(n + 2, s.len() as int) =~= value);
}

/// A header's key holds no colon followed by a space, and key, separator
/// and value make up the line.
pub proof fn lemma_header_parts(line: Seq<u8>)
    requires
        header_of(line) is Some,
    ensures
        !contains(header_of(line).unwrap().0, colon_space()),
        line == header_of(line).unwrap().0 + colon_space() + header_of(line).unwrap().1,
{
    lemma_find_from(line, colon_space(), 0);
    let i = find(line, colon_space()).unwrap();
    let key = line.subrange(0, i);
    assert forall|j: int| 0 <= j implies !matches_at(key, colon_space(), j) by {
        if matches_at(key, colon_space(), j) {
            assert(line.subrange(j, j + 2) =~= key.subrange(j, j + 2));
            assert(matches_at(line, colon_space(), j));
        }
    }
    lemma_find_none(key, colon_space());
    assert(line.subrange(i, i + 2) == colon_space());
    assert(line =~= key + colon_space() + line.subrange(i + 2, line.len() as int));
}

/// The headers of two runs of lines, one after the other.
pub proof fn lemma_headers_concat(a: Seq<Seq<u8>>, b: Seq<Seq<u8>>)
    ensures
        headers_of(a + b) == headers_of(a) + headers_of(b),
    decreases b.len(),
{
    if b.len() == 0 {
        assert(a + b =~= a);
        assert(headers_of(a) + headers_of(b) =~= headers_of(a));
    } else {
        let all = a + b;
        assert(all.drop_last() =~= a + b.drop_last());
        assert(all.last() == b.last());
        lemma_headers_concat(a, b.drop_last());
        match header_of(b.last()) {
            Some(h) => {
                assert(headers_of(all) =~= headers_of(a) + headers_of(b));
            },
            None => {},
        }
    }
}

/// The headers of a head: those that its lines after the first write.
pub open spec fn headers_in(head: Seq<u8>) -> Seq<(Seq<u8>, Seq<u8>)> {
    let ls = split(head, crlf());
    headers_of(ls.subrange(1, ls.len() as int))
}

/// The first line of a head.
pub open spec fn first_line(head: Seq<u8>) -> Seq<u8> {
    split(head, crlf())[0]
}

/// How many of the headers have the key `key`, whatever the case of its
/// ASCII letters.
pub open spec fn count_key(hs: Seq<(Seq<u8>, Seq<u8>)>, key: Seq<u8>) -> nat
    decreases hs.len(),
{
    if hs.len() == 0 {
        0
    } else if eq_ignore_case(hs.last().0, key) {
        count_key(hs.drop_last(), key) + 1
    } else {
        count_key(hs.drop_last(), key)
    }
}

/// The headers with another key than `key`, in their order.
pub open spec fn without_key(hs: Seq<(Seq<u8>, Seq<u8>)>, key: Seq<u8>) -> Seq<(Seq<u8>, Seq<u8>)>
    decreases hs.len(),
{
    if hs.len() == 0 {
        Seq::empty()
    } else if eq_ignore_case(hs.last().0, key) {
        without_key(hs.drop_last(), key)
    } else {
        without_key(hs.drop_last(), key).push(hs.last())
    }
}

/// The headers with `host` as the value of each `Host` header.
pub open spec fn with_host(hs: Seq<(Seq<u8>, Seq<u8>)>, host: Seq<u8>) -> Seq<(Seq<u8>, Seq<u8>)> {
    Seq::new(
        hs.len(),
        |i: int|
            if eq_ignore_case(hs[i].0, ascii("host"@)) {
                (hs[i].0, host)
            } else {
                hs[i]
            },
    )
}

/// Every header with the key `key` has the value `value`.
pub open spec fn all_valued(hs: Seq<(Seq<u8>, Seq<u8>)>, key: Seq<u8>, value: Seq<u8>) -> bool {
    forall|i: int| 0 <= i < hs.len() && eq_ignore_case((#[trigger] hs[i]).0, key) ==> hs[i].1 == value
}

/// Every line that is kept is one of the lines.
pub proof fn lemma_kept_from(ls: Seq<Seq<u8>>, name: Seq<u8>)
    ensures
        forall|k: int|
            0 <= k < kept_lines(ls, name).len() ==> ls.contains(#[trigger] kept_lines(ls, name)[k]),
    decreases ls.len(),
{
    if ls.len() > 0 {
        let front = ls.drop_last();
        lemma_kept_from(front, name);
        let out = kept_lines(ls, name);
        assert forall|k: int| 0 <= k < out.len() implies ls.contains(#[trigger] out[k]) by {
            if k < kept_lines(front, name).len() {
                let line = kept_lines(front, name)[k];
                assert(front.contains(line));
                let j = choose|j: int| 0 <= j < front.len() && front[j] == line;
                assert(ls[j] == line);
            } else {
                assert(out[k] == ls.last());
                assert(ls[ls.len() - 1] == ls.last());
            }
        }
    }
}

/// The headers of the kept lines are the headers with another key.
pub proof fn lemma_kept_headers(ls: Seq<Seq<u8>>, name: Seq<u8>)
    ensures
        headers_of(kept_lines(ls, name)) == without_key(headers_of(ls), name),
    decreases ls.len(),
{
    if ls.len() > 0 {
        let front = ls.drop_last();
        lemma_kept_headers(front, name);
        match header_of(ls.last()) {
            Some(h) => {
                let hs = headers_of(front).push(h);
                assert(hs.drop_last() =~= headers_of(front));
                assert(hs.last() == h);
                if kept(ls.last(), name) {
                    let kl = kept_lines(front, name).push(ls.last());
                    assert(kl.drop_last() =~= kept_lines(front, name));
                    assert(kl.last() == ls.last());
                }
            },
            None => {},
        }
    }
}

/// None of the headers with another key than `key` has the key `key`;
/// each of them is one of the headers; and a header with a key unlike
/// `key` is dropped by none of this.
pub proof fn lemma_without_key(hs: Seq<(Seq<u8>, Seq<u8>)>, key: Seq<u8>)
    ensures
        count_key(without_key(hs, key), key) == 0,
        forall|i: int|
            0 <= i < without_key(hs, key).len() ==> !eq_ignore_case(
                (#[trigger] without_key(hs, key)[i]).0,
                key,
            ) && hs.contains(without_key(hs, key)[i]),
    decreases hs.len(),
{
    if hs.len() > 0 {
        let front = hs.drop_last();
        lemma_without_key(front, key);
        let out = without_key(hs, key);
        if !eq_ignore_case(hs.last().0, key) {
            assert(out.drop_last() =~= without_key(front, key));
            assert(out.last() == hs.last());
        }
        assert forall|i: int| 0 <= i < out.len() implies !eq_ignore_case(
            (#[trigger] out[i]).0,
            key,
        ) && hs.contains(out[i]) by {
            if i < without_key(front, key).len() {
                let h = without_key(front, key)[i];
                assert(front.contains(h));
                let j = choose|j: int| 0 <= j < front.len() && front[j] == h;
                assert(hs[j] == h);
            } else {
                assert(hs[hs.len() - 1] == hs.last());
            }
        }
    }
}

/// Dropping the headers with the key `key` keeps the number of headers
/// with a key unlike it.
pub proof fn lemma_without_other(hs: Seq<(Seq<u8>, Seq<u8>)>, key: Seq<u8>, other: Seq<u8>)
    requires
        !eq_ignore_case(key, other),
    ensures
        count_key(without_key(hs, key), other) == count_key(hs, other),
    decreases hs.len(),
{
    if hs.len() > 0 {
        let front = hs.drop_last();
        lemma_without_other(front, key, other);
        let out = without_key(hs, key);
        if !eq_ignore_case(hs.last().0, key) {
            assert(out.drop_last() =~= without_key(front, key));
            assert(out.last() == hs.last());
        }
    }
}

/// Where every header with a key has one value and there is such a
/// header, the first of them has that value.
pub proof fn lemma_first_valued(hs: Seq<(Seq<u8>, Seq<u8>)>, key: Seq<u8>, value: Seq<u8>)
    requires
        all_valued(hs, key, value),
        count_key(hs, key) >= 1,
    ensures
        first_header(hs, key, true) == Some(value),
    decreases hs.len(),
{
    let flags = key_flags(hs, key, true);
    lemma_first_hit(flags);
    lemma_count_some(hs, key);
    let j = choose|j: int| 0 <= j < hs.len() && eq_ignore_case(hs[j].0, key);
    assert(flags[j]);
    let i = first_hit(flags).unwrap();
    assert(flags[i]);
}

/// Where the count of a key is not zero, a header has the key.
pub proof fn lemma_count_some(hs: Seq<(Seq<u8>, Seq<u8>)>, key: Seq<u8>)
    requires
        count_key(hs, key) >= 1,
    ensures
        exists|j: int| 0 <= j < hs.len() && eq_ignore_case(hs[j].0, key),
    decreases hs.len(),
{
    if hs.len() > 0 {
        if eq_ignore_case(hs.last().0, key) {
            assert(eq_ignore_case(hs[hs.len() - 1].0, key));
        } else {
            lemma_count_some(hs.drop_last(), key);
            let j = choose|j: int|
                0 <= j < hs.drop_last().len() && eq_ignore_case(hs.drop_last()[j].0, key);
            assert(hs[j] == hs.drop_last()[j]);
        }
    }
}

/// The head that carries the client's address in a header `name` has the
/// first line of the head it was made from, that head's headers without
/// those named `name`, and behind them one header `name` whose value is
/// the address. So it has exactly one header of that name, with the
/// address as its value.
pub proof fn lemma_address_header(head: Seq<u8>, name: Seq<u8>, addr: AddrView)
    requires
        plain(name),
        !contains(name, colon_space()),
    ensures
        ({
            let out = join_lines(header_mode_lines(head, name, addr_text(addr)));
            &&& first_line(out) == first_line(head)
            &&& headers_in(out) == without_key(headers_in(head), name).push((name, addr_text(addr)))
            &&& count_key(headers_in(out), name) == 1
            &&& first_header(headers_in(out), name, true) == Some(addr_text(addr))
            &&& all_valued(headers_in(out), name, addr_text(addr))
        }),
{
    let text = addr_text(addr);
    let ls = split(head, crlf());
    let rest = ls.subrange(1, ls.len() as int);
    let kl = kept_lines(rest, name);
    let last = name + colon_space() + text;
    let lines = header_mode_lines(head, name, text);
    let out = join_lines(lines);
    lemma_split_pieces(head, crlf());
    lemma_kept_from(rest, name);
    lemma_addr_text_plain(addr);
    assert(plain(last));
    lemma_plain_unbroken(last);
    assert(lines =~= seq![ls[0]] + kl + seq![last]);
    assert forall|k: int| 0 <= k < lines.len() implies !contains(#[trigger] lines[k], crlf()) by {
        if k == 0 {
            assert(lines[k] == ls[0]);
        } else if k <= kl.len() {
            let line = kl[k - 1];
            assert(lines[k] == line);
            assert(rest.contains(line));
            let j = choose|j: int| 0 <= j < rest.len() && rest[j] == line;
            assert(line == ls[j + 1]);
        } else {
            assert(lines[k] == last);
        }
    }
    lemma_split_lines(lines);
    assert(lines.subrange(1, lines.len() as int) =~= kl + seq![last]);
    lemma_headers_concat(kl, seq![last]);
    lemma_kept_headers(rest, name);
    lemma_header_of_pair(name, text);
    let single = seq![last];
    assert(single.drop_last() =~= Seq::<Seq<u8>>::empty());
    assert(single.last() == last);
    assert(headers_of(single.drop_last()) =~= Seq::<(Seq<u8>, Seq<u8>)>::empty());
    assert(headers_of(single) =~= seq![(name, text)]);
    let kept_hs = without_key(headers_of(rest), name);
    let hs = headers_in(out);
    assert(hs =~= kept_hs.push((name, text)));
    lemma_without_key(headers_of(rest), name);
    assert(hs.drop_last() =~= kept_hs);
    assert(hs.last() == (name, text));
    assert(eq_ignore_case(name, name));
    assert(count_key(hs, name) == 1);
    assert forall|i: int| 0 <= i < hs.len() && eq_ignore_case((#[trigger] hs[i]).0, name) implies hs[i].1
        == text by {
        if i < kept_hs.len() {
            assert(hs[i] == kept_hs[i]);
        }
    }
    lemma_first_valued(hs, name, text);
}

/// A line with its `Host` value replaced by a plain text still holds no
/// line break, where the line held none.
pub proof fn lemma_host_line_unbroken(line: Seq<u8>, host: Seq<u8>)
    requires
        plain(host),
        !contains(line, crlf()),
    ensures
        !contains(host_line(line, host), crlf()),
{
    match header_of(line) {
        Some(h) => {
            if eq_ignore_case(h.0, ascii("host"@)) {
                lemma_header_parts(line);
                let tail = colon_space() + host;
                let out = h.0 + tail;
                assert(out =~= h.0 + colon_space() + host);
                assert(plain(tail));
                assert forall|j: int| 0 <= j implies !matches_at(out, crlf(), j) by {
                    if matches_at(out, crlf(), j) {
                        lemma_break_in_concat(h.0, tail, j);
                        if matches_at(h.0, crlf(), j) {
                            assert(line.subrange(j, j + 2) =~= h.0.subrange(j, j + 2));
                            lemma_match_contains(line, crlf(), j);
                        } else if matches_at(tail, crlf(), j - h.0.len()) {
                            lemma_match_contains(tail, crlf(), j - h.0.len());
                            lemma_plain_unbroken(tail);
                        }
                    }
                }
                lemma_find_none(out, crlf());
            }
        },
        None => {},
    }
}

/// The headers of lines whose `Host` values were replaced are the headers
/// of the lines with `host` as the value of each `Host` header, where
/// every line writes a header.
pub proof fn lemma_host_headers(ls: Seq<Seq<u8>>, host: Seq<u8>)
    requires
        forall|k: int| 0 <= k < ls.len() ==> header_of(#[trigger] ls[k]) is Some,
    ensures
        headers_of(Seq::new(ls.len(), |k: int| host_line(ls[k], host))) == with_host(
            headers_of(ls),
            host,
        ),
        headers_of(ls).len() == ls.len(),
    decreases ls.len(),
{
    let mapped = Seq::new(ls.len(), |k: int| host_line(ls[k], host));
    if ls.len() == 0 {
        assert(headers_of(mapped) =~= with_host(headers_of(ls), host));
    } else {
        let front = ls.drop_last();
        let mapped_front = Seq::new(front.len(), |k: int| host_line(front[k], host));
        assert forall|k: int| 0 <= k < front.len() implies header_of(#[trigger] front[k]) is Some by {
            assert(front[k] == ls[k]);
        }
        lemma_host_headers(front, host);
        assert(mapped.drop_last() =~= mapped_front);
        assert(mapped.last() == host_line(ls.last(), host));
        assert(ls[ls.len() - 1] == ls.last());
        let h = header_of(ls.last()).unwrap();
        lemma_header_parts(ls.last());
        if eq_ignore_case(h.0, ascii("host"@)) {
            lemma_header_of_pair(h.0, host);
        }
        let hs = headers_of(ls);
        assert(hs =~= headers_of(front).push(h));
        assert(headers_of(mapped) =~= with_host(hs, host));
    }
}

/// Replacing values keeps every key, and so the count of each key.
pub proof fn lemma_with_host_count(hs: Seq<(Seq<u8>, Seq<u8>)>, host: Seq<u8>, key: Seq<u8>)
    ensures
        count_key(with_host(hs, host), key) == count_key(hs, key),
    decreases hs.len(),
{
    if hs.len() > 0 {
        lemma_with_host_count(hs.drop_last(), host, key);
        assert(with_host(hs, host).drop_last() =~= with_host(hs.drop_last(), host));
    }
}

/// The head with the replacement host put in has the first line of the
/// head it was made from and that head's headers, each `Host` header with
/// the replacement as its value. So it has as many `Host` headers as
/// before, and each of them names the replacement.
pub proof fn lemma_host_replaced(head: Seq<u8>, host: Seq<u8>)
    requires
        plain(host),
        rewrite_host(head, host) is Some,
    ensures
        ({
            let out = rewrite_host(head, host).unwrap();
            &&& first_line(out) == first_line(head)
            &&& headers_in(out) == with_host(headers_in(head), host)
            &&& count_key(headers_in(out), ascii("host"@)) == count_key(
                headers_in(head),
                ascii("host"@),
            )
            &&& all_valued(headers_in(out), ascii("host"@), host)
        }),
{
    let ls = split(head, crlf());
    let rest = ls.subrange(1, ls.len() as int);
    let lines = host_lines(ls, host);
    let out = join_lines(lines);
    lemma_split_pieces(head, crlf());
    assert forall|k: int| 0 <= k < lines.len() implies !contains(#[trigger] lines[k], crlf()) by {
        if k > 0 {
            lemma_host_line_unbroken(ls[k], host);
        }
    }
    lemma_split_lines(lines);
    assert forall|k: int| 0 <= k < rest.len() implies header_of(#[trigger] rest[k]) is Some by {
        assert(rest[k] == ls[k + 1]);
    }
    lemma_host_headers(rest, host);
    assert(lines.subrange(1, lines.len() as int) =~= Seq::new(
        rest.len(),
        |k: int| host_line(rest[k], host),
    ));
    lemma_with_host_count(headers_of(rest), host, ascii("host"@));
}

/// What stands before the head is the client's address in the form that
/// the scheme asks for, and nothing else: no byte for a scheme that adds
/// nothing or adds a header, the address as text and a line feed for the
/// textual scheme, and for the binary scheme the tag byte, the octets and
/// the port, 7 bytes for IPv4 and 19 for IPv6. Behind it come the
/// outgoing head and the blank line; the outgoing head is the head as it
/// came where the scheme adds no header and the site replaces no host.
pub proof fn lemma_prefix(
    head: Seq<u8>,
    addr: AddrView,
    mode: ForwardingView,
    replace_host: Option<Seq<char>>,
)
    requires
        addr.wf(),
        encode(head, addr, mode, replace_host) is Some,
    ensures
        ({
            let out = encode(head, addr, mode, replace_host).unwrap();
            let base = hosted_head(head, replace_host).unwrap();
            let prefix = address_prefix(mode, addr);
            &&& out == prefix + outgoing_head(base, mode, addr) + head_end()
            &&& out.subrange(0, prefix.len() as int) == prefix
            &&& mode is Off || mode is Header ==> prefix.len() == 0
            &&& mode is Simple ==> prefix == addr_text(addr) + seq![10u8]
            &&& mode is Modern ==> prefix == binary_form(addr)
            &&& mode is Modern && addr.v4 ==> prefix.len() == 7 && prefix[0] == 1
            &&& mode is Modern && !addr.v4 ==> prefix.len() == 19 && prefix[0] == 2
            &&& !(mode is Header) ==> outgoing_head(base, mode, addr) == base
            &&& replace_host is None ==> base == head
        }),
{
    let out = encode(head, addr, mode, replace_host).unwrap();
    let prefix = address_prefix(mode, addr);
    assert(out.subrange(0, prefix.len() as int) =~= prefix);
}

/// With a header scheme the backend gets exactly one header of the
/// scheme's name, its value is the client's address as text, and no header
/// of that name that the request had is left.
pub proof fn lemma_one_address_header(
    head: Seq<u8>,
    addr: AddrView,
    name: Seq<char>,
    replace_host: Option<Seq<char>>,
)
    requires
        plain(encode_utf8(name)),
        !contains(encode_utf8(name), colon_space()),
        encode(head, addr, ForwardingView::Header(name), replace_host) is Some,
    ensures
        ({
            let base = hosted_head(head, replace_host).unwrap();
            let sent = outgoing_head(base, ForwardingView::Header(name), addr);
            let key = encode_utf8(name);
            &&& encode(head, addr, ForwardingView::Header(name), replace_host) == Some(
                sent + head_end(),
            )
            &&& first_line(sent) == first_line(base)
            &&& headers_in(sent) == without_key(headers_in(base), key).push((key, addr_text(addr)))
            &&& count_key(headers_in(sent), key) == 1
            &&& first_header(headers_in(sent), key, true) == Some(addr_text(addr))
        }),
{
    let base = hosted_head(head, replace_host).unwrap();
    let sent = outgoing_head(base, ForwardingView::Header(name), addr);
    lemma_address_header(base, encode_utf8(name), addr);
    assert(Seq::<u8>::empty() + sent + head_end() =~= sent + head_end());
}

/// With a replacement host the backend gets as many `Host` headers as the
/// request had, and each has the replacement as its value; so a request
/// with one `Host` header reaches the backend with exactly one, whose
/// value is the replacement. This holds for every scheme but a header
/// scheme whose own header is named `Host`.
pub proof fn lemma_one_host(head: Seq<u8>, addr: AddrView, mode: ForwardingView, host: Seq<char>)
    requires
        plain(encode_utf8(host)),
        encode(head, addr, mode, Some(host)) is Some,
        mode matches ForwardingView::Header(name) ==> plain(encode_utf8(name)) && !contains(
            encode_utf8(name),
            colon_space(),
        ) && !eq_ignore_case(encode_utf8(name), ascii("host"@)),
    ensures
        ({
            let base = hosted_head(head, Some(host)).unwrap();
            let sent = outgoing_head(base, mode, addr);
            let key = ascii("host"@);
            &&& count_key(headers_in(sent), key) == count_key(headers_in(head), key)
            &&& all_valued(headers_in(sent), key, encode_utf8(host))
            &&& count_key(headers_in(head), key) == 1 ==> first_header(headers_in(sent), key, true)
                == Some(encode_utf8(host))
        }),
{
    let value = encode_utf8(host);
    let base = hosted_head(head, Some(host)).unwrap();
    let sent = outgoing_head(base, mode, addr);
    let key = ascii("host"@);
    lemma_host_replaced(head, value);
    match mode {
        ForwardingView::Header(name) => {
            let own = encode_utf8(name);
            lemma_address_header(base, own, addr);
            let hs = headers_in(base);
            let kept_hs = without_key(hs, own);
            let out_hs = headers_in(sent);
            lemma_without_key(hs, own);
            lemma_without_other(hs, own, key);
            assert(out_hs.drop_last() =~= kept_hs);
            assert(out_hs.last() == (own, addr_text(addr)));
            assert(lower_seq(own) != lower_seq(key));
            assert(!eq_ignore_case(own, key));
            assert forall|i: int|
                0 <= i < out_hs.len() && eq_ignore_case((#[trigger] out_hs[i]).0, key) implies out_hs[i].1
                == value by {
                if i < kept_hs.len() {
                    let h = kept_hs[i];
                    assert(out_hs[i] == h);
                    assert(hs.contains(h));
                    let j = choose|j: int| 0 <= j < hs.len() && hs[j] == h;
                    assert(eq_ignore_case(hs[j].0, key));
                }
            }
        },
        _ => {},
    }
    if count_key(headers_in(head), key) == 1 {
        lemma_first_valued(headers_in(sent), key, value);
    }
}

} // verus!
