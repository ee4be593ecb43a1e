//! The address of a client: an IP address and a port, with the binary and
//! the textual form in which a proxy hands it on.

use vstd::prelude::*;
use vstd::slice::slice_subrange;
use crate::number::{digits_of, parse_digits, read_digits, write_number, Radix};
use crate::text::{contains, find, find_bytes, is_match_at, split, split_bytes, views};

verus! {

/// A client's address. The first field holds the octets of the IP address in
/// network order, the second the port.
#[derive(Clone, Copy, Debug, PartialEq, Eq)]
pub enum ClientAddr {
    V4([u8; 4], u16),
    V6([u8; 16], u16),
}

/// What a `ClientAddr` holds.
pub struct AddrView {
    /// Is it an IPv4 address?
    pub v4: bool,
    /// The octets of the IP address, in network order.
    pub octets: Seq<u8>,
    /// The port.
    pub port: u16,
}

impl AddrView {
    /// An address has 4 octets where it is an IPv4 address and 16 otherwise.
    pub open spec fn wf(self) -> bool {
        self.octets.len() == if self.v4 {
            4nat
        } else {
            16nat
        }
    }
}

impl View for ClientAddr {
    type V = AddrView;

    open spec fn view(&self) -> AddrView {
        match self {
            ClientAddr::V4(ip, port) => AddrView { v4: true, octets: ip@, port: *port },
            ClientAddr::V6(ip, port) => AddrView { v4: false, octets: ip@, port: *port },
        }
    }
}

impl ClientAddr {
    /// Is this an IPv4 address?
    pub fn is_ipv4(&self) -> (r: bool)
        ensures
            r == self@.v4,
    {
        match self {
            ClientAddr::V4(_, _) => true,
            ClientAddr::V6(_, _) => false,
        }
    }

    /// The port.
    pub fn port(&self) -> (r: u16)
        ensures
            r == self@.port,
    {
        match self {
            ClientAddr::V4(_, port) => *port,
            ClientAddr::V6(_, port) => *port,
        }
    }
}

/// The tag byte that opens the binary form of an IPv4 address.
pub const TAG_V4: u8 = 1u8;

/// The tag byte that opens the binary form of an IPv6 address.
pub const TAG_V6: u8 = 2u8;

/// A port as two bytes, the high one first.
pub open spec fn port_bytes(port: u16) -> Seq<u8> {
    seq![(port / 256) as u8, (port % 256) as u8]
}

/// The binary form of an address: a tag byte, 1 for IPv4 and 2 for IPv6,
/// the 4 or 16 octets of the address, and the port's two bytes.
pub open spec fn binary_form(addr: AddrView) -> Seq<u8> {
    seq![if addr.v4 { 1u8 } else { 2u8 }] + addr.octets + port_bytes(addr.port)
}

/// How many bytes follow the tag byte `tag` in the binary form; nothing
/// where `tag` opens no address.
pub open spec fn binary_body_len(tag: u8) -> Option<nat> {
    if tag == 1 {
        Some(6)
    } else if tag == 2 {
        Some(18)
    } else {
        None
    }
}

/// The address whose binary form is `tag` followed by `body`.
pub open spec fn from_binary(tag: u8, body: Seq<u8>) -> Option<AddrView> {
    if tag == 1 && body.len() == 6 {
        Some(
            AddrView {
                v4: true,
                octets: body.subrange(0, 4),
                port: (body[4] * 256 + body[5]) as u16,
            },
        )
    } else if tag == 2 && body.len() == 18 {
        Some(
            AddrView {
                v4: false,
                octets: body.subrange(0, 16),
                port: (body[16] * 256 + body[17]) as u16,
            },
        )
    } else {
        None
    }
}

/// Appends the binary form of `addr` to `out`.
pub fn write_binary(out: &mut Vec<u8>, addr: &ClientAddr)
    ensures
        final(out)@ == old(out)@ + binary_form(addr@),
{
    match addr {
        ClientAddr::V4(ip, port) => {
            out.push(TAG_V4);
            let mut i: usize = 0;
            while i < 4
                invariant
                    i <= 4,
                    out@ == old(out)@ + seq![1u8] + ip@.subrange(0, i as int),
                decreases 4 - i,
            {
                out.push(ip[i]);
                assert(out@ =~= old(out)@ + seq![1u8] + ip@.subrange(0, i + 1));
                i += 1;
            }
            out.push((*port / 256) as u8);
            out.push((*port % 256) as u8);
            assert(ip@.subrange(0, 4) =~= ip@);
            assert(out@ =~= old(out)@ + binary_form(addr@));
        },
        ClientAddr::V6(ip, port) => {
            out.push(TAG_V6);
            let mut i: usize = 0;
            while i < 16
                invariant
                    i <= 16,
                    out@ == old(out)@ + seq![2u8] + ip@.subrange(0, i as int),
                decreases 16 - i,
            {
                out.push(ip[i]);
                assert(out@ =~= old(out)@ + seq![2u8] + ip@.subrange(0, i + 1));
                i += 1;
            }
            out.push((*port / 256) as u8);
            out.push((*port % 256) as u8);
            assert(ip@.subrange(0, 16) =~= ip@);
            assert(out@ =~= old(out)@ + binary_form(addr@));
        },
    }
}

/// How many bytes follow the tag byte `tag` in the binary form.
pub fn binary_rest(tag: u8) -> (r: Option<usize>)
    ensures
        match r {
            Some(n) => binary_body_len(tag) == Some(n as nat),
            None => binary_body_len(tag) is None,
        },
{
    if tag == TAG_V4 {
        Some(6)
    } else if tag == TAG_V6 {
        Some(18)
    } else {
        None
    }
}

/// Reads the address whose binary form is `tag` followed by `body`.
pub fn read_binary(tag: u8, body: &[u8]) -> (r: Option<ClientAddr>)
    ensures
        match r {
            Some(a) => from_binary(tag, body@) == Some(a@),
            None => from_binary(tag, body@) is None,
        },
{
    if tag == TAG_V4 && body.len() == 6 {
        let ip: [u8; 4] = [body[0], body[1], body[2], body[3]];
        let port: u16 = (body[4] as u16) * 256 + (body[5] as u16);
        assert(ip@ =~= body@.subrange(0, 4));
        Some(ClientAddr::V4(ip, port))
    } else if tag == TAG_V6 && body.len() == 18 {
        let mut ip: [u8; 16] = [0u8; 16];
        let mut i: usize = 0;
        while i < 16
            invariant
                i <= 16,
                body@.len() == 18,
                forall|j: int| 0 <= j < i ==> ip@[j] == body@[j],
            decreases 16 - i,
        {
            ip[i] = body[i];
            i += 1;
        }
        let port: u16 = (body[16] as u16) * 256 + (body[17] as u16);
        assert(ip@ =~= body@.subrange(0, 16));
        Some(ClientAddr::V6(ip, port))
    } else {
        None
    }
}

/// Reading the binary form of an address gives the address back.
pub proof fn lemma_binary_round_trip(addr: AddrView)
    requires
        addr.wf(),
    ensures
        binary_form(addr).len() > 0,
        binary_body_len(binary_form(addr)[0]) == Some((binary_form(addr).len() - 1) as nat),
        from_binary(
            binary_form(addr)[0],
            binary_form(addr).subrange(1, binary_form(addr).len() as int),
        ) == Some(addr),
{
    let form = binary_form(addr);
    let body = form.subrange(1, form.len() as int);
    let n = addr.octets.len() as int;
    assert(body.subrange(0, n) =~= addr.octets);
    assert(body[n] == (addr.port / 256) as u8);
    assert(body[n + 1] == (addr.port % 256) as u8);
}

/// An IPv4 address in dotted decimal.
pub open spec fn v4_text(ip: Seq<u8>) -> Seq<u8> {
    digits_of(ip[0] as nat, 10) + seq![46u8] + digits_of(ip[1] as nat, 10) + seq![46u8]
        + digits_of(ip[2] as nat, 10) + seq![46u8] + digits_of(ip[3] as nat, 10)
}

/// The `i`-th 16-bit group of an IPv6 address.
pub open spec fn segment(ip: Seq<u8>, i: int) -> nat {
    (ip[2 * i] * 256 + ip[2 * i + 1]) as nat
}

/// The eight 16-bit groups of an IPv6 address.
pub open spec fn segments(ip: Seq<u8>) -> Seq<nat> {
    Seq::new(8, |i: int| segment(ip, i))
}

/// The number of zero groups in a row from index `i` on.
pub open spec fn zero_run(segs: Seq<nat>, i: int) -> nat
    decreases segs.len() - i,
{
    if 0 <= i < segs.len() && segs[i] == 0 {
        1 + zero_run(segs, i + 1)
    } else {
        0
    }
}

/// The length of the longest run of zero groups that starts at `i` or later.
pub open spec fn max_run(segs: Seq<nat>, i: int) -> nat
    decreases segs.len() - i,
{
    if 0 <= i < segs.len() {
        if zero_run(segs, i) >= max_run(segs, i + 1) {
            zero_run(segs, i)
        } else {
            max_run(segs, i + 1)
        }
    } else {
        0
    }
}

/// The first index at `i` or later where a longest run of zero groups starts.
pub open spec fn run_start(segs: Seq<nat>, i: int) -> int
    decreases segs.len() - i,
{
    if 0 <= i < segs.len() {
        if zero_run(segs, i) >= max_run(segs, i + 1) {
            i
        } else {
            run_start(segs, i + 1)
        }
    } else {
        i
    }
}

/// Groups in lower-case hexadecimal without leading zeros, with a colon
/// between two groups.
pub open spec fn hex_groups(segs: Seq<nat>) -> Seq<u8>
    decreases segs.len(),
{
    if segs.len() == 0 {
        Seq::empty()
    } else if segs.len() == 1 {
        digits_of(segs[0], 16)
    } else {
        hex_groups(segs.drop_last()) + seq![58u8] + digits_of(segs.last(), 16)
    }
}

/// The first ten octets are zero and the next two are 255: an IPv4 address
/// carried in an IPv6 one.
pub open spec fn is_v4_mapped(ip: Seq<u8>) -> bool {
    &&& forall|i: int| 0 <= i < 10 ==> ip[i] == 0
    &&& ip[10] == 255
    &&& ip[11] == 255
}

/// The seven bytes `::ffff:`.
pub open spec fn mapped_prefix() -> Seq<u8> {
    seq![58u8, 58u8, 102u8, 102u8, 102u8, 102u8, 58u8]
}

/// An IPv6 address in its canonical text: lower-case hexadecimal groups
/// without leading zeros, the first longest run of two or more zero groups
/// written as `::`, and an IPv4 address carried in it in dotted decimal
/// after `::ffff:`.
pub open spec fn v6_text(ip: Seq<u8>) -> Seq<u8> {
    let segs = segments(ip);
    if is_v4_mapped(ip) {
        mapped_prefix() + v4_text(ip.subrange(12, 16))
    } else if max_run(segs, 0) >= 2 {
        let start = run_start(segs, 0);
        let end = start + max_run(segs, 0);
        hex_groups(segs.subrange(0, start)) + seq![58u8, 58u8] + hex_groups(segs.subrange(end, 8))
    } else {
        hex_groups(segs)
    }
}

/// An address as text: `a.b.c.d:port` for IPv4 and `[groups]:port` for
/// IPv6, the port in decimal.
pub open spec fn addr_text(addr: AddrView) -> Seq<u8> {
    if addr.v4 {
        v4_text(addr.octets) + seq![58u8] + digits_of(addr.port as nat, 10)
    } else {
        seq![91u8] + v6_text(addr.octets) + seq![93u8, 58u8] + digits_of(addr.port as nat, 10)
    }
}

/// Appends four octets in dotted decimal to `out`.
fn write_v4(out: &mut Vec<u8>, a: u8, b: u8, c: u8, d: u8)
    ensures
        final(out)@ == old(out)@ + v4_text(seq![a, b, c, d]),
{
    write_number(out, a as u32, Radix::Ten);
    out.push(46);
    write_number(out, b as u32, Radix::Ten);
    out.push(46);
    write_number(out, c as u32, Radix::Ten);
    out.push(46);
    write_number(out, d as u32, Radix::Ten);
    assert(out@ =~= old(out)@ + v4_text(seq![a, b, c, d]));
}

/// Appends the groups `segs[from..to]` in hexadecimal, colons between them.
fn write_groups(out: &mut Vec<u8>, segs: &[u16; 8], from: usize, to: usize)
    requires
        from <= to <= 8,
    ensures
        final(out)@ == old(out)@ + hex_groups(
            Seq::new(8, |i: int| segs@[i] as nat).subrange(from as int, to as int),
        ),
{
    let ghost all = Seq::new(8, |i: int| segs@[i] as nat);
    let mut k: usize = from;
    assert(all.subrange(from as int, from as int) =~= Seq::<nat>::empty());
    while k < to
        invariant
            from <= k <= to <= 8,
            all == Seq::new(8, |i: int| segs@[i] as nat),
            out@ == old(out)@ + hex_groups(all.subrange(from as int, k as int)),
        decreases to - k,
    {
        let ghost done = all.subrange(from as int, k as int);
        let ghost next = all.subrange(from as int, k + 1);
        proof {
            assert(next.drop_last() =~= done);
            assert(next.last() == segs@[k as int] as nat);
        }
        if k > from {
            out.push(58);
        }
        write_number(out, segs[k] as u32, Radix::Sixteen);
        proof {
            if k == from {
                assert(done.len() == 0);
                assert(hex_groups(done) =~= Seq::<u8>::empty());
                assert(next.len() == 1);
                assert(next[0] == next.last());
                assert(out@ =~= old(out)@ + hex_groups(next));
            } else {
                assert(next.len() > 1);
                assert(out@ =~= old(out)@ + hex_groups(next));
            }
        }
        k += 1;
    }
}

/// Appends the canonical text of an IPv6 address to `out`.
fn write_v6(out: &mut Vec<u8>, ip: &[u8; 16])
    ensures
        final(out)@ == old(out)@ + v6_text(ip@),
{
    let mut mapped: bool = ip[10] == 255 && ip[11] == 255;
    let mut i: usize = 0;
    while i < 10
        invariant
            i <= 10,
            mapped == (ip@[10] == 255 && ip@[11] == 255 && forall|j: int|
                0 <= j < i ==> ip@[j] == 0),
        decreases 10 - i,
    {
        if ip[i] != 0 {
            mapped = false;
        }
        i += 1;
    }
    if mapped {
        out.push(58);
        out.push(58);
        out.push(102);
        out.push(102);
        out.push(102);
        out.push(102);
        out.push(58);
        write_v4(out, ip[12], ip[13], ip[14], ip[15]);
        assert(ip@.subrange(12, 16) =~= seq![ip@[12], ip@[13], ip@[14], ip@[15]]);
        assert(out@ =~= old(out)@ + mapped_prefix() + v4_text(ip@.subrange(12, 16)));
        return;
    }
    let mut segs: [u16; 8] = [0u16; 8];
    let mut k: usize = 0;
    while k < 8
        invariant
            k <= 8,
            forall|j: int| 0 <= j < k ==> segs@[j] as nat == segment(ip@, j),
        decreases 8 - k,
    {
        segs[k] = (ip[2 * k] as u16) * 256 + (ip[2 * k + 1] as u16);
        k += 1;
    }
    let ghost all = segments(ip@);
    assert(all =~= Seq::new(8, |i: int| segs@[i] as nat));
    let mut best_len: usize = 0;
    let mut best_start: usize = 8;
    let mut run: usize = 0;
    let mut at: usize = 8;
    while at > 0
        invariant
            at <= 8,
            all == segments(ip@),
            all =~= Seq::new(8, |i: int| segs@[i] as nat),
            run == zero_run(all, at as int),
            run <= 8 - at,
            best_len == max_run(all, at as int),
            best_start == run_start(all, at as int),
        decreases at,
    {
        at -= 1;
        if segs[at] == 0 {
            run += 1;
        } else {
            run = 0;
        }
        if run >= best_len {
            best_len = run;
            best_start = at;
        }
    }
    if best_len >= 2 {
        proof {
            lemma_run_in_range(all, 0);
        }
        write_groups(out, &segs, 0, best_start);
        out.push(58);
        out.push(58);
        write_groups(out, &segs, best_start + best_len, 8);
        assert(out@ =~= old(out)@ + v6_text(ip@));
    } else {
        write_groups(out, &segs, 0, 8);
        assert(all.subrange(0, 8) =~= all);
    }
}

/// A longest run of zero groups lies inside the address.
pub proof fn lemma_run_in_range(segs: Seq<nat>, i: int)
    requires
        0 <= i <= segs.len(),
    ensures
        i <= run_start(segs, i) <= segs.len(),
        run_start(segs, i) + max_run(segs, i) <= segs.len(),
        zero_run(segs, i) <= segs.len() - i,
        max_run(segs, i) == zero_run(segs, run_start(segs, i)),
    decreases segs.len() - i,
{
    if i < segs.len() {
        lemma_run_in_range(segs, i + 1);
    }
}

/// Appends `addr` as text to `out`.
pub fn write_text(out: &mut Vec<u8>, addr: &ClientAddr)
    ensures
        final(out)@ == old(out)@ + addr_text(addr@),
{
    match addr {
        ClientAddr::V4(ip, port) => {
            write_v4(out, ip[0], ip[1], ip[2], ip[3]);
            assert(ip@ =~= seq![ip@[0], ip@[1], ip@[2], ip@[3]]);
            out.push(58);
            write_number(out, *port as u32, Radix::Ten);
            assert(out@ =~= old(out)@ + addr_text(addr@));
        },
        ClientAddr::V6(ip, port) => {
            out.push(91);
            write_v6(out, ip);
            out.push(93);
            out.push(58);
            write_number(out, *port as u32, Radix::Ten);
            assert(out@ =~= old(out)@ + addr_text(addr@));
        },
    }
}

/// `addr` as text.
pub fn to_text(addr: &ClientAddr) -> (r: Vec<u8>)
    ensures
        r@ == addr_text(addr@),
{
    let mut out: Vec<u8> = Vec::new();
    write_text(&mut out, addr);
    out
}

/// The value of one group of a dotted-decimal address: one to three
/// decimal digits, no leading zero before another digit, at most 255.
pub open spec fn parse_octet(g: Seq<u8>) -> Option<nat> {
    if 1 <= g.len() <= 3 && (g.len() == 1 || g[0] != 48) {
        parse_digits(g, 10, 255)
    } else {
        None
    }
}

/// The four octets that `t` writes in dotted decimal: four groups as
/// `parse_octet` takes them, with dots between them.
pub open spec fn parse_dotted(t: Seq<u8>) -> Option<Seq<u8>> {
    let groups = split(t, seq![46u8]);
    if groups.len() != 4 {
        None
    } else {
        match (
            parse_octet(groups[0]),
            parse_octet(groups[1]),
            parse_octet(groups[2]),
            parse_octet(groups[3]),
        ) {
            (Some(a), Some(b), Some(c), Some(d)) => Some(seq![a as u8, b as u8, c as u8, d as u8]),
            _ => None,
        }
    }
}

/// The address that `t` writes as `a.b.c.d:port`: an address in dotted
/// decimal, a colon, and the port in one or more decimal digits with a value
/// of at most 65535.
pub open spec fn parse_v4_text(t: Seq<u8>) -> Option<AddrView> {
    let halves = split(t, seq![58u8]);
    if halves.len() != 2 {
        None
    } else {
        match (parse_dotted(halves[0]), parse_digits(halves[1], 10, 65535)) {
            (Some(ip), Some(p)) => Some(AddrView { v4: true, octets: ip, port: p as u16 }),
            _ => None,
        }
    }
}

/// The numbers that `part` writes as hexadecimal groups with colons
/// between them; no numbers where `part` is empty.
pub open spec fn groups_of(part: Seq<u8>) -> Option<Seq<nat>> {
    let pieces = split(part, seq![58u8]);
    if part.len() == 0 {
        Some(Seq::empty())
    } else if forall|k: int|
        0 <= k < pieces.len() ==> parse_digits(#[trigger] pieces[k], 16, 65535) is Some {
        Some(Seq::new(pieces.len(), |k: int| parse_digits(pieces[k], 16, 65535).unwrap()))
    } else {
        None
    }
}

/// The octets of 16-bit groups, the high octet of each group first.
pub open spec fn octets_of(segs: Seq<nat>) -> Seq<u8> {
    Seq::new(
        2 * segs.len(),
        |i: int|
            if i % 2 == 0 {
                (segs[i / 2] / 256) as u8
            } else {
                (segs[i / 2] % 256) as u8
            },
    )
}

/// This many zero groups.
pub open spec fn zero_groups(n: int) -> Seq<nat> {
    Seq::new(n as nat, |i: int| 0nat)
}

/// The 16 octets that `inner` stands for, read with a free hand: the form
/// with a dotted IPv4 address behind `::ffff:`, the form with one `::`
/// for two or more zero groups, or eight groups.
pub open spec fn loose_v6(inner: Seq<u8>) -> Option<Seq<u8>> {
    if contains(inner, seq![46u8]) {
        if mapped_prefix().is_prefix_of(inner) {
            match parse_dotted(inner.subrange(7, inner.len() as int)) {
                Some(quad) => Some(
                    octets_of(zero_groups(5)) + seq![255u8, 255u8] + quad,
                ),
                None => None,
            }
        } else {
            None
        }
    } else {
        match find(inner, seq![58u8, 58u8]) {
            Some(i) => match (
                groups_of(inner.subrange(0, i)),
                groups_of(inner.subrange(i + 2, inner.len() as int)),
            ) {
                (Some(left), Some(right)) => if left.len() + right.len() <= 6 {
                    Some(octets_of(left + zero_groups(8 - left.len() - right.len()) + right))
                } else {
                    None
                },
                _ => None,
            },
            None => match groups_of(inner) {
                Some(all) => if all.len() == 8 {
                    Some(octets_of(all))
                } else {
                    None
                },
                None => None,
            },
        }
    }
}

/// The 16 octets of the IPv6 address whose canonical text is `inner`:
/// what `inner` stands for, where writing that gives `inner` again.
pub open spec fn parse_v6(inner: Seq<u8>) -> Option<Seq<u8>> {
    match loose_v6(inner) {
        Some(ip) => if v6_text(ip) == inner {
            Some(ip)
        } else {
            None
        },
        None => None,
    }
}

/// The address that `t` writes as `[groups]:port`: the canonical text of
/// an IPv6 address in square brackets, a colon, and the port in one or more
/// decimal digits with a value of at most 65535.
pub open spec fn parse_v6_text(t: Seq<u8>) -> Option<AddrView> {
    match find(t, seq![93u8, 58u8]) {
        Some(i) => if i >= 1 && t[0] == 91 {
            match (
                parse_v6(t.subrange(1, i)),
                parse_digits(t.subrange(i + 2, t.len() as int), 10, 65535),
            ) {
                (Some(ip), Some(p)) => Some(AddrView { v4: false, octets: ip, port: p as u16 }),
                _ => None,
            }
        } else {
            None
        },
        None => None,
    }
}

/// The address that the text `t` writes: an IPv4 address with its port, or
/// else an IPv6 address with its port.
pub open spec fn parse_addr_text(t: Seq<u8>) -> Option<AddrView> {
    match parse_v4_text(t) {
        Some(a) => Some(a),
        None => parse_v6_text(t),
    }
}

/// Reads one group of a dotted-decimal address.
fn read_octet(g: &[u8]) -> (r: Option<u8>)
    ensures
        match r {
            Some(v) => parse_octet(g@) == Some(v as nat),
            None => parse_octet(g@) is None,
        },
{
    if g.len() < 1 || g.len() > 3 || (g.len() > 1 && g[0] == 48) {
        return None;
    }
    match read_digits(g, Radix::Ten, 255) {
        Some(v) => Some(v as u8),
        None => None,
    }
}

/// Reads four octets in dotted decimal.
fn read_dotted(t: &[u8]) -> (r: Option<[u8; 4]>)
    ensures
        match r {
            Some(ip) => parse_dotted(t@) == Some(ip@),
            None => parse_dotted(t@) is None,
        },
{
    let dot: Vec<u8> = vec![46u8];
    assert(dot@ =~= seq![46u8]);
    let groups = split_bytes(t, dot.as_slice());
    assert(views(groups@).len() == groups@.len());
    if groups.len() != 4 {
        return None;
    }
    assert(views(groups@)[0] == groups@[0]@);
    assert(views(groups@)[1] == groups@[1]@);
    assert(views(groups@)[2] == groups@[2]@);
    assert(views(groups@)[3] == groups@[3]@);
    let a = read_octet(groups[0].as_slice());
    let b = read_octet(groups[1].as_slice());
    let c = read_octet(groups[2].as_slice());
    let d = read_octet(groups[3].as_slice());
    match (a, b, c, d) {
        (Some(a), Some(b), Some(c), Some(d)) => {
            let ip: [u8; 4] = [a, b, c, d];
            assert(ip@ =~= seq![a, b, c, d]);
            Some(ip)
        },
        _ => None,
    }
}

/// Reads the IPv4 address with its port that `t` writes.
fn read_v4_text(t: &[u8]) -> (r: Option<ClientAddr>)
    ensures
        match r {
            Some(a) => parse_v4_text(t@) == Some(a@),
            None => parse_v4_text(t@) is None,
        },
{
    let colon: Vec<u8> = vec![58u8];
    assert(colon@ =~= seq![58u8]);
    let halves = split_bytes(t, colon.as_slice());
    assert(views(halves@).len() == halves@.len());
    if halves.len() != 2 {
        return None;
    }
    assert(views(halves@)[0] == halves@[0]@);
    assert(views(halves@)[1] == halves@[1]@);
    let ip = read_dotted(halves[0].as_slice());
    let p = read_digits(halves[1].as_slice(), Radix::Ten, 65535);
    match (ip, p) {
        (Some(ip), Some(p)) => Some(ClientAddr::V4(ip, p as u16)),
        _ => None,
    }
}

/// The numbers that a vector of groups holds.
pub open spec fn group_values(g: Seq<u16>) -> Seq<nat> {
    Seq::new(g.len(), |k: int| g[k] as nat)
}

/// Reads hexadecimal groups with colons between them.
fn read_groups(part: &[u8]) -> (r: Option<Vec<u16>>)
    ensures
        match r {
            Some(g) => groups_of(part@) == Some(group_values(g@)),
            None => groups_of(part@) is None,
        },
{
    let mut out: Vec<u16> = Vec::new();
    if part.len() == 0 {
        assert(group_values(out@) =~= Seq::<nat>::empty());
        return Some(out);
    }
    let colon: Vec<u8> = vec![58u8];
    assert(colon@ =~= seq![58u8]);
    let pieces = split_bytes(part, colon.as_slice());
    let ghost ps = split(part@, seq![58u8]);
    assert(views(pieces@).len() == pieces@.len());
    let mut k: usize = 0;
    while k < pieces.len()
        invariant
            k <= pieces@.len(),
            part@.len() > 0,
            ps == split(part@, seq![58u8]),
            views(pieces@) == ps,
            out@.len() == k,
            forall|j: int|
                0 <= j < k ==> parse_digits(#[trigger] ps[j], 16, 65535) == Some(out@[j] as nat),
        decreases pieces@.len() - k,
    {
        assert(views(pieces@)[k as int] == pieces@[k as int]@);
        assert(views(pieces@).len() == pieces@.len());
        match read_digits(pieces[k].as_slice(), Radix::Sixteen, 65535) {
            Some(v) => {
                out.push(v as u16);
            },
            None => {
                assert(parse_digits(ps[k as int], 16, 65535) is None);
                return None;
            },
        }
        k += 1;
    }
    assert(views(pieces@).len() == pieces@.len());
    assert(group_values(out@) =~= Seq::new(
        ps.len(),
        |k: int| parse_digits(ps[k], 16, 65535).unwrap(),
    ));
    Some(out)
}

/// The octets of eight groups.
fn groups_to_octets(segs: &[u16; 8]) -> (r: [u8; 16])
    ensures
        r@ == octets_of(group_values(segs@)),
{
    let mut ip: [u8; 16] = [0u8; 16];
    let mut k: usize = 0;
    while k < 8
        invariant
            k <= 8,
            forall|i: int| 0 <= i < 2 * k ==> ip@[i] == octets_of(group_values(segs@))[i],
        decreases 8 - k,
    {
        ip[2 * k] = (segs[k] / 256) as u8;
        ip[2 * k + 1] = (segs[k] % 256) as u8;
        k += 1;
    }
    assert(ip@ =~= octets_of(group_values(segs@)));
    ip
}

/// Reads the 16 octets that `inner` stands for, with a free hand.
fn read_loose_v6(inner: &[u8]) -> (r: Option<[u8; 16]>)
    ensures
        match r {
            Some(ip) => loose_v6(inner@) == Some(ip@),
            None => loose_v6(inner@) is None,
        },
{
    let dot: Vec<u8> = vec![46u8];
    assert(dot@ =~= seq![46u8]);
    if find_bytes(inner, dot.as_slice()).is_some() {
        let lead: Vec<u8> = vec![58u8, 58u8, 102u8, 102u8, 102u8, 102u8, 58u8];
        assert(lead@ =~= mapped_prefix());
        if inner.len() < 7 || !is_match_at(inner, lead.as_slice(), 0) {
            proof {
                if mapped_prefix().is_prefix_of(inner@) {
                    assert(inner@.subrange(0, 7) =~= mapped_prefix());
                }
            }
            return None;
        }
        assert(inner@.subrange(0, 7) =~= mapped_prefix());
        match read_dotted(slice_subrange(inner, 7, inner.len())) {
            Some(quad) => {
                let mut ip: [u8; 16] = [0u8; 16];
                ip[10] = 255;
                ip[11] = 255;
                ip[12] = quad[0];
                ip[13] = quad[1];
                ip[14] = quad[2];
                ip[15] = quad[3];
                assert(ip@ =~= octets_of(zero_groups(5)) + seq![255u8, 255u8] + quad@);
                Some(ip)
            },
            None => None,
        }
    } else {
        let gap: Vec<u8> = vec![58u8, 58u8];
        assert(gap@ =~= seq![58u8, 58u8]);
        let mut segs: [u16; 8] = [0u16; 8];
        match find_bytes(inner, gap.as_slice()) {
            Some(i) => {
                let n: usize = inner.len();
                proof {
                    crate::text::lemma_find_from(inner@, gap@, 0);
                    assert(crate::text::matches_at(inner@, gap@, i as int));
                    assert(i + 2 <= n);
                }
                let left = read_groups(slice_subrange(inner, 0, i));
                let right = read_groups(slice_subrange(inner, i + 2, n));
                match (left, right) {
                    (Some(left), Some(right)) => {
                        if left.len() > 6 || right.len() > 6 - left.len() {
                            return None;
                        }
                        let skip: usize = 8 - right.len();
                        let ghost want = group_values(left@) + zero_groups(
                            8 - left@.len() - right@.len(),
                        ) + group_values(right@);
                        let mut k: usize = 0;
                        while k < left.len()
                            invariant
                                k <= left@.len() <= 6,
                                forall|j: int| 0 <= j < k ==> segs@[j] == left@[j],
                                forall|j: int| k <= j < 8 ==> segs@[j] == 0,
                            decreases left@.len() - k,
                        {
                            segs[k] = left[k];
                            k += 1;
                        }
                        let mut m: usize = 0;
                        while m < right.len()
                            invariant
                                m <= right@.len(),
                                skip == 8 - right@.len(),
                                left@.len() + right@.len() <= 6,
                                forall|j: int| 0 <= j < left@.len() ==> segs@[j] == left@[j],
                                forall|j: int| left@.len() <= j < skip ==> segs@[j] == 0,
                                forall|j: int| 0 <= j < m ==> segs@[skip + j] == right@[j],
                                forall|j: int| skip + m <= j < 8 ==> segs@[j] == 0,
                            decreases right@.len() - m,
                        {
                            segs[skip + m] = right[m];
                            m += 1;
                        }
                        assert(group_values(segs@) =~= want);
                        Some(groups_to_octets(&segs))
                    },
                    _ => None,
                }
            },
            None => match read_groups(inner) {
                Some(all) => {
                    if all.len() != 8 {
                        return None;
                    }
                    let mut k: usize = 0;
                    while k < 8
                        invariant
                            k <= 8,
                            all@.len() == 8,
                            forall|j: int| 0 <= j < k ==> segs@[j] == all@[j],
                        decreases 8 - k,
                    {
                        segs[k] = all[k];
                        k += 1;
                    }
                    assert(group_values(segs@) =~= group_values(all@));
                    Some(groups_to_octets(&segs))
                },
                None => None,
            },
        }
    }
}

/// Reads the 16 octets of the IPv6 address whose canonical text is `inner`.
fn read_v6(inner: &[u8]) -> (r: Option<[u8; 16]>)
    ensures
        match r {
            Some(ip) => parse_v6(inner@) == Some(ip@),
            None => parse_v6(inner@) is None,
        },
{
    match read_loose_v6(inner) {
        Some(ip) => {
            let mut text: Vec<u8> = Vec::new();
            write_v6(&mut text, &ip);
            if crate::text::equals(text.as_slice(), inner) {
                Some(ip)
            } else {
                None
            }
        },
        None => None,
    }
}

/// Reads the IPv6 address with its port that `t` writes.
fn read_v6_text(t: &[u8]) -> (r: Option<ClientAddr>)
    ensures
        match r {
            Some(a) => parse_v6_text(t@) == Some(a@),
            None => parse_v6_text(t@) is None,
        },
{
    let close: Vec<u8> = vec![93u8, 58u8];
    assert(close@ =~= seq![93u8, 58u8]);
    match find_bytes(t, close.as_slice()) {
        Some(i) => {
            let n: usize = t.len();
            proof {
                crate::text::lemma_find_from(t@, close@, 0);
                assert(crate::text::matches_at(t@, close@, i as int));
                assert(i + 2 <= n);
            }
            if i < 1 || t[0] != 91 {
                return None;
            }
            let ip = read_v6(slice_subrange(t, 1, i));
            let p = read_digits(slice_subrange(t, i + 2, n), Radix::Ten, 65535);
            match (ip, p) {
                (Some(ip), Some(p)) => Some(ClientAddr::V6(ip, p as u16)),
                _ => None,
            }
        },
        None => None,
    }
}

/// Reads the address that the text `t` writes.
pub fn parse_text(t: &[u8]) -> (r: Option<ClientAddr>)
    ensures
        match r {
            Some(a) => parse_addr_text(t@) == Some(a@),
            None => parse_addr_text(t@) is None,
        },
{
    match read_v4_text(t) {
        Some(a) => Some(a),
        None => read_v6_text(t),
    }
}

} // verus!
