//! What holds of addresses as text: reading gives back what was written.

use vstd::prelude::*;
use crate::addr::{
    addr_text, groups_of, hex_groups, is_v4_mapped, loose_v6, mapped_prefix, max_run, octets_of,
    parse_addr_text, parse_dotted, parse_octet, parse_v4_text, parse_v6, parse_v6_text, run_start,
    segments, v4_text, v6_text, zero_groups, zero_run, AddrView,
};
use crate::number::{all_digits, digit_value, digits_of, lemma_digits_round_trip, parse_digits};
use crate::text::{
    contains, ends_piece, find, free_of, join, lemma_find_from, lemma_find_is, lemma_find_none,
    lemma_free_none, lemma_join_push, lemma_split_join, matches_at, plain, split,
};

verus! {

/// Pieces with the byte `sep` between every two of them.
pub open spec fn join_with(pieces: Seq<Seq<u8>>, sep: u8) -> Seq<u8> {
    join(pieces, seq![sep])
}

/// Splitting what was joined gives the pieces back, where no piece holds
/// the byte that joins them.
pub proof fn lemma_split_joined(pieces: Seq<Seq<u8>>, sep: u8)
    requires
        pieces.len() >= 1,
        forall|k: int| 0 <= k < pieces.len() ==> free_of(#[trigger] pieces[k], sep),
    ensures
        split(join_with(pieces, sep), seq![sep]) == pieces,
{
    assert forall|k: int| 0 <= k < pieces.len() implies ends_piece(
        #[trigger] pieces[k],
        seq![sep],
    ) by {
        lemma_free_none(pieces[k], sep);
    }
    lemma_split_join(pieces, seq![sep]);
}

/// A number's decimal digits hold neither a dot nor a colon, and a number
/// below 1000 has three digits at most.
pub proof fn lemma_decimal_shape(n: nat)
    ensures
        free_of(digits_of(n, 10), 46),
        free_of(digits_of(n, 10), 58),
        n < 10 ==> digits_of(n, 10).len() == 1,
        n < 100 ==> digits_of(n, 10).len() <= 2,
        n < 1000 ==> digits_of(n, 10).len() <= 3,
{
    lemma_digits_round_trip(n, 10);
    let d = digits_of(n, 10);
    assert forall|i: int| 0 <= i < d.len() implies d[i] != 46 && d[i] != 58 by {
        assert(digit_value(d[i], 10) is Some);
    }
    if n >= 10 {
        let q = n / 10;
        assert(d == digits_of(q, 10).push(crate::number::digit_byte(n % 10)));
        if q >= 10 {
            let q2 = q / 10;
            assert(digits_of(q, 10) == digits_of(q2, 10).push(crate::number::digit_byte(q % 10)));
        }
    }
}

/// The group that writes an octet is read as that octet.
pub proof fn lemma_octet_round_trip(o: u8)
    ensures
        parse_octet(digits_of(o as nat, 10)) == Some(o as nat),
{
    lemma_digits_round_trip(o as nat, 10);
    lemma_decimal_shape(o as nat);
    let d = digits_of(o as nat, 10);
    assert(crate::number::unsigned_digits(d) == d);
    assert(crate::number::parse_number(d, 10, 255) == Some(o as nat));
}

/// Four octets that were written in dotted decimal are read as
/// themselves, and what was written holds no colon.
pub proof fn lemma_dotted_round_trip(ip: Seq<u8>)
    requires
        ip.len() == 4,
    ensures
        crate::addr::parse_dotted(v4_text(ip)) == Some(ip),
        free_of(v4_text(ip), 58),
        !free_of(v4_text(ip), 46),
{
    let d0 = digits_of(ip[0] as nat, 10);
    let d1 = digits_of(ip[1] as nat, 10);
    let d2 = digits_of(ip[2] as nat, 10);
    let d3 = digits_of(ip[3] as nat, 10);
    lemma_decimal_shape(ip[0] as nat);
    lemma_decimal_shape(ip[1] as nat);
    lemma_decimal_shape(ip[2] as nat);
    lemma_decimal_shape(ip[3] as nat);
    let groups = seq![d0, d1, d2, d3];
    let dotted = v4_text(ip);
    assert(join_with(seq![d3], 46) == d3);
    assert(seq![d2, d3].drop_first() =~= seq![d3]);
    assert(join_with(seq![d2, d3], 46) =~= d2 + seq![46u8] + d3);
    assert(seq![d1, d2, d3].drop_first() =~= seq![d2, d3]);
    assert(join_with(seq![d1, d2, d3], 46) =~= d1 + seq![46u8] + d2 + seq![46u8] + d3);
    assert(groups.drop_first() =~= seq![d1, d2, d3]);
    assert(join_with(groups, 46) =~= dotted);
    lemma_split_joined(groups, 46);
    lemma_octet_round_trip(ip[0]);
    lemma_octet_round_trip(ip[1]);
    lemma_octet_round_trip(ip[2]);
    lemma_octet_round_trip(ip[3]);
    assert(ip =~= seq![ip[0], ip[1], ip[2], ip[3]]);
    assert(dotted[d0.len() as int] == 46);
}

/// A port that was written is read as itself.
pub proof fn lemma_port_round_trip(port: u16)
    ensures
        parse_digits(digits_of(port as nat, 10), 10, 65535) == Some(port as nat),
        free_of(digits_of(port as nat, 10), 58),
        free_of(digits_of(port as nat, 10), 93),
{
    lemma_digits_round_trip(port as nat, 10);
    lemma_decimal_shape(port as nat);
    let d = digits_of(port as nat, 10);
    assert(crate::number::unsigned_digits(d) == d);
    assert(crate::number::parse_number(d, 10, 65535) == Some(port as nat));
    assert forall|i: int| 0 <= i < d.len() implies d[i] != 93 by {
        assert(digit_value(d[i], 10) is Some);
    }
}

/// An IPv4 address with its port that was written as text is read as
/// itself.
pub proof fn lemma_v4_text_round_trip(addr: AddrView)
    requires
        addr.v4,
        addr.wf(),
    ensures
        parse_v4_text(addr_text(addr)) == Some(addr),
{
    let dotted = v4_text(addr.octets);
    let port = digits_of(addr.port as nat, 10);
    lemma_dotted_round_trip(addr.octets);
    lemma_port_round_trip(addr.port);
    let halves = seq![dotted, port];
    assert(halves.drop_first() =~= seq![port]);
    assert(join_with(seq![port], 58) == port);
    assert(join_with(halves, 58) =~= addr_text(addr));
    lemma_split_joined(halves, 58);
}

/// An IPv4 address that was written as text is read as itself.
pub proof fn lemma_v4_round_trip(addr: AddrView)
    requires
        addr.v4,
        addr.wf(),
    ensures
        parse_addr_text(addr_text(addr)) == Some(addr),
{
    lemma_v4_text_round_trip(addr);
}

/// Each group in hexadecimal.
pub open spec fn hexes(segs: Seq<nat>) -> Seq<Seq<u8>> {
    Seq::new(segs.len(), |k: int| digits_of(segs[k], 16))
}

/// Hexadecimal groups are the groups' digits joined by colons.
pub proof fn lemma_groups_joined(segs: Seq<nat>)
    ensures
        hex_groups(segs) == join_with(hexes(segs), 58),
    decreases segs.len(),
{
    if segs.len() == 0 {
    } else if segs.len() == 1 {
        assert(hexes(segs)[0] == digits_of(segs[0], 16));
    } else {
        let front = segs.drop_last();
        lemma_groups_joined(front);
        assert(hexes(segs) =~= hexes(front).push(digits_of(segs.last(), 16)));
        lemma_join_push(hexes(front), seq![58u8], digits_of(segs.last(), 16));
    }
}

/// A text of digits and colons in which no colon stands first, last or
/// next to another colon.
pub open spec fn tidy(s: Seq<u8>) -> bool {
    &&& forall|i: int| 0 <= i < s.len() ==> s[i] == 58 || (#[trigger] digit_value(s[i], 16)) is Some
    &&& s.len() > 0 ==> s[0] != 58 && s.last() != 58
    &&& forall|i: int, j: int|
        0 <= i && j == i + 1 && j < s.len() ==> !(#[trigger] s[i] == 58 && #[trigger] s[j] == 58)
}

/// A number's hexadecimal digits are tidy, and there is one at least.
pub proof fn lemma_hex_shape(n: nat)
    ensures
        tidy(digits_of(n, 16)),
        digits_of(n, 16).len() > 0,
        free_of(digits_of(n, 16), 58),
{
    lemma_digits_round_trip(n, 16);
    let d = digits_of(n, 16);
    assert forall|i: int| 0 <= i < d.len() implies d[i] != 58 by {
        assert(digit_value(d[i], 16) is Some);
    }
}

/// Hexadecimal groups are tidy, and not empty where there is a group.
pub proof fn lemma_groups_tidy(segs: Seq<nat>)
    ensures
        tidy(hex_groups(segs)),
        segs.len() > 0 ==> hex_groups(segs).len() > 0,
    decreases segs.len(),
{
    if segs.len() == 0 {
    } else if segs.len() == 1 {
        lemma_hex_shape(segs[0]);
    } else {
        let front = hex_groups(segs.drop_last());
        let last = digits_of(segs.last(), 16);
        lemma_groups_tidy(segs.drop_last());
        lemma_hex_shape(segs.last());
        let all = front + seq![58u8] + last;
        assert(hex_groups(segs) == all);
        assert forall|i: int, j: int| 0 <= i && j == i + 1 && j < all.len() implies !(
        #[trigger] all[i] == 58 && #[trigger] all[j] == 58) by {
            if i < front.len() - 1 {
                assert(all[i] == front[i] && all[j] == front[j]);
            } else if i == front.len() - 1 {
                assert(all[i] == front.last());
            } else if i == front.len() {
                assert(all[j] == last[0]);
            } else {
                assert(all[i] == last[i - front.len() - 1]);
            }
        }
        assert forall|i: int| 0 <= i < all.len() implies all[i] == 58 || (#[trigger] digit_value(
            all[i],
            16,
        )) is Some by {
            if i < front.len() {
                assert(all[i] == front[i]);
            } else if i > front.len() {
                assert(all[i] == last[i - front.len() - 1]);
            }
        }
        assert(all[0] == front[0]);
        assert(all.last() == last.last());
    }
}

/// A tidy text holds no dot, no closing bracket and no two colons in a row.
pub proof fn lemma_tidy_free(s: Seq<u8>)
    requires
        tidy(s),
    ensures
        free_of(s, 46),
        free_of(s, 93),
        find(s, seq![58u8, 58u8]) is None,
{
    assert forall|i: int| 0 <= i < s.len() implies s[i] != 46 && s[i] != 93 by {
        if s[i] != 58 {
            assert(digit_value(s[i], 16) is Some);
        }
    }
    assert forall|j: int| 0 <= j implies !matches_at(s, seq![58u8, 58u8], j) by {
        if matches_at(s, seq![58u8, 58u8], j) {
            let m = s.subrange(j, j + 2);
            assert(m[0] == 58 && m[1] == 58);
            assert(s[j] == 58 && s[j + 1] == 58);
        }
    }
    lemma_find_none(s, seq![58u8, 58u8]);
}

/// Groups that were written in hexadecimal are read as themselves.
pub proof fn lemma_groups_round_trip(segs: Seq<nat>)
    requires
        forall|k: int| 0 <= k < segs.len() ==> segs[k] <= 65535,
    ensures
        groups_of(hex_groups(segs)) == Some(segs),
{
    let text = hex_groups(segs);
    if segs.len() == 0 {
        assert(segs =~= Seq::<nat>::empty());
    } else {
        lemma_groups_tidy(segs);
        lemma_groups_joined(segs);
        let pieces = hexes(segs);
        assert forall|k: int| 0 <= k < pieces.len() implies free_of(#[trigger] pieces[k], 58) by {
            lemma_hex_shape(segs[k]);
        }
        lemma_split_joined(pieces, 58);
        assert forall|k: int| 0 <= k < pieces.len() implies parse_digits(
            #[trigger] pieces[k],
            16,
            65535,
        ) == Some(segs[k]) by {
            lemma_digits_round_trip(segs[k], 16);
            let d = digits_of(segs[k], 16);
            assert(crate::number::unsigned_digits(d) == d);
            assert(crate::number::parse_number(d, 16, 65535) == Some(segs[k]));
        }
        assert(Seq::new(pieces.len(), |k: int| parse_digits(pieces[k], 16, 65535).unwrap())
            =~= segs);
    }
}

/// The groups of a run of zero groups are zero.
pub proof fn lemma_run_zero(segs: Seq<nat>, i: int)
    requires
        0 <= i <= segs.len(),
    ensures
        forall|j: int| i <= j < i + zero_run(segs, i) ==> segs[j] == 0,
        i + zero_run(segs, i) <= segs.len(),
    decreases segs.len() - i,
{
    if i < segs.len() && segs[i] == 0 {
        lemma_run_zero(segs, i + 1);
    }
}

/// The octets of an address's groups are the address's octets.
pub proof fn lemma_octets_of_segments(ip: Seq<u8>)
    requires
        ip.len() == 16,
    ensures
        octets_of(segments(ip)) == ip,
        forall|k: int| 0 <= k < 8 ==> (#[trigger] segments(ip)[k]) <= 65535,
{
    let segs = segments(ip);
    let back = octets_of(segs);
    assert forall|i: int| 0 <= i < 16 implies back[i] == ip[i] by {
        let k = i / 2;
        assert(segs[k] == ip[2 * k] * 256 + ip[2 * k + 1]);
        if i % 2 == 0 {
            assert(i == 2 * k);
        } else {
            assert(i == 2 * k + 1);
        }
    }
    assert(back =~= ip);
}

/// Two tidy texts with two colons between them hold no dot and no
/// closing bracket, and the first two colons in a row are those between
/// the texts.
pub proof fn lemma_gap_found(hl: Seq<u8>, hr: Seq<u8>)
    requires
        tidy(hl),
        tidy(hr),
    ensures
        find(hl + seq![58u8, 58u8] + hr, seq![58u8, 58u8]) == Some(hl.len() as int),
        !contains(hl + seq![58u8, 58u8] + hr, seq![46u8]),
        free_of(hl + seq![58u8, 58u8] + hr, 93),
        (hl + seq![58u8, 58u8] + hr).subrange(0, hl.len() as int) == hl,
        (hl + seq![58u8, 58u8] + hr).subrange(
            (hl.len() + 2) as int,
            (hl + seq![58u8, 58u8] + hr).len() as int,
        ) == hr,
{
    let inner = hl + seq![58u8, 58u8] + hr;
    let n = hl.len() as int;
    lemma_tidy_free(hl);
    lemma_tidy_free(hr);
    assert forall|i: int| 0 <= i < inner.len() implies inner[i] != 46 && inner[i] != 93 by {
        if i < n {
            assert(inner[i] == hl[i]);
        } else if i >= n + 2 {
            assert(inner[i] == hr[i - n - 2]);
        }
    }
    lemma_free_none(inner, 46);
    assert(inner.subrange(n, n + 2) =~= seq![58u8, 58u8]);
    assert forall|j: int| 0 <= j < n implies !matches_at(inner, seq![58u8, 58u8], j) by {
        if matches_at(inner, seq![58u8, 58u8], j) {
            let m = inner.subrange(j, j + 2);
            assert(m[0] == 58 && m[1] == 58);
            assert(inner[j] == hl[j]);
            if j + 1 < n {
                assert(inner[j + 1] == hl[j + 1]);
            } else {
                assert(hl[j] == hl.last());
            }
        }
    }
    lemma_find_is(inner, seq![58u8, 58u8], n);
    assert(inner.subrange(0, n) =~= hl);
    assert(inner.subrange(n + 2, inner.len() as int) =~= hr);
}

/// What a text stands for that holds a dot, opens with `::ffff:` and goes
/// on with four octets in dotted decimal.
proof fn lemma_loose_mapped_form(inner: Seq<u8>, quad: Seq<u8>)
    requires
        contains(inner, seq![46u8]),
        mapped_prefix().is_prefix_of(inner),
        parse_dotted(inner.subrange(7, inner.len() as int)) == Some(quad),
    ensures
        loose_v6(inner) == Some(octets_of(zero_groups(5)) + seq![255u8, 255u8] + quad),
{
}

/// What a text stands for that holds no dot and has groups before and
/// behind its first two colons in a row.
proof fn lemma_loose_gap_form(inner: Seq<u8>, n: int, left: Seq<nat>, right: Seq<nat>)
    requires
        !contains(inner, seq![46u8]),
        find(inner, seq![58u8, 58u8]) == Some(n),
        groups_of(inner.subrange(0, n)) == Some(left),
        groups_of(inner.subrange(n + 2, inner.len() as int)) == Some(right),
        left.len() + right.len() <= 6,
    ensures
        loose_v6(inner) == Some(
            octets_of(left + zero_groups(8 - left.len() - right.len()) + right),
        ),
{
}

/// What a text stands for that holds no dot, has no two colons in a row
/// and is eight groups.
proof fn lemma_loose_full_form(inner: Seq<u8>, all: Seq<nat>)
    requires
        !contains(inner, seq![46u8]),
        find(inner, seq![58u8, 58u8]) is None,
        groups_of(inner) == Some(all),
        all.len() == 8,
    ensures
        loose_v6(inner) == Some(octets_of(all)),
{
}

/// Groups with a run of zeros are what stands before the run, as many
/// zeros as the run is long, and what stands behind it.
proof fn lemma_regroup(segs: Seq<nat>, start: int, end: int)
    requires
        0 <= start <= end <= segs.len(),
        forall|j: int| start <= j < end ==> segs[j] == 0,
    ensures
        segs.subrange(0, start) + zero_groups(end - start) + segs.subrange(end, segs.len() as int)
            == segs,
{
    let all = segs.subrange(0, start) + zero_groups(end - start) + segs.subrange(
        end,
        segs.len() as int,
    );
    assert(all.len() == segs.len());
    assert forall|j: int| 0 <= j < segs.len() implies all[j] == segs[j] by {
        if j < start {
        } else if j < end {
            assert(all[j] == zero_groups(end - start)[j - start]);
        } else {
            assert(all[j] == segs.subrange(end, segs.len() as int)[j - end]);
        }
    }
    assert(all =~= segs);
}

/// Ten zero octets, two octets of 255 and the last four octets of an IPv4
/// address carried in an IPv6 one are the address.
proof fn lemma_mapped_octets(ip: Seq<u8>)
    requires
        ip.len() == 16,
        is_v4_mapped(ip),
    ensures
        octets_of(zero_groups(5)) + seq![255u8, 255u8] + ip.subrange(12, 16) == ip,
{
    let z = octets_of(zero_groups(5));
    assert(z.len() == 10);
    assert forall|i: int| 0 <= i < 10 implies z[i] == 0 by {
        assert(zero_groups(5)[i / 2] == 0);
    }
    let all = z + seq![255u8, 255u8] + ip.subrange(12, 16);
    assert forall|i: int| 0 <= i < 16 implies all[i] == ip[i] by {
        if i < 10 {
            assert(all[i] == z[i]);
        } else if i < 12 {
        } else {
            assert(all[i] == ip.subrange(12, 16)[i - 12]);
        }
    }
    assert(all =~= ip);
}

/// Two texts that are free of a byte make a text that is free of it.
proof fn lemma_free_concat(a: Seq<u8>, b: Seq<u8>, byte: u8)
    requires
        free_of(a, byte),
        free_of(b, byte),
    ensures
        free_of(a + b, byte),
{
}

/// A text that holds a byte at an index contains that byte.
proof fn lemma_holds_byte(s: Seq<u8>, k: int, byte: u8)
    requires
        0 <= k < s.len(),
        s[k] == byte,
    ensures
        contains(s, seq![byte]),
{
    assert(s.subrange(k, k + 1) =~= seq![byte]);
    lemma_find_from(s, seq![byte], 0);
    assert(matches_at(s, seq![byte], k));
}

/// Four octets in dotted decimal hold no closing bracket.
proof fn lemma_dotted_unbracketed(quad: Seq<u8>)
    ensures
        free_of(v4_text(quad), 93),
{
    lemma_port_like(quad[0] as nat);
    lemma_port_like(quad[1] as nat);
    lemma_port_like(quad[2] as nat);
    lemma_port_like(quad[3] as nat);
}

/// Four octets in dotted decimal behind `::ffff:` hold a dot and no
/// closing bracket.
proof fn lemma_prefixed_dotted(quad: Seq<u8>)
    requires
        quad.len() == 4,
    ensures
        contains(mapped_prefix() + v4_text(quad), seq![46u8]),
        mapped_prefix().is_prefix_of(mapped_prefix() + v4_text(quad)),
        (mapped_prefix() + v4_text(quad)).subrange(
            7,
            (mapped_prefix() + v4_text(quad)).len() as int,
        ) == v4_text(quad),
        free_of(mapped_prefix() + v4_text(quad), 93),
{
    let dotted = v4_text(quad);
    let inner = mapped_prefix() + dotted;
    assert(inner.subrange(0, 7) =~= mapped_prefix());
    assert(inner.subrange(7, inner.len() as int) =~= dotted);
    lemma_dotted_unbracketed(quad);
    assert(free_of(mapped_prefix(), 93));
    lemma_free_concat(mapped_prefix(), dotted, 93);
    assert(!free_of(dotted, 46)) by {
        lemma_dotted_round_trip(quad);
    }
    let j = choose|j: int| 0 <= j < dotted.len() && dotted[j] == 46;
    assert(inner[7 + j] == dotted[j]);
    lemma_holds_byte(inner, 7 + j, 46);
}

/// The text of an IPv4 address carried in an IPv6 one holds a dot and no
/// closing bracket, opens with `::ffff:` and goes on with the last four
/// octets in dotted decimal.
proof fn lemma_mapped_text(ip: Seq<u8>)
    requires
        ip.len() == 16,
        is_v4_mapped(ip),
    ensures
        contains(v6_text(ip), seq![46u8]),
        mapped_prefix().is_prefix_of(v6_text(ip)),
        v6_text(ip).subrange(7, v6_text(ip).len() as int) == v4_text(ip.subrange(12, 16)),
        free_of(v6_text(ip), 93),
{
    assert(v6_text(ip) == mapped_prefix() + v4_text(ip.subrange(12, 16)));
    lemma_prefixed_dotted(ip.subrange(12, 16));
}

/// What the text of an IPv4 address carried in an IPv6 one stands for is
/// the address.
proof fn lemma_loose_mapped(ip: Seq<u8>)
    requires
        ip.len() == 16,
        is_v4_mapped(ip),
    ensures
        loose_v6(v6_text(ip)) == Some(ip),
        free_of(v6_text(ip), 93),
{
    let quad = ip.subrange(12, 16);
    lemma_mapped_text(ip);
    lemma_dotted_round_trip(quad);
    lemma_loose_mapped_form(v6_text(ip), quad);
    lemma_mapped_octets(ip);
}

/// What a text with two colons in a row stands for is the address, where
/// the text is the address's canonical one.
proof fn lemma_loose_gap(ip: Seq<u8>)
    requires
        ip.len() == 16,
        !is_v4_mapped(ip),
        max_run(segments(ip), 0) >= 2,
    ensures
        loose_v6(v6_text(ip)) == Some(ip),
        free_of(v6_text(ip), 93),
{
    let inner = v6_text(ip);
    let segs = segments(ip);
    let start = run_start(segs, 0);
    let end = start + max_run(segs, 0);
    let left = segs.subrange(0, start);
    let right = segs.subrange(end, 8);
    let hl = hex_groups(left);
    let hr = hex_groups(right);
    assert(inner == hl + seq![58u8, 58u8] + hr);
    lemma_octets_of_segments(ip);
    crate::addr::lemma_run_in_range(segs, 0);
    lemma_run_zero(segs, start);
    assert(forall|k: int| 0 <= k < left.len() ==> left[k] == segs[k]);
    assert(forall|k: int| 0 <= k < right.len() ==> right[k] == segs[k + end]);
    lemma_groups_tidy(left);
    lemma_groups_tidy(right);
    lemma_groups_round_trip(left);
    lemma_groups_round_trip(right);
    lemma_gap_found(hl, hr);
    lemma_regroup(segs, start, end);
    lemma_loose_gap_form(inner, hl.len() as int, left, right);
}

/// What a text of eight groups stands for is the address, where the text
/// is the address's canonical one.
proof fn lemma_loose_full(ip: Seq<u8>)
    requires
        ip.len() == 16,
        !is_v4_mapped(ip),
        max_run(segments(ip), 0) < 2,
    ensures
        loose_v6(v6_text(ip)) == Some(ip),
        free_of(v6_text(ip), 93),
{
    let inner = v6_text(ip);
    let segs = segments(ip);
    assert(inner == hex_groups(segs));
    lemma_octets_of_segments(ip);
    lemma_groups_tidy(segs);
    lemma_tidy_free(inner);
    lemma_free_none(inner, 46);
    lemma_groups_round_trip(segs);
    lemma_loose_full_form(inner, segs);
}

/// What an address's canonical text stands for is the address.
pub proof fn lemma_loose_v6(ip: Seq<u8>)
    requires
        ip.len() == 16,
    ensures
        loose_v6(v6_text(ip)) == Some(ip),
        parse_v6(v6_text(ip)) == Some(ip),
        free_of(v6_text(ip), 93),
{
    if is_v4_mapped(ip) {
        lemma_loose_mapped(ip);
    } else if max_run(segments(ip), 0) >= 2 {
        lemma_loose_gap(ip);
    } else {
        lemma_loose_full(ip);
    }
}

/// No decimal digit is a closing bracket.
proof fn lemma_port_like(n: nat)
    ensures
        free_of(digits_of(n, 10), 93),
{
    lemma_digits_round_trip(n, 10);
    let d = digits_of(n, 10);
    assert forall|i: int| 0 <= i < d.len() implies d[i] != 93 by {
        assert(digit_value(d[i], 10) is Some);
    }
}

/// A text that opens with a square bracket writes no IPv4 address.
pub proof fn lemma_bracket_not_v4(t: Seq<u8>)
    requires
        t.len() > 0,
        t[0] == 91,
    ensures
        parse_v4_text(t) is None,
{
    let halves = split(t, seq![58u8]);
    lemma_find_from(t, seq![58u8], 0);
    let first = halves[0];
    assert(first.len() > 0 && first[0] == 91) by {
        match find(t, seq![58u8]) {
            Some(i) => {
                if i == 0 {
                    assert(t.subrange(0, 1)[0] == 58);
                }
                assert(first == t.subrange(0, i));
            },
            None => {},
        }
    }
    let groups = split(first, seq![46u8]);
    lemma_find_from(first, seq![46u8], 0);
    let g = groups[0];
    assert(g.len() > 0 && g[0] == 91) by {
        match find(first, seq![46u8]) {
            Some(j) => {
                if j == 0 {
                    assert(first.subrange(0, 1)[0] == 46);
                }
                assert(g == first.subrange(0, j));
            },
            None => {},
        }
    }
    assert(digit_value(g[0], 10) is None);
    assert(!all_digits(g, 10));
    assert(parse_octet(g) is None);
}

/// An IPv6 address that was written as text is read as itself.
pub proof fn lemma_v6_round_trip(addr: AddrView)
    requires
        !addr.v4,
        addr.wf(),
    ensures
        parse_addr_text(addr_text(addr)) == Some(addr),
{
    let inner = v6_text(addr.octets);
    let port = digits_of(addr.port as nat, 10);
    let t = addr_text(addr);
    lemma_loose_v6(addr.octets);
    lemma_port_round_trip(addr.port);
    assert(t =~= seq![91u8] + inner + seq![93u8, 58u8] + port);
    lemma_bracket_not_v4(t);
    let n = 1 + inner.len() as int;
    assert(t.subrange(n, n + 2) =~= seq![93u8, 58u8]);
    assert forall|j: int| 0 <= j < n implies !matches_at(t, seq![93u8, 58u8], j) by {
        if matches_at(t, seq![93u8, 58u8], j) {
            assert(t.subrange(j, j + 2)[0] == 93);
            if j > 0 {
                assert(t[j] == inner[j - 1]);
            }
        }
    }
    lemma_find_is(t, seq![93u8, 58u8], n);
    assert(t.subrange(1, n) =~= inner);
    assert(t.subrange(n + 2, t.len() as int) =~= port);
    assert(parse_v6_text(t) == Some(addr));
}

/// An address that was written as text is read as itself.
pub proof fn lemma_text_round_trip(addr: AddrView)
    requires
        addr.wf(),
    ensures
        parse_addr_text(addr_text(addr)) == Some(addr),
{
    if addr.v4 {
        lemma_v4_round_trip(addr);
    } else {
        lemma_v6_round_trip(addr);
    }
}

/// A number's digits are plain text.
pub proof fn lemma_digits_plain(n: nat, radix: nat)
    requires
        radix == 10 || radix == 16,
    ensures
        plain(digits_of(n, radix)),
{
    lemma_digits_round_trip(n, radix);
    let d = digits_of(n, radix);
    assert forall|i: int| 0 <= i < d.len() implies d[i] != 13 && d[i] != 10 by {
        assert(digit_value(d[i], radix) is Some);
    }
}

/// Hexadecimal groups are plain text.
pub proof fn lemma_groups_plain(segs: Seq<nat>)
    ensures
        plain(hex_groups(segs)),
    decreases segs.len(),
{
    if segs.len() == 0 {
    } else if segs.len() == 1 {
        lemma_digits_plain(segs[0], 16);
    } else {
        lemma_groups_plain(segs.drop_last());
        lemma_digits_plain(segs.last(), 16);
    }
}

/// A dotted-decimal address is plain text.
pub proof fn lemma_v4_plain(ip: Seq<u8>)
    ensures
        plain(v4_text(ip)),
{
    lemma_digits_plain(ip[0] as nat, 10);
    lemma_digits_plain(ip[1] as nat, 10);
    lemma_digits_plain(ip[2] as nat, 10);
    lemma_digits_plain(ip[3] as nat, 10);
}

/// An address as text is plain text.
pub proof fn lemma_addr_text_plain(addr: AddrView)
    ensures
        plain(addr_text(addr)),
{
    let ip = addr.octets;
    lemma_digits_plain(addr.port as nat, 10);
    if addr.v4 {
        lemma_v4_plain(ip);
    } else {
        let segs = segments(ip);
        lemma_v4_plain(ip.subrange(12, 16));
        lemma_groups_plain(segs);
        let start = crate::addr::run_start(segs, 0);
        let end = start + crate::addr::max_run(segs, 0);
        lemma_groups_plain(segs.subrange(0, start));
        lemma_groups_plain(segs.subrange(end, 8));
        assert(plain(mapped_prefix()));
        assert(plain(v6_text(ip)));
    }
}

} // verus!
