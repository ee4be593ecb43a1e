//! Byte-string primitives: searching, splitting, ASCII case folding and
//! number syntax. Everything the proxy parses is built from these.

use vstd::prelude::*;
use vstd::slice::slice_subrange;

verus! {

/// The line separator of an HTTP head.
pub open spec fn crlf() -> Seq<u8> {
    seq![13u8, 10u8]
}

/// The blank line that ends an HTTP head.
pub open spec fn head_end() -> Seq<u8> {
    seq![13u8, 10u8, 13u8, 10u8]
}

/// The separator between a header's key and its value.
pub open spec fn colon_space() -> Seq<u8> {
    seq![58u8, 32u8]
}

/// `pat` occurs in `s` at index `i`.
pub open spec fn matches_at(s: Seq<u8>, pat: Seq<u8>, i: int) -> bool {
    0 <= i && i + pat.len() <= s.len() && s.subrange(i, i + pat.len()) == pat
}

/// The first index at or after `from` where `pat` occurs in `s`.
pub open spec fn find_from(s: Seq<u8>, pat: Seq<u8>, from: int) -> Option<int>
    decreases s.len() - from,
{
    if from < 0 || from + pat.len() > s.len() {
        None
    } else if matches_at(s, pat, from) {
        Some(from)
    } else if from >= s.len() {
        None
    } else {
        find_from(s, pat, from + 1)
    }
}

/// The first index where `pat` occurs in `s`.
pub open spec fn find(s: Seq<u8>, pat: Seq<u8>) -> Option<int> {
    find_from(s, pat, 0)
}

/// `pat` occurs somewhere in `s`.
pub open spec fn contains(s: Seq<u8>, pat: Seq<u8>) -> bool {
    find(s, pat) is Some
}

/// What `find_from` returns is the least matching index at or after
/// `from`, and it returns nothing only if there is no such index.
pub proof fn lemma_find_from(s: Seq<u8>, pat: Seq<u8>, from: int)
    requires
        0 <= from,
    ensures
        match find_from(s, pat, from) {
            Some(i) => from <= i && matches_at(s, pat, i) && forall|j: int|
                from <= j < i ==> !matches_at(s, pat, j),
            None => forall|j: int| from <= j ==> !matches_at(s, pat, j),
        },
    decreases s.len() - from,
{
    if from + pat.len() > s.len() {
    } else if matches_at(s, pat, from) {
    } else if from >= s.len() {
    } else {
        lemma_find_from(s, pat, from + 1);
    }
}

/// Any index that is a match and has no match before it is the one
/// `find` returns.
pub proof fn lemma_find_is(s: Seq<u8>, pat: Seq<u8>, i: int)
    requires
        matches_at(s, pat, i),
        forall|j: int| 0 <= j < i ==> !matches_at(s, pat, j),
    ensures
        find(s, pat) == Some(i),
{
    lemma_find_from(s, pat, 0);
}

/// Without any match, `find` returns nothing.
pub proof fn lemma_find_none(s: Seq<u8>, pat: Seq<u8>)
    requires
        forall|j: int| 0 <= j ==> !matches_at(s, pat, j),
    ensures
        find(s, pat) is None,
{
    lemma_find_from(s, pat, 0);
}

/// Does `pat` occur in `s` at index `i`?
pub fn is_match_at(s: &[u8], pat: &[u8], i: usize) -> (r: bool)
    ensures
        r == matches_at(s@, pat@, i as int),
{
    if pat.len() > s.len() || i > s.len() - pat.len() {
        return false;
    }
    let mut k: usize = 0;
    while k < pat.len()
        invariant
            k <= pat.len(),
            i + pat.len() <= s.len(),
            forall|j: int| 0 <= j < k ==> s@[i + j] == pat@[j],
        decreases pat.len() - k,
    {
        if s[i + k] != pat[k] {
            proof {
                let sub = s@.subrange(i as int, i + pat.len());
                assert(sub[k as int] == s@[i + k]);
            }
            return false;
        }
        k += 1;
    }
    assert(s@.subrange(i as int, i + pat.len()) =~= pat@);
    true
}

/// The first index where `pat` occurs in `s`, if it occurs at all.
pub fn find_bytes(s: &[u8], pat: &[u8]) -> (r: Option<usize>)
    ensures
        match r {
            Some(i) => find(s@, pat@) == Some(i as int),
            None => find(s@, pat@) is None,
        },
{
    if pat.len() > s.len() {
        return None;
    }
    let last: usize = s.len() - pat.len();
    let mut i: usize = 0;
    while i < last
        invariant
            i <= last,
            last + pat.len() == s.len(),
            find(s@, pat@) == find_from(s@, pat@, i as int),
        decreases last - i,
    {
        if is_match_at(s, pat, i) {
            return Some(i);
        }
        i += 1;
    }
    if is_match_at(s, pat, last) {
        Some(last)
    } else {
        assert(find_from(s@, pat@, last + 1) is None);
        None
    }
}

/// The pieces of `s` between the occurrences of `sep`, taken from the
/// left without overlap. Where `sep` does not occur the only piece is `s`.
pub open spec fn split(s: Seq<u8>, sep: Seq<u8>) -> Seq<Seq<u8>>
    decreases s.len(),
{
    match find(s, sep) {
        Some(i) => if sep.len() > 0 && 0 <= i && i + sep.len() <= s.len() {
            seq![s.subrange(0, i)] + split(s.subrange(i + sep.len(), s.len() as int), sep)
        } else {
            seq![s]
        },
        None => seq![s],
    }
}

/// The byte strings that a vector of vectors holds.
pub open spec fn views(v: Seq<Vec<u8>>) -> Seq<Seq<u8>> {
    Seq::new(v.len(), |i: int| v[i]@)
}

/// A copy of a slice.
pub fn to_vec(s: &[u8]) -> (r: Vec<u8>)
    ensures
        r@ == s@,
{
    let mut r: Vec<u8> = Vec::new();
    let mut i: usize = 0;
    while i < s.len()
        invariant
            i <= s.len(),
            r@ == s@.subrange(0, i as int),
        decreases s.len() - i,
    {
        r.push(s[i]);
        assert(r@ =~= s@.subrange(0, i + 1));
        i += 1;
    }
    assert(s@.subrange(0, s.len() as int) =~= s@);
    r
}

/// Appends the bytes of `s` to `out`.
pub fn append(out: &mut Vec<u8>, s: &[u8])
    ensures
        final(out)@ == old(out)@ + s@,
{
    let mut i: usize = 0;
    while i < s.len()
        invariant
            i <= s.len(),
            out@ == old(out)@ + s@.subrange(0, i as int),
        decreases s.len() - i,
    {
        out.push(s[i]);
        assert(out@ =~= old(out)@ + s@.subrange(0, i + 1));
        i += 1;
    }
    assert(s@.subrange(0, s.len() as int) =~= s@);
}

/// Splits `s` at every occurrence of `sep`. An empty `sep` splits nothing.
pub fn split_bytes(s: &[u8], sep: &[u8]) -> (r: Vec<Vec<u8>>)
    ensures
        views(r@) == split(s@, sep@),
{
    let mut out: Vec<Vec<u8>> = Vec::new();
    if sep.len() == 0 {
        out.push(to_vec(s));
        assert(views(out@) =~= seq![s@]);
        return out;
    }
    let mut rest: &[u8] = s;
    loop
        invariant
            sep@.len() > 0,
            split(s@, sep@) == views(out@) + split(rest@, sep@),
        decreases rest@.len(),
    {
        match find_bytes(rest, sep) {
            Some(i) => {
                let n: usize = rest.len();
                proof {
                    lemma_find_from(rest@, sep@, 0);
                    assert(matches_at(rest@, sep@, i as int));
                    assert(i + sep@.len() <= n);
                }
                let piece = to_vec(slice_subrange(rest, 0, i));
                let ghost before = views(out@);
                let ghost whole = rest@;
                out.push(piece);
                rest = slice_subrange(rest, i + sep.len(), n);
                assert(views(out@) =~= before + seq![whole.subrange(0, i as int)]);
            },
            None => {
                let ghost before = views(out@);
                out.push(to_vec(rest));
                assert(views(out@) =~= before + seq![rest@]);
                return out;
            },
        }
    }
}

/// The lower-case form of an ASCII letter; any other byte is unchanged.
pub open spec fn lower(b: u8) -> u8 {
    if 65 <= b <= 90 {
        (b + 32) as u8
    } else {
        b
    }
}

/// `s` with its ASCII letters in lower case.
pub open spec fn lower_seq(s: Seq<u8>) -> Seq<u8> {
    Seq::new(s.len(), |i: int| lower(s[i]))
}

/// `a` and `b` are equal but for the case of ASCII letters.
pub open spec fn eq_ignore_case(a: Seq<u8>, b: Seq<u8>) -> bool {
    lower_seq(a) == lower_seq(b)
}

/// The lower-case form of an ASCII letter.
pub fn to_lower(b: u8) -> (r: u8)
    ensures
        r == lower(b),
{
    if 65 <= b && b <= 90 {
        b + 32
    } else {
        b
    }
}

/// Are `a` and `b` equal but for the case of ASCII letters?
pub fn equals_ignore_case(a: &[u8], b: &[u8]) -> (r: bool)
    ensures
        r == eq_ignore_case(a@, b@),
{
    if a.len() != b.len() {
        assert(lower_seq(a@).len() != lower_seq(b@).len());
        return false;
    }
    let mut i: usize = 0;
    while i < a.len()
        invariant
            i <= a.len(),
            a.len() == b.len(),
            forall|j: int| 0 <= j < i ==> lower(a@[j]) == lower(b@[j]),
        decreases a.len() - i,
    {
        if to_lower(a[i]) != to_lower(b[i]) {
            assert(lower_seq(a@)[i as int] != lower_seq(b@)[i as int]);
            return false;
        }
        i += 1;
    }
    assert(lower_seq(a@) =~= lower_seq(b@));
    true
}

/// Are `a` and `b` the same bytes?
pub fn equals(a: &[u8], b: &[u8]) -> (r: bool)
    ensures
        r == (a@ == b@),
{
    if a.len() != b.len() {
        return false;
    }
    let mut i: usize = 0;
    while i < a.len()
        invariant
            i <= a.len(),
            a.len() == b.len(),
            forall|j: int| 0 <= j < i ==> a@[j] == b@[j],
        decreases a.len() - i,
    {
        if a[i] != b[i] {
            return false;
        }
        i += 1;
    }
    assert(a@ =~= b@);
    true
}

/// The number of `b` bytes at the end of `s`.
pub open spec fn trailing_run(s: Seq<u8>, b: u8) -> nat
    decreases s.len(),
{
    if s.len() > 0 && s.last() == b {
        1 + trailing_run(s.drop_last(), b)
    } else {
        0
    }
}

/// The number of `b` bytes at the start of `s`.
pub open spec fn leading_run(s: Seq<u8>, b: u8) -> nat
    decreases s.len(),
{
    if s.len() > 0 && s.first() == b {
        1 + leading_run(s.drop_first(), b)
    } else {
        0
    }
}

/// `s` without the `b` bytes at its end.
pub open spec fn trim_end(s: Seq<u8>, b: u8) -> Seq<u8> {
    s.subrange(0, s.len() - trailing_run(s, b))
}

/// `s` without the `b` bytes at its start.
pub open spec fn trim_start(s: Seq<u8>, b: u8) -> Seq<u8> {
    s.subrange(leading_run(s, b) as int, s.len() as int)
}

/// `s` without the `b` bytes at either end.
pub open spec fn trim(s: Seq<u8>, b: u8) -> Seq<u8> {
    trim_end(trim_start(s, b), b)
}

/// The length of `s` without the `b` bytes at its end.
pub fn trimmed_end(s: &[u8], b: u8) -> (r: usize)
    ensures
        r == s@.len() - trailing_run(s@, b),
        s@.subrange(0, r as int) == trim_end(s@, b),
{
    let mut n: usize = s.len();
    proof {
        assert(s@.subrange(0, n as int) =~= s@);
    }
    while n > 0 && s[n - 1] == b
        invariant
            n <= s.len(),
            trailing_run(s@, b) == (s.len() - n) + trailing_run(s@.subrange(0, n as int), b),
        decreases n,
    {
        proof {
            let cur = s@.subrange(0, n as int);
            assert(cur.drop_last() =~= s@.subrange(0, n - 1));
        }
        n -= 1;
    }
    n
}

/// The number of `b` bytes at the start of `s`.
pub fn trimmed_start(s: &[u8], b: u8) -> (r: usize)
    ensures
        r == leading_run(s@, b),
        r <= s@.len(),
{
    let mut n: usize = 0;
    proof {
        assert(s@.subrange(0, s.len() as int) =~= s@);
    }
    while n < s.len() && s[n] == b
        invariant
            n <= s.len(),
            leading_run(s@, b) == n + leading_run(s@.subrange(n as int, s.len() as int), b),
        decreases s.len() - n,
    {
        proof {
            let cur = s@.subrange(n as int, s.len() as int);
            assert(cur.drop_first() =~= s@.subrange(n + 1, s.len() as int));
        }
        n += 1;
    }
    n
}

/// The bytes of `s` without the `b` bytes at either end.
pub fn trim_bytes(s: &[u8], b: u8) -> (r: Vec<u8>)
    ensures
        r@ == trim(s@, b),
{
    let from = trimmed_start(s, b);
    let inner = slice_subrange(s, from, s.len());
    let to = trimmed_end(inner, b);
    to_vec(slice_subrange(inner, 0, to))
}


/// The bytes of a text that is all ASCII.
pub open spec fn ascii(chars: Seq<char>) -> Seq<u8> {
    Seq::new(chars.len(), |i: int| chars[i] as u8)
}

/// The bytes of a text that is all ASCII.
pub(crate) fn ascii_bytes(s: &str) -> (r: &[u8])
    requires
        vstd::utf8::is_ascii_chars(s@),
    ensures
        r@ == ascii(s@),
{
    proof {
        vstd::utf8::is_ascii_chars_encode_utf8(s@);
    }
    let r = s.as_bytes();
    assert(r@ =~= ascii(s@));
    r
}

/// Splitting gives at least one piece, and no piece holds the separator.
pub proof fn lemma_split_pieces(s: Seq<u8>, sep: Seq<u8>)
    requires
        sep.len() > 0,
    ensures
        split(s, sep).len() >= 1,
        forall|k: int| 0 <= k < split(s, sep).len() ==> !contains(#[trigger] split(s, sep)[k], sep),
    decreases s.len(),
{
    lemma_find_from(s, sep, 0);
    match find(s, sep) {
        Some(i) => {
            let first = s.subrange(0, i);
            let rest = s.subrange(i + sep.len(), s.len() as int);
            lemma_split_pieces(rest, sep);
            assert(!contains(first, sep)) by {
                lemma_find_from(first, sep, 0);
                if find(first, sep) is Some {
                    let j = find(first, sep).unwrap();
                    assert(first.subrange(j, j + sep.len()) =~= s.subrange(j, j + sep.len()));
                    assert(matches_at(s, sep, j));
                }
            }
            assert forall|k: int| 0 <= k < split(s, sep).len() implies !contains(
                #[trigger] split(s, sep)[k],
                sep,
            ) by {
                if k > 0 {
                    assert(split(s, sep)[k] == split(rest, sep)[k - 1]);
                }
            }
        },
        None => {},
    }
}


/// `s` ends with `pat`.
pub open spec fn ends_with(s: Seq<u8>, pat: Seq<u8>) -> bool {
    matches_at(s, pat, s.len() - pat.len())
}

/// Does `s` end with `pat`?
pub fn has_suffix(s: &[u8], pat: &[u8]) -> (r: bool)
    ensures
        r == ends_with(s@, pat@),
{
    if pat.len() > s.len() {
        return false;
    }
    is_match_at(s, pat, s.len() - pat.len())
}

/// The first `n` bytes of `s`, and all of `s` where it has fewer.
pub fn prefix(s: &[u8], n: usize) -> (r: Vec<u8>)
    ensures
        r@ == if n <= s@.len() {
            s@.subrange(0, n as int)
        } else {
            s@
        },
{
    if n <= s.len() {
        to_vec(slice_subrange(s, 0, n))
    } else {
        to_vec(s)
    }
}


/// `std::str::from_utf8`: the text that the bytes encode in UTF-8, and
/// nothing where the bytes are not well-formed UTF-8.
#[verifier::external_body]
pub(crate) fn utf8_str(bytes: &[u8]) -> (r: Option<&str>)
    ensures
        r is Some <==> vstd::utf8::valid_utf8(bytes@),
        r matches Some(t) ==> vstd::utf8::encode_utf8(t@) == bytes@,
{
    std::str::from_utf8(bytes).ok()
}


/// What a text option holds.
pub open spec fn text_of(t: Option<String>) -> Option<Seq<char>> {
    match t {
        Some(s) => Some(s@),
        None => None,
    }
}

/// Pieces with `sep` between every two of them.
pub open spec fn join(pieces: Seq<Seq<u8>>, sep: Seq<u8>) -> Seq<u8>
    decreases pieces.len(),
{
    if pieces.len() == 0 {
        Seq::empty()
    } else if pieces.len() == 1 {
        pieces[0]
    } else {
        pieces[0] + sep + join(pieces.drop_first(), sep)
    }
}

/// Joining one more piece: the separator and the piece come behind.
pub proof fn lemma_join_push(pieces: Seq<Seq<u8>>, sep: Seq<u8>, piece: Seq<u8>)
    requires
        pieces.len() >= 1,
    ensures
        join(pieces.push(piece), sep) == join(pieces, sep) + sep + piece,
    decreases pieces.len(),
{
    let all = pieces.push(piece);
    assert(all.drop_first() =~= pieces.drop_first().push(piece));
    if pieces.len() == 1 {
        assert(all.drop_first() =~= seq![piece]);
        assert(join(all.drop_first(), sep) == piece);
        assert(join(all, sep) =~= pieces[0] + sep + piece);
    } else {
        lemma_join_push(pieces.drop_first(), sep, piece);
        assert(join(all, sep) =~= pieces[0] + sep + (join(pieces.drop_first(), sep) + sep + piece));
        assert(join(pieces, sep) =~= pieces[0] + sep + join(pieces.drop_first(), sep));
        assert(join(all, sep) =~= join(pieces, sep) + sep + piece);
    }
}

/// Where `sep` stands behind `piece`, it occurs there first: not in the
/// piece, and not across the piece's end.
pub open spec fn ends_piece(piece: Seq<u8>, sep: Seq<u8>) -> bool {
    find(piece + sep, sep) == Some(piece.len() as int)
}

/// Splitting what was joined gives the pieces back, where the separator
/// occurs in no piece and across no piece's end.
pub proof fn lemma_split_join(pieces: Seq<Seq<u8>>, sep: Seq<u8>)
    requires
        sep.len() > 0,
        pieces.len() >= 1,
        forall|k: int| 0 <= k < pieces.len() ==> ends_piece(#[trigger] pieces[k], sep),
    ensures
        split(join(pieces, sep), sep) == pieces,
    decreases pieces.len(),
{
    let first = pieces[0];
    let n = first.len() as int;
    let m = sep.len() as int;
    lemma_find_from(first + sep, sep, 0);
    if pieces.len() == 1 {
        assert forall|j: int| 0 <= j implies !matches_at(first, sep, j) by {
            if matches_at(first, sep, j) {
                assert((first + sep).subrange(j, j + m) =~= first.subrange(j, j + m));
                assert(matches_at(first + sep, sep, j));
            }
        }
        lemma_find_none(first, sep);
        assert(split(first, sep) =~= seq![first]);
        assert(pieces =~= seq![first]);
    } else {
        let rest = pieces.drop_first();
        let tail = join(rest, sep);
        let s = first + sep + tail;
        assert forall|k: int| 0 <= k < rest.len() implies ends_piece(#[trigger] rest[k], sep) by {
            assert(rest[k] == pieces[k + 1]);
        }
        lemma_split_join(rest, sep);
        assert(s.subrange(n, n + m) =~= sep);
        assert forall|j: int| 0 <= j < n implies !matches_at(s, sep, j) by {
            if matches_at(s, sep, j) {
                assert((first + sep).subrange(j, j + m) =~= s.subrange(j, j + m));
                assert(matches_at(first + sep, sep, j));
            }
        }
        lemma_find_is(s, sep, n);
        assert(s.subrange(0, n) =~= first);
        assert(s.subrange(n + m, s.len() as int) =~= tail);
        assert(split(s, sep) =~= seq![first] + rest);
        assert(seq![first] + rest =~= pieces);
    }
}

/// The byte `b` is nowhere in `s`.
pub open spec fn free_of(s: Seq<u8>, b: u8) -> bool {
    forall|i: int| 0 <= i < s.len() ==> s[i] != b
}

/// A text that is free of a byte has no occurrence of it, and the byte
/// behind it is the first.
pub proof fn lemma_free_none(s: Seq<u8>, b: u8)
    requires
        free_of(s, b),
    ensures
        find(s, seq![b]) is None,
        ends_piece(s, seq![b]),
{
    assert forall|j: int| 0 <= j implies !matches_at(s, seq![b], j) by {
        if matches_at(s, seq![b], j) {
            assert(s.subrange(j, j + 1)[0] == b);
        }
    }
    lemma_find_none(s, seq![b]);
    let t = s + seq![b];
    let n = s.len() as int;
    assert(t.subrange(n, n + 1) =~= seq![b]);
    assert forall|j: int| 0 <= j < n implies !matches_at(t, seq![b], j) by {
        if matches_at(t, seq![b], j) {
            assert(t.subrange(j, j + 1)[0] == b);
            assert(t[j] == s[j]);
        }
    }
    lemma_find_is(t, seq![b], n);
}

/// A text without a carriage return and without a line feed.
pub open spec fn plain(s: Seq<u8>) -> bool {
    forall|i: int| 0 <= i < s.len() ==> s[i] != 13 && s[i] != 10
}

} // verus!
