//! Unsigned numbers as ASCII text, in base ten and base sixteen.

use vstd::prelude::*;
use vstd::slice::slice_subrange;

verus! {

/// A base in which numbers are written.
#[derive(Clone, Copy, Debug, PartialEq, Eq, Structural)]
pub enum Radix {
    /// Base ten.
    Ten,
    /// Base sixteen.
    Sixteen,
}

impl Radix {
    /// The base as a number.
    pub open spec fn base(self) -> nat {
        match self {
            Radix::Ten => 10,
            Radix::Sixteen => 16,
        }
    }

    /// The base as a number.
    pub fn value(self) -> (r: u8)
        ensures
            r == self.base(),
    {
        match self {
            Radix::Ten => 10,
            Radix::Sixteen => 16,
        }
    }
}

/// The value of an ASCII digit in base `radix`, which is 10 or 16.
/// Base sixteen takes letters of either case.
pub open spec fn digit_value(b: u8, radix: nat) -> Option<nat> {
    if 48 <= b <= 57 {
        Some((b - 48) as nat)
    } else if radix == 16 && 97 <= b <= 102 {
        Some((b - 87) as nat)
    } else if radix == 16 && 65 <= b <= 70 {
        Some((b - 55) as nat)
    } else {
        None
    }
}

/// Every byte of `s` is a digit in base `radix`.
pub open spec fn all_digits(s: Seq<u8>, radix: nat) -> bool {
    forall|i: int| 0 <= i < s.len() ==> (#[trigger] digit_value(s[i], radix)) is Some
}

/// The number that the digits `s` write in base `radix`.
pub open spec fn digits_value(s: Seq<u8>, radix: nat) -> nat
    decreases s.len(),
{
    if s.len() == 0 {
        0
    } else {
        digits_value(s.drop_last(), radix) * radix + digit_value(s.last(), radix).unwrap()
    }
}

/// `s` with one leading plus sign taken off.
pub open spec fn unsigned_digits(s: Seq<u8>) -> Seq<u8> {
    if s.len() > 0 && s[0] == 43 {
        s.subrange(1, s.len() as int)
    } else {
        s
    }
}

/// The number that the digits `s` write, where `s` is one digit or more,
/// all in base `radix`, and the number is at most `max`.
pub open spec fn parse_digits(s: Seq<u8>, radix: nat, max: nat) -> Option<nat> {
    if s.len() > 0 && all_digits(s, radix) && digits_value(s, radix) <= max {
        Some(digits_value(s, radix))
    } else {
        None
    }
}

/// The number that `s` writes: an optional plus sign, then digits as
/// `parse_digits` takes them.
pub open spec fn parse_number(s: Seq<u8>, radix: nat, max: nat) -> Option<nat> {
    parse_digits(unsigned_digits(s), radix, max)
}

/// A prefix of a digit string writes no larger a number than the string.
pub proof fn lemma_prefix_value(s: Seq<u8>, k: int, radix: nat)
    requires
        0 <= k <= s.len(),
        radix >= 1,
    ensures
        digits_value(s.subrange(0, k), radix) <= digits_value(s, radix),
    decreases s.len() - k,
{
    if k == s.len() {
        assert(s.subrange(0, k) =~= s);
    } else {
        lemma_prefix_value(s.drop_last(), k, radix);
        assert(s.drop_last().subrange(0, k) =~= s.subrange(0, k));
        let v = digits_value(s.drop_last(), radix);
        assert(v * radix >= v) by (nonlinear_arith)
            requires
                radix >= 1,
                v >= 0,
        ;
    }
}

/// The value of the digit `b` in base `radix`, if it is one.
pub fn digit_of(b: u8, radix: Radix) -> (r: Option<u8>)
    ensures
        match r {
            Some(d) => digit_value(b, radix.base()) == Some(d as nat) && d < radix.base(),
            None => digit_value(b, radix.base()) is None,
        },
{
    let hex = radix.value() == 16;
    if 48 <= b && b <= 57 {
        Some(b - 48)
    } else if hex && 97 <= b && b <= 102 {
        Some(b - 87)
    } else if hex && 65 <= b && b <= 70 {
        Some(b - 55)
    } else {
        None
    }
}

/// Reads `s` as digits in base `radix` writing a number of at most `max`.
pub fn read_digits(s: &[u8], radix: Radix, max: usize) -> (r: Option<usize>)
    ensures
        match r {
            Some(v) => parse_digits(s@, radix.base(), max as nat) == Some(v as nat),
            None => parse_digits(s@, radix.base(), max as nat) is None,
        },
{
    if s.len() == 0 {
        return None;
    }
    let mut acc: usize = 0;
    let mut i: usize = 0;
    while i < s.len()
        invariant
            i <= s.len(),
            all_digits(s@.subrange(0, i as int), radix.base()),
            acc == digits_value(s@.subrange(0, i as int), radix.base()),
            acc <= max,
        decreases s.len() - i,
    {
        let ghost next = s@.subrange(0, i + 1);
        proof {
            assert(next.drop_last() =~= s@.subrange(0, i as int));
            assert(next.last() == s@[i as int]);
        }
        let d: u8 = match digit_of(s[i], radix) {
            Some(d) => d,
            None => {
                assert(!all_digits(s@, radix.base()));
                return None;
            },
        };
        proof {
            assert forall|j: int| 0 <= j < next.len() implies (#[trigger] digit_value(
                next[j],
                radix.base(),
            )) is Some by {
                if j < i {
                    assert(next[j] == s@.subrange(0, i as int)[j]);
                }
            }
            lemma_prefix_value(s@, i + 1, radix.base());
        }
        let scaled: usize = match acc.checked_mul(radix.value() as usize) {
            Some(t) => t,
            None => {
                return None;
            },
        };
        let total: usize = match scaled.checked_add(d as usize) {
            Some(t) => t,
            None => {
                return None;
            },
        };
        if total > max {
            return None;
        }
        acc = total;
        i += 1;
    }
    assert(s@.subrange(0, s.len() as int) =~= s@);
    Some(acc)
}

/// Reads `s` as an optional plus sign and digits in base `radix` writing a
/// number of at most `max`.
pub fn read_number(s: &[u8], radix: Radix, max: usize) -> (r: Option<usize>)
    ensures
        match r {
            Some(v) => parse_number(s@, radix.base(), max as nat) == Some(v as nat),
            None => parse_number(s@, radix.base(), max as nat) is None,
        },
{
    if s.len() > 0 && s[0] == 43 {
        read_digits(slice_subrange(s, 1, s.len()), radix, max)
    } else {
        read_digits(s, radix, max)
    }
}

/// The ASCII digit for a value below `radix`; letters are lower case.
pub open spec fn digit_byte(d: nat) -> u8 {
    if d < 10 {
        (48 + d) as u8
    } else {
        (87 + d) as u8
    }
}

/// `n` written without leading zeros, in base sixteen where `radix` is 16
/// and in base ten otherwise.
pub open spec fn digits_of(n: nat, radix: nat) -> Seq<u8>
    decreases n,
{
    if radix == 16 {
        if n < 16 {
            seq![digit_byte(n)]
        } else {
            digits_of(n / 16, radix).push(digit_byte(n % 16))
        }
    } else {
        if n < 10 {
            seq![digit_byte(n)]
        } else {
            digits_of(n / 10, radix).push(digit_byte(n % 10))
        }
    }
}

/// Reading what `digits_of` wrote gives the number back: the text is one
/// digit or more, starts with no plus sign and has the value `n`.
pub proof fn lemma_digits_round_trip(n: nat, radix: nat)
    requires
        radix == 10 || radix == 16,
    ensures
        digits_of(n, radix).len() > 0,
        all_digits(digits_of(n, radix), radix),
        digits_value(digits_of(n, radix), radix) == n,
        digits_of(n, radix)[0] != 43,
        n > 0 ==> digits_of(n, radix)[0] != 48,
        forall|max: nat| n <= max ==> parse_number(digits_of(n, radix), radix, max) == Some(n),
    decreases n,
{
    let text = digits_of(n, radix);
    if n < radix {
        assert(text =~= seq![digit_byte(n)]);
        assert(text.drop_last() =~= Seq::<u8>::empty());
        assert(digits_value(text.drop_last(), radix) == 0);
        assert(digit_value(digit_byte(n), radix) == Some(n));
        assert(digits_value(text, radix) == 0 * radix + n);
    } else {
        let q = n / radix;
        let m = n % radix;
        lemma_digits_round_trip(q, radix);
        let head = digits_of(q, radix);
        assert(text =~= head.push(digit_byte(m)));
        assert(text.drop_last() =~= head);
        assert(digit_value(digit_byte(m), radix) == Some(m));
        assert forall|i: int| 0 <= i < text.len() implies (#[trigger] digit_value(
            text[i],
            radix,
        )) is Some by {
            if i < head.len() {
                assert(text[i] == head[i]);
            }
        }
        assert(text[0] == head[0]);
    }
    assert(unsigned_digits(text) == text);
}

/// The ASCII digit for a value below sixteen.
fn digit_to_byte(d: u8) -> (r: u8)
    requires
        d < 16,
    ensures
        r == digit_byte(d as nat),
{
    if d < 10 {
        48 + d
    } else {
        87 + d
    }
}

/// Appends `n` in base `radix`, without leading zeros, to `out`.
pub fn write_number(out: &mut Vec<u8>, n: u32, radix: Radix)
    ensures
        final(out)@ == old(out)@ + digits_of(n as nat, radix.base()),
{
    let mut low_first: Vec<u8> = Vec::new();
    let mut m: u32 = n;
    let base: u32 = radix.value() as u32;
    loop
        invariant_except_break
            digits_of(n as nat, radix.base()) == digits_of(m as nat, radix.base())
                + low_first@.reverse(),
        invariant
            base == radix.base(),
        ensures
            digits_of(n as nat, radix.base()) == low_first@.reverse(),
        decreases m,
    {
        let d: u8 = (m % base) as u8;
        let ghost before = low_first@;
        low_first.push(digit_to_byte(d));
        assert(low_first@.reverse() =~= seq![digit_byte(d as nat)] + before.reverse());
        if m < base {
            assert(digits_of(m as nat, radix.base()) =~= seq![digit_byte(m as nat)]);
            assert(digits_of(n as nat, radix.base()) =~= low_first@.reverse());
            break;
        }
        assert(digits_of(m as nat, radix.base()) =~= digits_of(
            (m / base) as nat,
            radix.base(),
        ).push(digit_byte(d as nat)));
        assert(digits_of(n as nat, radix.base()) =~= digits_of((m / base) as nat, radix.base())
            + low_first@.reverse());
        m = m / base;
    }
    let mut k: usize = low_first.len();
    while k > 0
        invariant
            k <= low_first.len(),
            out@ == old(out)@ + low_first@.reverse().subrange(0, low_first.len() - k),
        decreases k,
    {
        k -= 1;
        out.push(low_first[k]);
        assert(out@ =~= old(out)@ + low_first@.reverse().subrange(0, low_first.len() - k));
    }
    assert(low_first@.reverse().subrange(0, low_first.len() as int) =~= low_first@.reverse());
}

} // verus!
