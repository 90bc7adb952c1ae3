//! ASCII decimal encoding of integers, written in place into byte buffers.

use vstd::prelude::*;

verus! {

/// `buf` with the bytes of `s` written over it from index `at` on.
pub open spec fn overwrite(buf: Seq<u8>, at: int, s: Seq<u8>) -> Seq<u8> {
    buf.subrange(0, at) + s + buf.subrange(at + s.len(), buf.len() as int)
}

/// The ASCII digit for `d` (`d < 10`).
pub open spec fn digit(d: nat) -> u8 {
    (48 + d) as u8
}

/// The shortest ASCII decimal representation of `n` (no leading zeros; "0" for zero).
pub open spec fn decimal(n: nat) -> Seq<u8>
    decreases n,
{
    if n < 10 {
        seq![digit(n)]
    } else {
        decimal(n / 10).push(digit(n % 10))
    }
}

/// The ASCII decimal representation of a signed integer: a `-` before the
/// digits of its magnitude when it is negative.
pub open spec fn signed_decimal(n: int) -> Seq<u8> {
    if n < 0 {
        seq![45u8] + decimal((-n) as nat)
    } else {
        decimal(n as nat)
    }
}

/// `b` is one of the ASCII digits `0`..`9`.
pub open spec fn is_digit(b: u8) -> bool {
    48 <= b <= 57
}

/// The number that a string of ASCII digits denotes, most significant first.
pub open spec fn decimal_value(s: Seq<u8>) -> nat
    decreases s.len(),
{
    if s.len() == 0 {
        0
    } else {
        decimal_value(s.drop_last()) * 10 + (s.last() - 48) as nat
    }
}

/// The number that an optionally `-`-prefixed string of ASCII digits denotes.
pub open spec fn signed_decimal_value(s: Seq<u8>) -> int {
    if s.len() > 0 && s[0] == 45u8 {
        -(decimal_value(s.drop_first()) as int)
    } else {
        decimal_value(s) as int
    }
}

/// The decimal representation of `n` is a non-empty string of ASCII digits
/// that starts with `0` only when it is `"0"`.
pub proof fn lemma_decimal_digits(n: nat)
    ensures
        decimal(n).len() >= 1,
        forall|i: int| 0 <= i < decimal(n).len() ==> is_digit(#[trigger] decimal(n)[i]),
        decimal(n)[0] == 48u8 <==> n == 0,
        n == 0 ==> decimal(n) == seq![48u8],
    decreases n,
{
    if n >= 10 {
        lemma_decimal_digits(n / 10);
        let s = decimal(n);
        let p = decimal(n / 10);
        assert forall|i: int| 0 <= i < s.len() implies is_digit(#[trigger] s[i]) by {
            if i < p.len() {
                assert(s[i] == p[i]);
            }
        }
        assert(s[0] == p[0]);
    }
}

/// Reading back the digits that `decimal` produces gives the number again.
pub proof fn lemma_decimal_roundtrip(n: nat)
    ensures
        decimal_value(decimal(n)) == n,
    decreases n,
{
    if n < 10 {
        assert(decimal(n).drop_last() =~= Seq::<u8>::empty());
        assert(decimal(n).last() == 48 + n);
        assert(decimal_value(Seq::<u8>::empty()) == 0);
        assert(decimal_value(decimal(n)) == decimal_value(decimal(n).drop_last()) * 10 + (decimal(n).last() - 48) as nat);
    } else {
        lemma_decimal_roundtrip(n / 10);
        assert(decimal(n).drop_last() =~= decimal(n / 10));
        assert(decimal(n).last() == 48 + n % 10);
        assert(decimal_value(decimal(n)) == decimal_value(decimal(n / 10)) * 10 + n % 10);
        assert(n == (n / 10) * 10 + n % 10);
    }
}

/// Two numbers with the same decimal representation are equal.
pub proof fn lemma_decimal_injective(a: nat, b: nat)
    requires
        decimal(a) == decimal(b),
    ensures
        a == b,
{
    lemma_decimal_roundtrip(a);
    lemma_decimal_roundtrip(b);
}

/// `10` to the power `k`.
pub open spec fn pow10(k: nat) -> nat
    decreases k,
{
    if k == 0 {
        1
    } else {
        10 * pow10((k - 1) as nat)
    }
}

/// A number below `10^k` has at most `k` decimal digits.
pub proof fn lemma_decimal_len_bound(n: nat, k: nat)
    requires
        k >= 1,
        n < pow10(k),
    ensures
        decimal(n).len() <= k,
    decreases k,
{
    if n >= 10 {
        assert(k >= 2) by {
            if k == 1 {
                assert(pow10(1) == 10) by {
                    reveal_with_fuel(pow10, 2);
                }
            }
        }
        let p = pow10((k - 1) as nat);
        assert(n / 10 < p) by (nonlinear_arith)
            requires
                n < 10 * p,
        ;
        lemma_decimal_len_bound(n / 10, (k - 1) as nat);
    }
}

/// Every `u32` has at most ten decimal digits.
pub proof fn lemma_u32_decimal_len(n: u32)
    ensures
        1 <= decimal(n as nat).len() <= 10,
{
    assert(pow10(10) == 10000000000) by {
        reveal_with_fuel(pow10, 11);
    }
    lemma_decimal_len_bound(n as nat, 10);
    lemma_decimal_digits(n as nat);
}

/// Reading back what `signed_decimal` produces gives the number again.
pub proof fn lemma_signed_decimal_roundtrip(n: int)
    ensures
        signed_decimal_value(signed_decimal(n)) == n,
{
    if n < 0 {
        let m = (-n) as nat;
        lemma_decimal_roundtrip(m);
        assert((seq![45u8] + decimal(m)).drop_first() =~= decimal(m));
    } else {
        lemma_decimal_digits(n as nat);
        lemma_decimal_roundtrip(n as nat);
    }
}

/// Every `i32` has at most eleven bytes in its signed decimal representation.
pub proof fn lemma_i32_decimal_len(n: i32)
    ensures
        1 <= signed_decimal(n as int).len() <= 11,
{
    let m: int = if n < 0 { -(n as int) } else { n as int };
    assert(pow10(10) == 10000000000) by {
        reveal_with_fuel(pow10, 11);
    }
    lemma_decimal_len_bound(m as nat, 10);
    lemma_decimal_digits(m as nat);
}

/// Copies `src` into `dst` from index `offset` on and returns the index just
/// past the copied bytes.
pub fn write_bytes(dst: &mut [u8], offset: usize, src: &[u8]) -> (end: usize)
    requires
        offset + src@.len() <= old(dst)@.len(),
    ensures
        end == offset + src@.len(),
        final(dst)@ == overwrite(old(dst)@, offset as int, src@),
{
    // Reading the length brings in that it fits a usize.
    let room = dst.len();
    let end = offset + src.len();
    let mut k: usize = 0;
    while k < src.len()
        invariant
            end == offset + src@.len(),
            end <= dst@.len(),
            k <= src@.len(),
            dst@.len() == old(dst)@.len(),
            forall|j: int|
                0 <= j < dst@.len() ==> #[trigger] dst@[j] == if offset <= j < offset + k {
                    src@[j - offset]
                } else {
                    old(dst)@[j]
                },
        decreases src@.len() - k,
    {
        dst[offset + k] = src[k];
        k = k + 1;
    }
    assert(dst@ =~= overwrite(old(dst)@, offset as int, src@));
    end
}

/// Writes `n` in ASCII decimal into `dst` from index `offset` on and returns
/// the index just past the last digit.
pub fn write_u32(dst: &mut [u8], offset: usize, n: u32) -> (end: usize)
    requires
        offset + decimal(n as nat).len() <= old(dst)@.len(),
    ensures
        end == offset + decimal(n as nat).len(),
        final(dst)@ == overwrite(old(dst)@, offset as int, decimal(n as nat)),
{
    let ghost full = decimal(n as nat);
    let room = dst.len();
    proof {
        lemma_u32_decimal_len(n);
    }
    if n == 0 {
        dst[offset] = 48u8;
        assert(dst@ =~= overwrite(old(dst)@, offset as int, full));
        return offset + 1;
    }
    let mut n = n;
    let mut tmp = [0u8; 10];
    let mut len: usize = 0;
    // Digits come out least significant first: tmp[i] is the i-th digit from the right.
    while n > 0
        invariant
            1 <= full.len() <= 10,
            len <= full.len(),
            tmp@.len() == 10,
            n > 0 ==> full.take(full.len() - len) == decimal(n as nat),
            n == 0 ==> len == full.len(),
            forall|i: int| 0 <= i < len ==> #[trigger] tmp@[i] == full[full.len() - 1 - i],
        decreases n,
    {
        let ghost m = n as nat;
        proof {
            lemma_decimal_digits(m);
        }
        tmp[len] = 48u8 + (n % 10) as u8;
        n = n / 10;
        proof {
            if m >= 10 {
                assert(decimal(m) == decimal(m / 10).push(digit(m % 10)));
                assert(full.take(full.len() - len - 1) =~= decimal(m).drop_last());
                assert(full[full.len() - 1 - len] == decimal(m).last());
            } else {
                assert(full.take(full.len() - len)[0] == full[0]);
            }
        }
        len = len + 1;
    }
    let mut k: usize = 0;
    while k < len
        invariant
            1 <= full.len() <= 10,
            len == full.len(),
            offset + len <= room,
            room == old(dst)@.len(),
            k <= len,
            tmp@.len() == 10,
            forall|i: int| 0 <= i < len ==> #[trigger] tmp@[i] == full[full.len() - 1 - i],
            dst@.len() == old(dst)@.len(),
            forall|j: int|
                0 <= j < dst@.len() ==> #[trigger] dst@[j] == if offset <= j < offset + k {
                    full[j - offset]
                } else {
                    old(dst)@[j]
                },
        decreases len - k,
    {
        dst[offset + k] = tmp[len - 1 - k];
        k = k + 1;
    }
    assert(dst@ =~= overwrite(old(dst)@, offset as int, full));
    offset + len
}

/// Writes `n` in ASCII decimal, with a leading `-` when it is negative, into
/// `dst` from index `offset` on and returns the index just past the last digit.
pub fn write_i32(dst: &mut [u8], offset: usize, n: i32) -> (end: usize)
    requires
        offset + signed_decimal(n as int).len() <= old(dst)@.len(),
    ensures
        end == offset + signed_decimal(n as int).len(),
        final(dst)@ == overwrite(old(dst)@, offset as int, signed_decimal(n as int)),
{
    if n < 0 {
        dst[offset] = 45u8;
        // The magnitude of i32::MIN does not fit in an i32: widen first.
        let magnitude = (-(n as i64)) as u32;
        let end = write_u32(dst, offset + 1, magnitude);
        assert(dst@ =~= overwrite(old(dst)@, offset as int, signed_decimal(n as int)));
        end
    } else {
        write_u32(dst, offset, n as u32)
    }
}

/// Writing `done` and then `piece` right after it is writing `done + piece`.
pub proof fn lemma_overwrite_extend(base: Seq<u8>, done: Seq<u8>, piece: Seq<u8>)
    requires
        done.len() + piece.len() <= base.len(),
    ensures
        overwrite(overwrite(base, 0, done), done.len() as int, piece) == overwrite(
            base,
            0,
            done + piece,
        ),
{
    assert(overwrite(overwrite(base, 0, done), done.len() as int, piece) =~= overwrite(
        base,
        0,
        done + piece,
    ));
}

/// `t` appears as a contiguous run of bytes somewhere in `s`.
pub open spec fn occurs_in(t: Seq<u8>, s: Seq<u8>) -> bool {
    exists|i: int| 0 <= i && i + t.len() <= s.len() && #[trigger] s.subrange(i, i + t.len()) == t
}

/// What ends a sequence, and what occurs in a sequence, occurs in any longer
/// sequence that starts with it; two adjacent pieces occur together.
pub proof fn lemma_occurs_in_concat()
    ensures
        forall|s: Seq<u8>, t: Seq<u8>| #[trigger] occurs_in(t, s + t),
        forall|s: Seq<u8>, t: Seq<u8>, u: Seq<u8>| occurs_in(t, s) ==> #[trigger] occurs_in(t, s + u),
        forall|s: Seq<u8>, a: Seq<u8>, b: Seq<u8>| #[trigger] occurs_in(a + b, (s + a) + b),
        forall|s: Seq<u8>, a: Seq<u8>, b: Seq<u8>, c: Seq<u8>| #[trigger] occurs_in((a + b) + c, ((s + a) + b) + c),
{
    assert forall|s: Seq<u8>, t: Seq<u8>| #[trigger] occurs_in(t, s + t) by {
        let i = s.len() as int;
        assert((s + t).subrange(i, i + t.len()) =~= t);
    }
    assert forall|s: Seq<u8>, t: Seq<u8>, u: Seq<u8>| occurs_in(t, s) implies #[trigger] occurs_in(t, s + u) by {
        let i = choose|i: int| 0 <= i && i + t.len() <= s.len() && #[trigger] s.subrange(i, i + t.len()) == t;
        assert((s + u).subrange(i, i + t.len()) =~= s.subrange(i, i + t.len()));
    }
    assert forall|s: Seq<u8>, a: Seq<u8>, b: Seq<u8>| #[trigger] occurs_in(a + b, (s + a) + b) by {
        let i = s.len() as int;
        assert(((s + a) + b).subrange(i, i + (a + b).len()) =~= a + b);
    }
    assert forall|s: Seq<u8>, a: Seq<u8>, b: Seq<u8>, c: Seq<u8>| #[trigger] occurs_in((a + b) + c, ((s + a) + b) + c) by {
        let i = s.len() as int;
        assert((((s + a) + b) + c).subrange(i, i + ((a + b) + c).len()) =~= (a + b) + c);
    }
}

/// `s` begins with the bytes of `t`.
pub open spec fn starts_with(s: Seq<u8>, t: Seq<u8>) -> bool {
    t.len() <= s.len() && s.subrange(0, t.len() as int) == t
}

/// `s` ends with the bytes of `t`.
pub open spec fn ends_with(s: Seq<u8>, t: Seq<u8>) -> bool {
    t.len() <= s.len() && s.subrange(s.len() - t.len(), s.len() as int) == t
}

/// A sequence begins with any of its left parts, and ends with any run of its last four parts.
pub proof fn lemma_starts_ends_concat()
    ensures
        forall|t: Seq<u8>, u: Seq<u8>| #[trigger] starts_with(t + u, t),
        forall|s: Seq<u8>, t: Seq<u8>, u: Seq<u8>| starts_with(s, t) ==> #[trigger] starts_with(s + u, t),
        forall|z: Seq<u8>, a: Seq<u8>, b: Seq<u8>, c: Seq<u8>, d: Seq<u8>|
            #[trigger] ends_with((((z + a) + b) + c) + d, ((a + b) + c) + d),
{
    assert forall|t: Seq<u8>, u: Seq<u8>| #[trigger] starts_with(t + u, t) by {
        assert((t + u).subrange(0, t.len() as int) =~= t);
    }
    assert forall|s: Seq<u8>, t: Seq<u8>, u: Seq<u8>| starts_with(s, t) implies #[trigger] starts_with(s + u, t) by {
        assert((s + u).subrange(0, t.len() as int) =~= s.subrange(0, t.len() as int));
    }
    assert forall|z: Seq<u8>, a: Seq<u8>, b: Seq<u8>, c: Seq<u8>, d: Seq<u8>|
        #[trigger] ends_with((((z + a) + b) + c) + d, ((a + b) + c) + d) by {
        let s = (((z + a) + b) + c) + d;
        let t = ((a + b) + c) + d;
        assert(s.subrange(s.len() - t.len(), s.len() as int) =~= t);
    }
}

/// Overwriting keeps the length, puts the bytes of `s` at `at`, and leaves
/// every other byte as it was.
pub proof fn lemma_overwrite_places(buf: Seq<u8>, at: int, s: Seq<u8>)
    requires
        0 <= at,
        at + s.len() <= buf.len(),
    ensures
        overwrite(buf, at, s).len() == buf.len(),
        forall|i: int| 0 <= i < s.len() ==> #[trigger] overwrite(buf, at, s)[at + i] == s[i],
        forall|j: int|
            0 <= j < buf.len() && !(at <= j < at + s.len()) ==> #[trigger] overwrite(buf, at, s)[j]
                == buf[j],
{
}

} // verus!
