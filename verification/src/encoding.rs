//! Primitive wire encodings: 8-byte big-endian length prefixes and the
//! decimal rendering of session identifiers inside status messages.

use vstd::prelude::*;
use vstd::arithmetic::div_mod::{lemma_fundamental_div_mod, lemma_fundamental_div_mod_converse};

verus! {

/// 256 raised to `n`.
pub open spec fn pow256(n: nat) -> nat
    decreases n,
{
    if n == 0 {
        1
    } else {
        256 * pow256((n - 1) as nat)
    }
}

pub proof fn lemma_pow256_pos(n: nat)
    ensures
        pow256(n) >= 1,
    decreases n,
{
    if n > 0 {
        lemma_pow256_pos((n - 1) as nat);
    }
}

pub proof fn lemma_pow256_le(a: nat, b: nat)
    requires
        a <= b,
    ensures
        pow256(a) <= pow256(b),
        pow256(a) >= 1,
    decreases b,
{
    lemma_pow256_pos(a);
    if a < b {
        lemma_pow256_le(a, (b - 1) as nat);
    }
}

pub proof fn lemma_pow256_8_value()
    ensures
        pow256(8) == 0x1_0000_0000_0000_0000,
{
    assert(pow256(0) == 1);
    assert(pow256(1) == 256);
    assert(pow256(2) == 0x1_0000);
    assert(pow256(3) == 0x100_0000);
    assert(pow256(4) == 0x1_0000_0000);
    assert(pow256(5) == 0x100_0000_0000);
    assert(pow256(6) == 0x1_0000_0000_0000);
    assert(pow256(7) == 0x100_0000_0000_0000);
}

/// The `len`-byte big-endian representation of `x`, most significant byte
/// first.
pub open spec fn be_digits(x: nat, len: nat) -> Seq<u8>
    decreases len,
{
    if len == 0 {
        Seq::empty()
    } else {
        be_digits(x / 256, (len - 1) as nat).push((x % 256) as u8)
    }
}

pub proof fn lemma_be_digits_len(x: nat, len: nat)
    ensures
        be_digits(x, len).len() == len,
    decreases len,
{
    if len > 0 {
        lemma_be_digits_len(x / 256, (len - 1) as nat);
    }
}

/// The value of a big-endian byte string.
pub open spec fn be_val(s: Seq<u8>) -> nat
    decreases s.len(),
{
    if s.len() == 0 {
        0
    } else {
        be_val(s.drop_last()) * 256 + s.last() as nat
    }
}

pub proof fn lemma_be_val_bound(s: Seq<u8>)
    ensures
        be_val(s) < pow256(s.len()),
    decreases s.len(),
{
    if s.len() > 0 {
        lemma_be_val_bound(s.drop_last());
    }
}

/// Converting a value to big-endian digits and back is the identity, as
/// long as the value fits in the requested width.
pub proof fn lemma_be_val_of_digits(x: nat, len: nat)
    requires
        x < pow256(len),
    ensures
        be_val(be_digits(x, len)) == x,
    decreases len,
{
    if len == 0 {
    } else {
        lemma_fundamental_div_mod(x as int, 256);
        assert(x / 256 < pow256((len - 1) as nat));
        lemma_be_val_of_digits(x / 256, (len - 1) as nat);
        lemma_be_digits_len(x / 256, (len - 1) as nat);
        let s = be_digits(x, len);
        assert(s.drop_last() =~= be_digits(x / 256, (len - 1) as nat));
        assert(s.last() == (x % 256) as u8);
    }
}

/// Reading the value of a big-endian byte string and re-serializing it at
/// the same width reproduces the bytes.
pub proof fn lemma_be_digits_of_val(s: Seq<u8>)
    ensures
        be_digits(be_val(s), s.len()) == s,
    decreases s.len(),
{
    if s.len() > 0 {
        let v = be_val(s);
        let q = be_val(s.drop_last());
        let r = s.last() as nat;
        lemma_fundamental_div_mod_converse(v as int, 256, q as int, r as int);
        lemma_be_digits_of_val(s.drop_last());
        assert(be_digits(v, s.len()) =~= s);
    }
}

/// An 8-byte big-endian length prefix followed by the payload itself: the
/// one framing atom every message and certificate field uses.
pub open spec fn len_prefixed(b: Seq<u8>) -> Seq<u8> {
    be_digits(b.len(), 8) + b
}

/// Parse one length-prefixed field from the front of `b`, yielding the
/// payload and the remaining bytes, or nothing if `b` is truncated.
pub open spec fn spec_frame(b: Seq<u8>) -> Option<(Seq<u8>, Seq<u8>)> {
    if b.len() < 8 {
        None
    } else {
        let n = be_val(b.take(8));
        if b.len() - 8 < n {
            None
        } else {
            Some((b.subrange(8, 8 + n as int), b.skip(8 + n as int)))
        }
    }
}

/// A well-formed frame at the front of a byte string parses to exactly its
/// payload and the bytes that follow it.
pub proof fn lemma_frame_of_prefixed(m: Seq<u8>, rest: Seq<u8>)
    requires
        m.len() < pow256(8),
    ensures
        spec_frame(len_prefixed(m) + rest) == Some((m, rest)),
{
    let b = len_prefixed(m) + rest;
    lemma_be_digits_len(m.len(), 8);
    assert(b.take(8) =~= be_digits(m.len(), 8));
    lemma_be_val_of_digits(m.len(), 8);
    assert(b.subrange(8, 8 + m.len() as int) =~= m);
    assert(b.skip(8 + m.len() as int) =~= rest);
}

/// Serialize `x` as 8 big-endian bytes.
pub fn u64_to_be_bytes(x: u64) -> (r: Vec<u8>)
    ensures
        r@ == be_digits(x as nat, 8),
        r@.len() == 8,
{
    let mut rev: Vec<u8> = Vec::new();
    let mut tmp: u64 = x;
    let mut i: usize = 0;
    while i < 8
        invariant
            i <= 8,
            rev@.len() == i,
            be_digits(x as nat, 8) == be_digits(tmp as nat, (8 - i) as nat) + rev@.reverse(),
        decreases 8 - i,
    {
        let d: u8 = (tmp % 256) as u8;
        proof {
            let ghost prev = rev@;
            assert(be_digits(tmp as nat, (8 - i) as nat) + prev.reverse() =~= be_digits(
                (tmp / 256) as nat,
                (8 - (i + 1)) as nat,
            ) + prev.push(d).reverse());
        }
        rev.push(d);
        tmp = tmp / 256;
        i += 1;
    }
    proof {
        lemma_be_digits_len(x as nat, 8);
        assert(be_digits(x as nat, 8) =~= rev@.reverse());
    }
    let mut r: Vec<u8> = Vec::new();
    let mut j: usize = 0;
    while j < 8
        invariant
            j <= 8,
            rev@.len() == 8,
            be_digits(x as nat, 8) == rev@.reverse(),
            r@ =~= be_digits(x as nat, 8).take(j as int),
        decreases 8 - j,
    {
        let b = rev[7 - j];
        proof {
            assert(rev@.reverse()[j as int] == rev@[7 - j as int]);
            assert(be_digits(x as nat, 8).take(j + 1 as int) =~= be_digits(x as nat, 8).take(
                j as int,
            ).push(rev@[7 - j as int]));
        }
        r.push(b);
        j += 1;
    }
    proof {
        assert(r@ =~= be_digits(x as nat, 8));
    }
    r
}

/// Read the value of the 8 big-endian bytes of `b` starting at `start`.
pub fn u64_from_be_bytes(b: &Vec<u8>, start: usize) -> (r: u64)
    requires
        start + 8 <= b@.len(),
    ensures
        r as nat == be_val(b@.subrange(start as int, start as int + 8)),
{
    let blen: usize = b.len();
    let mut val: u64 = 0;
    let mut k: usize = 0;
    while k < 8
        invariant
            k <= 8,
            start + 8 <= blen,
            blen == b@.len(),
            val as nat == be_val(b@.subrange(start as int, start as int + k as int)),
        decreases 8 - k,
    {
        proof {
            lemma_be_val_bound(b@.subrange(start as int, start as int + k as int));
            lemma_pow256_le(k as nat, 7);
            lemma_pow256_8_value();
            assert(pow256(7) * 256 == pow256(8));
        }
        let d = b[start + k];
        proof {
            let s1 = b@.subrange(start as int, start as int + (k + 1) as int);
            assert(s1.drop_last() =~= b@.subrange(start as int, start as int + k as int));
            assert(s1.last() == b@[start as int + k as int]);
        }
        val = val * 256 + (d as u64);
        k += 1;
    }
    val
}

/// The decimal rendering of `n`, most significant digit first, without
/// leading zeros.
pub open spec fn dec_digits(n: nat) -> Seq<u8>
    decreases n,
{
    if n < 10 {
        seq![(48 + n) as u8]
    } else {
        dec_digits(n / 10).push((48 + n % 10) as u8)
    }
}

pub open spec fn is_dec_digit(c: u8) -> bool {
    48 <= c <= 57
}

pub open spec fn all_dec_digits(s: Seq<u8>) -> bool {
    forall|i: int| 0 <= i < s.len() ==> is_dec_digit(#[trigger] s[i])
}

/// The value of a string of decimal digits.
pub open spec fn dec_val(s: Seq<u8>) -> nat
    decreases s.len(),
{
    if s.len() == 0 {
        0
    } else {
        dec_val(s.drop_last()) * 10 + (if is_dec_digit(s.last()) {
            (s.last() - 48) as nat
        } else {
            0
        })
    }
}

pub proof fn lemma_dec_digits_wf(n: nat)
    ensures
        dec_digits(n).len() >= 1,
        all_dec_digits(dec_digits(n)),
    decreases n,
{
    if n >= 10 {
        lemma_dec_digits_wf(n / 10);
        let s = dec_digits(n);
        assert forall|i: int| 0 <= i < s.len() implies is_dec_digit(#[trigger] s[i]) by {
            if i < s.len() - 1 {
                assert(s[i] == dec_digits(n / 10)[i]);
            }
        }
    }
}

/// Rendering a number in decimal and reading it back is the identity.
pub proof fn lemma_dec_val_of_digits(n: nat)
    ensures
        dec_val(dec_digits(n)) == n,
    decreases n,
{
    if n < 10 {
        let s = dec_digits(n);
        assert(s =~= seq![(48 + n) as u8]);
        assert(s.drop_last() =~= Seq::<u8>::empty());
        assert(dec_val(Seq::<u8>::empty()) == 0);
        assert(is_dec_digit(s.last()));
        assert(dec_val(s) == 0 * 10 + ((s.last() - 48) as nat));
    } else {
        lemma_fundamental_div_mod(n as int, 10);
        lemma_dec_val_of_digits(n / 10);
        lemma_dec_digits_wf(n / 10);
        let s = dec_digits(n);
        assert(s.drop_last() =~= dec_digits(n / 10));
        assert(s.last() == (48 + n % 10) as u8);
        assert(is_dec_digit(s.last()));
        assert((s.last() - 48) as nat == n % 10);
        assert(dec_val(s) == dec_val(dec_digits(n / 10)) * 10 + n % 10);
        assert(n == n / 10 * 10 + n % 10);
    }
}

/// A crude but sufficient length bound on a decimal rendering.
pub proof fn lemma_dec_digits_len_bound(n: nat)
    ensures
        dec_digits(n).len() <= n + 1,
    decreases n,
{
    if n >= 10 {
        lemma_dec_digits_len_bound(n / 10);
    }
}

/// The value of a digit string never falls when more digits are appended.
pub proof fn lemma_dec_val_take_le(s: Seq<u8>, i: int)
    requires
        0 <= i <= s.len(),
    ensures
        dec_val(s.take(i)) <= dec_val(s),
    decreases s.len() - i,
{
    if i == s.len() {
        assert(s.take(i) =~= s);
    } else {
        lemma_dec_val_take_le(s, i + 1);
        assert(s.take(i + 1).drop_last() =~= s.take(i));
        assert(dec_val(s.take(i + 1)) >= dec_val(s.take(i)));
    }
}

/// Render `n` as its decimal digits.
pub fn u32_to_dec_bytes(n: u32) -> (r: Vec<u8>)
    ensures
        r@ == dec_digits(n as nat),
{
    let mut rev: Vec<u8> = Vec::new();
    let mut tmp: u32 = n;
    loop
        invariant_except_break
            dec_digits(n as nat) == dec_digits(tmp as nat) + rev@.reverse(),
        ensures
            dec_digits(n as nat) == rev@.reverse(),
        decreases tmp,
    {
        let d: u8 = 48 + (tmp % 10) as u8;
        if tmp < 10 {
            proof {
                let ghost prev = rev@;
                assert(dec_digits(tmp as nat) =~= seq![d]);
                assert(seq![d] + prev.reverse() =~= prev.push(d).reverse());
            }
            rev.push(d);
            break ;
        }
        proof {
            let ghost prev = rev@;
            assert(dec_digits(tmp as nat) + prev.reverse() =~= dec_digits((tmp / 10) as nat)
                + prev.push(d).reverse());
        }
        rev.push(d);
        tmp = tmp / 10;
    }
    let mut r: Vec<u8> = Vec::new();
    let mut j: usize = 0;
    let len = rev.len();
    proof {
        assert(dec_digits(n as nat) =~= rev@.reverse());
    }
    while j < len
        invariant
            j <= len,
            len == rev@.len(),
            dec_digits(n as nat) == rev@.reverse(),
            r@ =~= dec_digits(n as nat).take(j as int),
        decreases len - j,
    {
        let b = rev[len - 1 - j];
        proof {
            assert(rev@.reverse()[j as int] == rev@[len - 1 - j as int]);
            assert(dec_digits(n as nat).take(j + 1 as int) =~= dec_digits(n as nat).take(
                j as int,
            ).push(rev@[len - 1 - j as int]));
        }
        r.push(b);
        j += 1;
    }
    proof {
        assert(r@ =~= dec_digits(n as nat));
    }
    r
}

/// The decimal parse of an entire byte string: defined exactly when the
/// string is a nonempty run of digits whose value fits in a `u32`.
pub open spec fn spec_parse_dec(s: Seq<u8>) -> Option<u32> {
    if s.len() > 0 && all_dec_digits(s) && dec_val(s) <= u32::MAX {
        Some(dec_val(s) as u32)
    } else {
        None
    }
}

/// Parse the bytes of `b` from `start` to the end as a decimal number.
pub fn parse_dec_bytes(b: &Vec<u8>, start: usize) -> (r: Option<u32>)
    requires
        start <= b@.len(),
    ensures
        r == spec_parse_dec(b@.skip(start as int)),
{
    let ghost s = b@.skip(start as int);
    let len = b.len();
    if start == len {
        return None;
    }
    let mut val: u64 = 0;
    let mut k: usize = start;
    while k < len
        invariant
            start <= k <= len,
            len == b@.len(),
            start < len,
            s == b@.skip(start as int),
            val as nat == dec_val(s.take(k - start as int)),
            val <= u32::MAX,
            all_dec_digits(s.take(k - start as int)),
        decreases len - k,
    {
        let c = b[k];
        if c < 48 || c > 57 {
            proof {
                assert(s[k - start as int] == c);
                assert(!is_dec_digit(s[k - start as int]));
            }
            return None;
        }
        proof {
            let t1 = s.take(k + 1 - start as int);
            assert(t1.drop_last() =~= s.take(k - start as int));
            assert(t1.last() == s[k - start as int]);
            assert(s[k - start as int] == c);
        }
        val = val * 10 + ((c - 48) as u64);
        if val > 0xffff_ffff {
            proof {
                lemma_dec_val_take_le(s, k + 1 - start as int);
            }
            return None;
        }
        k += 1;
    }
    proof {
        assert(s.take(len - start as int) =~= s);
    }
    Some(val as u32)
}

} // verus!
