//! Parameter arithmetic for the Falcon post-quantum signature scheme.
//!
//! The scheme's native implementation is an external collaborator; what
//! the protocol layer needs from it here is the buffer sizing for the two
//! supported degrees: key, signature and scratch-buffer sizes as the
//! native library's headers define them.  Each size function computes the
//! library's formula and is proved to yield the scheme's documented
//! constant for each degree.

use vstd::prelude::*;

verus! {

/// 2 raised to `n`.
pub open spec fn spec_pow2(n: nat) -> nat
    decreases n,
{
    if n == 0 {
        1
    } else {
        2 * spec_pow2((n - 1) as nat)
    }
}

proof fn lemma_pow2_values()
    ensures
        spec_pow2(0) == 1,
        spec_pow2(1) == 2,
        spec_pow2(7) == 128,
        spec_pow2(8) == 256,
        spec_pow2(9) == 512,
        spec_pow2(10) == 1024,
{
    assert(spec_pow2(0) == 1);
    assert(spec_pow2(1) == 2);
    assert(spec_pow2(2) == 4);
    assert(spec_pow2(3) == 8);
    assert(spec_pow2(4) == 16);
    assert(spec_pow2(5) == 32);
    assert(spec_pow2(6) == 64);
    assert(spec_pow2(7) == 128);
    assert(spec_pow2(8) == 256);
    assert(spec_pow2(9) == 512);
    assert(spec_pow2(10) == 1024);
}

/// 2 raised to `e`, for the small exponents the size formulas use.
fn two_pow(e: usize) -> (r: usize)
    requires
        e <= 16,
    ensures
        r == spec_pow2(e as nat),
{
    let mut r: usize = 1;
    let mut i: usize = 0;
    while i < e
        invariant
            i <= e <= 16,
            r == spec_pow2(i as nat),
            r <= 65536,
        decreases e - i,
    {
        proof {
            assert(spec_pow2((i + 1) as nat) == 2 * spec_pow2(i as nat));
            lemma_pow2_le((i + 1) as nat, 16);
            assert(spec_pow2(16) == 65536) by {
                lemma_pow2_values();
                assert(spec_pow2(11) == 2048);
                assert(spec_pow2(12) == 4096);
                assert(spec_pow2(13) == 8192);
                assert(spec_pow2(14) == 16384);
                assert(spec_pow2(15) == 32768);
            }
        }
        r = r * 2;
        i += 1;
    }
    r
}

proof fn lemma_pow2_le(a: nat, b: nat)
    requires
        a <= b,
    ensures
        spec_pow2(a) <= spec_pow2(b),
        spec_pow2(a) >= 1,
    decreases b,
{
    if a == 0 {
        if b > 0 {
            lemma_pow2_le(0, (b - 1) as nat);
        }
    } else if a < b {
        lemma_pow2_le(a, (b - 1) as nat);
    } else {
        lemma_pow2_le((a - 1) as nat, (b - 1) as nat);
    }
}

/// The two Falcon degrees: 2^9 = 512 and 2^10 = 1024 coefficients.
#[derive(Clone, Copy, Debug, PartialEq, Eq, Structural)]
pub enum Degree {
    F512,
    F1024,
}

impl Degree {
    /// The base-2 logarithm of the degree.
    pub open spec fn spec_logn(&self) -> usize {
        match self {
            Degree::F512 => 9,
            Degree::F1024 => 10,
        }
    }

    pub fn logn(&self) -> (r: usize)
        ensures
            r == self.spec_logn(),
    {
        match self {
            Degree::F512 => 9,
            Degree::F1024 => 10,
        }
    }
}

/// The Falcon parameter set for one degree.
pub struct Falcon {
    pub deg: Degree,
}

impl Falcon {
    /// The serialized signing-key size in bytes.
    pub open spec fn spec_sk_size(&self) -> usize {
        match self.deg {
            Degree::F512 => 1281,
            Degree::F1024 => 2305,
        }
    }

    /// The serialized verifying-key size in bytes.
    pub open spec fn spec_pk_size(&self) -> usize {
        match self.deg {
            Degree::F512 => 897,
            Degree::F1024 => 1793,
        }
    }

    /// The maximum compressed-signature size in bytes.
    pub open spec fn spec_sig_maxsize(&self) -> usize {
        match self.deg {
            Degree::F512 => 752,
            Degree::F1024 => 1462,
        }
    }

    pub fn sk_size(&self) -> (r: usize)
        ensures
            r == self.spec_sk_size(),
    {
        let x = self.deg.logn();
        proof {
            lemma_pow2_values();
        }
        (if x <= 3 {
            3 * two_pow(x)
        } else {
            (10 - (x / 2)) * two_pow(x - 2) + two_pow(x)
        }) + 1
    }

    pub fn pk_size(&self) -> (r: usize)
        ensures
            r == self.spec_pk_size(),
    {
        let x = self.deg.logn();
        proof {
            lemma_pow2_values();
        }
        (if x <= 1 {
            4
        } else {
            7 * two_pow(x - 2)
        }) + 1
    }

    pub fn sig_maxsize(&self) -> (r: usize)
        ensures
            r == self.spec_sig_maxsize(),
    {
        let x = self.deg.logn();
        proof {
            lemma_pow2_values();
        }
        let p = two_pow(x);
        let q = two_pow(10 - x);
        let r = ((11 * p + 101 / q) + 7) / 8 + 41;
        proof {
            if self.deg == Degree::F512 {
                assert(x == 9 && p == 512 && q == 2);
                assert(r == 752);
            } else {
                assert(x == 10 && p == 1024 && q == 1);
                assert(11 * p == 11264);
                assert(q == 1);
                assert(101usize / 1usize == 101) by (nonlinear_arith);
                assert(101usize / q == 101);
                assert(11 * p + 101usize / q + 7 == 11372);
                assert(11372usize / 8 == 1421);
                assert(r == 1462);
            }
        }
        r
    }

    /// The scratch-buffer size key generation needs.
    pub fn tmpsize_keygen(&self) -> (r: usize)
        ensures
            r == (match self.deg {
                Degree::F512 => 15879usize,
                Degree::F1024 => 31751usize,
            }),
    {
        let x = self.deg.logn();
        proof {
            lemma_pow2_values();
        }
        (if x <= 3 {
            272
        } else {
            28 * two_pow(x)
        }) + 3 * two_pow(x) + 7
    }

    /// The scratch-buffer size signing needs.
    pub fn tmpsize_sign(&self) -> (r: usize)
        ensures
            r == (match self.deg {
                Degree::F512 => 39943usize,
                Degree::F1024 => 79879usize,
            }),
    {
        let x = self.deg.logn();
        proof {
            lemma_pow2_values();
        }
        78 * two_pow(x) + 7
    }

    /// The scratch-buffer size verification needs.
    pub fn tmpsize_verify(&self) -> (r: usize)
        ensures
            r == (match self.deg {
                Degree::F512 => 4097usize,
                Degree::F1024 => 8193usize,
            }),
    {
        let x = self.deg.logn();
        proof {
            lemma_pow2_values();
        }
        8 * two_pow(x) + 1
    }
}

} // verus!
