//! Small unsigned integers as IEEE-754 binary64 bit patterns.
use vstd::arithmetic::power2::{
    lemma2_to64, lemma2_to64_rest, lemma_pow2_adds, lemma_pow2_pos, lemma_pow2_strictly_increases, lemma_pow2_unfold,
    pow2,
};
use vstd::prelude::*;

verus! {

/// The exponent `e` with `2^e <= x < 2^(e + 1)`.
pub open spec fn binary_exponent(x: nat) -> nat {
    choose|e: nat| #[trigger] pow2(e) <= x < pow2(e + 1)
}

/// The binary64 bit pattern of the integer `x`, for `x < 2^53`: sign 0, biased
/// exponent `1023 + e`, and the bits of `x` below its leading one as the
/// fraction.
pub open spec fn double_bits(x: nat) -> int {
    if x == 0 {
        0
    } else {
        let e = binary_exponent(x);
        (1023 + e) * pow2(52) + (x - pow2(e)) * pow2((52 - e) as nat)
    }
}

proof fn lemma_binary_exponent(x: nat, e: nat)
    requires
        pow2(e) <= x < pow2(e + 1),
    ensures
        binary_exponent(x) == e,
{
    let f = binary_exponent(x);
    assert(pow2(f) <= x < pow2(f + 1));
    if f < e {
        if f + 1 < e {
            lemma_pow2_strictly_increases(f + 1, e);
        }
    } else if e < f {
        if e + 1 < f {
            lemma_pow2_strictly_increases(e + 1, f);
        }
    }
}

/// The bit pattern of the binary64 value equal to `x`.
pub fn int_to_double_bits(x: u32) -> (r: u64)
    ensures
        r == double_bits(x as nat),
{
    if x == 0 {
        return 0;
    }
    proof {
        lemma2_to64();
    }
    let mut e: u64 = 0;
    let mut p: u64 = 1;
    while p <= (x as u64) / 2
        invariant
            1 <= p <= x,
            p == pow2(e as nat),
            e <= 31,
            pow2(32) == 0x1_0000_0000,
        decreases x - p,
    {
        proof {
            lemma_pow2_unfold((e + 1) as nat);
            if e == 31 {
                assert(false);
            }
        }
        p = p * 2;
        e = e + 1;
    }
    proof {
        lemma_pow2_unfold((e + 1) as nat);
        lemma_binary_exponent(x as nat, e as nat);
        lemma2_to64_rest();
    }
    let mut q: u64 = 1;
    let mut k: u64 = e;
    while k < 52
        invariant
            e <= k <= 52,
            q == pow2((k - e) as nat),
            q > 0,
            pow2(e as nat) * q == pow2(k as nat),
            pow2(52) == 0x10_0000_0000_0000,
            pow2(53) == 0x20_0000_0000_0000,
        decreases 52 - k,
    {
        proof {
            lemma_pow2_unfold((k - e + 1) as nat);
            lemma_pow2_unfold((k + 1) as nat);
            lemma_pow2_adds(e as nat, (k - e + 1) as nat);
            lemma_pow2_pos(52);
            lemma_pow2_strictly_increases((k + 1) as nat, 53);
            lemma_pow2_pos(e as nat);
            let pe = pow2(e as nat);
            assert(q <= pe * q) by (nonlinear_arith)
                requires
                    pe >= 1,
                    q > 0,
            ;
        }
        q = q * 2;
        k = k + 1;
    }
    proof {
        assert((x - p) * q < p * q) by (nonlinear_arith)
            requires
                x - p < p,
                q > 0,
        ;
        lemma_pow2_pos((52 - e) as nat);
    }
    (1023 + e) * 0x10_0000_0000_0000 + (x as u64 - p) * q
}

} // verus!
