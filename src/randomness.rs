use vstd::prelude::*;

verus! {

/// `256^n`.
pub open spec fn pow256(n: nat) -> nat
    decreases n,
{
    if n == 0 {
        1
    } else {
        256 * pow256((n - 1) as nat)
    }
}

/// The unsigned integer whose little-endian bytes are `b`.
pub open spec fn le_value(b: Seq<u8>) -> nat
    decreases b.len(),
{
    if b.len() == 0 {
        0
    } else {
        b[0] as nat + 256 * le_value(b.drop_first())
    }
}

/// The eight bytes that start at position `shift` of the seed, read
/// cyclically: the first eight bytes of the seed rotated left by `shift`.
pub open spec fn seed_window(seed: Seq<u8>, shift: nat) -> Seq<u8>
    recommends
        seed.len() > 0,
{
    Seq::new(8, |i: int| seed[((shift % seed.len()) + i) % (seed.len() as int)])
}

/// The number a claim draws from a seed: the little-endian value of the
/// window at `shift`.
pub open spec fn seed_number(seed: Seq<u8>, shift: nat) -> nat {
    le_value(seed_window(seed, shift))
}

proof fn lemma_le_value_bound(b: Seq<u8>)
    ensures
        le_value(b) < pow256(b.len()),
    decreases b.len(),
{
    if b.len() > 0 {
        lemma_le_value_bound(b.drop_first());
        let rest = le_value(b.drop_first());
        let p = pow256(b.drop_first().len());
        assert(b[0] as nat + 256 * rest < 256 * p) by (nonlinear_arith)
            requires
                rest < p,
                b[0] < 256,
        ;
    }
}

/// Reads 8 bytes of a random seed, rotated left by `shift`, as a
/// little-endian integer. The seed must hold at least 8 bytes.
pub fn get_random_number(seed: &Vec<u8>, shift_amount: usize) -> (r: u64)
    requires
        seed@.len() >= 8,
    ensures
        r as nat == seed_number(seed@, shift_amount as nat),
{
    let len = seed.len();
    let start = shift_amount % len;
    let ghost w = seed_window(seed@, shift_amount as nat);
    let mut acc: u128 = 0;
    let mut i: usize = 8;
    proof {
        assert(w.subrange(8, 8) =~= Seq::<u8>::empty());
        assert(pow256(0) == 1);
        lemma_pow_le(0);
        assert(pow256(8) == 0x1_0000_0000_0000_0000) by {
            reveal_with_fuel(pow256, 9);
        }
    }
    while i > 0
        invariant
            i <= 8,
            len == seed@.len(),
            len >= 8,
            start == shift_amount % len,
            w == seed_window(seed@, shift_amount as nat),
            acc as nat == le_value(w.subrange(i as int, 8)),
            acc < pow256((8 - i) as nat),
            pow256((8 - i) as nat) <= pow256(8),
            pow256(8) == 0x1_0000_0000_0000_0000,
        decreases i,
    {
        proof {
            lemma_pow_step((8 - i) as nat);
        }
        let off = i - 1;
        let pos = if start >= len - off {
            start - (len - off)
        } else {
            start + off
        };
        proof {
            let a = start as int + off as int;
            let n = len as int;
            assert(0 <= start < n);
            if a >= n {
                assert(a - n < n);
                vstd::arithmetic::div_mod::lemma_fundamental_div_mod_converse(a, n, 1, a - n);
            } else {
                vstd::arithmetic::div_mod::lemma_small_mod(a as nat, n as nat);
            }
            assert(pos as int == a % n);
        }
        let b = seed[pos];
        assert(b == w[i - 1]);
        assert(w.subrange(i - 1, 8).drop_first() =~= w.subrange(i as int, 8));
        let ghost prev = acc;
        let ghost p = pow256((8 - i) as nat);
        assert(256 * (prev as nat) + (b as nat) < 256 * p) by (nonlinear_arith)
            requires
                prev < p,
                b < 256,
        ;
        proof {
            lemma_pow_le((9 - i) as nat);
        }
        acc = acc * 256 + b as u128;
        i = i - 1;
    }
    assert(w.subrange(0, 8) =~= w);
    acc as u64
}

proof fn lemma_pow_step(n: nat)
    ensures
        pow256(n + 1) == 256 * pow256(n),
{
}

proof fn lemma_pow_le(n: nat)
    requires
        n <= 8,
    ensures
        pow256(n) <= pow256(8),
    decreases 8 - n,
{
    if n < 8 {
        lemma_pow_le(n + 1);
        lemma_pow_step(n);
    }
}

} // verus!
