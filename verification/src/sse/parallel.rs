//! Deterministic per-chain seeds for independent Monte Carlo chains.

use vstd::prelude::*;

verus! {

/// Product of two `u64` values reduced modulo `2^64`.
pub open spec fn product_mod_2_64(x: u64, y: u64) -> u64 {
    ((x as nat * y as nat) % 0x1_0000_0000_0000_0000nat) as u64
}

/// The SplitMix-style seed of chain `chain_index` under `master_seed`.
pub open spec fn chain_seed(master_seed: u64, chain_index: u64) -> u64 {
    let value = master_seed ^ product_mod_2_64(chain_index, 0x9e37_79b9_7f4a_7c15);
    let value = product_mod_2_64(value ^ (value >> 30u64), 0xbf58_476d_1ce4_e5b9);
    let value = product_mod_2_64(value ^ (value >> 27u64), 0x94d0_49bb_1331_11eb);
    value ^ (value >> 31u64)
}

/// Derives a deterministic, statistically separated seed for one chain.
///
/// The mapping depends only on the master seed and the chain index, never on
/// worker count or scheduling.
#[must_use]
pub fn derive_chain_seed(master_seed: u64, chain_index: u64) -> (seed: u64)
    ensures
        seed == chain_seed(master_seed, chain_index),
{
    let mut value = master_seed ^ chain_index.wrapping_mul(0x9e37_79b9_7f4a_7c15);
    value = (value ^ (value >> 30)).wrapping_mul(0xbf58_476d_1ce4_e5b9);
    value = (value ^ (value >> 27)).wrapping_mul(0x94d0_49bb_1331_11eb);
    value ^ (value >> 31)
}

/// Multiplying by an odd constant modulo `2^64` is undone by multiplying by
/// its inverse.
proof fn lemma_product_inverse(x: u64, c: u64, inverse: u64)
    requires
        (c as nat * inverse as nat) % 0x1_0000_0000_0000_0000nat == 1,
    ensures
        product_mod_2_64(product_mod_2_64(x, c), inverse) == x,
{
    let m: int = 0x1_0000_0000_0000_0000int;
    let xi = x as int;
    let ci = c as int;
    let ii = inverse as int;
    vstd::arithmetic::div_mod::lemma_mul_mod_noop_left(xi * ci, ii, m);
    vstd::arithmetic::mul::lemma_mul_is_associative(xi, ci, ii);
    vstd::arithmetic::div_mod::lemma_mul_mod_noop_right(xi, ci * ii, m);
    vstd::arithmetic::div_mod::lemma_small_mod(x as nat, m as nat);
    assert(product_mod_2_64(x, c) as int == (xi * ci) % m);
}

/// Multiplication by an odd constant modulo `2^64` is one to one.
proof fn lemma_product_injective(x: u64, y: u64, c: u64, inverse: u64)
    requires
        (c as nat * inverse as nat) % 0x1_0000_0000_0000_0000nat == 1,
        product_mod_2_64(x, c) == product_mod_2_64(y, c),
    ensures
        x == y,
{
    lemma_product_inverse(x, c, inverse);
    lemma_product_inverse(y, c, inverse);
}

/// Distinct chains under one master seed get distinct seeds: the seed map is
/// one to one in the chain index.
pub proof fn lemma_chain_seeds_are_distinct(master_seed: u64, first: u64, second: u64)
    ensures
        chain_seed(master_seed, first) == chain_seed(master_seed, second) <==> first == second,
{
    if chain_seed(master_seed, first) == chain_seed(master_seed, second) {
        let a0 = master_seed ^ product_mod_2_64(first, 0x9e37_79b9_7f4a_7c15);
        let b0 = master_seed ^ product_mod_2_64(second, 0x9e37_79b9_7f4a_7c15);
        let a1 = product_mod_2_64(a0 ^ (a0 >> 30u64), 0xbf58_476d_1ce4_e5b9);
        let b1 = product_mod_2_64(b0 ^ (b0 >> 30u64), 0xbf58_476d_1ce4_e5b9);
        let a2 = product_mod_2_64(a1 ^ (a1 >> 27u64), 0x94d0_49bb_1331_11eb);
        let b2 = product_mod_2_64(b1 ^ (b1 >> 27u64), 0x94d0_49bb_1331_11eb);
        assert(a2 ^ (a2 >> 31u64) == b2 ^ (b2 >> 31u64));
        assert(a2 == b2) by (bit_vector)
            requires
                a2 ^ (a2 >> 31u64) == b2 ^ (b2 >> 31u64),
        ;
        assert((0x94d0_49bb_1331_11ebnat * 0x3196_42b2_d24d_8ec3nat) % 0x1_0000_0000_0000_0000nat
            == 1);
        lemma_product_injective(
            a1 ^ (a1 >> 27u64),
            b1 ^ (b1 >> 27u64),
            0x94d0_49bb_1331_11eb,
            0x3196_42b2_d24d_8ec3,
        );
        assert(a1 == b1) by (bit_vector)
            requires
                a1 ^ (a1 >> 27u64) == b1 ^ (b1 >> 27u64),
        ;
        assert((0xbf58_476d_1ce4_e5b9nat * 0x96de_1b17_3f11_9089nat) % 0x1_0000_0000_0000_0000nat
            == 1);
        lemma_product_injective(
            a0 ^ (a0 >> 30u64),
            b0 ^ (b0 >> 30u64),
            0xbf58_476d_1ce4_e5b9,
            0x96de_1b17_3f11_9089,
        );
        assert(a0 == b0) by (bit_vector)
            requires
                a0 ^ (a0 >> 30u64) == b0 ^ (b0 >> 30u64),
        ;
        let pa = product_mod_2_64(first, 0x9e37_79b9_7f4a_7c15);
        let pb = product_mod_2_64(second, 0x9e37_79b9_7f4a_7c15);
        assert(pa == pb) by (bit_vector)
            requires
                master_seed ^ pa == master_seed ^ pb,
        ;
        assert((0x9e37_79b9_7f4a_7c15nat * 0xf1de_83e1_9937_733dnat) % 0x1_0000_0000_0000_0000nat
            == 1);
        lemma_product_injective(first, second, 0x9e37_79b9_7f4a_7c15, 0xf1de_83e1_9937_733d);
    }
}

} // verus!
