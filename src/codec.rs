//! Packing of three unsigned fields into one 64-bit word, and back.
//!
//! A layout is a triple of widths `(ts_bits, node_bits, seq_bits)` that sum to 64.
//! From the most significant end the word holds the timestamp field, then the node
//! field, then the sequence field.
use vstd::prelude::*;
use vstd::arithmetic::power2::{pow2, lemma_pow2_adds, lemma_pow2_pos, lemma2_to64, lemma2_to64_rest};
use vstd::arithmetic::div_mod::lemma_fundamental_div_mod_converse;
use vstd::bits::{lemma_u64_pow2_no_overflow, lemma_u64_shl_is_mul, lemma_u64_shr_is_div, lemma_u64_low_bits_mask_is_mod, low_bits_mask};

verus! {

/// The value of a 64-bit mask whose bits at positions `shift` and above are set
/// and whose bits below `shift` are clear.
pub open spec fn cleared_low(shift: nat) -> int {
    if shift >= 64 {
        0
    } else {
        pow2(64) - pow2(shift)
    }
}

/// `true` when the widths leave room for at least one sequence bit and sum to 64.
pub open spec fn valid_widths(ts_bits: nat, node_bits: nat, seq_bits: nat) -> bool {
    &&& ts_bits + node_bits < 64
    &&& seq_bits == 64 - ts_bits - node_bits
}

/// The word that holds `rel`, `node` and `seq`, each cut down to its field's width.
pub open spec fn pack(rel: nat, node: nat, seq: nat, ts_bits: nat, node_bits: nat, seq_bits: nat) -> nat {
    (rel % pow2(ts_bits)) * pow2(node_bits + seq_bits) + (node % pow2(node_bits)) * pow2(seq_bits)
        + seq % pow2(seq_bits)
}

/// The timestamp field of `word`, as a count relative to the epoch.
pub open spec fn ts_field(word: nat, node_bits: nat, seq_bits: nat) -> nat {
    word / pow2(node_bits + seq_bits)
}

/// The node field of `word`.
pub open spec fn node_field(word: nat, node_bits: nat, seq_bits: nat) -> nat {
    (word / pow2(seq_bits)) % pow2(node_bits)
}

/// The sequence field of `word`.
pub open spec fn seq_field(word: nat, seq_bits: nat) -> nat {
    word % pow2(seq_bits)
}

pub proof fn lemma_pow2_64()
    ensures
        pow2(64) == 0x1_0000_0000_0000_0000,
{
    lemma2_to64();
    lemma2_to64_rest();
}

/// A mask with every bit at position `left_shift` and above set, and the bits below
/// it clear. A shift of 0 gives all ones; a shift of 64 or more gives no bits at all.
pub fn bitmask(left_shift: u64) -> (r: u64)
    ensures
        r as int == cleared_low(left_shift as nat),
{
    if left_shift >= 64 {
        0
    } else {
        let r = 0xFFFF_FFFF_FFFF_FFFFu64 << left_shift;
        proof {
            assert(r == 0xFFFF_FFFF_FFFF_FFFFu64 - ((1u64 << left_shift) - 1u64)) by (bit_vector)
                requires
                    left_shift < 64,
                    r == 0xFFFF_FFFF_FFFF_FFFFu64 << left_shift,
            ;
            lemma_pow2_64();
            lemma_u64_pow2_no_overflow(left_shift as nat);
            lemma_u64_shl_is_mul(1, left_shift);
        }
        r
    }
}

/// The low `width` bits of `x`, that is `x` modulo `2^width`.
pub(crate) fn low_bits(x: u64, width: u64) -> (r: u64)
    requires
        width <= 64,
    ensures
        r as nat == x as nat % pow2(width as nat),
{
    proof {
        lemma_pow2_64();
        lemma_pow2_pos(width as nat);
    }
    if width >= 64 {
        proof {
            lemma_fundamental_div_mod_converse(x as int, pow2(64) as int, 0, x as int);
        }
        x
    } else {
        let above = bitmask(width);
        let r = x & !above;
        proof {
            assert(!above == 0xFFFF_FFFF_FFFF_FFFFu64 - above) by (bit_vector);
            lemma_u64_pow2_no_overflow(width as nat);
            assert(!above == low_bits_mask(width as nat) as u64);
            lemma_u64_low_bits_mask_is_mod(x, width as nat);
            assert(r == x % (pow2(width as nat) as u64));
        }
        r
    }
}

/// `x` moved up by `offset` bit positions, where nothing is lost.
pub(crate) fn shift_up(x: u64, offset: u64) -> (r: u64)
    requires
        offset <= 64,
        x as nat * pow2(offset as nat) < pow2(64),
    ensures
        r as nat == x as nat * pow2(offset as nat),
{
    proof {
        lemma_pow2_64();
    }
    if offset >= 64 {
        proof {
            assert(x == 0) by (nonlinear_arith)
                requires
                    x * pow2(64) < pow2(64),
                    pow2(64) > 0,
            ;
        }
        0
    } else {
        proof {
            lemma_u64_shl_is_mul(x, offset);
        }
        x << offset
    }
}

/// `x` moved down by `offset` bit positions: `x` divided by `2^offset`.
pub(crate) fn shift_down(x: u64, offset: u64) -> (r: u64)
    requires
        offset <= 64,
    ensures
        r as nat == x as nat / pow2(offset as nat),
{
    proof {
        lemma_pow2_64();
    }
    if offset >= 64 {
        proof {
            lemma_fundamental_div_mod_converse(x as int, pow2(64) as int, 0, x as int);
        }
        0
    } else {
        proof {
            lemma_u64_shr_is_div(x, offset);
        }
        x >> offset
    }
}

/// Three values below `2^t`, `2^n` and `2^s`, placed one above the other, stay below
/// `2^(t + n + s)`.
pub proof fn lemma_pack_bound(a: nat, b: nat, c: nat, t: nat, n: nat, s: nat)
    requires
        a < pow2(t),
        b < pow2(n),
        c < pow2(s),
    ensures
        b * pow2(s) + c < pow2(n + s),
        a * pow2(n + s) + b * pow2(s) + c < pow2(t + n + s),
{
    lemma_pow2_adds(n, s);
    lemma_pow2_adds(t, n + s);
    let ps = pow2(s);
    let pn = pow2(n);
    let pns = pow2(n + s);
    let pt = pow2(t);
    assert(b * ps + c < pn * ps) by (nonlinear_arith)
        requires
            b < pn,
            c < ps,
    ;
    assert(a * pns + b * ps + c < pt * pns) by (nonlinear_arith)
        requires
            a < pt,
            b * ps + c < pns,
    ;
}

/// Unpacking a packed word gives back each value cut down to its field's width.
pub proof fn lemma_unpack_pack(rel: nat, node: nat, seq: nat, ts_bits: nat, node_bits: nat, seq_bits: nat)
    ensures
        ts_field(pack(rel, node, seq, ts_bits, node_bits, seq_bits), node_bits, seq_bits) == rel % pow2(ts_bits),
        node_field(pack(rel, node, seq, ts_bits, node_bits, seq_bits), node_bits, seq_bits) == node % pow2(node_bits),
        seq_field(pack(rel, node, seq, ts_bits, node_bits, seq_bits), seq_bits) == seq % pow2(seq_bits),
        pack(rel, node, seq, ts_bits, node_bits, seq_bits) < pow2(ts_bits + node_bits + seq_bits),
{
    let word = pack(rel, node, seq, ts_bits, node_bits, seq_bits);
    let ps = pow2(seq_bits);
    let pn = pow2(node_bits);
    let pns = pow2(node_bits + seq_bits);
    lemma_pow2_pos(ts_bits);
    lemma_pow2_pos(seq_bits);
    lemma_pow2_pos(node_bits);
    lemma_pow2_adds(node_bits, seq_bits);
    let a = rel % pow2(ts_bits);
    let b = node % pn;
    let c = seq % ps;
    lemma_pack_bound(a, b, c, ts_bits, node_bits, seq_bits);
    assert(word == a * pns + (b * ps + c));
    lemma_fundamental_div_mod_converse(word as int, pns as int, a as int, (b * ps + c) as int);
    assert(word == (a * pn + b) * ps + c) by (nonlinear_arith)
        requires
            word == a * pns + (b * ps + c),
            pns == pn * ps,
    ;
    lemma_fundamental_div_mod_converse(word as int, ps as int, (a * pn + b) as int, c as int);
    lemma_fundamental_div_mod_converse((a * pn + b) as int, pn as int, a as int, b as int);
}

/// The word packed from `rel`, `node` and `seq` under valid widths, each value cut
/// down to its field's width.
pub fn pack_word(rel: u64, node: u64, seq: u64, ts_bits: u64, node_bits: u64, seq_bits: u64) -> (r: u64)
    requires
        valid_widths(ts_bits as nat, node_bits as nat, seq_bits as nat),
    ensures
        r as nat == pack(rel as nat, node as nat, seq as nat, ts_bits as nat, node_bits as nat, seq_bits as nat),
{
    let ts_low = low_bits(rel, ts_bits);
    let node_low = low_bits(node, node_bits);
    let seq_low = low_bits(seq, seq_bits);
    proof {
        lemma_pow2_64();
        lemma_pow2_pos(ts_bits as nat);
        lemma_pow2_pos(node_bits as nat);
        lemma_pow2_pos(seq_bits as nat);
        lemma_pack_bound(ts_low as nat, node_low as nat, seq_low as nat, ts_bits as nat, node_bits as nat, seq_bits as nat);
        lemma_pow2_pos((node_bits + seq_bits) as nat);
        assert(ts_low as nat * pow2((node_bits + seq_bits) as nat) <= ts_low as nat * pow2((node_bits + seq_bits) as nat) + node_low as nat * pow2(seq_bits as nat) + seq_low as nat) by (nonlinear_arith);
        assert(node_low as nat * pow2(seq_bits as nat) <= node_low as nat * pow2(seq_bits as nat) + seq_low as nat);
    }
    let ts_part = shift_up(ts_low, node_bits + seq_bits);
    let node_part = shift_up(node_low, seq_bits);
    // The three parts occupy disjoint bit ranges, so their sum is their bitwise union.
    ts_part + node_part + seq_low
}

/// The timestamp, node and sequence fields of `word` under valid widths; the timestamp
/// is relative to the epoch.
pub fn unpack_word(word: u64, node_bits: u64, seq_bits: u64) -> (r: (u64, u64, u64))
    requires
        node_bits + seq_bits <= 64,
    ensures
        r.0 as nat == ts_field(word as nat, node_bits as nat, seq_bits as nat),
        r.1 as nat == node_field(word as nat, node_bits as nat, seq_bits as nat),
        r.2 as nat == seq_field(word as nat, seq_bits as nat),
{
    let ts = shift_down(word, node_bits + seq_bits);
    let node = low_bits(shift_down(word, seq_bits), node_bits);
    let seq = low_bits(word, seq_bits);
    (ts, node, seq)
}

} // verus!
