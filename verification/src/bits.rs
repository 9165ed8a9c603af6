//! Bit-packed word arrays.
//!
//! A packed array stores fixed-width entries inside 64-bit words; entries
//! never span a word boundary, so a word holds `64 / bits` entries and the
//! last slots of the final word may be unused.

use vstd::prelude::*;

verus! {

/// Entries that fit in one 64-bit word at width `bits`.
pub open spec fn entries_per_word(bits: nat) -> nat {
    (64 as nat) / bits
}

/// The low `bits` bits set.
pub open spec fn mask_of(bits: u64) -> u64 {
    ((1u64 << bits) - 1) as u64
}

/// Logical entry `i` of a bit-packed word array at width `bits`.
pub open spec fn packed_at(words: Seq<u64>, bits: nat, i: nat) -> u64 {
    (words[(i / entries_per_word(bits)) as int] >> (((i % entries_per_word(bits)) * bits) as u64))
        & mask_of(bits as u64)
}

/// Words needed to hold `volume` entries at width `bits`.
pub open spec fn word_count(volume: nat, bits: nat) -> nat {
    (((volume + entries_per_word(bits) - 1) as int) / (entries_per_word(bits) as int)) as nat
}

/// A slot inside a word leaves room for a whole entry below bit 64.
proof fn lemma_shift_fits(bits: nat, slot: nat)
    requires
        1 <= bits,
        slot < 64nat / bits,
    ensures
        slot * bits + bits <= 64,
{
    let epw = 64nat / bits;
    vstd::arithmetic::div_mod::lemma_fundamental_div_mod(64, bits as int);
    assert(epw * bits <= 64) by (nonlinear_arith)
        requires
            1 <= bits,
            epw == 64nat / bits,
    ;
    assert((slot + 1) * bits <= epw * bits) by (nonlinear_arith)
        requires
            slot + 1 <= epw,
            bits >= 1,
    ;
    assert((slot + 1) * bits == slot * bits + bits) by (nonlinear_arith);
}

/// Every index below `volume` addresses a word below `word_count`.
pub proof fn lemma_index_in_words(volume: nat, bits: nat, i: nat)
    requires
        1 <= bits <= 16,
        i < volume,
    ensures
        i / entries_per_word(bits) < word_count(volume, bits),
{
    let epw = entries_per_word(bits);
    assert(epw >= 1) by (nonlinear_arith)
        requires
            1 <= bits <= 16,
            epw == 64nat / bits,
    ;
    assert(i / epw < word_count(volume, bits)) by (nonlinear_arith)
        requires
            epw >= 1,
            i < volume,
            word_count(volume, bits) == ((volume + epw - 1) as int) / (epw as int),
    ;
}

proof fn lemma_extract_zero(s: u64, b: u64)
    by (bit_vector)
    requires
        b <= 16,
    ensures
        (0u64 >> s) & (((1u64 << b) - 1) as u64) == 0,
{
}

proof fn lemma_extract_bound(w: u64, s: u64, b: u64)
    by (bit_vector)
    requires
        b <= 16,
    ensures
        ((w >> s) & (((1u64 << b) - 1) as u64)) < (1u64 << b),
{
}

proof fn lemma_write_read_same(w: u64, v: u64, s: u64, b: u64)
    by (bit_vector)
    requires
        1 <= b,
        b <= 16,
        s + b <= 64,
        v < (1u64 << b),
    ensures
        (((w & !((((1u64 << b) - 1) as u64) << s)) | (v << s)) >> s) & (((1u64 << b) - 1) as u64)
            == v,
{
}

proof fn lemma_write_read_other(w: u64, v: u64, s: u64, t: u64, b: u64)
    by (bit_vector)
    requires
        1 <= b,
        b <= 16,
        s + b <= 64,
        t + b <= 64,
        (t + b <= s) || (s + b <= t),
        v < (1u64 << b),
    ensures
        (((w & !((((1u64 << b) - 1) as u64) << s)) | (v << s)) >> t) & (((1u64 << b) - 1) as u64)
            == (w >> t) & (((1u64 << b) - 1) as u64),
{
}

/// A freshly zeroed word array reads 0 at every entry.
pub proof fn lemma_zero_words_read_zero(words: Seq<u64>, bits: nat, i: nat)
    requires
        1 <= bits <= 16,
        i / entries_per_word(bits) < words.len(),
        forall|k: int| 0 <= k < words.len() ==> words[k] == 0,
    ensures
        packed_at(words, bits, i) == 0,
{
    let epw = entries_per_word(bits);
    assert(epw >= 1) by (nonlinear_arith)
        requires
            1 <= bits <= 16,
            epw == 64nat / bits,
    ;
    let slot = i % epw;
    lemma_shift_fits(bits, slot);
    let s = (slot * bits) as u64;
    lemma_extract_zero(s, bits as u64);
    assert(words[(i / epw) as int] == 0);
}

/// Reads entry `index` of the packed array.
pub fn packed_get(words: &Vec<u64>, bits: usize, index: usize) -> (r: u64)
    requires
        1 <= bits && bits <= 16,
        index / (64usize / bits) < words.len(),
    ensures
        r == packed_at(words@, bits as nat, index as nat),
        r < (1u64 << (bits as u64)),
{
    let epw: usize = 64 / bits;
    proof {
        assert(epw >= 1) by (nonlinear_arith)
            requires
                1 <= bits && bits <= 16,
                epw == 64usize / bits,
        ;
    }
    let wi: usize = index / epw;
    let slot: usize = index % epw;
    proof {
        lemma_shift_fits(bits as nat, slot as nat);
    }
    let sh: u64 = (slot * bits) as u64;
    let b64: u64 = bits as u64;
    proof {
        assert(1u64 << b64 >= 1) by (bit_vector)
            requires
                b64 <= 16,
        ;
    }
    let m: u64 = (1u64 << b64) - 1;
    let w: u64 = words[wi];
    let r = (w >> sh) & m;
    proof {
        lemma_extract_bound(w, sh, b64);
    }
    r
}

/// Writes `value` at entry `index`, leaving every other entry alone.
pub fn packed_set(words: &mut Vec<u64>, bits: usize, index: usize, value: u64)
    requires
        1 <= bits && bits <= 16,
        index / (64usize / bits) < old(words).len(),
        value < (1u64 << (bits as u64)),
    ensures
        final(words)@.len() == old(words)@.len(),
        packed_at(final(words)@, bits as nat, index as nat) == value,
        forall|j: nat|
            j != index && j / entries_per_word(bits as nat) < final(words)@.len() ==> packed_at(
                final(words)@,
                bits as nat,
                j,
            ) == packed_at(old(words)@, bits as nat, j),
{
    let epw: usize = 64 / bits;
    proof {
        assert(epw >= 1) by (nonlinear_arith)
            requires
                1 <= bits && bits <= 16,
                epw == 64usize / bits,
        ;
    }
    let wi: usize = index / epw;
    let slot: usize = index % epw;
    proof {
        lemma_shift_fits(bits as nat, slot as nat);
    }
    let sh: u64 = (slot * bits) as u64;
    let b64: u64 = bits as u64;
    proof {
        assert(1u64 << b64 >= 1) by (bit_vector)
            requires
                b64 <= 16,
        ;
    }
    let m: u64 = (1u64 << b64) - 1;
    let w: u64 = words[wi];
    let neww: u64 = (w & !(m << sh)) | (value << sh);
    words[wi] = neww;
    proof {
        lemma_write_read_same(w, value, sh, b64);
        assert forall|j: nat|
            j != index && j / entries_per_word(bits as nat) < words@.len() implies packed_at(
            words@,
            bits as nat,
            j,
        ) == packed_at(old(words)@, bits as nat, j) by {
            let jw = j / entries_per_word(bits as nat);
            if jw == wi {
                let jslot = j % entries_per_word(bits as nat);
                lemma_shift_fits(bits as nat, jslot);
                let t = (jslot * (bits as nat)) as u64;
                assert(jslot != slot) by {
                    if jslot == slot {
                        vstd::arithmetic::div_mod::lemma_fundamental_div_mod(
                            j as int,
                            entries_per_word(bits as nat) as int,
                        );
                        vstd::arithmetic::div_mod::lemma_fundamental_div_mod(
                            index as int,
                            entries_per_word(bits as nat) as int,
                        );
                    }
                }
                assert((t + b64 <= sh) || (sh + b64 <= t)) by (nonlinear_arith)
                    requires
                        t == jslot * (bits as nat),
                        sh == slot * (bits as nat),
                        jslot != slot,
                        bits >= 1,
                        b64 == bits,
                ;
                lemma_write_read_other(w, value, sh, t, b64);
            } else {
                assert(words@[jw as int] == old(words)@[jw as int]);
            }
        }
    }
}

/// A zeroed byte array of the given length.
pub fn zero_bytes(n: usize) -> (r: Vec<u8>)
    ensures
        r@.len() == n,
        forall|k: int| 0 <= k < n ==> r@[k] == 0,
{
    let mut r: Vec<u8> = Vec::new();
    let mut i: usize = 0;
    while i < n
        invariant
            i <= n,
            r@.len() == i,
            forall|k: int| 0 <= k < i ==> r@[k] == 0,
        decreases n - i,
    {
        r.push(0);
        i = i + 1;
    }
    r
}

/// A zeroed word array of the given length.
pub fn zero_words(n: usize) -> (r: Vec<u64>)
    ensures
        r@.len() == n,
        forall|k: int| 0 <= k < n ==> r@[k] == 0,
{
    let mut r: Vec<u64> = Vec::new();
    let mut i: usize = 0;
    while i < n
        invariant
            i <= n,
            r@.len() == i,
            forall|k: int| 0 <= k < i ==> r@[k] == 0,
        decreases n - i,
    {
        r.push(0);
        i = i + 1;
    }
    r
}

} // verus!
