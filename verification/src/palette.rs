//! Paletted containers: compact, self-resizing storage for a fixed-size
//! array of small integer IDs.
//!
//! A container holds `volume` entries under one of three strategies:
//! a single scalar when only one value was ever observed, a bit-packed
//! array of indices into a small local palette (indirect), or a bit-packed
//! array of raw values at the full registry width (direct). A write that
//! introduces a value the current strategy cannot represent promotes the
//! container upward; the strategy is always the minimal one for the set of
//! values observed so far, and a container never demotes on a write.

use vstd::prelude::*;
use vstd::arithmetic::power2::pow2;
use crate::bits::packed_at;
use crate::bits::word_count;
use crate::bits::packed_get;
use crate::bits::packed_set;
use crate::bits::zero_words;
use crate::bits::lemma_index_in_words;
use crate::bits::lemma_zero_words_read_zero;
use crate::CoreError;
use crate::buffer::WriteBuffer;
use crate::buffer::u16_le;
use crate::buffer::u64_le;

verus! {

/// The encoding a container currently uses.
#[derive(Clone, Copy, Debug, PartialEq, Eq, Structural)]
pub enum Strategy {
    Single,
    Indirect,
    Direct,
}

enum Repr {
    Single { value: u16 },
    Indirect { bits: usize, palette: Vec<u16>, words: Vec<u64> },
    Direct { words: Vec<u64> },
}

/// `bits` is the smallest width not below `minimum` whose index space
/// covers `n` values. Exactly one width satisfies this for given `n` and
/// `minimum`.
pub open spec fn minimal_bits(bits: nat, n: nat, minimum: nat) -> bool {
    &&& bits >= minimum
    &&& pow2(bits) >= n
    &&& (bits == minimum || pow2((bits - 1) as nat) < n)
}

/// The entries of an indirect encoding: each packed index resolved
/// through the local palette.
pub open spec fn indirect_view(volume: nat, bits: nat, palette: Seq<u16>, words: Seq<u64>) -> Seq<
    u16,
> {
    Seq::new(volume, |i: int| palette[packed_at(words, bits, i as nat) as int])
}

/// The entries of a direct encoding: raw packed values.
pub open spec fn direct_view(volume: nat, bits: nat, words: Seq<u64>) -> Seq<u16> {
    Seq::new(volume, |i: int| packed_at(words, bits, i as nat) as u16)
}

/// `(1u64 << b)` is `pow2(b)` for the widths a container uses.
pub proof fn lemma_shl_is_pow2(b: u64)
    requires
        b <= 16,
    ensures
        (1u64 << b) as nat == pow2(b as nat),
    decreases b,
{
    if b == 0 {
        assert(1u64 << 0u64 == 1) by (bit_vector);
        assert(pow2(0) == 1) by {
            vstd::arithmetic::power2::lemma2_to64();
        }
    } else {
        lemma_shl_is_pow2((b - 1) as u64);
        assert(1u64 << b == 2 * (1u64 << ((b - 1) as u64))) by (bit_vector)
            requires
                1 <= b <= 16,
        ;
        vstd::arithmetic::power2::lemma_pow2_unfold(b as nat);
    }
}

/// Compact storage for a fixed-size array of palette entries.
pub struct PalettedContainer {
    volume: usize,
    min_bits: usize,
    threshold_bits: usize,
    direct_bits: usize,
    repr: Repr,
    observed: Ghost<Set<u16>>,
}

impl View for PalettedContainer {
    type V = Seq<u16>;

    closed spec fn view(&self) -> Seq<u16> {
        match self.repr {
            Repr::Single { value } => Seq::new(self.volume as nat, |i: int| value),
            Repr::Indirect { bits, palette, words } => indirect_view(
                self.volume as nat,
                bits as nat,
                palette@,
                words@,
            ),
            Repr::Direct { words } => direct_view(
                self.volume as nat,
                self.direct_bits as nat,
                words@,
            ),
        }
    }
}

impl PalettedContainer {
    /// Number of entries the container holds.
    pub closed spec fn spec_volume(&self) -> nat {
        self.volume as nat
    }

    /// Minimum width of an indirect encoding.
    pub closed spec fn spec_min_bits(&self) -> nat {
        self.min_bits as nat
    }

    /// Largest indirect width before the container promotes to direct.
    pub closed spec fn spec_threshold_bits(&self) -> nat {
        self.threshold_bits as nat
    }

    /// Width of the direct encoding; values must lie below `pow2` of it.
    pub closed spec fn spec_direct_bits(&self) -> nat {
        self.direct_bits as nat
    }

    /// Every value ever written to (or used to create) the container.
    pub closed spec fn observed_values(&self) -> Set<u16> {
        self.observed@
    }

    /// The width of the current encoding: 0 for single-value, the
    /// palette index width for indirect, the registry width for direct.
    pub closed spec fn spec_bits(&self) -> nat {
        match self.repr {
            Repr::Single { .. } => 0,
            Repr::Indirect { bits, .. } => bits as nat,
            Repr::Direct { .. } => self.direct_bits as nat,
        }
    }

    /// The strategy currently in use.
    pub closed spec fn spec_strategy(&self) -> Strategy {
        match self.repr {
            Repr::Single { .. } => Strategy::Single,
            Repr::Indirect { .. } => Strategy::Indirect,
            Repr::Direct { .. } => Strategy::Direct,
        }
    }

    /// Width configuration, unchanged by every operation.
    pub open spec fn same_config(&self, other: &PalettedContainer) -> bool {
        &&& self.spec_volume() == other.spec_volume()
        &&& self.spec_min_bits() == other.spec_min_bits()
        &&& self.spec_threshold_bits() == other.spec_threshold_bits()
        &&& self.spec_direct_bits() == other.spec_direct_bits()
    }

    /// The width configuration is sane and the observed set is finite.
    spec fn config_wf(&self) -> bool {
        &&& 1 <= self.min_bits
        &&& self.min_bits <= self.threshold_bits
        &&& self.threshold_bits < self.direct_bits
        &&& self.direct_bits <= 16
        &&& 1 <= self.volume
        &&& self.volume <= 0x100000
        &&& self.observed@.finite()
    }

    /// Consistency of indirect parts: a duplicate-free palette that is
    /// exactly the observed set, a minimal width, and packed indices that
    /// all address the palette.
    spec fn indirect_wf(&self, bits: usize, palette: Seq<u16>, words: Seq<u64>) -> bool {
        &&& self.min_bits <= bits
        &&& bits <= self.threshold_bits
        &&& palette.no_duplicates()
        &&& 1 <= palette.len()
        &&& palette.len() <= pow2(bits as nat)
        &&& forall|k: int|
            0 <= k < palette.len() ==> ((#[trigger] palette[k]) as nat) < pow2(
                self.direct_bits as nat,
            )
        &&& palette.to_set() == self.observed@
        &&& minimal_bits(bits as nat, palette.len(), self.min_bits as nat)
        &&& words.len() == word_count(self.volume as nat, bits as nat)
        &&& forall|i: nat|
            i < self.volume ==> (packed_at(words, bits as nat, i) as nat) < palette.len()
    }

    /// Well-formedness: the representation is consistent, every stored
    /// index addresses the local palette, and the strategy is the minimal
    /// one for the values observed so far.
    pub closed spec fn wf(&self) -> bool {
        &&& self.config_wf()
        &&& match self.repr {
            Repr::Single { value } => {
                &&& (value as nat) < pow2(self.direct_bits as nat)
                &&& self.observed@ == Set::empty().insert(value)
            },
            Repr::Indirect { bits, palette, words } => self.indirect_wf(bits, palette@, words@),
            Repr::Direct { words } => {
                &&& words@.len() == word_count(self.volume as nat, self.direct_bits as nat)
                &&& self.observed@.len() > pow2(self.threshold_bits as nat)
            },
        }
    }

    /// A container of `volume` entries, all holding `initial`.
    pub fn new(
        volume: usize,
        min_bits: usize,
        threshold_bits: usize,
        direct_bits: usize,
        initial: u16,
    ) -> (r: PalettedContainer)
        requires
            1 <= volume <= 0x100000,
            1 <= min_bits,
            min_bits <= threshold_bits,
            threshold_bits < direct_bits,
            direct_bits <= 16,
            (initial as nat) < pow2(direct_bits as nat),
        ensures
            r.wf(),
            r@.len() == volume,
            forall|i: int| 0 <= i < volume ==> r@[i] == initial,
            r.spec_volume() == volume,
            r.spec_min_bits() == min_bits,
            r.spec_threshold_bits() == threshold_bits,
            r.spec_direct_bits() == direct_bits,
            r.spec_strategy() == Strategy::Single,
            r.observed_values() == Set::empty().insert(initial),
    {
        PalettedContainer {
            volume,
            min_bits,
            threshold_bits,
            direct_bits,
            repr: Repr::Single { value: initial },
            observed: Ghost(Set::empty().insert(initial)),
        }
    }

    /// Unchecked read; the caller owns the range check.
    fn read_at(&self, index: usize) -> (r: u16)
        requires
            self.wf(),
            index < self.spec_volume(),
        ensures
            r == self@[index as int],
    {
        match &self.repr {
            Repr::Single { value } => *value,
            Repr::Indirect { bits, palette, words } => {
                proof {
                    lemma_index_in_words(self.volume as nat, *bits as nat, index as nat);
                }
                let idx = packed_get(words, *bits, index);
                proof {
                    let b = *bits as u64;
                    assert((1u64 << b) <= 0x10000) by (bit_vector)
                        requires
                            b <= 16,
                    ;
                    assert((idx as nat) < palette@.len());
                }
                palette[idx as usize]
            },
            Repr::Direct { words } => {
                proof {
                    lemma_index_in_words(self.volume as nat, self.direct_bits as nat, index as nat);
                }
                packed_get(words, self.direct_bits, index) as u16
            },
        }
    }

    /// Decodes the entry at `index` under the current strategy.
    /// Fails with `OutOfRange` exactly when the index is outside the volume.
    pub fn get(&self, index: usize) -> (r: Result<u16, CoreError>)
        requires
            self.wf(),
        ensures
            match r {
                Ok(v) => index < self.spec_volume() && v == self@[index as int],
                Err(e) => index >= self.spec_volume() && e == CoreError::OutOfRange,
            },
    {
        if index < self.volume {
            Ok(self.read_at(index))
        } else {
            Err(CoreError::OutOfRange)
        }
    }

    /// The strategy currently in use.
    pub fn strategy(&self) -> (r: Strategy)
        ensures
            r == self.spec_strategy(),
    {
        match &self.repr {
            Repr::Single { .. } => Strategy::Single,
            Repr::Indirect { .. } => Strategy::Indirect,
            Repr::Direct { .. } => Strategy::Direct,
        }
    }

    /// Number of entries the container holds.
    pub fn volume(&self) -> (r: usize)
        ensures
            r == self.spec_volume(),
    {
        self.volume
    }

    /// Index of `value` in the palette, if present.
    fn find_in_palette(palette: &Vec<u16>, value: u16) -> (r: Option<usize>)
        ensures
            match r {
                Some(k) => k < palette@.len() && palette@[k as int] == value,
                None => !palette@.contains(value),
            },
    {
        let mut i: usize = 0;
        while i < palette.len()
            invariant
                i <= palette@.len(),
                forall|k: int| 0 <= k < i ==> palette@[k] != value,
            decreases palette@.len() - i,
        {
            if palette[i] == value {
                return Some(i);
            }
            i = i + 1;
        }
        None
    }

    /// `pow2(b)` as a machine word.
    fn pow2_exec(b: usize) -> (r: u64)
        requires
            b <= 16,
        ensures
            r as nat == pow2(b as nat),
    {
        proof {
            lemma_shl_is_pow2(b as u64);
        }
        1u64 << (b as u64)
    }

    /// Words needed for `volume` entries at width `bits`.
    fn words_needed(volume: usize, bits: usize) -> (r: usize)
        requires
            1 <= bits <= 16,
            1 <= volume <= 0x100000,
        ensures
            r == word_count(volume as nat, bits as nat),
    {
        let epw: usize = 64 / bits;
        proof {
            assert(epw >= 1) by (nonlinear_arith)
                requires
                    1 <= bits && bits <= 16,
                    epw == 64usize / bits,
            ;
        }
        (volume + epw - 1) / epw
    }

    /// Writes `value` at `index`. A value the current strategy cannot
    /// represent first promotes the container (single to indirect,
    /// indirect to a wider palette, or indirect to direct); every other
    /// entry keeps its value across the promotion. Fails with `OutOfRange`
    /// exactly when the index is outside the volume, and with
    /// `RegistryOverflow` exactly when the value does not fit the direct
    /// width; a failed write changes nothing.
    pub fn set(&mut self, index: usize, value: u16) -> (r: Result<(), CoreError>)
        requires
            old(self).wf(),
        ensures
            final(self).wf(),
            final(self).same_config(old(self)),
            r is Ok <==> (index < old(self).spec_volume() && (value as nat) < pow2(
                old(self).spec_direct_bits(),
            )),
            r is Ok ==> final(self)@ == old(self)@.update(index as int, value)
                && final(self).observed_values() == old(self).observed_values().insert(value),
            r is Err ==> final(self)@ == old(self)@
                && final(self).observed_values() == old(self).observed_values()
                && final(self).spec_strategy() == old(self).spec_strategy(),
            r == Err::<(), CoreError>(CoreError::OutOfRange) <==> index >= old(self).spec_volume(),
            r == Err::<(), CoreError>(CoreError::RegistryOverflow) <==> (index < old(
                self,
            ).spec_volume() && (value as nat) >= pow2(old(self).spec_direct_bits())),
    {
        if index >= self.volume {
            return Err(CoreError::OutOfRange);
        }
        proof {
            lemma_shl_is_pow2(self.direct_bits as u64);
        }
        if (value as u64) >= (1u64 << (self.direct_bits as u64)) {
            return Err(CoreError::RegistryOverflow);
        }
        let ghost pre = *self;
        let mut taken = Repr::Single { value: 0 };
        core::mem::swap(&mut taken, &mut self.repr);
        match taken {
            Repr::Single { value: cur } => {
                if value == cur {
                    self.repr = Repr::Single { value: cur };
                    proof {
                        assert(*self == pre);
                        assert(self@ =~= old(self)@.update(index as int, value));
                        assert(self.observed@ =~= old(self).observed@.insert(value));
                    }
                } else {
                    self.promote_single(index, value, cur);
                    proof {
                        assert(old(self)@ == Seq::new(pre.volume as nat, |i: int| cur));
                    }
                }
            },
            Repr::Indirect { bits, palette, words } => {
                let ghost p0 = palette@;
                let ghost w0 = words@;
                self.write_indirect(index, value, bits, palette, words);
                proof {
                    assert(old(self)@ == indirect_view(pre.volume as nat, bits as nat, p0, w0));
                }
            },
            Repr::Direct { words } => {
                let ghost w0 = words@;
                self.write_direct(index, value, words);
                proof {
                    assert(old(self)@ == direct_view(
                        pre.volume as nat,
                        pre.direct_bits as nat,
                        w0,
                    ));
                }
            },
        }
        Ok(())
    }

    /// Promotes a single-value container to a two-entry indirect one.
    fn promote_single(&mut self, index: usize, value: u16, cur: u16)
        requires
            old(self).config_wf(),
            old(self).observed@ == Set::empty().insert(cur),
            index < old(self).spec_volume(),
            (cur as nat) < pow2(old(self).spec_direct_bits()),
            (value as nat) < pow2(old(self).spec_direct_bits()),
            value != cur,
        ensures
            final(self).wf(),
            final(self).same_config(old(self)),
            final(self)@ == Seq::new(old(self).spec_volume(), |i: int| cur).update(
                index as int,
                value,
            ),
            final(self).observed_values() == old(self).observed_values().insert(value),
    {
        let bits = Self::width_for(2, self.min_bits);
        proof {
            // two values always fit the minimum width
            vstd::arithmetic::power2::lemma2_to64();
            if self.min_bits > 1 {
                vstd::arithmetic::power2::lemma_pow2_strictly_increases(1, self.min_bits as nat);
            }
            assert(pow2(self.min_bits as nat) >= 2);
            assert(bits == self.min_bits);
        }
        let mut palette: Vec<u16> = Vec::new();
        palette.push(cur);
        palette.push(value);
        let wc = Self::words_needed(self.volume, bits);
        let mut words = zero_words(wc);
        let ghost zwords = words@;
        proof {
            lemma_index_in_words(self.volume as nat, bits as nat, index as nat);
            assert(1u64 < (1u64 << (bits as u64))) by (bit_vector)
                requires
                    1 <= (bits as u64) <= 16,
            ;
        }
        packed_set(&mut words, bits, index, 1);
        proof {
            assert forall|i: nat| i < self.volume implies (packed_at(words@, bits as nat, i) as nat)
                < palette@.len() by {
                lemma_index_in_words(self.volume as nat, bits as nat, i);
                if i != index {
                    lemma_zero_words_read_zero(zwords, bits as nat, i);
                }
            }
        }
        self.repr = Repr::Indirect { bits, palette, words };
        proof {
            self.observed = Ghost(self.observed@.insert(value));
            assert(palette@.to_set() =~= self.observed@) by {
                assert(palette@[0] == cur && palette@[1] == value);
                assert forall|x: u16| palette@.to_set().contains(x) implies self.observed@.contains(
                    x,
                ) by {
                    let k = choose|k: int| 0 <= k < palette@.len() && palette@[k] == x;
                }
                assert(palette@.contains(cur) && palette@.contains(value));
            }
            assert forall|i: int| 0 <= i < self.volume && i != index implies self@[i] == cur by {
                lemma_index_in_words(self.volume as nat, bits as nat, i as nat);
                lemma_zero_words_read_zero(zwords, bits as nat, i as nat);
            }
            assert(self@ =~= Seq::new(old(self).spec_volume(), |i: int| cur).update(
                index as int,
                value,
            ));
        }
    }

    /// Smallest width at or above `minimum` whose index space covers `n`
    /// values.
    fn width_for(n: usize, minimum: usize) -> (r: usize)
        requires
            1 <= minimum <= 16,
            n <= 0x10000,
        ensures
            minimal_bits(r as nat, n as nat, minimum as nat),
            r <= 16,
            minimum <= r,
    {
        let mut b: usize = minimum;
        proof {
            vstd::arithmetic::power2::lemma2_to64();
        }
        while Self::pow2_exec(b) < (n as u64)
            invariant
                minimum <= b <= 16,
                n <= 0x10000,
                b == minimum || pow2((b - 1) as nat) < n,
            decreases 16 - b,
        {
            proof {
                vstd::arithmetic::power2::lemma2_to64();
                if b == 16 {
                    assert(pow2(16) >= n);
                }
            }
            b = b + 1;
        }
        b
    }

    /// Writes into an indirect container whose parts the caller took out,
    /// growing the palette or the width, or promoting to direct.
    fn write_indirect(
        &mut self,
        index: usize,
        value: u16,
        bits: usize,
        palette: Vec<u16>,
        words: Vec<u64>,
    )
        requires
            old(self).config_wf(),
            old(self).indirect_wf(bits, palette@, words@),
            index < old(self).spec_volume(),
            (value as nat) < pow2(old(self).spec_direct_bits()),
        ensures
            final(self).wf(),
            final(self).same_config(old(self)),
            final(self)@ == indirect_view(
                old(self).spec_volume(),
                bits as nat,
                palette@,
                words@,
            ).update(index as int, value),
            final(self).observed_values() == old(self).observed_values().insert(value),
    {
        let ghost p0 = palette@;
        let ghost w0 = words@;
        let mut words = words;
        proof {
            lemma_index_in_words(self.volume as nat, bits as nat, index as nat);
        }
        match Self::find_in_palette(&palette, value) {
            Some(k) => {
                proof {
                    assert((k as u64) < (1u64 << (bits as u64))) by {
                        lemma_shl_is_pow2(bits as u64);
                        assert(k < p0.len());
                    }
                }
                packed_set(&mut words, bits, index, k as u64);
                self.repr = Repr::Indirect { bits, palette, words };
                proof {
                    self.observed = Ghost(self.observed@.insert(value));
                    assert(old(self).observed@.contains(value)) by {
                        assert(p0.contains(value));
                    }
                    assert(self.observed@ =~= old(self).observed@);
                    assert forall|i: nat| i < self.volume implies (packed_at(
                        words@,
                        bits as nat,
                        i,
                    ) as nat) < p0.len() by {
                        lemma_index_in_words(self.volume as nat, bits as nat, i);
                    }
                    assert forall|i: int| 0 <= i < self.volume && i != index implies self@[i]
                        == indirect_view(old(self).spec_volume(), bits as nat, p0, w0)[i] by {
                        lemma_index_in_words(self.volume as nat, bits as nat, i as nat);
                    }
                    assert(self@ =~= indirect_view(
                        old(self).spec_volume(),
                        bits as nat,
                        p0,
                        w0,
                    ).update(index as int, value));
                }
            },
            None => {
                let cap = Self::pow2_exec(bits);
                if (palette.len() as u64) < cap {
                    self.grow_palette(index, value, bits, palette, words);
                } else if bits + 1 <= self.threshold_bits {
                    self.grow_width(index, value, bits, palette, words);
                } else {
                    self.promote_direct(index, value, bits, palette, words);
                }
            },
        }
    }

    /// Adds a value to a palette that still has room at the current width.
    fn grow_palette(
        &mut self,
        index: usize,
        value: u16,
        bits: usize,
        palette: Vec<u16>,
        words: Vec<u64>,
    )
        requires
            old(self).config_wf(),
            old(self).indirect_wf(bits, palette@, words@),
            index < old(self).spec_volume(),
            (value as nat) < pow2(old(self).spec_direct_bits()),
            !palette@.contains(value),
            palette@.len() < pow2(bits as nat),
        ensures
            final(self).wf(),
            final(self).same_config(old(self)),
            final(self)@ == indirect_view(
                old(self).spec_volume(),
                bits as nat,
                palette@,
                words@,
            ).update(index as int, value),
            final(self).observed_values() == old(self).observed_values().insert(value),
    {
        let ghost p0 = palette@;
        let ghost w0 = words@;
        let mut palette = palette;
        let mut words = words;
        let k = palette.len();
        palette.push(value);
        proof {
            lemma_push_no_dup(p0, value);
            lemma_shl_is_pow2(bits as u64);
            lemma_index_in_words(self.volume as nat, bits as nat, index as nat);
        }
        packed_set(&mut words, bits, index, k as u64);
        self.repr = Repr::Indirect { bits, palette, words };
        proof {
            self.observed = Ghost(self.observed@.insert(value));
            lemma_push_to_set(p0, value);
            assert forall|i: nat| i < self.volume implies (packed_at(words@, bits as nat, i) as nat)
                < palette@.len() by {
                lemma_index_in_words(self.volume as nat, bits as nat, i);
            }
            assert forall|i: int| 0 <= i < self.volume && i != index implies self@[i]
                == indirect_view(old(self).spec_volume(), bits as nat, p0, w0)[i] by {
                lemma_index_in_words(self.volume as nat, bits as nat, i as nat);
            }
            assert(self@ =~= indirect_view(old(self).spec_volume(), bits as nat, p0, w0).update(
                index as int,
                value,
            ));
        }
    }

    /// Copies packed entries unchanged into a wider array.
    fn repack_wider(words: &Vec<u64>, bits: usize, nbits: usize, volume: usize) -> (r: Vec<u64>)
        requires
            1 <= bits < nbits <= 16,
            1 <= volume <= 0x100000,
            words@.len() == word_count(volume as nat, bits as nat),
        ensures
            r@.len() == word_count(volume as nat, nbits as nat),
            forall|i: nat|
                i < volume ==> packed_at(r@, nbits as nat, i) == packed_at(words@, bits as nat, i),
    {
        let wc = Self::words_needed(volume, nbits);
        let mut r = zero_words(wc);
        let mut i: usize = 0;
        while i < volume
            invariant
                1 <= bits < nbits <= 16,
                1 <= volume <= 0x100000,
                words@.len() == word_count(volume as nat, bits as nat),
                r@.len() == word_count(volume as nat, nbits as nat),
                i <= volume,
                forall|j: nat|
                    j < i ==> packed_at(r@, nbits as nat, j) == packed_at(words@, bits as nat, j),
            decreases volume - i,
        {
            proof {
                lemma_index_in_words(volume as nat, bits as nat, i as nat);
                lemma_index_in_words(volume as nat, nbits as nat, i as nat);
            }
            let v = packed_get(words, bits, i);
            proof {
                let b = bits as u64;
                let nb = nbits as u64;
                assert(v < (1u64 << nb)) by (bit_vector)
                    requires
                        v < (1u64 << b),
                        b < nb,
                        nb <= 16,
                ;
            }
            packed_set(&mut r, nbits, i, v);
            proof {
                assert forall|j: nat| j < i + 1 implies packed_at(r@, nbits as nat, j) == packed_at(
                    words@,
                    bits as nat,
                    j,
                ) by {
                    lemma_index_in_words(volume as nat, nbits as nat, j);
                }
            }
            i = i + 1;
        }
        r
    }

    /// Grows the indirect width by one bit and adds the new value.
    fn grow_width(
        &mut self,
        index: usize,
        value: u16,
        bits: usize,
        palette: Vec<u16>,
        words: Vec<u64>,
    )
        requires
            old(self).config_wf(),
            old(self).indirect_wf(bits, palette@, words@),
            index < old(self).spec_volume(),
            (value as nat) < pow2(old(self).spec_direct_bits()),
            !palette@.contains(value),
            palette@.len() >= pow2(bits as nat),
            bits + 1 <= old(self).spec_threshold_bits(),
        ensures
            final(self).wf(),
            final(self).same_config(old(self)),
            final(self)@ == indirect_view(
                old(self).spec_volume(),
                bits as nat,
                palette@,
                words@,
            ).update(index as int, value),
            final(self).observed_values() == old(self).observed_values().insert(value),
    {
        let ghost p0 = palette@;
        let ghost w0 = words@;
        let mut palette = palette;
        let nbits = bits + 1;
        let mut nwords = Self::repack_wider(&words, bits, nbits, self.volume);
        let ghost rw = nwords@;
        let k = palette.len();
        palette.push(value);
        proof {
            lemma_push_no_dup(p0, value);
            lemma_shl_is_pow2(nbits as u64);
            vstd::arithmetic::power2::lemma_pow2_unfold(nbits as nat);
            lemma_index_in_words(self.volume as nat, nbits as nat, index as nat);
        }
        packed_set(&mut nwords, nbits, index, k as u64);
        self.repr = Repr::Indirect { bits: nbits, palette, words: nwords };
        proof {
            self.observed = Ghost(self.observed@.insert(value));
            lemma_push_to_set(p0, value);
            assert forall|i: nat| i < self.volume implies (packed_at(
                nwords@,
                nbits as nat,
                i,
            ) as nat) < palette@.len() by {
                lemma_index_in_words(self.volume as nat, nbits as nat, i);
            }
            assert forall|i: int| 0 <= i < self.volume && i != index implies self@[i]
                == indirect_view(old(self).spec_volume(), bits as nat, p0, w0)[i] by {
                lemma_index_in_words(self.volume as nat, nbits as nat, i as nat);
                assert(packed_at(nwords@, nbits as nat, i as nat) == packed_at(
                    rw,
                    nbits as nat,
                    i as nat,
                ));
                assert(packed_at(rw, nbits as nat, i as nat) == packed_at(
                    w0,
                    bits as nat,
                    i as nat,
                ));
                assert((packed_at(w0, bits as nat, i as nat) as nat) < p0.len());
            }
            assert(self@ =~= indirect_view(old(self).spec_volume(), bits as nat, p0, w0).update(
                index as int,
                value,
            ));
        }
    }

    /// Promotes a full indirect container to the direct encoding.
    fn promote_direct(
        &mut self,
        index: usize,
        value: u16,
        bits: usize,
        palette: Vec<u16>,
        words: Vec<u64>,
    )
        requires
            old(self).config_wf(),
            old(self).indirect_wf(bits, palette@, words@),
            index < old(self).spec_volume(),
            (value as nat) < pow2(old(self).spec_direct_bits()),
            !palette@.contains(value),
            palette@.len() >= pow2(bits as nat),
            bits + 1 > old(self).spec_threshold_bits(),
        ensures
            final(self).wf(),
            final(self).same_config(old(self)),
            final(self)@ == indirect_view(
                old(self).spec_volume(),
                bits as nat,
                palette@,
                words@,
            ).update(index as int, value),
            final(self).observed_values() == old(self).observed_values().insert(value),
    {
        let ghost p0 = palette@;
        let ghost w0 = words@;
        let dbits = self.direct_bits;
        let volume = self.volume;
        let wc = Self::words_needed(volume, dbits);
        let mut nwords = zero_words(wc);
        proof {
            lemma_shl_is_pow2(bits as u64);
            lemma_shl_is_pow2(dbits as u64);
        }
        let mut i: usize = 0;
        while i < volume
            invariant
                old(self).config_wf(),
                old(self).indirect_wf(bits, p0, w0),
                p0 == palette@,
                w0 == words@,
                volume == old(self).spec_volume(),
                dbits == old(self).spec_direct_bits(),
                bits <= 16,
                nwords@.len() == word_count(volume as nat, dbits as nat),
                i <= volume,
                (1u64 << (bits as u64)) as nat == pow2(bits as nat),
                (1u64 << (dbits as u64)) as nat == pow2(dbits as nat),
                forall|j: nat|
                    j < i ==> packed_at(nwords@, dbits as nat, j) == (indirect_view(
                        volume as nat,
                        bits as nat,
                        p0,
                        w0,
                    )[j as int] as u64),
            decreases volume - i,
        {
            proof {
                lemma_index_in_words(volume as nat, bits as nat, i as nat);
                lemma_index_in_words(volume as nat, dbits as nat, i as nat);
            }
            let idx = packed_get(&words, bits, i);
            proof {
                assert((idx as nat) < p0.len());
                let b = bits as u64;
                assert((1u64 << b) <= 0x10000) by (bit_vector)
                    requires
                        b <= 16,
                ;
            }
            let raw = palette[idx as usize];
            proof {
                assert((raw as nat) < pow2(dbits as nat));
            }
            packed_set(&mut nwords, dbits, i, raw as u64);
            proof {
                assert forall|j: nat| j < i + 1 implies packed_at(nwords@, dbits as nat, j)
                    == (indirect_view(volume as nat, bits as nat, p0, w0)[j as int] as u64) by {
                    lemma_index_in_words(volume as nat, dbits as nat, j);
                }
            }
            i = i + 1;
        }
        proof {
            lemma_index_in_words(volume as nat, dbits as nat, index as nat);
        }
        packed_set(&mut nwords, dbits, index, value as u64);
        self.repr = Repr::Direct { words: nwords };
        proof {
            self.observed = Ghost(self.observed@.insert(value));
            // the palette was full at the threshold width, so the observed
            // set has outgrown every indirect encoding
            p0.unique_seq_to_set();
            vstd::set::axiom_set_insert_len(old(self).observed@, value);
            assert(bits == old(self).spec_threshold_bits());
            assert(self.observed@.len() > pow2(self.threshold_bits as nat));
            assert forall|i: int| 0 <= i < volume && i != index implies self@[i] == indirect_view(
                volume as nat,
                bits as nat,
                p0,
                w0,
            )[i] by {
                lemma_index_in_words(volume as nat, dbits as nat, i as nat);
            }
            assert(self@ =~= indirect_view(old(self).spec_volume(), bits as nat, p0, w0).update(
                index as int,
                value,
            ));
        }
    }

    /// Writes a representable value into a direct container whose words
    /// the caller took out.
    fn write_direct(&mut self, index: usize, value: u16, words: Vec<u64>)
        requires
            old(self).config_wf(),
            words@.len() == word_count(old(self).spec_volume(), old(self).spec_direct_bits()),
            old(self).observed@.len() > pow2(old(self).spec_threshold_bits()),
            index < old(self).spec_volume(),
            (value as nat) < pow2(old(self).spec_direct_bits()),
        ensures
            final(self).wf(),
            final(self).same_config(old(self)),
            final(self)@ == direct_view(
                old(self).spec_volume(),
                old(self).spec_direct_bits(),
                words@,
            ).update(index as int, value),
            final(self).observed_values() == old(self).observed_values().insert(value),
    {
        let ghost w0 = words@;
        let mut words = words;
        proof {
            lemma_shl_is_pow2(self.direct_bits as u64);
            lemma_index_in_words(self.volume as nat, self.direct_bits as nat, index as nat);
        }
        packed_set(&mut words, self.direct_bits, index, value as u64);
        self.repr = Repr::Direct { words };
        proof {
            self.observed = Ghost(self.observed@.insert(value));
            vstd::set::axiom_set_insert_len(old(self).observed@, value);
            assert forall|i: int| 0 <= i < self.volume && i != index implies self@[i]
                == direct_view(old(self).spec_volume(), old(self).spec_direct_bits(), w0)[i] by {
                lemma_index_in_words(self.volume as nat, self.direct_bits as nat, i as nat);
            }
            assert(self@ =~= direct_view(
                old(self).spec_volume(),
                old(self).spec_direct_bits(),
                w0,
            ).update(index as int, value));
        }
    }

    /// All `(index, value)` pairs in index order; finite, and callable
    /// again without changing the container.
    pub fn entries(&self) -> (r: Vec<(usize, u16)>)
        requires
            self.wf(),
        ensures
            r@.len() == self.spec_volume(),
            forall|k: int|
                0 <= k < r@.len() ==> (#[trigger] r@[k]).0 == k && r@[k].1 == self@[k],
    {
        let mut r: Vec<(usize, u16)> = Vec::new();
        let mut i: usize = 0;
        while i < self.volume
            invariant
                self.wf(),
                i <= self.volume,
                r@.len() == i,
                forall|k: int| 0 <= k < i ==> (#[trigger] r@[k]).0 == k && r@[k].1 == self@[k],
            decreases self.volume - i,
        {
            r.push((i, self.read_at(i)));
            i = i + 1;
        }
        r
    }

    /// All entries, in index order.
    pub fn values(&self) -> (r: Vec<u16>)
        requires
            self.wf(),
        ensures
            r@ == self@,
    {
        let mut r: Vec<u16> = Vec::new();
        let mut i: usize = 0;
        while i < self.volume
            invariant
                self.wf(),
                i <= self.volume,
                r@.len() == i,
                forall|k: int| 0 <= k < i ==> r@[k] == self@[k],
            decreases self.volume - i,
        {
            r.push(self.read_at(i));
            i = i + 1;
        }
        proof {
            assert(r@ =~= self@);
        }
        r
    }
}

/// Wire bytes of a local palette list, entries in first-seen order.
pub open spec fn palette_bytes(p: Seq<u16>) -> Seq<u8>
    decreases p.len(),
{
    if p.len() == 0 {
        Seq::empty()
    } else {
        palette_bytes(p.drop_last()) + u16_le(p.last())
    }
}

/// Wire bytes of a packed word array, words in order, low byte first.
pub open spec fn words_bytes(w: Seq<u64>) -> Seq<u8>
    decreases w.len(),
{
    if w.len() == 0 {
        Seq::empty()
    } else {
        words_bytes(w.drop_last()) + u64_le(w.last())
    }
}

fn write_palette_list(out: &mut WriteBuffer, p: &Vec<u16>)
    ensures
        final(out)@ == old(out)@ + palette_bytes(p@),
{
    let mut i: usize = 0;
    proof {
        assert(out@ =~= old(out)@ + palette_bytes(p@.take(0)));
    }
    while i < p.len()
        invariant
            i <= p@.len(),
            out@ == old(out)@ + palette_bytes(p@.take(i as int)),
        decreases p@.len() - i,
    {
        out.write_u16_le(p[i]);
        proof {
            assert(p@.take(i + 1).drop_last() =~= p@.take(i as int));
            assert(p@.take(i + 1).last() == p@[i as int]);
            assert(out@ =~= old(out)@ + palette_bytes(p@.take(i + 1)));
        }
        i = i + 1;
    }
    proof {
        assert(p@.take(p@.len() as int) =~= p@);
    }
}

fn write_word_list(out: &mut WriteBuffer, w: &Vec<u64>)
    ensures
        final(out)@ == old(out)@ + words_bytes(w@),
{
    let mut i: usize = 0;
    proof {
        assert(out@ =~= old(out)@ + words_bytes(w@.take(0)));
    }
    while i < w.len()
        invariant
            i <= w@.len(),
            out@ == old(out)@ + words_bytes(w@.take(i as int)),
        decreases w@.len() - i,
    {
        out.write_u64_le(w[i]);
        proof {
            assert(w@.take(i + 1).drop_last() =~= w@.take(i as int));
            assert(w@.take(i + 1).last() == w@[i as int]);
            assert(out@ =~= old(out)@ + words_bytes(w@.take(i + 1)));
        }
        i = i + 1;
    }
    proof {
        assert(w@.take(w@.len() as int) =~= w@);
    }
}

impl PalettedContainer {
    /// Wire encoding of the container: a strategy tag byte, then for
    /// single the scalar value, for indirect the bit width, palette
    /// length, palette entries and packed index array, for direct the bit
    /// width and packed value array. The exact layout is a pinned
    /// external parameter of the target protocol.
    pub closed spec fn spec_wire(&self) -> Seq<u8> {
        match self.repr {
            Repr::Single { value } => seq![0u8] + u16_le(value),
            Repr::Indirect { bits, palette, words } => seq![1u8, bits as u8] + u16_le(
                palette@.len() as u16,
            ) + palette_bytes(palette@) + words_bytes(words@),
            Repr::Direct { words } => seq![2u8, self.direct_bits as u8] + words_bytes(words@),
        }
    }

    /// Writes the wire encoding, appending to whatever the sink already
    /// holds.
    pub fn serialize_for_wire(&self, out: &mut WriteBuffer)
        requires
            self.wf(),
        ensures
            final(out)@ == old(out)@ + self.spec_wire(),
    {
        match &self.repr {
            Repr::Single { value } => {
                out.write_u8(0);
                out.write_u16_le(*value);
                proof {
                    assert(out@ =~= old(out)@ + self.spec_wire());
                }
            },
            Repr::Indirect { bits, palette, words } => {
                out.write_u8(1);
                out.write_u8(*bits as u8);
                out.write_u16_le(palette.len() as u16);
                write_palette_list(out, palette);
                write_word_list(out, words);
                proof {
                    assert(out@ =~= old(out)@ + self.spec_wire());
                }
            },
            Repr::Direct { words } => {
                out.write_u8(2);
                out.write_u8(self.direct_bits as u8);
                write_word_list(out, words);
                proof {
                    assert(out@ =~= old(out)@ + self.spec_wire());
                }
            },
        }
    }
}

impl PalettedContainer {
    /// Minimality of the strategy: at every reachable state the encoding
    /// is the cheapest one that represents the values observed so far. A
    /// single scalar while only one value was ever seen; an indirect
    /// encoding at exactly the minimal width for the observed count while
    /// that width stays within the threshold; and the direct encoding
    /// only once the observed count has outgrown the threshold width —
    /// so no over-provisioned direct encoding is reachable through
    /// small-palette writes.
    pub proof fn lemma_strategy_minimal(&self)
        requires
            self.wf(),
        ensures
            self.spec_strategy() == Strategy::Single ==> self.observed_values().len() == 1,
            self.spec_strategy() == Strategy::Indirect ==> minimal_bits(
                self.spec_bits(),
                self.observed_values().len(),
                self.spec_min_bits(),
            ) && self.spec_bits() <= self.spec_threshold_bits(),
            self.spec_strategy() == Strategy::Direct ==> self.observed_values().len() > pow2(
                self.spec_threshold_bits(),
            ),
    {
        match self.repr {
            Repr::Single { value } => {
                vstd::set::axiom_set_insert_len(Set::<u16>::empty(), value);
            },
            Repr::Indirect { bits, palette, words } => {
                palette@.unique_seq_to_set();
            },
            Repr::Direct { .. } => {},
        }
    }
}

/// Round trip under resize: a write that lands as an update of the
/// container's entries (as `set`'s contract states, across any
/// promotion the write triggered) leaves exactly the written value at
/// the written index and every other entry untouched, so a `get` after
/// a `set` returns what was written.
pub proof fn lemma_set_get_round_trip(before: Seq<u16>, after: Seq<u16>, i: int, v: u16)
    requires
        0 <= i < before.len(),
        after == before.update(i, v),
    ensures
        after[i] == v,
        after.len() == before.len(),
        forall|j: int| 0 <= j < before.len() && j != i ==> after[j] == before[j],
{
}

/// Pushing a fresh element keeps a sequence duplicate-free.
proof fn lemma_push_no_dup(s: Seq<u16>, v: u16)
    requires
        s.no_duplicates(),
        !s.contains(v),
    ensures
        s.push(v).no_duplicates(),
{
    assert forall|i: int, j: int|
        0 <= i < s.push(v).len() && 0 <= j < s.push(v).len() && i != j implies s.push(v)[i]
        != s.push(v)[j] by {
        if i < s.len() && j < s.len() {
        } else if i < s.len() {
            assert(s[i] != v);
        } else if j < s.len() {
            assert(s[j] != v);
        }
    }
}

/// Pushing an element inserts it into the sequence's set of values.
proof fn lemma_push_to_set(s: Seq<u16>, v: u16)
    ensures
        s.push(v).to_set() == s.to_set().insert(v),
{
    assert forall|x: u16| s.push(v).to_set().contains(x) implies s.to_set().insert(v).contains(
        x,
    ) by {
        let i = choose|i: int| 0 <= i < s.push(v).len() && s.push(v)[i] == x;
        if i < s.len() {
            assert(s[i] == x);
        }
    }
    assert forall|x: u16| s.to_set().insert(v).contains(x) implies s.push(v).to_set().contains(
        x,
    ) by {
        if x == v {
            assert(s.push(v)[s.len() as int] == x);
        } else {
            let i = choose|i: int| 0 <= i < s.len() && s[i] == x;
            assert(s.push(v)[i] == x);
        }
    }
    assert(s.push(v).to_set() =~= s.to_set().insert(v));
}

} // verus!
