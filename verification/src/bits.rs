//! Reading a run of gaps as an unsigned number, most significant bit first.
use vstd::prelude::*;
use vstd::arithmetic::div_mod::lemma_div_denominator;
use vstd::arithmetic::power2::{lemma2_to64, lemma_pow2_pos, lemma_pow2_unfold, pow2};
use crate::error::DecodeError;
use crate::timing::{in_range, is_bit, is_one, MAX_HIGH, MAX_LOW, MIN_HIGH, MIN_LOW};

verus! {

/// The number that a run of gaps spells, most significant bit first: a gap in
/// the window of a one counts as 1, any other gap as 0.
pub open spec fn bits_value(gaps: Seq<u64>) -> nat
    decreases gaps.len(),
{
    if gaps.len() == 0 {
        0
    } else {
        2 * bits_value(gaps.drop_last()) + if is_one(gaps.last()) {
            1nat
        } else {
            0nat
        }
    }
}

/// The first gap of a run that is neither a zero nor a one, if there is one.
pub open spec fn first_stray(gaps: Seq<u64>) -> Option<u64>
    decreases gaps.len(),
{
    if gaps.len() == 0 {
        None
    } else {
        match first_stray(gaps.drop_last()) {
            Some(gap) => Some(gap),
            None => if is_bit(gaps.last()) {
                None
            } else {
                Some(gaps.last())
            },
        }
    }
}

/// What reading `size` gaps from position `start` gives: the first stray gap
/// of the field as an error, or else the field's number, of which a `u32`
/// keeps the low 32 bits.
pub open spec fn range_value(samples: Seq<u64>, start: int, size: int) -> Result<u32, DecodeError> {
    let field = samples.subrange(start, start + size);
    match first_stray(field) {
        Some(gap) => Err(DecodeError::SampleOutOfRange(gap)),
        None => Ok((bits_value(field) % 0x1_0000_0000) as u32),
    }
}

/// `first_stray` finds the stray gap with the lowest index, and finds none
/// exactly when every gap is a bit.
pub proof fn lemma_first_stray(gaps: Seq<u64>)
    ensures
        first_stray(gaps) is None <==> forall|i: int| 0 <= i < gaps.len() ==> is_bit(#[trigger] gaps[i]),
        first_stray(gaps) matches Some(gap) ==> exists|k: int|
            0 <= k < gaps.len() && #[trigger] gaps[k] == gap && !is_bit(gap) && forall|j: int|
                0 <= j < k ==> is_bit(#[trigger] gaps[j]),
    decreases gaps.len(),
{
    if gaps.len() > 0 {
        let front = gaps.drop_last();
        lemma_first_stray(front);
        assert(forall|i: int| 0 <= i < front.len() ==> front[i] == gaps[i]);
        match first_stray(front) {
            Some(gap) => {
                let k = choose|k: int|
                    0 <= k < front.len() && #[trigger] front[k] == gap && !is_bit(gap) && forall|j: int|
                        0 <= j < k ==> is_bit(#[trigger] front[j]);
                assert(gaps[k] == gap);
                assert(forall|j: int| 0 <= j < k ==> is_bit(#[trigger] gaps[j])) by {
                    assert(forall|j: int| 0 <= j < k ==> front[j] == gaps[j]);
                }
            },
            None => {
                if !is_bit(gaps.last()) {
                    let k = gaps.len() - 1;
                    assert(gaps[k] == gaps.last());
                }
            },
        }
    }
}

/// A stray gap found in the first `k` gaps is the first stray gap of the
/// whole run.
pub proof fn lemma_first_stray_prefix(gaps: Seq<u64>, k: int)
    requires
        0 <= k <= gaps.len(),
        first_stray(gaps.take(k)) is Some,
    ensures
        first_stray(gaps) == first_stray(gaps.take(k)),
    decreases gaps.len(),
{
    if k == gaps.len() {
        assert(gaps.take(k) == gaps);
    } else {
        assert(gaps.drop_last().take(k) == gaps.take(k));
        lemma_first_stray_prefix(gaps.drop_last(), k);
    }
}

/// A run of `n` gaps spells a number below `2^n`.
pub proof fn lemma_bits_value_bound(gaps: Seq<u64>)
    ensures
        bits_value(gaps) < pow2(gaps.len()),
    decreases gaps.len(),
{
    if gaps.len() == 0 {
        lemma2_to64();
    } else {
        lemma_bits_value_bound(gaps.drop_last());
        lemma_pow2_unfold(gaps.len());
    }
}

/// Bit `i` of `value` written in `width` binary digits, the most significant
/// digit being bit 0.
pub open spec fn bit_of(value: nat, width: nat, i: int) -> bool {
    (value / pow2((width - 1 - i) as nat)) % 2 == 1
}

/// A run of gaps that has a one wherever the binary digit of `value` is set,
/// and only there, spells `value`.
pub proof fn lemma_bits_value_spells(gaps: Seq<u64>, value: nat)
    requires
        value < pow2(gaps.len()),
        forall|i: int|
            0 <= i < gaps.len() ==> is_one(#[trigger] gaps[i]) == bit_of(value, gaps.len(), i),
    ensures
        bits_value(gaps) == value,
    decreases gaps.len(),
{
    lemma2_to64();
    if gaps.len() > 0 {
        let width = gaps.len();
        let front = gaps.drop_last();
        lemma_pow2_unfold(width);
        assert forall|i: int| 0 <= i < front.len() implies is_one(#[trigger] front[i]) == bit_of(
            value / 2,
            front.len(),
            i,
        ) by {
            let rest = (width - 2 - i) as nat;
            assert(front[i] == gaps[i]);
            assert(is_one(gaps[i]) == bit_of(value, width, i));
            lemma_pow2_unfold(rest + 1);
            lemma_pow2_pos(rest);
            lemma_div_denominator(value as int, 2, pow2(rest) as int);
        }
        lemma_bits_value_spells(front, value / 2);
        assert(is_one(gaps[width - 1]) == bit_of(value, width, width - 1));
        assert(bit_of(value, width, width - 1) == (value % 2 == 1)) by {
            let unit = pow2((width - 1 - (width - 1)) as nat);
            assert(unit == 1);
            assert(value / unit == value / 1);
        }
        assert(gaps.last() == gaps[width - 1]);
    }
}

/// Reads the `size` gaps from position `start` as an unsigned number, most
/// significant bit first. The first gap of the field that is neither a zero
/// nor a one is returned as the error.
pub fn decode_range(samples: &[u64], start: usize, size: usize) -> (r: Result<u32, DecodeError>)
    requires
        start + size <= samples.len(),
    ensures
        r == range_value(samples@, start as int, size as int),
{
    let ghost field = samples@.subrange(start as int, start + size);
    let mut value: u32 = 0;
    let mut i: usize = 0;
    while i < size
        invariant
            i <= size,
            start + size <= samples.len(),
            field == samples@.subrange(start as int, start + size),
            first_stray(field.take(i as int)) is None,
            value == bits_value(field.take(i as int)) % 0x1_0000_0000,
        decreases size - i,
    {
        let sample = samples[start + i];
        proof {
            assert(field.take(i + 1).drop_last() == field.take(i as int));
            assert(field.take(i + 1).last() == sample);
        }
        let ghost before = value;
        if in_range(sample, MIN_HIGH, MAX_HIGH) {
            value = (value << 1) | 1;
            assert(value == (2 * before + 1) % 0x1_0000_0000) by (bit_vector)
                requires
                    value == (before << 1) | 1,
            ;
        } else if in_range(sample, MIN_LOW, MAX_LOW) {
            value = value << 1;
            assert(value == (2 * before) % 0x1_0000_0000) by (bit_vector)
                requires
                    value == before << 1,
            ;
        } else {
            proof {
                lemma_first_stray_prefix(field, i + 1);
            }
            return Err(DecodeError::SampleOutOfRange(sample));
        }
        i += 1;
    }
    assert(field.take(size as int) == field);
    Ok(value)
}

} // verus!
