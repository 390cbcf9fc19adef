//! Buses of up to 128 pins, stored as the bits of one `u128`.

use vstd::prelude::*;

verus! {

/// A bundle of up to 128 pins; pin `i` is bit `i` of `data`.
#[derive(Copy, Clone, PartialEq, Eq, Debug, Structural)]
pub struct Bus {
    pub data: u128,
    pub size: u8,
}

/// Why a pin range was refused.
#[derive(Copy, Clone, PartialEq, Eq, Debug, Structural)]
pub enum BusError {
    SourceBusMaxExceeded,
    DestinationBusMaxExceeded,
}

impl BusError {
    /// The words that say what was refused, the same for either bus.
    pub fn message(&self) -> (text: &'static str)
        ensures
            text@ == "A bus should not contain more than 128 pins!"@,
    {
        "A bus should not contain more than 128 pins!"
    }
}

/// Whether pin `i` of the bit pattern `data` is high. Pins outside `0..128` are low.
pub open spec fn pin_is_high(data: u128, i: int) -> bool {
    0 <= i < 128 && (data >> (i as u128)) & 1 == 1
}

/// The half-open pin range `slice.0 .. slice.1` is one that `mask` accepts:
/// it is not empty, at most 128 pins wide, and starts on a pin that exists.
pub open spec fn maskable(slice: (u8, u8)) -> bool {
    slice.0 < slice.1 && slice.1 - slice.0 <= 128 && slice.0 < 128
}

/// The bit pattern of `mask`, as a formula.
pub open spec fn mask_bits(slice: (u8, u8)) -> u128 {
    (u128::MAX >> ((128 - (slice.1 - slice.0)) as u128)) << (slice.0 as u128)
}

/// The pins of `source` moved so that pin `from` comes to lie on pin `to`.
pub open spec fn aligned(source: u128, from: u8, to: u8) -> u128 {
    if to > from {
        source << ((to - from) as u128)
    } else {
        source >> ((from - to) as u128)
    }
}

/// The bit pattern that `Bus::load` leaves behind, as a formula.
pub open spec fn loaded_bits(old_data: u128, source: u128, from: u8, dest: (u8, u8)) -> u128 {
    old_data ^ (old_data & mask_bits(dest)) | (aligned(source, from, dest.0) & mask_bits(dest))
}

/// Both ranges pass the bounds that `Bus::load` tests before it moves any pin.
pub open spec fn within_limits(source: (u8, u8), dest: (u8, u8)) -> bool {
    source.0 <= 128 && source.1 <= 129 && dest.0 <= 128 && dest.1 <= 129
}

/// The start pins of the two ranges are fewer than 128 pins apart.
pub open spec fn alignable(from: u8, to: u8) -> bool {
    from - to < 128 && to - from < 128
}

proof fn lemma_low_ones(w: u128, j: u128)
    by (bit_vector)
    requires
        1 <= w <= 128,
        j < 128,
    ensures
        (((u128::MAX >> ((128 - w) as u128)) >> j) & 1 == 1) <==> j < w,
{
}

proof fn lemma_shl_bit(a: u128, lo: u128, i: u128)
    by (bit_vector)
    requires
        lo < 128,
        i < 128,
    ensures
        (((a << lo) >> i) & 1 == 1) <==> (lo <= i && ((a >> ((i - lo) as u128)) & 1 == 1)),
{
}

proof fn lemma_shr_bit(a: u128, s: u128, i: u128)
    by (bit_vector)
    requires
        s < 128,
        i < 128,
    ensures
        (((a >> s) >> i) & 1 == 1) <==> (i + s < 128 && ((a >> ((i + s) as u128)) & 1 == 1)),
{
}

proof fn lemma_and_bit(a: u128, b: u128, i: u128)
    by (bit_vector)
    requires
        i < 128,
    ensures
        (((a & b) >> i) & 1 == 1) <==> (((a >> i) & 1 == 1) && ((b >> i) & 1 == 1)),
{
}

proof fn lemma_replace_bit(a: u128, m: u128, t: u128, i: u128)
    by (bit_vector)
    requires
        i < 128,
    ensures
        (((a ^ (a & m) | t) >> i) & 1 == 1) <==> ((((a >> i) & 1 == 1) && !((m >> i) & 1 == 1)) || ((t
            >> i) & 1 == 1)),
{
}

proof fn lemma_single_bit(a: u128, p: u128)
    by (bit_vector)
    requires
        p < 128,
    ensures
        ((a << ((127 - p) as u128)) >> 127) == (a >> p) & 1,
        (a >> p) & 1 == 0 || (a >> p) & 1 == 1,
{
}

/// `mask_bits` has exactly the pins of the range high.
pub proof fn lemma_mask_pins(slice: (u8, u8), i: int)
    requires
        maskable(slice),
        0 <= i < 128,
    ensures
        pin_is_high(mask_bits(slice), i) <==> slice.0 <= i < slice.1,
{
    let ones: u128 = u128::MAX >> ((128 - (slice.1 - slice.0)) as u128);
    lemma_shl_bit(ones, slice.0 as u128, i as u128);
    if slice.0 <= i {
        lemma_low_ones((slice.1 - slice.0) as u128, (i - slice.0) as u128);
    }
}

/// `aligned` moves every pin by the distance between `from` and `to`; what
/// would come from outside the 128 pins is low.
pub proof fn lemma_aligned_pins(source: u128, from: u8, to: u8, i: int)
    requires
        alignable(from, to),
        0 <= i < 128,
    ensures
        pin_is_high(aligned(source, from, to), i) <==> pin_is_high(source, i - to + from),
{
    if to > from {
        lemma_shl_bit(source, (to - from) as u128, i as u128);
    } else {
        lemma_shr_bit(source, (from - to) as u128, i as u128);
    }
}

/// Pin by pin, `loaded_bits` takes the pins of the destination range from the
/// source, counted from `from`, and keeps every other pin.
pub proof fn lemma_loaded_pins(old_data: u128, source: u128, from: u8, dest: (u8, u8), i: int)
    requires
        maskable(dest),
        alignable(from, dest.0),
        0 <= i < 128,
    ensures
        pin_is_high(loaded_bits(old_data, source, from, dest), i) <==> if dest.0 <= i < dest.1 {
            pin_is_high(source, i - dest.0 + from)
        } else {
            pin_is_high(old_data, i)
        },
{
    let m = mask_bits(dest);
    let moved = aligned(source, from, dest.0);
    lemma_replace_bit(old_data, m, moved & m, i as u128);
    lemma_and_bit(moved, m, i as u128);
    lemma_mask_pins(dest, i);
    lemma_aligned_pins(source, from, dest.0, i);
}

/// The bit pattern with exactly the pins `slice.0 .. slice.1` high.
pub fn mask(slice: (u8, u8)) -> (m: u128)
    requires
        maskable(slice),
    ensures
        m == mask_bits(slice),
        forall|i: int| 0 <= i < 128 ==> (#[trigger] pin_is_high(m, i) <==> slice.0 <= i < slice.1),
{
    let width: u8 = slice.1 - slice.0;
    let m: u128 = u128::MAX >> (128 - width) << slice.0;
    proof {
        assert forall|i: int| 0 <= i < 128 implies (#[trigger] pin_is_high(m, i) <==> slice.0 <= i
            < slice.1) by {
            lemma_mask_pins(slice, i);
        }
    }
    m
}

impl Bus {
    /// Copies pins of `source_bus`, counted from `source.0`, onto the pins
    /// `dest.0 .. dest.1` of this bus. Every other pin, and the size, stay.
    ///
    /// A range that starts past pin 128 or ends past 129 is refused, the
    /// source's first, and nothing changes.
    pub fn load(&mut self, source_bus: &Bus, source: (u8, u8), dest: (u8, u8)) -> (r: Result<
        (),
        BusError,
    >)
        requires
            within_limits(source, dest) ==> maskable(dest) && alignable(source.0, dest.0),
        ensures
            source.0 > 128 || source.1 > 129 ==> r == Err::<(), BusError>(
                BusError::SourceBusMaxExceeded,
            ),
            source.0 <= 128 && source.1 <= 129 && (dest.0 > 128 || dest.1 > 129) ==> r == Err::<
                (),
                BusError,
            >(BusError::DestinationBusMaxExceeded),
            r is Ok <==> within_limits(source, dest),
            r is Err ==> *final(self) == *old(self),
            r is Ok ==> final(self).size == old(self).size,
            r is Ok ==> final(self).data == loaded_bits(
                old(self).data,
                source_bus.data,
                source.0,
                dest,
            ),
            r is Ok ==> forall|i: int|
                0 <= i < 128 ==> (#[trigger] pin_is_high(final(self).data, i) <==> if dest.0 <= i
                    < dest.1 {
                    pin_is_high(source_bus.data, i - dest.0 + source.0)
                } else {
                    pin_is_high(old(self).data, i)
                }),
    {
        if source.0 > 128 || source.1 > 129 {
            return Err(BusError::SourceBusMaxExceeded);
        }
        if dest.0 > 128 || dest.1 > 129 {
            return Err(BusError::DestinationBusMaxExceeded);
        }
        let mut tmp: u128 = source_bus.data;
        let shift: u8;
        if dest.0 > source.0 {
            shift = dest.0 - source.0;
            tmp = tmp << shift & mask(dest);
        } else {
            shift = source.0 - dest.0;
            tmp = tmp >> shift & mask(dest);
        }
        let ghost before: u128 = self.data;
        self.data = self.data ^ (self.data & mask(dest)) | tmp;
        proof {
            assert forall|i: int| 0 <= i < 128 implies (#[trigger] pin_is_high(self.data, i) <==> if dest.0
                <= i < dest.1 {
                pin_is_high(source_bus.data, i - dest.0 + source.0)
            } else {
                pin_is_high(before, i)
            }) by {
                lemma_loaded_pins(before, source_bus.data, source.0, dest, i);
            }
        }
        Ok(())
    }

    /// The one-pin bus that carries pin `pin` of this bus.
    pub fn pin(&self, pin: u8) -> (b: Bus)
        requires
            pin <= 127,
        ensures
            b.size == 1,
            b.data == (if pin_is_high(self.data, pin as int) {
                1u128
            } else {
                0u128
            }),
    {
        proof {
            lemma_single_bit(self.data, pin as u128);
        }
        Bus { data: self.data << (127 - pin) >> 127, size: 1 }
    }
}

} // verus!
