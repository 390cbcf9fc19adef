//! The one part that is not made of other parts.

use crate::bus::{pin_is_high, Bus};
use crate::part::{bus_on, find, wires, Connection, Part};
use vstd::prelude::*;
use vstd::string::*;

verus! {

/// The part with the input pins `a` and `b` and one output pin, which is
/// high unless both inputs are.
#[derive(Copy, Clone, Debug)]
pub struct Nand {
    a: Bus,
    b: Bus,
    out: Bus,
}

/// The bit pattern on the output pin for the bit patterns `a` and `b` on the
/// input pins: a bit is high unless it is high in both.
pub open spec fn nand_bits(a: u128, b: u128) -> u128 {
    !(a & b)
}

/// Pin by pin, the output is high unless both inputs are.
pub proof fn lemma_nand_pins(a: u128, b: u128, i: int)
    requires
        0 <= i < 128,
    ensures
        pin_is_high(nand_bits(a, b), i) <==> !(pin_is_high(a, i) && pin_is_high(b, i)),
{
    lemma_nand_bit(a, b, i as u128);
}

proof fn lemma_nand_bit(a: u128, b: u128, i: u128)
    by (bit_vector)
    requires
        i < 128,
    ensures
        (((!(a & b)) >> i) & 1 == 1) <==> !(((a >> i) & 1 == 1) && ((b >> i) & 1 == 1)),
{
}

/// The one-pin bus that carries pin 0 of `bus`.
pub open spec fn first_pin(bus: Bus) -> Bus {
    Bus {
        data: if pin_is_high(bus.data, 0) {
            1
        } else {
            0
        },
        size: 1,
    }
}

impl Nand {
    /// The bus on input pin `a`.
    pub closed spec fn input_a(&self) -> Bus {
        self.a
    }

    /// The bus on input pin `b`.
    pub closed spec fn input_b(&self) -> Bus {
        self.b
    }

    /// The bus on the output pin.
    pub closed spec fn output(&self) -> Bus {
        self.out
    }

    /// A part with all its pins low.
    pub fn new() -> (part: Nand)
        ensures
            part.input_a() == (Bus { data: 0, size: 1 }),
            part.input_b() == (Bus { data: 0, size: 1 }),
            part.output() == (Bus { data: 0, size: 1 }),
    {
        Nand {
            a: Bus { data: 0, size: 1 },
            b: Bus { data: 0, size: 1 },
            out: Bus { data: 0, size: 1 },
        }
    }
}

impl<'s> Part<'s> for Nand {
    open spec fn kind(&self) -> Seq<char> {
        "Nand"@
    }

    open spec fn wired(&self, inputs: Seq<(Seq<char>, Bus)>) -> bool {
        bus_on(inputs, "a"@) is Some && bus_on(inputs, "b"@) is Some
    }

    open spec fn outputs(&self) -> Seq<Bus> {
        seq![self.output()]
    }

    fn name(&self) -> (name: String) {
        String::from_str("Nand")
    }

    /// Takes pin 0 of the bus under `a` and pin 0 of the bus under `b`.
    fn load(&mut self, inputs: Vec<(&'s str, Connection<'s>)>)
        ensures
            bus_on(wires(inputs@), "a"@) matches Some(bus) && final(self).input_a() == first_pin(
                bus,
            ),
            bus_on(wires(inputs@), "b"@) matches Some(bus) && final(self).input_b() == first_pin(
                bus,
            ),
            final(self).output() == old(self).output(),
    {
        match find(&inputs, "a") {
            Some(wire) => {
                self.a = wire.bus.pin(0);
            },
            None => {
                assert(false);
            },
        }
        match find(&inputs, "b") {
            Some(wire) => {
                self.b = wire.bus.pin(0);
            },
            None => {
                assert(false);
            },
        }
    }

    /// Sets the output to a single pin with the bit pattern of `nand_bits`.
    fn simulate(&mut self) -> (outs: Vec<Bus>)
        ensures
            final(self).input_a() == old(self).input_a(),
            final(self).input_b() == old(self).input_b(),
            final(self).output() == (Bus {
                data: nand_bits(old(self).input_a().data, old(self).input_b().data),
                size: 1,
            }),
    {
        self.out = Bus { data: !(self.a.data & self.b.data), size: 1 };
        let outs = vec![self.out];
        assert(outs@ =~= self.outputs());
        outs
    }

    fn outs(&self) -> (outs: Vec<Bus>) {
        let outs = vec![self.out];
        assert(outs@ =~= self.outputs());
        outs
    }
}

} // verus!
