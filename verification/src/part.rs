//! What a simulator asks of the parts of a chip.

use crate::bus::Bus;
use crate::input::same_text;
use vstd::prelude::*;

verus! {

/// A wire into a part: the bus that it carries, the chip it belongs to, and
/// where its pins come from and go to.
#[derive(Copy, Clone, Debug)]
pub struct Connection<'s> {
    pub bus: Bus,
    pub chip_name: &'s str,
    pub source: &'s str,
    pub source_slice: (u8, u8),
    pub source_span: (u8, u8),
    pub dest: &'s str,
    pub dest_slice: (u8, u8),
    pub dest_span: (u8, u8),
}

/// The bus on the first wire of `inputs` that is filed under `pin`, if any.
pub open spec fn bus_on(inputs: Seq<(Seq<char>, Bus)>, pin: Seq<char>) -> Option<Bus>
    decreases inputs.len(),
{
    if inputs.len() == 0 {
        None
    } else if inputs[0].0 == pin {
        Some(inputs[0].1)
    } else {
        bus_on(inputs.drop_first(), pin)
    }
}

/// The wires of `inputs` as pairs of the pin they are filed under and the
/// bus they carry.
pub open spec fn wires<'s>(inputs: Seq<(&'s str, Connection<'s>)>) -> Seq<(Seq<char>, Bus)> {
    Seq::new(inputs.len(), |i: int| (inputs[i].0@, inputs[i].1.bus))
}

/// The first wire of `inputs` that is filed under `pin`, if any.
pub fn find<'a, 's>(inputs: &'a Vec<(&'s str, Connection<'s>)>, pin: &str) -> (found: Option<
    &'a Connection<'s>,
>)
    ensures
        match found {
            Some(wire) => bus_on(wires(inputs@), pin@) == Some(wire.bus),
            None => bus_on(wires(inputs@), pin@) is None,
        },
{
    let ghost all = wires(inputs@);
    let mut i: usize = 0;
    proof {
        assert(all.skip(0) =~= all);
    }
    while i < inputs.len()
        invariant
            i <= inputs.len(),
            all == wires(inputs@),
            bus_on(all, pin@) == bus_on(all.skip(i as int), pin@),
        decreases inputs.len() - i,
    {
        proof {
            assert(all.skip(i as int)[0] == all[i as int]);
            assert(all.skip(i as int).drop_first() =~= all.skip(i as int + 1));
        }
        if same_text(inputs[i].0, pin) {
            return Some(&inputs[i].1);
        }
        i = i + 1;
    }
    None
}

/// A part of a chip, as a simulator drives it: it is loaded with the buses
/// on its input pins, simulated, and asked for the buses on its output pins.
pub trait Part<'s> {
    /// The name of the kind of part.
    spec fn kind(&self) -> Seq<char>;

    /// Whether `inputs` holds a wire for every input pin of the part.
    spec fn wired(&self, inputs: Seq<(Seq<char>, Bus)>) -> bool;

    /// The buses on the output pins, in the order of the pins.
    spec fn outputs(&self) -> Seq<Bus>;

    /// The name of the kind of part.
    fn name(&self) -> (name: String)
        ensures
            name@ == self.kind(),
    ;

    /// Takes the buses for the input pins from `inputs`, where each wire is
    /// filed under the pin that it drives. Of two wires under one pin the
    /// first counts. The output pins stay as they are.
    fn load(&mut self, inputs: Vec<(&'s str, Connection<'s>)>)
        requires
            old(self).wired(wires(inputs@)),
        ensures
            final(self).kind() == old(self).kind(),
            final(self).outputs() == old(self).outputs(),
    ;

    /// Sets the output pins from the input pins and hands them back.
    fn simulate(&mut self) -> (outs: Vec<Bus>)
        ensures
            final(self).kind() == old(self).kind(),
            outs@ == final(self).outputs(),
    ;

    /// The buses on the output pins, in the order of the pins.
    fn outs(&self) -> (outs: Vec<Bus>)
        ensures
            outs@ == self.outputs(),
    ;
}

} // verus!
