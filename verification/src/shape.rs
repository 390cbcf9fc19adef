//! The syntax tree without the places: what two chips have in common when
//! they differ only in layout.

use crate::ast::{ChipModel, ConnectionModel, LhsModel, PartModel, RhsModel, SliceModel};
use crate::error::Token;
use crate::laws::is_name;
use crate::located::Loc;
use vstd::prelude::*;

verus! {

/// A range of pins of a bus, without places.
pub struct SliceShape {
    pub name: Seq<char>,
    pub low: u32,
    pub high: u32,
}

/// The left side of a connection, without places.
pub enum LhsShape {
    Bus(Seq<char>),
    Slice(SliceShape),
}

/// The right side of a connection, without places.
pub enum RhsShape {
    Bus(Seq<char>),
    Slice(SliceShape),
    Potential(bool),
}

/// A connection, without places.
pub struct ConnectionShape {
    pub lhs: LhsShape,
    pub rhs: RhsShape,
}

/// A part, without places.
pub struct PartShape {
    pub name: Seq<char>,
    pub connections: Seq<ConnectionShape>,
}

/// A chip, without places.
pub struct ChipShape {
    pub name: Seq<char>,
    pub in_decl: Seq<Seq<char>>,
    pub out_decl: Seq<Seq<char>>,
    pub parts: Seq<PartShape>,
}

impl SliceModel {
    /// The slice without its places.
    pub open spec fn shape(self) -> SliceShape {
        SliceShape { name: self.name.value, low: self.low.value, high: self.high.value }
    }
}

impl LhsModel {
    /// The left side without its places.
    pub open spec fn shape(self) -> LhsShape {
        match self {
            LhsModel::Bus(name) => LhsShape::Bus(name),
            LhsModel::Slice(slice) => LhsShape::Slice(slice.shape()),
        }
    }
}

impl RhsModel {
    /// The right side without its places.
    pub open spec fn shape(self) -> RhsShape {
        match self {
            RhsModel::Bus(name) => RhsShape::Bus(name),
            RhsModel::Slice(slice) => RhsShape::Slice(slice.shape()),
            RhsModel::Potential(level) => RhsShape::Potential(level),
        }
    }
}

impl ConnectionModel {
    /// The connection without its places.
    pub open spec fn shape(self) -> ConnectionShape {
        ConnectionShape { lhs: self.lhs.value.shape(), rhs: self.rhs.value.shape() }
    }
}

/// The names of `pins`, in the same order.
pub open spec fn names(pins: Seq<Loc<Seq<char>>>) -> Seq<Seq<char>> {
    Seq::new(pins.len(), |i: int| pins[i].value)
}

/// The connections of `wires` without their places, in the same order.
pub open spec fn wire_shapes(wires: Seq<ConnectionModel>) -> Seq<ConnectionShape> {
    Seq::new(wires.len(), |i: int| wires[i].shape())
}

impl PartModel {
    /// The part without its places.
    pub open spec fn shape(self) -> PartShape {
        PartShape { name: self.name.value, connections: wire_shapes(self.connections) }
    }
}

/// The parts of `parts` without their places, in the same order.
pub open spec fn part_shapes(parts: Seq<PartModel>) -> Seq<PartShape> {
    Seq::new(parts.len(), |i: int| parts[i].shape())
}

impl ChipModel {
    /// The chip without its places.
    pub open spec fn shape(self) -> ChipShape {
        ChipShape {
            name: self.name.value,
            in_decl: names(self.in_decl),
            out_decl: names(self.out_decl),
            parts: part_shapes(self.parts),
        }
    }
}

/// Whether `name` begins with the text of a constant.
pub open spec fn begins_with_constant(name: Seq<char>) -> bool {
    Token::True.text().is_prefix_of(name) || Token::False.text().is_prefix_of(name)
}

impl SliceShape {
    /// The bus has a name that the language takes.
    pub open spec fn readable(self) -> bool {
        is_name(self.name)
    }
}

impl LhsShape {
    /// The bus has a name that the language takes.
    pub open spec fn readable(self) -> bool {
        match self {
            LhsShape::Bus(name) => is_name(name),
            LhsShape::Slice(slice) => slice.readable(),
        }
    }
}

impl RhsShape {
    /// The bus has a name that the language takes and that could not be
    /// taken for a constant.
    pub open spec fn readable(self) -> bool {
        match self {
            RhsShape::Bus(name) => is_name(name) && !begins_with_constant(name),
            RhsShape::Slice(slice) => slice.readable() && !begins_with_constant(slice.name),
            RhsShape::Potential(_) => true,
        }
    }
}

impl ConnectionShape {
    /// Both sides are readable.
    pub open spec fn readable(self) -> bool {
        self.lhs.readable() && self.rhs.readable()
    }
}

/// All the names are names that the language takes.
pub open spec fn all_names(pins: Seq<Seq<char>>) -> bool {
    forall|i: int| 0 <= i < pins.len() ==> is_name(#[trigger] pins[i])
}

/// All the connections are readable.
pub open spec fn all_wires_readable(wires: Seq<ConnectionShape>) -> bool {
    forall|i: int| 0 <= i < wires.len() ==> (#[trigger] wires[i]).readable()
}

impl PartShape {
    /// The name of the part and all its connections are readable.
    pub open spec fn readable(self) -> bool {
        is_name(self.name) && all_wires_readable(self.connections)
    }
}

/// All the parts are readable.
pub open spec fn all_parts_readable(parts: Seq<PartShape>) -> bool {
    forall|i: int| 0 <= i < parts.len() ==> (#[trigger] parts[i]).readable()
}

impl ChipShape {
    /// The shape is one that a source text can have: every name in it is a
    /// name that the language takes, and no signal on the right of `=` could
    /// be taken for a constant.
    pub open spec fn readable(self) -> bool {
        &&& is_name(self.name)
        &&& all_names(self.in_decl)
        &&& all_names(self.out_decl)
        &&& all_parts_readable(self.parts)
    }
}

} // verus!
