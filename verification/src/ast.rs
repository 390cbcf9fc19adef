//! The syntax tree of a chip definition. Every name in it is a slice of the
//! source text; nothing is copied.

use crate::located::{Loc, Located};
use vstd::prelude::*;

verus! {

/// The views of the items of `items`, in the same order.
pub open spec fn views<T: View>(items: Seq<T>) -> Seq<T::V> {
    Seq::new(items.len(), |i: int| items[i]@)
}

/// The views of a sequence that grew by one item are the old views and the
/// view of that item.
pub proof fn lemma_views_push<T: View>(items: Seq<T>, item: T)
    ensures
        views(items.push(item)) == views(items).push(item@),
{
    assert(views(items.push(item)) =~= views(items).push(item@));
}

/// The name of a pin or of a bus.
#[derive(Copy, Clone, Debug, PartialEq, Eq)]
pub struct PinName<'s>(pub &'s str);

/// The name of a chip.
#[derive(Copy, Clone, Debug, PartialEq, Eq)]
pub struct ChipName<'s>(pub &'s str);

impl<'s> View for PinName<'s> {
    type V = Seq<char>;

    open spec fn view(&self) -> Seq<char> {
        self.0@
    }
}

impl<'s> View for ChipName<'s> {
    type V = Seq<char>;

    open spec fn view(&self) -> Seq<char> {
        self.0@
    }
}

pub type LChipName<'s> = Located<ChipName<'s>>;

pub type LPinName<'s> = Located<PinName<'s>>;

pub type LRhsConnector<'s> = Located<RhsConnector<'s>>;

pub type LLhsConnector<'s> = Located<LhsConnector<'s>>;

pub type LUnsigned = Located<u32>;

/// A range of the pins of a bus, from `slice.0` up to `slice.1`. A single pin
/// is the range from that pin to itself.
#[derive(Copy, Clone, Debug, PartialEq)]
pub struct BusSlice<'s> {
    pub name: LPinName<'s>,
    pub slice: (LUnsigned, LUnsigned),
}

/// What a `BusSlice` stands for.
pub struct SliceModel {
    pub name: Loc<Seq<char>>,
    pub low: Loc<u32>,
    pub high: Loc<u32>,
}

impl<'s> View for BusSlice<'s> {
    type V = SliceModel;

    open spec fn view(&self) -> SliceModel {
        SliceModel { name: self.name@, low: self.slice.0@, high: self.slice.1@ }
    }
}

/// What drives a pin of a part: a signal of the chip, some pins of one, or a
/// constant.
#[derive(Copy, Clone, Debug, PartialEq)]
pub enum RhsConnector<'s> {
    Bus(&'s str),
    Slice(BusSlice<'s>),
    Potential(bool),
}

/// What a `RhsConnector` stands for.
pub enum RhsModel {
    Bus(Seq<char>),
    Slice(SliceModel),
    Potential(bool),
}

impl<'s> View for RhsConnector<'s> {
    type V = RhsModel;

    open spec fn view(&self) -> RhsModel {
        match self {
            RhsConnector::Bus(name) => RhsModel::Bus(name@),
            RhsConnector::Slice(slice) => RhsModel::Slice(slice@),
            RhsConnector::Potential(level) => RhsModel::Potential(*level),
        }
    }
}

/// The pin of a part that is driven: a whole pin or bus, or some pins of a bus.
#[derive(Copy, Clone, Debug, PartialEq)]
pub enum LhsConnector<'s> {
    Bus(&'s str),
    Slice(BusSlice<'s>),
}

/// What a `LhsConnector` stands for.
pub enum LhsModel {
    Bus(Seq<char>),
    Slice(SliceModel),
}

impl<'s> View for LhsConnector<'s> {
    type V = LhsModel;

    open spec fn view(&self) -> LhsModel {
        match self {
            LhsConnector::Bus(name) => LhsModel::Bus(name@),
            LhsConnector::Slice(slice) => LhsModel::Slice(slice@),
        }
    }
}

/// One wire of a part: the part's pin on the left, what drives it on the right.
#[derive(Copy, Clone, Debug, PartialEq)]
pub struct Connection<'s> {
    pub lhs: LLhsConnector<'s>,
    pub rhs: LRhsConnector<'s>,
}

/// What a `Connection` stands for.
pub struct ConnectionModel {
    pub lhs: Loc<LhsModel>,
    pub rhs: Loc<RhsModel>,
}

impl<'s> View for Connection<'s> {
    type V = ConnectionModel;

    open spec fn view(&self) -> ConnectionModel {
        ConnectionModel { lhs: self.lhs@, rhs: self.rhs@ }
    }
}

/// The wires of a part, in the order in which they were written.
#[derive(Debug, PartialEq)]
pub struct ConnectionList<'s>(pub Vec<Connection<'s>>);

impl<'s> View for ConnectionList<'s> {
    type V = Seq<ConnectionModel>;

    open spec fn view(&self) -> Seq<ConnectionModel> {
        views(self.0@)
    }
}

/// A chip that is used inside another, with its wires.
#[derive(Debug, PartialEq)]
pub struct Part<'s> {
    pub name: LChipName<'s>,
    pub connections: ConnectionList<'s>,
}

/// What a `Part` stands for.
pub struct PartModel {
    pub name: Loc<Seq<char>>,
    pub connections: Seq<ConnectionModel>,
}

impl<'s> View for Part<'s> {
    type V = PartModel;

    open spec fn view(&self) -> PartModel {
        PartModel { name: self.name@, connections: self.connections@ }
    }
}

/// A chip definition: its name, its input and output pins and its parts, each
/// list in the order of the source.
#[derive(Debug, PartialEq)]
pub struct Chip<'s> {
    pub name: LChipName<'s>,
    pub in_decl: Vec<LPinName<'s>>,
    pub out_decl: Vec<LPinName<'s>>,
    pub parts: Vec<Part<'s>>,
}

/// What a `Chip` stands for.
pub struct ChipModel {
    pub name: Loc<Seq<char>>,
    pub in_decl: Seq<Loc<Seq<char>>>,
    pub out_decl: Seq<Loc<Seq<char>>>,
    pub parts: Seq<PartModel>,
}

impl<'s> View for Chip<'s> {
    type V = ChipModel;

    open spec fn view(&self) -> ChipModel {
        ChipModel {
            name: self.name@,
            in_decl: views(self.in_decl@),
            out_decl: views(self.out_decl@),
            parts: views(self.parts@),
        }
    }
}

} // verus!
