//! Device resources: basic elements, wires, programmable interconnect
//! points and groups of them.

use vstd::prelude::*;

verus! {

/// The key of a basic element of a device.
#[derive(Clone, Copy, Debug, PartialEq, Eq, Structural, Hash)]
pub struct BelId(pub u64);

/// The key of a wire of a device.
#[derive(Clone, Copy, Debug, PartialEq, Eq, Structural, Hash)]
pub struct WireId(pub u64);

/// The key of a programmable interconnect point of a device.
#[derive(Clone, Copy, Debug, PartialEq, Eq, Structural, Hash)]
pub struct PipId(pub u64);

/// The key of a group of device resources.
#[derive(Clone, Copy, Debug, PartialEq, Eq, Structural, Hash)]
pub struct GroupId(pub u64);

/// The key of a bucket of basic elements.
#[derive(Clone, Copy, Debug, PartialEq, Eq, Structural, Hash)]
pub struct BelBucketId(pub u64);

/// A basic element.
#[derive(Clone, Debug)]
pub struct Bel {
    name: String,
}

/// A physical connection between [`Pip`]s and/or [`Bel`] pins.
#[derive(Clone, Debug)]
pub struct Wire {
    name: String,
}

/// A programmable interconnect point.
#[derive(Clone, Debug)]
pub struct Pip {
    name: String,
}

/// An item within a [`Group`].
#[derive(Clone, Copy, Debug, PartialEq, Eq, Structural)]
pub enum GroupItem {
    Bel(BelId),
    Pip(PipId),
    Wire(WireId),
    Group(GroupId),
}

/// A collection of [`Bel`]s, [`Pip`]s, [`Wire`]s and/or other [`Group`]s.
#[derive(Clone, Debug)]
pub struct Group {
    name: String,
    items: Vec<GroupItem>,
}

/// A collection of [`Bel`]s and cell types.
#[derive(Clone, Debug)]
pub struct BelBucket;

/// The name of a device.
#[derive(Clone, Debug)]
pub struct Name(String);

impl Name {
    /// The text of the name.
    pub closed spec fn spec_text(&self) -> Seq<char> {
        self.0@
    }

    pub fn new(name: &str) -> (r: Self)
        ensures
            r.spec_text() == name@,
    {
        Name(name.to_owned())
    }
}

/// A device, by its name.
pub struct Device {
    pub name: Name,
}

} // verus!
