//! Device-tree identities: the `compatible` string by which a driver
//! claims devices, the fixed-size record that the bus matches against, and
//! the properties of a device node.

use vstd::prelude::*;

verus! {

/// Size of the `name` and `type` fields of a raw device id.
pub const OF_NAME_SIZE: usize = 32;

/// Size of the `compatible` field of a raw device id.
pub const OF_COMPATIBLE_SIZE: usize = 128;

/// An open firmware device id.
pub struct DeviceId {
    /// The `compatible` string, without terminator.
    pub compatible: Vec<u8>,
}

/// The record that the bus matches devices against.
pub struct RawDeviceId {
    pub name: Vec<u8>,
    pub type_: Vec<u8>,
    /// The `compatible` string, zero-terminated and zero-padded.
    pub compatible: Vec<u8>,
    /// Where the driver's data for this id is found.
    pub data: isize,
}

/// `n` zero bytes.
pub fn zeros(n: usize) -> (r: Vec<u8>)
    ensures
        r@ == Seq::new(n as nat, |i: int| 0u8),
{
    let mut v: Vec<u8> = Vec::new();
    let mut i: usize = 0;
    while i < n
        invariant
            i <= n,
            v@ == Seq::new(i as nat, |k: int| 0u8),
        decreases n - i,
    {
        v.push(0);
        i = i + 1;
        proof {
            assert(v@ =~= Seq::new(i as nat, |k: int| 0u8));
        }
    }
    v
}

impl DeviceId {
    /// The `compatible` field of the raw id: the string, then zeros.
    pub open spec fn raw_compatible(&self) -> Seq<u8> {
        Seq::new(
            OF_COMPATIBLE_SIZE as nat,
            |i: int|
                if i < self.compatible@.len() {
                    self.compatible@[i]
                } else {
                    0u8
                },
        )
    }

    /// Builds the raw id: the `compatible` string, zero-terminated, in a
    /// field of fixed size, all other fields zero, and `offset` as the
    /// place of the driver's data. The string must leave room for its terminator.
    pub fn to_rawid(&self, offset: isize) -> (r: RawDeviceId)
        requires
            self.compatible@.len() < OF_COMPATIBLE_SIZE,
        ensures
            r.name@ == Seq::new(OF_NAME_SIZE as nat, |i: int| 0u8),
            r.type_@ == Seq::new(OF_NAME_SIZE as nat, |i: int| 0u8),
            r.compatible@ == self.raw_compatible(),
            r.data == offset,
    {
        let mut compatible: Vec<u8> = zeros(OF_COMPATIBLE_SIZE);
        let mut i: usize = 0;
        while i < self.compatible.len()
            invariant
                i <= self.compatible@.len(),
                self.compatible@.len() < OF_COMPATIBLE_SIZE,
                compatible@.len() == OF_COMPATIBLE_SIZE,
                forall|k: int| 0 <= k < i ==> compatible@[k] == self.compatible@[k],
                forall|k: int| i <= k < OF_COMPATIBLE_SIZE ==> compatible@[k] == 0,
            decreases self.compatible@.len() - i,
        {
            compatible[i] = self.compatible[i];
            i = i + 1;
        }
        compatible[i] = 0;
        proof {
            assert(compatible@ =~= self.raw_compatible());
        }
        RawDeviceId { name: zeros(OF_NAME_SIZE), type_: zeros(OF_NAME_SIZE), compatible, data: offset }
    }
}

/// A property of a device node.
pub struct Property {
    pub name: Vec<u8>,
    pub value: Vec<u8>,
}

/// The one error of a lookup in the device tree: there is no such device
/// or property.
#[derive(Clone, Copy, Debug, PartialEq, Eq, Structural)]
pub struct NoDevice;

/// A node of the device tree.
pub struct DeviceNode {
    pub properties: Vec<Property>,
}

impl DeviceNode {
    /// Index of the first property from `from` on with this name; the
    /// number of properties if there is none.
    pub open spec fn property_pos(&self, name: Seq<u8>, from: int) -> int
        decreases self.properties@.len() - from,
    {
        if from < 0 || from >= self.properties@.len() {
            self.properties@.len() as int
        } else if self.properties@[from].name@ == name {
            from
        } else {
            self.property_pos(name, from + 1)
        }
    }

    /// Returns the first property of the node with this name.
    pub fn find_property(&self, name: &Vec<u8>) -> (r: Result<&Property, NoDevice>)
        ensures
            r.is_ok() == (self.property_pos(name@, 0) < self.properties@.len()),
            r.is_ok() ==> *r.unwrap() == self.properties@[self.property_pos(name@, 0)],
    {
        let mut i: usize = 0;
        while i < self.properties.len()
            invariant
                i <= self.properties@.len(),
                self.property_pos(name@, 0) == self.property_pos(name@, i as int),
            decreases self.properties@.len() - i,
        {
            if crate::lifecycle::bytes_eq(&self.properties[i].name, name) {
                return Ok(&self.properties[i]);
            }
            i = i + 1;
        }
        Err(NoDevice)
    }
}

} // verus!
