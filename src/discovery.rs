use vstd::prelude::*;

use crate::error::Error;

verus! {

/// What enumeration reports of one connected HID interface.
#[derive(Debug, Clone, Copy, PartialEq, Eq, Structural)]
pub struct DeviceInfo {
    pub vendor_id: u16,
    pub product_id: u16,
    pub interface_number: i32,
}

/// A family of compatible controllers: one vendor, a range of products, and
/// the HID interface that carries the command protocol.
#[derive(Debug, Clone, Copy, PartialEq, Eq, Structural)]
pub struct DeviceSignature {
    pub vendor_id: u16,
    pub product_min: u16,
    pub product_max: u16,
    pub interface_number: i32,
}

pub open spec fn matches(s: DeviceSignature, d: DeviceInfo) -> bool {
    d.vendor_id == s.vendor_id && s.product_min <= d.product_id <= s.product_max
        && d.interface_number == s.interface_number
}

/// Whether some signature of `table` matches `d`.
pub open spec fn known(table: Seq<DeviceSignature>, d: DeviceInfo) -> bool {
    exists|k: int| 0 <= k < table.len() && matches(#[trigger] table[k], d)
}

impl DeviceSignature {
    /// Whether `d` belongs to this family.
    pub fn matches(&self, d: &DeviceInfo) -> (r: bool)
        ensures
            r == matches(*self, *d),
    {
        d.vendor_id == self.vendor_id && self.product_min <= d.product_id && d.product_id
            <= self.product_max && d.interface_number == self.interface_number
    }
}

/// The vendor id of the supported keyboards.
pub const LAUNCH_VENDOR_ID: u16 = 0x3384;

/// The controllers this crate supports: vendor `0x3384`, products `0x0001`
/// to `0x000A`, interface 1.
pub fn known_devices() -> (r: Vec<DeviceSignature>)
    ensures
        r@ == seq![
            DeviceSignature {
                vendor_id: LAUNCH_VENDOR_ID,
                product_min: 0x0001,
                product_max: 0x000A,
                interface_number: 1,
            },
        ],
{
    vec![
        DeviceSignature {
            vendor_id: LAUNCH_VENDOR_ID,
            product_min: 0x0001,
            product_max: 0x000A,
            interface_number: 1,
        },
    ]
}

/// Whether some signature of `table` matches `d`.
pub fn is_known(table: &Vec<DeviceSignature>, d: &DeviceInfo) -> (r: bool)
    ensures
        r == known(table@, *d),
{
    let mut k: usize = 0;
    while k < table.len()
        invariant
            k <= table@.len(),
            forall|m: int| 0 <= m < k ==> !matches(#[trigger] table@[m], *d),
        decreases table@.len() - k,
    {
        if table[k].matches(d) {
            return true;
        }
        k += 1;
    }
    false
}

/// The position of the first enumerated device that a signature of `table`
/// matches; `DeviceNotFound` when none does. Nothing is opened or sent.
pub fn find_device(devices: &Vec<DeviceInfo>, table: &Vec<DeviceSignature>) -> (r: Result<
    usize,
    Error,
>)
    ensures
        match r {
            Ok(i) => i < devices@.len() && known(table@, devices@[i as int]) && forall|k: int|
                0 <= k < i ==> !known(table@, #[trigger] devices@[k]),
            Err(e) => e == Error::DeviceNotFound && forall|k: int|
                0 <= k < devices@.len() ==> !known(table@, #[trigger] devices@[k]),
        },
{
    let mut i: usize = 0;
    while i < devices.len()
        invariant
            i <= devices@.len(),
            forall|k: int| 0 <= k < i ==> !known(table@, #[trigger] devices@[k]),
        decreases devices@.len() - i,
    {
        if is_known(table, &devices[i]) {
            return Ok(i);
        }
        i += 1;
    }
    Err(Error::DeviceNotFound)
}

} // verus!
