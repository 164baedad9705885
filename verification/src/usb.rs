//! The shape of the USB side of the protocol: the ADB interface class pair,
//! the endpoint addresses a transport uses, and the rule that picks them
//! out of an interface descriptor. Enumerating, opening and claiming the
//! device is the embedding program's job; it hands the descriptor data here
//! as plain values.

use vstd::prelude::*;

verus! {

/// Interface class identifying the ADB function.
pub const ADB_CLASS: u8 = 0xff;

/// Interface subclass identifying the ADB function.
pub const ADB_SUBCLASS: u8 = 0x42;

/// The endpoint pair a transport talks through, and the interface that owns
/// it.
#[derive(Debug, Clone, Copy, PartialEq, Eq, Structural)]
pub struct Endpoints {
    pub bulk_in: u8,
    pub bulk_out: u8,
    pub interface_number: u8,
}

/// One enumerated USB device, as shown to the user.
#[derive(Debug, Clone, Copy, PartialEq, Eq, Structural)]
pub struct DeviceSummary {
    pub bus: u8,
    pub address: u8,
    pub vendor_id: u16,
    pub product_id: u16,
    pub has_adb: bool,
}

/// One endpoint of an interface descriptor, reduced to what the selection
/// rule reads: its address, whether it is a bulk endpoint, and its
/// direction.
#[derive(Debug, Clone, Copy, PartialEq, Eq, Structural)]
pub struct EndpointDesc {
    pub address: u8,
    pub is_bulk: bool,
    pub is_in: bool,
}

/// Whether some endpoint in the prefix `s.take(i)` is a bulk endpoint with
/// the wanted direction.
pub open spec fn has_bulk_dir(s: Seq<EndpointDesc>, dir_in: bool, i: int) -> bool {
    exists|j: int| 0 <= j < i && s[j].is_bulk && #[trigger] s[j].is_in == dir_in
}

/// The index of the first bulk endpoint with the wanted direction.
pub open spec fn first_bulk_dir(s: Seq<EndpointDesc>, dir_in: bool) -> int {
    choose|j: int|
        0 <= j < s.len() && s[j].is_bulk && s[j].is_in == dir_in && !has_bulk_dir(s, dir_in, j)
}

/// Pick the transport endpoints out of one interface descriptor: the
/// interface must carry the ADB class and subclass, and both a bulk-in and
/// a bulk-out endpoint must exist; the first of each is taken.
pub fn select_endpoints(
    class_code: u8,
    subclass_code: u8,
    interface_number: u8,
    eps: &Vec<EndpointDesc>,
) -> (r: Option<Endpoints>)
    ensures
        r is Some <==> class_code == ADB_CLASS && subclass_code == ADB_SUBCLASS && has_bulk_dir(
            eps@,
            true,
            eps@.len() as int,
        ) && has_bulk_dir(eps@, false, eps@.len() as int),
        r matches Some(e) ==> {
            &&& e.interface_number == interface_number
            &&& e.bulk_in == eps@[first_bulk_dir(eps@, true)].address
            &&& e.bulk_out == eps@[first_bulk_dir(eps@, false)].address
        },
{
    if class_code != ADB_CLASS || subclass_code != ADB_SUBCLASS {
        return None;
    }
    let mut bulk_in: Option<u8> = None;
    let mut bulk_out: Option<u8> = None;
    let mut i: usize = 0;
    while i < eps.len()
        invariant
            i <= eps@.len(),
            bulk_in is Some <==> has_bulk_dir(eps@, true, i as int),
            bulk_out is Some <==> has_bulk_dir(eps@, false, i as int),
            bulk_in matches Some(a) ==> {
                let j = first_bulk_dir(eps@, true);
                0 <= j < i && eps@[j].is_bulk && eps@[j].is_in && a == eps@[j].address
            },
            bulk_out matches Some(a) ==> {
                let j = first_bulk_dir(eps@, false);
                0 <= j < i && eps@[j].is_bulk && !eps@[j].is_in && a == eps@[j].address
            },
        decreases eps@.len() - i,
    {
        let e = eps[i];
        if e.is_bulk && e.is_in && bulk_in.is_none() {
            proof {
                assert(!has_bulk_dir(eps@, true, i as int));
                assert(has_bulk_dir(eps@, true, i + 1));
                assert(first_bulk_dir(eps@, true) == i as int) by {
                    let j = first_bulk_dir(eps@, true);
                    assert(0 <= i < eps@.len() && eps@[i as int].is_bulk && eps@[i as int].is_in
                        == true && !has_bulk_dir(eps@, true, i as int));
                }
            }
            bulk_in = Some(e.address);
        }
        if e.is_bulk && !e.is_in && bulk_out.is_none() {
            proof {
                assert(!has_bulk_dir(eps@, false, i as int));
                assert(has_bulk_dir(eps@, false, i + 1));
                assert(first_bulk_dir(eps@, false) == i as int) by {
                    let j = first_bulk_dir(eps@, false);
                    assert(0 <= i < eps@.len() && eps@[i as int].is_bulk && eps@[i as int].is_in
                        == false && !has_bulk_dir(eps@, false, i as int));
                }
            }
            bulk_out = Some(e.address);
        }
        proof {
            assert(has_bulk_dir(eps@, true, i as int) ==> has_bulk_dir(eps@, true, i + 1));
            assert(has_bulk_dir(eps@, false, i as int) ==> has_bulk_dir(eps@, false, i + 1));
        }
        i = i + 1;
    }
    match (bulk_in, bulk_out) {
        (Some(bin), Some(bout)) => Some(
            Endpoints { bulk_in: bin, bulk_out: bout, interface_number },
        ),
        _ => None,
    }
}

} // verus!
