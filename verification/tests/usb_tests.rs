use miassistant_core::usb::select_endpoints;
use miassistant_core::usb::EndpointDesc;
use miassistant_core::usb::Endpoints;
use miassistant_core::usb::ADB_CLASS;
use miassistant_core::usb::ADB_SUBCLASS;

fn ep(address: u8, is_bulk: bool, is_in: bool) -> EndpointDesc {
    EndpointDesc { address, is_bulk, is_in }
}

#[test]
fn picks_first_bulk_pair() {
    let eps = vec![
        ep(0x82, false, true),  // interrupt-in: skipped
        ep(0x81, true, true),   // first bulk-in
        ep(0x83, true, true),   // later bulk-in: ignored
        ep(0x01, true, false),  // first bulk-out
        ep(0x02, true, false),  // later bulk-out: ignored
    ];
    let got = select_endpoints(ADB_CLASS, ADB_SUBCLASS, 4, &eps).unwrap();
    assert_eq!(
        got,
        Endpoints { bulk_in: 0x81, bulk_out: 0x01, interface_number: 4 }
    );
}

#[test]
fn wrong_class_or_missing_endpoint_is_rejected() {
    let eps = vec![ep(0x81, true, true), ep(0x01, true, false)];
    assert!(select_endpoints(0x08, ADB_SUBCLASS, 0, &eps).is_none());
    assert!(select_endpoints(ADB_CLASS, 0x06, 0, &eps).is_none());
    // A bulk-in alone is not enough.
    let only_in = vec![ep(0x81, true, true)];
    assert!(select_endpoints(ADB_CLASS, ADB_SUBCLASS, 0, &only_in).is_none());
    let only_out = vec![ep(0x01, true, false)];
    assert!(select_endpoints(ADB_CLASS, ADB_SUBCLASS, 0, &only_out).is_none());
}
