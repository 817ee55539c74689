use meca_hid::curve::{Curve, Point};
use meca_hid::handbrake::{curve_from_feature, decode_input, feature_from_curve, DATA_ID};
use meca_hid::transport::{frame_feature_report, unframe_feature_report};
use meca_hid::{DeviceKind, DeviceStatus, Error, NavItem, PedalInput, Shift, VENDOR_ID};

#[test]
fn decodes_zeroed_report() {
    let buf = [0u8; 6];
    let input = PedalInput::from_report(&buf).unwrap();

    assert_eq!(input, PedalInput::default());
}

#[test]
fn decodes_known_values() {
    // clutch = 0x1000 (4096), brake = 0x0000, throttle = 0x008C (140)
    let buf = [0x00, 0x10, 0x00, 0x00, 0x8C, 0x00];
    let input = PedalInput::from_report(&buf).unwrap();

    assert_eq!(input.clutch, 4096);
    assert_eq!(input.brake, 0);
    assert_eq!(input.throttle, 140);
}

#[test]
fn rejects_short_buffer() {
    assert!(PedalInput::from_report(&[0x00, 0x10]).is_none());
}

#[test]
fn decodes_idle_and_directions() {
    assert_eq!(Shift::from_byte(0x00), Shift { up: false, down: false });
    assert_eq!(Shift::from_byte(0x01), Shift { up: true, down: false });
    assert_eq!(Shift::from_byte(0x02), Shift { up: false, down: true });
    // 0x03 is not physically producible but it should still be handled properly.
    assert_eq!(Shift::from_byte(0x03), Shift { up: true, down: true });
}

#[test]
fn shift_ignores_other_bits() {
    assert_eq!(Shift::from_byte(0xFC), Shift { up: false, down: false });
    assert_eq!(Shift::from_byte(0xFF), Shift { up: true, down: true });
}

#[test]
fn input_reports_short_and_full() {
    match PedalInput::decode(&[0x00, 0x10, 0, 0, 0x8C, 0], 4) {
        Err(Error::ShortReport { expected: 6, got: 4 }) => {}
        other => panic!("unexpected {:?}", other),
    }
    let p = PedalInput::decode(&[0x00, 0x10, 0x01, 0x00, 0x8C, 0x00], 6).unwrap();
    assert_eq!(p, PedalInput { clutch: 4096, brake: 1, throttle: 140 });

    match decode_input(&[0x00, 0x10], 1) {
        Err(Error::ShortReport { expected: 2, got: 1 }) => {}
        other => panic!("unexpected {:?}", other),
    }
    assert_eq!(decode_input(&[0x00, 0x10], 2).unwrap(), 4096);

    match Shift::decode(&[0x01], 0) {
        Err(Error::ShortReport { expected: 1, got: 0 }) => {}
        other => panic!("unexpected {:?}", other),
    }
    assert_eq!(Shift::decode(&[0x02], 1).unwrap(), Shift { up: false, down: true });
}

#[test]
fn handbrake_feature_roundtrip() {
    let mut c = Curve::with_calibration(113, 803);
    c.set_bottom_dz(4);
    let bytes = feature_from_curve(&c);
    assert_eq!(bytes[0], 0x01);
    assert_eq!(bytes[1], 0xF1);
    assert_eq!(DATA_ID, 0xF101);
    let framed = frame_feature_report(&bytes);
    assert_eq!(framed[0], 0);
    assert_eq!(&framed[1..], &bytes[..]);
    let payload = unframe_feature_report(&framed, 65).unwrap();
    assert_eq!(payload, bytes);
    assert_eq!(curve_from_feature(&payload).unwrap(), c);
}

#[test]
fn short_feature_report_is_rejected() {
    let framed = [0u8; 65];
    match unframe_feature_report(&framed, 64) {
        Err(Error::ShortReport { expected: 65, got: 64 }) => {}
        other => panic!("unexpected {:?}", other),
    }
}

#[test]
fn feature_bytes_decode_to_curve() {
    let mut bytes = [0u8; 64];
    // dataId 0xF101, then point 0 = (0x0071, 0), point 1 = (0x008C, 0)
    bytes[0] = 0x01;
    bytes[1] = 0xF1;
    bytes[2] = 0x71;
    bytes[6] = 0x8C;
    let c = curve_from_feature(&bytes).unwrap();
    assert_eq!(c.points()[0], Point { x: 113, y: 0 });
    assert_eq!(c.points()[1], Point { x: 140, y: 0 });
}

#[test]
fn product_ids() {
    assert_eq!(VENDOR_ID, 0x04D8);
    assert_eq!(DeviceKind::Pedals.product_id(), 0xEA35);
    assert_eq!(DeviceKind::Handbrake.product_id(), 0xEA34);
    assert_eq!(DeviceKind::Shifter.product_id(), 0xEA33);
    for kind in [DeviceKind::Pedals, DeviceKind::Handbrake, DeviceKind::Shifter] {
        assert_eq!(DeviceKind::from_product_id(kind.product_id()), Some(kind));
    }
    assert_eq!(DeviceKind::from_product_id(0xEA36), None);
}

#[test]
fn device_status_from_ids() {
    let s = DeviceStatus::from_device_ids(&[(0x04D8, 0xEA35), (0x1234, 0xEA34), (0x04D8, 0xEA33)]);
    assert!(s.pedals);
    assert!(!s.handbrake);
    assert!(s.shifter);
    assert_eq!(s.connected_count(), 2);

    let none = DeviceStatus::from_device_ids(&[]);
    assert_eq!(none.connected_count(), 0);
    assert_eq!(DeviceStatus::default().connected_count(), 0);
    let all = DeviceStatus { pedals: true, handbrake: true, shifter: true };
    assert_eq!(all.connected_count(), 3);
}

#[test]
fn nav_items() {
    let status = DeviceStatus { pedals: false, handbrake: true, shifter: false };
    let input = PedalInput { clutch: 1, brake: 2, throttle: 3 };
    assert_eq!(NavItem::Throttle.label(), "Throttle");
    assert_eq!(NavItem::Shifter.label(), "Shifter");
    assert!(!NavItem::Brake.is_connected(&status));
    assert!(NavItem::Handbrake.is_connected(&status));
    assert_eq!(NavItem::Throttle.raw_value(&input), 3);
    assert_eq!(NavItem::Brake.raw_value(&input), 2);
    assert_eq!(NavItem::Clutch.raw_value(&input), 1);
    assert_eq!(NavItem::Shifter.raw_value(&input), 0);
}
