use libsparkypi::{ProtocolProperties, Transmission, protocol_one, protocol_two, xen};

#[test]
fn protocol_builder_matches_preset() {
    let built = ProtocolProperties::builder()
        .short(1)
        .long(3)
        .sync_bit(1)
        .sync_gap(31)
        .build();
    assert_eq!(built, protocol_one());
}

#[test]
fn presets_hold_their_values() {
    assert_eq!(protocol_one(), ProtocolProperties { short: 1, long: 3, sync_bit: 1, sync_gap: 31 });
    assert_eq!(protocol_two(), ProtocolProperties { short: 1, long: 2, sync_bit: 1, sync_gap: 10 });
    assert_eq!(xen(), ProtocolProperties { short: 1, long: 2, sync_bit: 1, sync_gap: 11 });
}

#[test]
fn new_protocol_is_all_zero() {
    let p = ProtocolProperties::new();
    assert_eq!(p, ProtocolProperties { short: 0, long: 0, sync_bit: 0, sync_gap: 0 });
    assert_eq!(p, ProtocolProperties::default());
}

#[test]
fn new_transmission_is_empty() {
    let t = Transmission::new();
    assert_eq!(t.sequence, "");
    assert_eq!(t.pulse_length, 0);
    assert_eq!(t.repeats, 0);
    assert_eq!(t.protocol, ProtocolProperties::new());
    assert!(t == Transmission::default());
}

#[test]
fn transmission_builder_sets_every_field() {
    let t = Transmission::builder()
        .sequence("s01")
        .pulse_length(320)
        .repeats(10)
        .protocol(protocol_two())
        .build();
    assert_eq!(t.sequence, "s01");
    assert_eq!(t.pulse_length, 320);
    assert_eq!(t.repeats, 10);
    assert_eq!(t.protocol, protocol_two());
}

#[test]
fn builder_defaults_are_zero() {
    let t = Transmission::builder().build();
    assert!(t == Transmission::new());
}

#[test]
fn sequence_setter_replaces_only_the_sequence() {
    let mut t = Transmission::builder()
        .sequence("000")
        .pulse_length(100)
        .repeats(2)
        .protocol(xen())
        .build();
    t.sequence("111");
    assert_eq!(t.sequence, "111");
    assert_eq!(t.pulse_length, 100);
    assert_eq!(t.repeats, 2);
    assert_eq!(t.protocol, xen());
}

#[test]
fn clone_preserves_every_field() {
    let t = Transmission::builder()
        .sequence("s10")
        .pulse_length(320)
        .repeats(4)
        .protocol(protocol_one())
        .build();
    let c = t.clone();
    assert!(c == t);
    assert_eq!(c.sequence, t.sequence);
    assert_eq!(c.protocol, t.protocol);
}
