use libsparkypi::signal::{LineError, LineOp, FaultyLine, RecordingLine, Symbol, classify, phase_durations};
use libsparkypi::{ProtocolProperties, Transmission, protocol_one};

fn high() -> LineOp {
    LineOp::SetLevel(true)
}

fn low() -> LineOp {
    LineOp::SetLevel(false)
}

fn hold(us: u64) -> LineOp {
    LineOp::Hold(us)
}

fn total_hold_micros(ops: &[LineOp]) -> u64 {
    let mut sum: u64 = 0;
    for op in ops {
        if let LineOp::Hold(d) = op {
            sum += d;
        }
    }
    sum
}

fn level_sets(ops: &[LineOp]) -> usize {
    ops.iter().filter(|op| matches!(op, LineOp::SetLevel(_))).count()
}

#[test]
fn classification_is_total() {
    assert_eq!(classify('1'), Symbol::One);
    assert_eq!(classify('0'), Symbol::Zero);
    assert_eq!(classify('s'), Symbol::Sync);
    assert_eq!(classify(' '), Symbol::Sync);
    assert_eq!(classify('\n'), Symbol::Sync);
    assert_eq!(classify('2'), Symbol::Sync);
    assert_eq!(classify('é'), Symbol::Sync);
}

#[test]
fn phase_duration_table() {
    let p = ProtocolProperties { short: 1, long: 3, sync_bit: 1, sync_gap: 31 };
    assert_eq!(phase_durations('1', 100, p), (300, 100));
    assert_eq!(phase_durations('0', 100, p), (100, 300));
    assert_eq!(phase_durations('x', 100, p), (100, 3100));
    assert_eq!(phase_durations('1', 65535, ProtocolProperties { short: 255, long: 255, sync_bit: 0, sync_gap: 0 }), (16711425, 16711425));
}

#[test]
fn scenario_three_bits_once() {
    let t = Transmission::builder()
        .sequence("101")
        .pulse_length(100)
        .repeats(1)
        .protocol(ProtocolProperties { short: 1, long: 3, sync_bit: 1, sync_gap: 31 })
        .build();
    let ops = t.events();
    let expected = vec![
        high(), hold(300), low(), hold(100),
        high(), hold(100), low(), hold(300),
        high(), hold(300), low(), hold(100),
    ];
    assert_eq!(ops, expected);
    assert_eq!(level_sets(&ops), 6);
    assert_eq!(total_hold_micros(&ops), 1200);
}

#[test]
fn scenario_sync_and_zero_twice() {
    let t = Transmission::builder()
        .sequence("s0")
        .pulse_length(320)
        .repeats(2)
        .protocol(protocol_one())
        .build();
    let ops = t.events();
    let one_pass = vec![
        high(), hold(320), low(), hold(9920),
        high(), hold(320), low(), hold(960),
    ];
    let mut expected = one_pass.clone();
    expected.extend(one_pass);
    assert_eq!(ops, expected);
    assert_eq!(level_sets(&ops), 8);
}

#[test]
fn zero_repeats_sends_nothing() {
    let t = Transmission::builder()
        .sequence("10101")
        .pulse_length(100)
        .repeats(0)
        .protocol(protocol_one())
        .build();
    assert!(t.events().is_empty());
    let mut line = RecordingLine::new();
    assert_eq!(t.emit(&mut line), Ok(()));
    assert!(line.received.is_empty());
}

#[test]
fn empty_sequence_sends_nothing() {
    let t = Transmission::builder()
        .sequence("")
        .pulse_length(100)
        .repeats(7)
        .protocol(protocol_one())
        .build();
    assert!(t.events().is_empty());
    let mut line = RecordingLine::new();
    assert_eq!(t.emit(&mut line), Ok(()));
    assert!(line.received.is_empty());
}

#[test]
fn level_set_call_count() {
    let t = Transmission::builder()
        .sequence("s0110")
        .pulse_length(50)
        .repeats(4)
        .protocol(protocol_one())
        .build();
    let mut line = RecordingLine::new();
    assert_eq!(t.emit(&mut line), Ok(()));
    // two level settings per symbol, per repeat
    assert_eq!(level_sets(&line.received), 2 * 5 * 4);
    assert_eq!(line.received, t.events());
}

#[test]
fn encoding_is_deterministic() {
    let t = Transmission::builder()
        .sequence("s01x10")
        .pulse_length(320)
        .repeats(3)
        .protocol(protocol_one())
        .build();
    let again = t.clone();
    assert_eq!(t.events(), again.events());
    assert_eq!(t.events(), t.events());
    assert!(t == again);
}

#[test]
fn fault_aborts_emission() {
    let t = Transmission::builder()
        .sequence("101")
        .pulse_length(100)
        .repeats(1)
        .protocol(protocol_one())
        .build();
    let mut line = FaultyLine::new(3, LineError::Busy);
    let r = t.emit(&mut line);
    assert_eq!(r, Err(LineError::Busy));
    // the failing level setting is the last operation received: two full
    // phases, then the third level setting
    assert_eq!(
        line.received,
        vec![high(), hold(300), low(), hold(100), high()]
    );
    assert_eq!(level_sets(&line.received), 3);
}

#[test]
fn fault_on_first_call() {
    let t = Transmission::builder()
        .sequence("0")
        .pulse_length(10)
        .repeats(5)
        .protocol(protocol_one())
        .build();
    let mut line = FaultyLine::new(1, LineError::PermissionDenied);
    assert_eq!(t.emit(&mut line), Err(LineError::PermissionDenied));
    assert_eq!(line.received, vec![high()]);
}

#[test]
fn faulty_line_without_fault_matches_plan() {
    let t = Transmission::builder()
        .sequence("s1")
        .pulse_length(20)
        .repeats(2)
        .protocol(protocol_one())
        .build();
    let mut line = FaultyLine::new(0, LineError::DeviceUnavailable);
    assert_eq!(t.emit(&mut line), Ok(()));
    assert_eq!(line.received, t.events());
}
