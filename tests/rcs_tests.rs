use rcs_control::rcs::{
    encode, AddressError, Level, Pulse, Switch, SwitchCode, SwitchState, TriState,
    LONG_FACTOR, PULSE_LENGTH_US, REPEAT_COUNT, SYNC_FACTOR,
};

const Z: TriState = TriState::Zero;
const I: TriState = TriState::One;
const F: TriState = TriState::Floating;

fn high(units: u64) -> Pulse {
    Pulse { level: Level::High, duration_us: units * PULSE_LENGTH_US }
}

fn low(units: u64) -> Pulse {
    Pulse { level: Level::Low, duration_us: units * PULSE_LENGTH_US }
}

fn digit_pulses(d: TriState) -> Vec<Pulse> {
    match d {
        TriState::Zero => vec![high(1), low(LONG_FACTOR)],
        TriState::One => vec![high(LONG_FACTOR), low(1)],
        TriState::Floating => vec![high(1), low(1), high(1), low(LONG_FACTOR)],
    }
}

#[test]
fn wrong_system_code_length_is_refused() {
    assert!(matches!(Switch::new(&[true, false], SwitchCode::SwitchA), Err(AddressError)));
    assert!(matches!(
        Switch::new(&[true, false, true, false, true, false], SwitchCode::SwitchA),
        Err(AddressError)
    ));
    assert!(Switch::new(&[false; 5], SwitchCode::SwitchE).is_ok());
}

#[test]
fn code_word_of_switch_b() {
    let s = Switch::new(&[true, true, true, false, false], SwitchCode::SwitchB).unwrap();
    assert_eq!(s.code(), SwitchCode::SwitchB);
    assert_eq!(s.code_word(SwitchState::On), vec![Z, Z, Z, F, F, F, Z, F, F, F, Z, I]);
    assert_eq!(s.code_word(SwitchState::Off), vec![Z, Z, Z, F, F, F, Z, F, F, F, I, Z]);
}

#[test]
fn encode_switch_b_on() {
    let s = Switch::new(&[true, true, true, false, false], SwitchCode::SwitchB).unwrap();
    let word = s.code_word(SwitchState::On);
    assert_eq!(word.len(), 5 + 5 + 2);
    let mut frame: Vec<Pulse> = Vec::new();
    for d in &word {
        frame.extend(digit_pulses(*d));
    }
    frame.push(high(1));
    frame.push(low(SYNC_FACTOR));
    // five Zero digits, six Floating, one One, then the gap
    assert_eq!(frame.len(), 5 * 2 + 6 * 4 + 2 + 2);
    let train = encode(&s, SwitchState::On);
    assert_eq!(train.len(), REPEAT_COUNT * frame.len());
    for k in 0..REPEAT_COUNT {
        assert_eq!(&train[k * frame.len()..(k + 1) * frame.len()], &frame[..]);
    }
    assert_eq!(train[0], Pulse { level: Level::High, duration_us: 350 });
    assert_eq!(train[1], Pulse { level: Level::Low, duration_us: 1050 });
    assert_eq!(train[37], Pulse { level: Level::Low, duration_us: 10850 });
}

#[test]
fn encode_is_deterministic() {
    let a = Switch::new(&[true, true, true, false, false], SwitchCode::SwitchB).unwrap();
    let b = Switch::new(&[true, true, true, false, false], SwitchCode::SwitchB).unwrap();
    assert_eq!(encode(&a, SwitchState::On), encode(&a, SwitchState::On));
    assert_eq!(encode(&a, SwitchState::Off), encode(&b, SwitchState::Off));
    assert_ne!(encode(&a, SwitchState::On), encode(&a, SwitchState::Off));
}

#[test]
fn selector_marks_one_position() {
    let s = Switch::new(&[false; 5], SwitchCode::SwitchE).unwrap();
    assert_eq!(s.code_word(SwitchState::Off), vec![F, F, F, F, F, F, F, F, F, Z, I, Z]);
}
