use rcs_control::rcs::Level;
use rcs_control::rm8::{PinWrite, Relay, RelayConfigError, RelayState, Rm8Control};

const ALL: [Relay; 8] = [
    Relay::Relay1,
    Relay::Relay2,
    Relay::Relay3,
    Relay::Relay4,
    Relay::Relay5,
    Relay::Relay6,
    Relay::Relay7,
    Relay::Relay8,
];

fn board(invert: bool) -> Rm8Control {
    Rm8Control::open(vec![2, 3, 4, 17, 27, 22, 10, 9], invert).unwrap()
}

#[test]
fn open_needs_one_pin_per_relay() {
    assert!(matches!(Rm8Control::open(vec![1, 2, 3], false), Err(RelayConfigError)));
    assert!(matches!(Rm8Control::open(vec![0; 9], false), Err(RelayConfigError)));
    assert_eq!(board(false).pins(), &vec![2, 3, 4, 17, 27, 22, 10, 9]);
}

#[test]
fn send_resolves_pin_and_level() {
    let b = board(false);
    assert_eq!(b.send(&Relay::Relay3, RelayState::On), PinWrite { pin: 4, level: Level::High });
    assert_eq!(b.send(&Relay::Relay3, RelayState::Off), PinWrite { pin: 4, level: Level::Low });
    assert_eq!(b.send(&Relay::Relay8, RelayState::On), PinWrite { pin: 9, level: Level::High });
}

#[test]
fn invert_outputs_flips_every_relay() {
    let plain = board(false);
    let inverted = board(true);
    let pins = [2, 3, 4, 17, 27, 22, 10, 9];
    for (i, r) in ALL.iter().enumerate() {
        for state in [RelayState::On, RelayState::Off] {
            let a = plain.send(r, state);
            let b = inverted.send(r, state);
            assert_eq!(a.pin, pins[i]);
            assert_eq!(b.pin, pins[i]);
            assert_ne!(a.level, b.level);
        }
    }
    assert_eq!(inverted.send(&Relay::Relay1, RelayState::On).level, Level::Low);
    assert_eq!(inverted.send(&Relay::Relay1, RelayState::Off).level, Level::High);
}

#[test]
fn relay_add_bits() {
    let mut buf = [b'x'; 10];
    Relay::Relay3.add_bits(&mut buf);
    assert_eq!(&buf, b"FF0FFFFFxx");
    Relay::Relay1.add_bits(&mut buf[..8]);
    assert_eq!(&buf, b"0FFFFFFFxx");
}

#[test]
fn relay_state_add_bits() {
    let mut buf = [b'x'; 3];
    RelayState::On.add_bits(&mut buf);
    assert_eq!(&buf, b"0Fx");
    RelayState::Off.add_bits(&mut buf);
    assert_eq!(&buf, b"F0x");
}
