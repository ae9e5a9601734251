use rcs_control::consumer::{
    cursor_key, decode, decode_batch, Action, Command, CommandLoop, Event, LoopError, Phase,
    StreamEntry,
};
use rcs_control::entry_id::{EntryId, FormatError};
use rcs_control::rcs::{SwitchCode, SwitchState};
use rcs_control::rm8::{Relay, RelayState};

fn fields(pairs: &[(&str, &str)]) -> Vec<(String, String)> {
    pairs.iter().map(|(k, v)| (k.to_string(), v.to_string())).collect()
}

fn relay_entry(ts: u64, seq: u64, relay: &str, state: &str) -> StreamEntry {
    StreamEntry {
        id: EntryId::new(ts, seq),
        fields: fields(&[("relay", relay), ("state", state)]),
    }
}

const RELAY3_ON: Action = Action::Dispatch(Command::Relay {
    relay: Relay::Relay3,
    state: RelayState::On,
});

#[test]
fn no_entries_means_no_actuation_and_no_write() {
    let mut l = CommandLoop::new(Some(EntryId::new(100, 0)));
    assert_eq!(l.step(Event::Timeout), Action::Read(EntryId::new(100, 0)));
    assert_eq!(l.step(Event::Entries(Vec::new())), Action::Read(EntryId::new(100, 0)));
    assert_eq!(l.phase(), Phase::Idle);
    assert_eq!(l.cursor(), EntryId::new(100, 0));
}

#[test]
fn batch_of_three_is_dispatched_in_order_then_persisted_once() {
    let mut l = CommandLoop::new(None);
    assert_eq!(l.cursor(), EntryId::new(0, 0));
    let entries = vec![
        relay_entry(100, 0, "3", "on"),
        relay_entry(100, 1, "3", "on"),
        relay_entry(101, 0, "3", "on"),
    ];
    let mut actions = vec![l.step(Event::Entries(entries))];
    while let Action::Dispatch(_) = actions[actions.len() - 1] {
        assert_eq!(l.phase(), Phase::Dispatching);
        actions.push(l.step(Event::Dispatched));
    }
    assert_eq!(
        actions,
        vec![RELAY3_ON, RELAY3_ON, RELAY3_ON, Action::Persist(EntryId::new(101, 1))]
    );
    assert_eq!(l.phase(), Phase::Persisting);
    assert_eq!(l.step(Event::Persisted), Action::Read(EntryId::new(101, 1)));
    assert_eq!(l.phase(), Phase::Idle);
}

#[test]
fn restart_redelivers_unpersisted_entries() {
    let mut l = CommandLoop::from_stored(Some("100-0")).unwrap();
    assert_eq!(l.cursor(), EntryId::new(100, 0));
    let entries = vec![relay_entry(100, 1, "3", "off"), relay_entry(101, 0, "3", "on")];
    let off = Action::Dispatch(Command::Relay { relay: Relay::Relay3, state: RelayState::Off });
    assert_eq!(l.step(Event::Entries(entries)), off);
    assert_eq!(l.step(Event::Dispatched), RELAY3_ON);
    assert_eq!(l.cursor(), EntryId::new(100, 2));
    assert_eq!(l.step(Event::Dispatched), Action::Persist(EntryId::new(101, 1)));
    assert_eq!(l.cursor(), EntryId::new(101, 1));
}

#[test]
fn shutdown_mid_batch_keeps_cursor_unpersisted() {
    let mut l = CommandLoop::new(Some(EntryId::new(5, 0)));
    let entries = vec![relay_entry(6, 0, "1", "on"), relay_entry(7, 0, "2", "on")];
    assert!(matches!(l.step(Event::Entries(entries)), Action::Dispatch(_)));
    assert_eq!(l.step(Event::Dispatched), Action::Dispatch(Command::Relay {
        relay: Relay::Relay2,
        state: RelayState::On
    }));
    assert_eq!(l.step(Event::Shutdown), Action::Stop);
    assert_eq!(l.phase(), Phase::Stopped);
    assert_eq!(l.cursor(), EntryId::new(6, 1));
    assert_eq!(l.step(Event::Persisted), Action::Stop);
}

#[test]
fn stored_cursor_text_must_parse() {
    assert!(matches!(CommandLoop::from_stored(Some("garbage")), Err(FormatError)));
    assert_eq!(CommandLoop::from_stored(None).unwrap().cursor(), EntryId::new(0, 0));
}

#[test]
fn malformed_entry_stops_the_loop() {
    let mut l = CommandLoop::new(None);
    let entries = vec![relay_entry(1, 0, "3", "on"), relay_entry(2, 0, "9", "on")];
    assert_eq!(
        l.step(Event::Entries(entries)),
        Action::Fail(LoopError::Decode(EntryId::new(2, 0)))
    );
    assert_eq!(l.phase(), Phase::Stopped);
    assert_eq!(l.cursor(), EntryId::new(0, 0));
}

#[test]
fn entries_not_after_cursor_stop_the_loop() {
    let mut l = CommandLoop::new(Some(EntryId::new(10, 0)));
    let stale = vec![relay_entry(10, 0, "3", "on")];
    assert_eq!(
        l.step(Event::Entries(stale)),
        Action::Fail(LoopError::OutOfOrder(EntryId::new(10, 0)))
    );
    let mut l = CommandLoop::new(None);
    let swapped = vec![relay_entry(5, 0, "3", "on"), relay_entry(4, 0, "3", "on")];
    assert_eq!(
        l.step(Event::Entries(swapped)),
        Action::Fail(LoopError::OutOfOrder(EntryId::new(4, 0)))
    );
    let mut l = CommandLoop::new(None);
    let last = vec![relay_entry(5, u64::MAX, "3", "on")];
    assert_eq!(
        l.step(Event::Entries(last)),
        Action::Fail(LoopError::OutOfOrder(EntryId::new(5, u64::MAX)))
    );
}

#[test]
fn unexpected_event_stops_the_loop() {
    let mut l = CommandLoop::new(None);
    assert_eq!(l.step(Event::Dispatched), Action::Fail(LoopError::UnexpectedEvent));
    assert_eq!(l.phase(), Phase::Stopped);
}

#[test]
fn decode_commands() {
    assert_eq!(
        decode(&fields(&[("state", "off"), ("relay", "8")])),
        Some(Command::Relay { relay: Relay::Relay8, state: RelayState::Off })
    );
    assert_eq!(
        decode(&fields(&[("switch", "B"), ("state", "on")])),
        Some(Command::Switch { code: SwitchCode::SwitchB, state: SwitchState::On })
    );
    assert_eq!(
        decode(&fields(&[("relay", "2"), ("relay", "5"), ("state", "on")])),
        Some(Command::Relay { relay: Relay::Relay2, state: RelayState::On })
    );
    assert_eq!(decode(&fields(&[("relay", "2")])), None);
    assert_eq!(decode(&fields(&[("relay", "2"), ("state", "ON")])), None);
    assert_eq!(decode(&fields(&[("switch", "F"), ("state", "on")])), None);
    assert_eq!(decode(&fields(&[("state", "on")])), None);
    assert_eq!(decode(&fields(&[("relay", "x"), ("switch", "A"), ("state", "on")])), None);
}

#[test]
fn decode_batch_keeps_order() {
    let entries = vec![relay_entry(1, 0, "1", "on"), relay_entry(1, 1, "2", "off")];
    let b = decode_batch(EntryId::new(0, 5), &entries).unwrap();
    assert_eq!(b.len(), 2);
    assert_eq!(b[0].0, EntryId::new(1, 0));
    assert_eq!(b[1], (EntryId::new(1, 1), Command::Relay { relay: Relay::Relay2, state: RelayState::Off }));
}

#[test]
fn cursor_key_appends_suffix() {
    assert_eq!(cursor_key("rcs"), "rcs_start");
    assert_eq!(cursor_key(""), "_start");
}
