//! The command loop as a state machine. The caller performs each action it
//! returns (read the log, actuate, persist the cursor) and reports back the
//! outcome as the next event.
use vstd::prelude::*;
use vstd::string::*;
use crate::entry_id::{EntryId, FormatError, precedes, precedes_or_equal, next_of, parsed_entry};
use crate::rcs::{SwitchCode, SwitchState};
use crate::rm8::{Relay, RelayState};

verus! {

/// One entry of the command log: its position and its fields in order.
pub struct StreamEntry {
    pub id: EntryId,
    pub fields: Vec<(String, String)>,
}

/// What an entry asks for.
#[derive(Clone, Copy, Debug, PartialEq, Eq, Structural)]
pub enum Command {
    Relay { relay: Relay, state: RelayState },
    Switch { code: SwitchCode, state: SwitchState },
}

#[derive(Clone, Copy, Debug, PartialEq, Eq, Structural)]
pub enum LoopError {
    /// The entry at this position did not hold a valid command.
    Decode(EntryId),
    /// The log handed out an entry not after the one before it.
    OutOfOrder(EntryId),
    /// An event came that the current phase does not expect.
    UnexpectedEvent,
}

#[derive(Clone, Copy, Debug, PartialEq, Eq, Structural)]
pub enum Phase {
    /// Waiting for the log to hand out entries after the cursor.
    Idle,
    /// Actuating the entries of a batch, one at a time.
    Dispatching,
    /// Waiting for the cursor of a finished batch to be stored.
    Persisting,
    Stopped,
}

/// What happened since the last action.
pub enum Event {
    /// The read returned these entries, in log order.
    Entries(Vec<StreamEntry>),
    /// The read's wait window passed with no entry.
    Timeout,
    /// The last dispatched command was carried out.
    Dispatched,
    /// The last cursor write completed.
    Persisted,
    Shutdown,
}

/// What the caller is to do next.
#[derive(Clone, Copy, Debug, PartialEq, Eq, Structural)]
pub enum Action {
    /// Read entries strictly after this position, with a bounded wait.
    Read(EntryId),
    /// Carry out this command, then report `Dispatched`.
    Dispatch(Command),
    /// Store this cursor, then report `Persisted`.
    Persist(EntryId),
    Stop,
    Fail(LoopError),
}

pub open spec fn lit_state() -> Seq<char> {
    seq!['s', 't', 'a', 't', 'e']
}

pub open spec fn lit_relay() -> Seq<char> {
    seq!['r', 'e', 'l', 'a', 'y']
}

pub open spec fn lit_switch() -> Seq<char> {
    seq!['s', 'w', 'i', 't', 'c', 'h']
}

/// The value of the first field named `name`.
pub open spec fn field_value(fields: Seq<(String, String)>, name: Seq<char>) -> Option<Seq<char>>
    decreases fields.len(),
{
    if fields.len() == 0 {
        None
    } else if fields[0].0@ == name {
        Some(fields[0].1@)
    } else {
        field_value(fields.skip(1), name)
    }
}

pub open spec fn relay_of(v: Seq<char>) -> Option<Relay> {
    if v == seq!['1'] {
        Some(Relay::Relay1)
    } else if v == seq!['2'] {
        Some(Relay::Relay2)
    } else if v == seq!['3'] {
        Some(Relay::Relay3)
    } else if v == seq!['4'] {
        Some(Relay::Relay4)
    } else if v == seq!['5'] {
        Some(Relay::Relay5)
    } else if v == seq!['6'] {
        Some(Relay::Relay6)
    } else if v == seq!['7'] {
        Some(Relay::Relay7)
    } else if v == seq!['8'] {
        Some(Relay::Relay8)
    } else {
        None
    }
}

pub open spec fn switch_of(v: Seq<char>) -> Option<SwitchCode> {
    if v == seq!['A'] {
        Some(SwitchCode::SwitchA)
    } else if v == seq!['B'] {
        Some(SwitchCode::SwitchB)
    } else if v == seq!['C'] {
        Some(SwitchCode::SwitchC)
    } else if v == seq!['D'] {
        Some(SwitchCode::SwitchD)
    } else if v == seq!['E'] {
        Some(SwitchCode::SwitchE)
    } else {
        None
    }
}

/// `Some(true)` for `"on"`, `Some(false)` for `"off"`.
pub open spec fn on_of(v: Seq<char>) -> Option<bool> {
    if v == seq!['o', 'n'] {
        Some(true)
    } else if v == seq!['o', 'f', 'f'] {
        Some(false)
    } else {
        None
    }
}

/// The command that an entry's fields spell: a `state` of `on` or `off`,
/// and either a `relay` from `1` to `8` or, when there is no `relay`
/// field, a `switch` from `A` to `E`.
pub open spec fn decoded(fields: Seq<(String, String)>) -> Option<Command> {
    match field_value(fields, lit_state()) {
        None => None,
        Some(sv) => match on_of(sv) {
            None => None,
            Some(on) => match field_value(fields, lit_relay()) {
                Some(rv) => match relay_of(rv) {
                    Some(relay) => Some(
                        Command::Relay {
                            relay,
                            state: if on {
                                RelayState::On
                            } else {
                                RelayState::Off
                            },
                        },
                    ),
                    None => None,
                },
                None => match field_value(fields, lit_switch()) {
                    Some(cv) => match switch_of(cv) {
                        Some(code) => Some(
                            Command::Switch {
                                code,
                                state: if on {
                                    SwitchState::On
                                } else {
                                    SwitchState::Off
                                },
                            },
                        ),
                        None => None,
                    },
                    None => None,
                },
            },
        },
    }
}

/// Whether `s` holds exactly the characters of `lit`.
fn text_is(s: &String, lit: &str) -> (r: bool)
    ensures
        r == (s@ == lit@),
{
    let a = s.as_str();
    let n = a.unicode_len();
    if n != lit.unicode_len() {
        return false;
    }
    let mut i: usize = 0;
    while i < n
        invariant
            n == a@.len() == lit@.len(),
            a@ == s@,
            i <= n,
            forall|j: int| 0 <= j < i ==> a@[j] == lit@[j],
        decreases n - i,
    {
        if a.get_char(i) != lit.get_char(i) {
            return false;
        }
        i = i + 1;
    }
    assert(a@ =~= lit@);
    true
}

/// The value of the first field named `name`.
fn find_field<'a>(fields: &'a Vec<(String, String)>, name: &str) -> (r: Option<&'a String>)
    ensures
        match r {
            Some(v) => field_value(fields@, name@) == Some(v@),
            None => field_value(fields@, name@) is None,
        },
{
    let mut i: usize = 0;
    assert(fields@.skip(0) =~= fields@);
    while i < fields.len()
        invariant
            i <= fields@.len(),
            field_value(fields@, name@) == field_value(fields@.skip(i as int), name@),
        decreases fields@.len() - i,
    {
        assert(fields@.skip(i as int).skip(1) =~= fields@.skip(i + 1));
        assert(fields@.skip(i as int)[0] == fields@[i as int]);
        if text_is(&fields[i].0, name) {
            return Some(&fields[i].1);
        }
        i = i + 1;
    }
    None
}

/// Reads the command that an entry's fields spell.
pub fn decode(fields: &Vec<(String, String)>) -> (r: Option<Command>)
    ensures
        r == decoded(fields@),
{
    proof {
        reveal_strlit("state");
        reveal_strlit("relay");
        reveal_strlit("switch");
        reveal_strlit("on");
        reveal_strlit("off");
        reveal_strlit("1");
        reveal_strlit("2");
        reveal_strlit("3");
        reveal_strlit("4");
        reveal_strlit("5");
        reveal_strlit("6");
        reveal_strlit("7");
        reveal_strlit("8");
        reveal_strlit("A");
        reveal_strlit("B");
        reveal_strlit("C");
        reveal_strlit("D");
        reveal_strlit("E");
        assert("state"@ =~= lit_state());
        assert("relay"@ =~= lit_relay());
        assert("switch"@ =~= lit_switch());
        assert("on"@ =~= seq!['o', 'n']);
        assert("off"@ =~= seq!['o', 'f', 'f']);
        assert("1"@ =~= seq!['1']);
        assert("2"@ =~= seq!['2']);
        assert("3"@ =~= seq!['3']);
        assert("4"@ =~= seq!['4']);
        assert("5"@ =~= seq!['5']);
        assert("6"@ =~= seq!['6']);
        assert("7"@ =~= seq!['7']);
        assert("8"@ =~= seq!['8']);
        assert("A"@ =~= seq!['A']);
        assert("B"@ =~= seq!['B']);
        assert("C"@ =~= seq!['C']);
        assert("D"@ =~= seq!['D']);
        assert("E"@ =~= seq!['E']);
    }
    let sv = match find_field(fields, "state") {
        Some(v) => v,
        None => return None,
    };
    let on = if text_is(sv, "on") {
        true
    } else if text_is(sv, "off") {
        false
    } else {
        return None;
    };
    match find_field(fields, "relay") {
        Some(rv) => {
            let relay = if text_is(rv, "1") {
                Relay::Relay1
            } else if text_is(rv, "2") {
                Relay::Relay2
            } else if text_is(rv, "3") {
                Relay::Relay3
            } else if text_is(rv, "4") {
                Relay::Relay4
            } else if text_is(rv, "5") {
                Relay::Relay5
            } else if text_is(rv, "6") {
                Relay::Relay6
            } else if text_is(rv, "7") {
                Relay::Relay7
            } else if text_is(rv, "8") {
                Relay::Relay8
            } else {
                return None;
            };
            let state = if on {
                RelayState::On
            } else {
                RelayState::Off
            };
            Some(Command::Relay { relay, state })
        },
        None => {
            let cv = match find_field(fields, "switch") {
                Some(v) => v,
                None => return None,
            };
            let code = if text_is(cv, "A") {
                SwitchCode::SwitchA
            } else if text_is(cv, "B") {
                SwitchCode::SwitchB
            } else if text_is(cv, "C") {
                SwitchCode::SwitchC
            } else if text_is(cv, "D") {
                SwitchCode::SwitchD
            } else if text_is(cv, "E") {
                SwitchCode::SwitchE
            } else {
                return None;
            };
            let state = if on {
                SwitchState::On
            } else {
                SwitchState::Off
            };
            Some(Command::Switch { code, state })
        },
    }
}

/// What an entry at index `i` of a batch read after `cursor` must come after.
pub open spec fn batch_floor(cursor: EntryId, entries: Seq<StreamEntry>, i: int) -> EntryId {
    if i == 0 {
        cursor
    } else {
        entries[i - 1].id
    }
}

/// The commands of a batch read after `cursor`, in order; or the error of
/// its first entry that is out of order, that cannot be followed by a next
/// position, or that does not decode.
pub open spec fn decoded_batch(cursor: EntryId, entries: Seq<StreamEntry>) -> Result<
    Seq<(EntryId, Command)>,
    LoopError,
>
    decreases entries.len(),
{
    if entries.len() == 0 {
        Ok(Seq::empty())
    } else {
        match decoded_batch(cursor, entries.drop_last()) {
            Err(e) => Err(e),
            Ok(b) => {
                let i = entries.len() - 1;
                let id = entries[i].id;
                if !precedes(batch_floor(cursor, entries, i), id) || id.sequence == u64::MAX {
                    Err(LoopError::OutOfOrder(id))
                } else {
                    match decoded(entries[i].fields@) {
                        None => Err(LoopError::Decode(id)),
                        Some(c) => Ok(b.push((id, c))),
                    }
                }
            },
        }
    }
}

/// The rest of a batch from `position` on can be dispatched without ever
/// moving the cursor back: ids ascend, none is below the cursor, and each
/// has a next position.
pub open spec fn valid_batch(cursor: EntryId, batch: Seq<(EntryId, Command)>, position: int) -> bool {
    &&& 0 <= position < batch.len()
    &&& precedes_or_equal(cursor, batch[position].0)
    &&& forall|i: int| position <= i < batch.len() ==> (#[trigger] batch[i]).0.sequence < u64::MAX
    &&& forall|i: int|
        position <= i < batch.len() - 1 ==> precedes((#[trigger] batch[i]).0, batch[i + 1].0)
}

proof fn lemma_batch_error_persists(cursor: EntryId, entries: Seq<StreamEntry>, k: int)
    requires
        0 <= k <= entries.len(),
        decoded_batch(cursor, entries.take(k)) is Err,
    ensures
        decoded_batch(cursor, entries) == decoded_batch(cursor, entries.take(k)),
    decreases entries.len() - k,
{
    if k < entries.len() {
        assert(entries.take(k + 1).drop_last() =~= entries.take(k));
        lemma_batch_error_persists(cursor, entries, k + 1);
    } else {
        assert(entries.take(k) =~= entries);
    }
}

/// Checks and decodes a batch read after `cursor`.
pub fn decode_batch(cursor: EntryId, entries: &Vec<StreamEntry>) -> (r: Result<
    Vec<(EntryId, Command)>,
    LoopError,
>)
    ensures
        match r {
            Ok(b) => decoded_batch(cursor, entries@) == Ok::<_, LoopError>(b@) && (b@.len() > 0
                ==> valid_batch(cursor, b@, 0)),
            Err(e) => decoded_batch(cursor, entries@) == Err::<Seq<(EntryId, Command)>, _>(e),
        },
{
    let mut out: Vec<(EntryId, Command)> = Vec::new();
    let mut i: usize = 0;
    assert(entries@.take(0) =~= Seq::<StreamEntry>::empty());
    while i < entries.len()
        invariant
            i <= entries@.len(),
            decoded_batch(cursor, entries@.take(i as int)) == Ok::<_, LoopError>(out@),
            out@.len() == i,
            forall|k: int| 0 <= k < i ==> (#[trigger] out@[k]).0 == entries@[k].id,
            i > 0 ==> valid_batch(cursor, out@, 0),
        decreases entries@.len() - i,
    {
        let ghost pre = entries@.take(i + 1);
        assert(pre.drop_last() =~= entries@.take(i as int));
        let id = entries[i].id;
        let floor = if i == 0 {
            cursor
        } else {
            entries[i - 1].id
        };
        if !floor.is_before(&id) || id.sequence == u64::MAX {
            proof {
                lemma_batch_error_persists(cursor, entries@, i + 1);
            }
            return Err(LoopError::OutOfOrder(id));
        }
        match decode(&entries[i].fields) {
            None => {
                proof {
                    lemma_batch_error_persists(cursor, entries@, i + 1);
                }
                return Err(LoopError::Decode(id));
            },
            Some(c) => {
                out.push((id, c));
            },
        }
        i = i + 1;
        assert(out@[i - 1].0 == id);
    }
    assert(entries@.take(i as int) =~= entries@);
    Ok(out)
}

/// The key under which a stream's cursor is stored.
pub fn cursor_key(name: &str) -> (r: String)
    ensures
        r@ == name@ + seq!['_', 's', 't', 'a', 'r', 't'],
{
    proof {
        reveal_strlit("_start");
    }
    let mut key = String::from_str(name);
    key.append("_start");
    key
}

pub ghost struct LoopState {
    pub cursor: EntryId,
    pub batch: Seq<(EntryId, Command)>,
    pub position: int,
    pub phase: Phase,
}

/// The command loop: the cursor, the batch being dispatched and the phase.
pub struct CommandLoop {
    cursor: EntryId,
    batch: Vec<(EntryId, Command)>,
    position: usize,
    phase: Phase,
}

impl View for CommandLoop {
    type V = LoopState;

    closed spec fn view(&self) -> LoopState {
        LoopState {
            cursor: self.cursor,
            batch: self.batch@,
            position: self.position as int,
            phase: self.phase,
        }
    }
}

impl CommandLoop {
    pub open spec fn wf(&self) -> bool {
        self@.phase == Phase::Dispatching ==> valid_batch(self@.cursor, self@.batch, self@.position)
    }

    /// A loop that resumes after `stored`, or from the start of the stream
    /// when no cursor was stored.
    pub fn new(stored: Option<EntryId>) -> (r: CommandLoop)
        ensures
            r.wf(),
            r@.phase == Phase::Idle,
            r@.batch.len() == 0,
            r@.position == 0,
            r@.cursor == match stored {
                Some(c) => c,
                None => EntryId { timestamp: 0, sequence: 0 },
            },
    {
        let cursor = match stored {
            Some(c) => c,
            None => EntryId::start(),
        };
        CommandLoop { cursor, batch: Vec::new(), position: 0, phase: Phase::Idle }
    }

    /// A loop that resumes after the stored cursor text; text that is not a
    /// position is a `FormatError`.
    pub fn from_stored(stored: Option<&str>) -> (r: Result<CommandLoop, FormatError>)
        ensures
            match r {
                Ok(l) => l.wf() && l@.phase == Phase::Idle && l@.batch.len() == 0 && l@.position
                    == 0 && match stored {
                    Some(t) => parsed_entry(t@) == Some(l@.cursor),
                    None => l@.cursor == EntryId { timestamp: 0, sequence: 0 },
                },
                Err(_) => stored is Some && parsed_entry(stored->0@) is None,
            },
    {
        match stored {
            Some(text) => match EntryId::parse(text) {
                Ok(id) => Ok(CommandLoop::new(Some(id))),
                Err(e) => Err(e),
            },
            None => Ok(CommandLoop::new(None)),
        }
    }

    /// The position after which entries are still to be carried out.
    pub fn cursor(&self) -> (r: EntryId)
        ensures
            r == self@.cursor,
    {
        self.cursor
    }

    pub fn phase(&self) -> (r: Phase)
        ensures
            r == self@.phase,
    {
        self.phase
    }

    fn stop(&mut self, action: Action) -> (r: Action)
        ensures
            r == action,
            final(self)@ == (LoopState { phase: Phase::Stopped, ..old(self)@ }),
    {
        self.phase = Phase::Stopped;
        action
    }

    /// Takes the outcome of the last action and returns the next one. The
    /// cursor never moves back; it moves past an entry only when that entry's
    /// command has been carried out, and it is handed out for storing only
    /// once a whole batch has been carried out.
    pub fn step(&mut self, event: Event) -> (r: Action)
        requires
            old(self).wf(),
        ensures
            final(self).wf(),
            precedes_or_equal(old(self)@.cursor, final(self)@.cursor),
            old(self)@.phase == Phase::Stopped ==> r == Action::Stop && final(self)@ == old(self)@,
            old(self)@.phase != Phase::Stopped && event is Shutdown ==> r == Action::Stop
                && final(self)@ == (LoopState { phase: Phase::Stopped, ..old(self)@ }),
            old(self)@.phase == Phase::Idle && event is Timeout ==> r == Action::Read(
                old(self)@.cursor,
            ) && final(self)@ == old(self)@,
            old(self)@.phase == Phase::Idle && event is Entries ==> match decoded_batch(
                old(self)@.cursor,
                event->Entries_0@,
            ) {
                Err(e) => r == Action::Fail(e) && final(self)@ == (LoopState {
                    phase: Phase::Stopped,
                    ..old(self)@
                }),
                Ok(b) => if b.len() == 0 {
                    r == Action::Read(old(self)@.cursor) && final(self)@ == old(self)@
                } else {
                    r == Action::Dispatch(b[0].1) && final(self)@ == (LoopState {
                        cursor: old(self)@.cursor,
                        batch: b,
                        position: 0,
                        phase: Phase::Dispatching,
                    })
                },
            },
            old(self)@.phase == Phase::Dispatching && event is Dispatched ==> {
                let done = old(self)@.batch[old(self)@.position].0;
                let more = old(self)@.position + 1 < old(self)@.batch.len();
                &&& final(self)@.cursor == next_of(done)
                &&& final(self)@.batch == old(self)@.batch
                &&& more ==> r == Action::Dispatch(old(self)@.batch[old(self)@.position + 1].1)
                    && final(self)@.position == old(self)@.position + 1 && final(self)@.phase
                    == Phase::Dispatching
                &&& !more ==> r == Action::Persist(next_of(done)) && final(self)@.phase
                    == Phase::Persisting
            },
            old(self)@.phase == Phase::Persisting && event is Persisted ==> r == Action::Read(
                old(self)@.cursor,
            ) && final(self)@ == (LoopState { phase: Phase::Idle, ..old(self)@ }),
            old(self)@.phase != Phase::Stopped && !(event is Shutdown) && !(old(self)@.phase
                == Phase::Idle && (event is Timeout || event is Entries)) && !(old(self)@.phase
                == Phase::Dispatching && event is Dispatched) && !(old(self)@.phase
                == Phase::Persisting && event is Persisted) ==> r == Action::Fail(
                LoopError::UnexpectedEvent,
            ) && final(self)@ == (LoopState { phase: Phase::Stopped, ..old(self)@ }),
    {
        if self.phase == Phase::Stopped {
            return Action::Stop;
        }
        match event {
            Event::Shutdown => self.stop(Action::Stop),
            Event::Timeout => {
                if self.phase == Phase::Idle {
                    Action::Read(self.cursor)
                } else {
                    self.stop(Action::Fail(LoopError::UnexpectedEvent))
                }
            },
            Event::Entries(entries) => {
                if self.phase != Phase::Idle {
                    return self.stop(Action::Fail(LoopError::UnexpectedEvent));
                }
                match decode_batch(self.cursor, &entries) {
                    Err(e) => self.stop(Action::Fail(e)),
                    Ok(batch) => {
                        if batch.len() == 0 {
                            Action::Read(self.cursor)
                        } else {
                            let first = batch[0].1;
                            self.batch = batch;
                            self.position = 0;
                            self.phase = Phase::Dispatching;
                            Action::Dispatch(first)
                        }
                    },
                }
            },
            Event::Dispatched => {
                if self.phase != Phase::Dispatching {
                    return self.stop(Action::Fail(LoopError::UnexpectedEvent));
                }
                let done = self.batch[self.position].0;
                self.cursor = done.next();
                if self.position < self.batch.len() - 1 {
                    self.position = self.position + 1;
                    Action::Dispatch(self.batch[self.position].1)
                } else {
                    self.phase = Phase::Persisting;
                    Action::Persist(self.cursor)
                }
            },
            Event::Persisted => {
                if self.phase != Phase::Persisting {
                    return self.stop(Action::Fail(LoopError::UnexpectedEvent));
                }
                self.phase = Phase::Idle;
                Action::Read(self.cursor)
            },
        }
    }
}

} // verus!
