//! The relay-board backend: each of eight relays is wired to a pin of its own.
use vstd::prelude::*;
use crate::rcs::Level;

verus! {

/// Code character `'0'` of a selected position.
pub const CODE_SELECTED: u8 = 48;

/// Code character `'F'` of a position left floating.
pub const CODE_FLOATING: u8 = 70;

/// Number of relays on the board.
pub const RELAY_COUNT: usize = 8;

#[derive(Clone, Copy, Debug, PartialEq, Eq, Structural, Hash)]
pub enum Relay {
    Relay1,
    Relay2,
    Relay3,
    Relay4,
    Relay5,
    Relay6,
    Relay7,
    Relay8,
}

#[derive(Clone, Copy, Debug, PartialEq, Eq, Structural, Hash)]
pub enum RelayState {
    On,
    Off,
}

/// Position of a relay in the pin table, from 0.
pub open spec fn relay_index(relay: Relay) -> int {
    match relay {
        Relay::Relay1 => 0,
        Relay::Relay2 => 1,
        Relay::Relay3 => 2,
        Relay::Relay4 => 3,
        Relay::Relay5 => 4,
        Relay::Relay6 => 5,
        Relay::Relay7 => 6,
        Relay::Relay8 => 7,
    }
}

pub open spec fn state_index(state: RelayState) -> int {
    match state {
        RelayState::On => 0,
        RelayState::Off => 1,
    }
}

/// Tri-state code characters: `'0'` at the selected position, `'F'` at the
/// others.
pub open spec fn selection_code(selected: int, len: int) -> Seq<u8> {
    Seq::new(
        len as nat,
        |i: int|
            if i == selected {
                CODE_SELECTED
            } else {
                CODE_FLOATING
            },
    )
}

/// The pin level that puts a relay in `state`; `invert_outputs` swaps the
/// polarity.
pub open spec fn relay_level(state: RelayState, invert_outputs: bool) -> Level {
    if (state == RelayState::On) != invert_outputs {
        Level::High
    } else {
        Level::Low
    }
}

pub open spec fn opposite(level: Level) -> Level {
    match level {
        Level::High => Level::Low,
        Level::Low => Level::High,
    }
}

fn fill_selection(buf: &mut [u8], selected: usize, len: usize)
    requires
        len <= old(buf)@.len(),
    ensures
        final(buf)@.len() == old(buf)@.len(),
        final(buf)@.take(len as int) == selection_code(selected as int, len as int),
        final(buf)@.skip(len as int) == old(buf)@.skip(len as int),
{
    let mut i: usize = 0;
    while i < len
        invariant
            i <= len <= buf@.len(),
            buf@.len() == old(buf)@.len(),
            buf@.take(i as int) == selection_code(selected as int, i as int),
            buf@.skip(len as int) == old(buf)@.skip(len as int),
        decreases len - i,
    {
        let ghost prev = buf@;
        if i == selected {
            buf[i] = CODE_SELECTED;
        } else {
            buf[i] = CODE_FLOATING;
        }
        assert(buf@ == prev.update(i as int, selection_code(selected as int, i + 1)[i as int]));
        assert forall|j: int| 0 <= j <= i implies buf@[j] == #[trigger] selection_code(selected as int, i + 1)[j] by {
            if j < i {
                assert(prev.take(i as int)[j] == prev[j]);
            }
        }
        i = i + 1;
        assert(buf@.take(i as int) =~= selection_code(selected as int, i as int));
        assert(buf@.skip(len as int) =~= old(buf)@.skip(len as int));
    }
}

impl Relay {
    /// Writes the relay's eight address characters to the start of `buf`.
    pub fn add_bits(&self, buf: &mut [u8])
        requires
            old(buf)@.len() >= RELAY_COUNT,
        ensures
            final(buf)@.len() == old(buf)@.len(),
            final(buf)@.take(RELAY_COUNT as int) == selection_code(relay_index(*self), RELAY_COUNT as int),
            final(buf)@.skip(RELAY_COUNT as int) == old(buf)@.skip(RELAY_COUNT as int),
    {
        let idx: usize = match self {
            Relay::Relay1 => 0,
            Relay::Relay2 => 1,
            Relay::Relay3 => 2,
            Relay::Relay4 => 3,
            Relay::Relay5 => 4,
            Relay::Relay6 => 5,
            Relay::Relay7 => 6,
            Relay::Relay8 => 7,
        };
        fill_selection(buf, idx, RELAY_COUNT);
    }
}

impl RelayState {
    /// Writes the state's two code characters to the start of `buf`.
    pub fn add_bits(&self, buf: &mut [u8])
        requires
            old(buf)@.len() >= 2,
        ensures
            final(buf)@.len() == old(buf)@.len(),
            final(buf)@.take(2) == selection_code(state_index(*self), 2),
            final(buf)@.skip(2) == old(buf)@.skip(2),
    {
        let idx: usize = match self {
            RelayState::On => 0,
            RelayState::Off => 1,
        };
        fill_selection(buf, idx, 2);
    }
}

/// The pin table had not exactly one pin per relay.
#[derive(Clone, Copy, Debug, PartialEq, Eq, Structural)]
pub struct RelayConfigError;

/// Set `pin` to `level`.
#[derive(Clone, Copy, Debug, PartialEq, Eq, Structural, Hash)]
pub struct PinWrite {
    pub pin: usize,
    pub level: Level,
}

/// The relay board: one output pin per relay, and the output polarity.
pub struct Rm8Control {
    pins: Vec<usize>,
    invert_outputs: bool,
}

pub ghost struct Rm8Config {
    pub pins: Seq<usize>,
    pub invert_outputs: bool,
}

impl View for Rm8Control {
    type V = Rm8Config;

    closed spec fn view(&self) -> Rm8Config {
        Rm8Config { pins: self.pins@, invert_outputs: self.invert_outputs }
    }
}

impl Rm8Control {
    pub open spec fn wf(&self) -> bool {
        self@.pins.len() == RELAY_COUNT
    }

    /// Takes the pin of each relay, in relay order; a table without exactly
    /// one pin per relay is refused.
    pub fn open(pins: Vec<usize>, invert_outputs: bool) -> (r: Result<Rm8Control, RelayConfigError>)
        ensures
            match r {
                Ok(c) => pins@.len() == RELAY_COUNT && c@.pins == pins@ && c@.invert_outputs
                    == invert_outputs && c.wf(),
                Err(_) => pins@.len() != RELAY_COUNT,
            },
    {
        if pins.len() != RELAY_COUNT {
            return Err(RelayConfigError);
        }
        Ok(Rm8Control { pins, invert_outputs })
    }

    /// The output pins, in relay order.
    pub fn pins(&self) -> (r: &Vec<usize>)
        ensures
            r@ == self@.pins,
    {
        &self.pins
    }

    /// The single pin write that puts `relay` in `state`.
    pub fn send(&self, relay: &Relay, state: RelayState) -> (r: PinWrite)
        requires
            self.wf(),
        ensures
            r.pin == self@.pins[relay_index(*relay)],
            r.level == relay_level(state, self@.invert_outputs),
    {
        let idx: usize = match relay {
            Relay::Relay1 => 0,
            Relay::Relay2 => 1,
            Relay::Relay3 => 2,
            Relay::Relay4 => 3,
            Relay::Relay5 => 4,
            Relay::Relay6 => 5,
            Relay::Relay7 => 6,
            Relay::Relay8 => 7,
        };
        let pin: usize = self.pins[idx];
        let level = match state {
            RelayState::On => if self.invert_outputs {
                Level::Low
            } else {
                Level::High
            },
            RelayState::Off => if self.invert_outputs {
                Level::High
            } else {
                Level::Low
            },
        };
        PinWrite { pin, level }
    }
}

/// Every relay maps to exactly one configured pin, distinct relays to
/// distinct table positions, and flipping `invert_outputs` flips the level
/// of every relay in either state.
pub proof fn lemma_relay_mapping(relay: Relay, other: Relay, state: RelayState, invert_outputs: bool)
    ensures
        0 <= relay_index(relay) < RELAY_COUNT,
        relay_index(relay) == relay_index(other) <==> relay == other,
        relay_level(state, !invert_outputs) == opposite(relay_level(state, invert_outputs)),
        relay_level(RelayState::On, invert_outputs) != relay_level(RelayState::Off, invert_outputs),
{
}

} // verus!
