//! The tri-state remote-control protocol: switch addresses, code words and
//! the pulse train that carries them.
use vstd::prelude::*;

verus! {

/// Number of tri-state digits in a system code.
pub const SYSTEM_CODE_LEN: usize = 5;

/// Number of selector digits that name one of the switches.
pub const SELECTOR_LEN: usize = 5;

/// Base time unit of the protocol, in microseconds.
pub const PULSE_LENGTH_US: u64 = 350;

/// A long interval lasts this many base units.
pub const LONG_FACTOR: u64 = 3;

/// The silence of a synchronisation gap lasts this many base units.
pub const SYNC_FACTOR: u64 = 31;

/// How many times a whole frame is sent for one command.
pub const REPEAT_COUNT: usize = 10;

/// One symbol of the three-valued address alphabet.
#[derive(Clone, Copy, Debug, PartialEq, Eq, Structural, Hash)]
pub enum TriState {
    Zero,
    One,
    Floating,
}

/// The switch selected within a system code.
#[derive(Clone, Copy, Debug, PartialEq, Eq, Structural, Hash)]
pub enum SwitchCode {
    SwitchA,
    SwitchB,
    SwitchC,
    SwitchD,
    SwitchE,
}

#[derive(Clone, Copy, Debug, PartialEq, Eq, Structural, Hash)]
pub enum SwitchState {
    On,
    Off,
}

/// Signal level on the transmitter pin.
#[derive(Clone, Copy, Debug, PartialEq, Eq, Structural, Hash)]
pub enum Level {
    High,
    Low,
}

/// Hold the pin at `level` for `duration_us` microseconds.
#[derive(Clone, Copy, Debug, PartialEq, Eq, Structural, Hash)]
pub struct Pulse {
    pub level: Level,
    pub duration_us: u64,
}

/// A system code did not have `SYSTEM_CODE_LEN` digits.
#[derive(Clone, Copy, Debug, PartialEq, Eq, Structural)]
pub struct AddressError;

/// The address of one remote socket: a system code and a switch selector.
pub struct Switch {
    system_code: Vec<TriState>,
    code: SwitchCode,
}

pub ghost struct SwitchAddress {
    pub system_code: Seq<TriState>,
    pub code: SwitchCode,
}

impl View for Switch {
    type V = SwitchAddress;

    closed spec fn view(&self) -> SwitchAddress {
        SwitchAddress { system_code: self.system_code@, code: self.code }
    }
}

/// A set DIP switch of the system code is sent as `Zero`, an unset one as
/// `Floating`.
pub open spec fn system_digit(set: bool) -> TriState {
    if set {
        TriState::Zero
    } else {
        TriState::Floating
    }
}

pub open spec fn selector_index(code: SwitchCode) -> int {
    match code {
        SwitchCode::SwitchA => 0,
        SwitchCode::SwitchB => 1,
        SwitchCode::SwitchC => 2,
        SwitchCode::SwitchD => 3,
        SwitchCode::SwitchE => 4,
    }
}

/// The selector digits: `Zero` at the selected switch, `Floating` elsewhere.
pub open spec fn selector_digits(code: SwitchCode) -> Seq<TriState> {
    Seq::new(
        SELECTOR_LEN as nat,
        |i: int|
            if i == selector_index(code) {
                TriState::Zero
            } else {
                TriState::Floating
            },
    )
}

/// The two-digit suffix that selects on or off.
pub open spec fn state_digits(state: SwitchState) -> Seq<TriState> {
    match state {
        SwitchState::On => seq![TriState::Zero, TriState::One],
        SwitchState::Off => seq![TriState::One, TriState::Zero],
    }
}

/// The whole tri-state word sent for `state` at `address`.
pub open spec fn code_word(address: SwitchAddress, state: SwitchState) -> Seq<TriState> {
    address.system_code + selector_digits(address.code) + state_digits(state)
}

pub open spec fn short_high() -> Pulse {
    Pulse { level: Level::High, duration_us: PULSE_LENGTH_US }
}

pub open spec fn short_low() -> Pulse {
    Pulse { level: Level::Low, duration_us: PULSE_LENGTH_US }
}

pub open spec fn long_high() -> Pulse {
    Pulse { level: Level::High, duration_us: (LONG_FACTOR * PULSE_LENGTH_US) as u64 }
}

pub open spec fn long_low() -> Pulse {
    Pulse { level: Level::Low, duration_us: (LONG_FACTOR * PULSE_LENGTH_US) as u64 }
}

/// The pulses of one digit.
pub open spec fn digit_pulses(d: TriState) -> Seq<Pulse> {
    match d {
        TriState::Zero => seq![short_high(), long_low()],
        TriState::One => seq![long_high(), short_low()],
        TriState::Floating => seq![short_high(), short_low(), short_high(), long_low()],
    }
}

/// The pulses of a word, digit after digit.
pub open spec fn word_pulses(word: Seq<TriState>) -> Seq<Pulse>
    decreases word.len(),
{
    if word.len() == 0 {
        Seq::empty()
    } else {
        word_pulses(word.drop_last()) + digit_pulses(word.last())
    }
}

/// The synchronisation gap: a short high pulse, then a long silence.
pub open spec fn sync_pulses() -> Seq<Pulse> {
    seq![short_high(), Pulse { level: Level::Low, duration_us: (SYNC_FACTOR * PULSE_LENGTH_US) as u64 }]
}

/// One frame: the word, then the synchronisation gap.
pub open spec fn frame_pulses(word: Seq<TriState>) -> Seq<Pulse> {
    word_pulses(word) + sync_pulses()
}

/// `n` frames back to back.
pub open spec fn repeated_frames(word: Seq<TriState>, n: nat) -> Seq<Pulse>
    decreases n,
{
    if n == 0 {
        Seq::empty()
    } else {
        repeated_frames(word, (n - 1) as nat) + frame_pulses(word)
    }
}

/// The complete pulse train for one command.
pub open spec fn encoded(address: SwitchAddress, state: SwitchState) -> Seq<Pulse> {
    repeated_frames(code_word(address, state), REPEAT_COUNT as nat)
}

impl Switch {
    /// Builds the address from DIP-switch positions; a system code of the
    /// wrong length is refused.
    pub fn new(system_code: &[bool], code: SwitchCode) -> (r: Result<Switch, AddressError>)
        ensures
            match r {
                Ok(s) => system_code@.len() == SYSTEM_CODE_LEN && s@.code == code
                    && s@.system_code == system_code@.map_values(|b: bool| system_digit(b)),
                Err(_) => system_code@.len() != SYSTEM_CODE_LEN,
            },
    {
        if system_code.len() != SYSTEM_CODE_LEN {
            return Err(AddressError);
        }
        let mut digits: Vec<TriState> = Vec::new();
        let mut i: usize = 0;
        while i < system_code.len()
            invariant
                i <= system_code@.len(),
                digits@ == system_code@.take(i as int).map_values(|b: bool| system_digit(b)),
            decreases system_code@.len() - i,
        {
            let digit = if system_code[i] {
                TriState::Zero
            } else {
                TriState::Floating
            };
            digits.push(digit);
            i = i + 1;
            assert(digits@ =~= system_code@.take(i as int).map_values(|b: bool| system_digit(b)));
        }
        assert(system_code@.take(i as int) =~= system_code@);
        Ok(Switch { system_code: digits, code })
    }

    pub fn code(&self) -> (r: SwitchCode)
        ensures
            r == self@.code,
    {
        self.code
    }

    /// The tri-state word sent for `state`.
    pub fn code_word(&self, state: SwitchState) -> (r: Vec<TriState>)
        ensures
            r@ == code_word(self@, state),
    {
        let mut word: Vec<TriState> = Vec::new();
        let mut i: usize = 0;
        while i < self.system_code.len()
            invariant
                i <= self.system_code@.len(),
                word@ == self.system_code@.take(i as int),
            decreases self.system_code@.len() - i,
        {
            word.push(self.system_code[i]);
            i = i + 1;
            assert(word@ =~= self.system_code@.take(i as int));
        }
        assert(self.system_code@.take(i as int) =~= self.system_code@);
        let selected: usize = match self.code {
            SwitchCode::SwitchA => 0,
            SwitchCode::SwitchB => 1,
            SwitchCode::SwitchC => 2,
            SwitchCode::SwitchD => 3,
            SwitchCode::SwitchE => 4,
        };
        let ghost prefix = word@;
        let mut j: usize = 0;
        while j < SELECTOR_LEN
            invariant
                j <= SELECTOR_LEN,
                selected == selector_index(self.code),
                word@ == prefix + selector_digits(self.code).take(j as int),
            decreases SELECTOR_LEN - j,
        {
            if j == selected {
                word.push(TriState::Zero);
            } else {
                word.push(TriState::Floating);
            }
            j = j + 1;
            assert(word@ =~= prefix + selector_digits(self.code).take(j as int));
        }
        assert(selector_digits(self.code).take(j as int) =~= selector_digits(self.code));
        match state {
            SwitchState::On => {
                word.push(TriState::Zero);
                word.push(TriState::One);
            },
            SwitchState::Off => {
                word.push(TriState::One);
                word.push(TriState::Zero);
            },
        }
        assert(word@ =~= code_word(self@, state));
        word
    }
}

/// Appends the pulses of one digit.
fn push_digit_pulses(out: &mut Vec<Pulse>, d: TriState)
    ensures
        final(out)@ == old(out)@ + digit_pulses(d),
{
    let short_high = Pulse { level: Level::High, duration_us: PULSE_LENGTH_US };
    let short_low = Pulse { level: Level::Low, duration_us: PULSE_LENGTH_US };
    let long_high = Pulse { level: Level::High, duration_us: LONG_FACTOR * PULSE_LENGTH_US };
    let long_low = Pulse { level: Level::Low, duration_us: LONG_FACTOR * PULSE_LENGTH_US };
    match d {
        TriState::Zero => {
            out.push(short_high);
            out.push(long_low);
        },
        TriState::One => {
            out.push(long_high);
            out.push(short_low);
        },
        TriState::Floating => {
            out.push(short_high);
            out.push(short_low);
            out.push(short_high);
            out.push(long_low);
        },
    }
    assert(final(out)@ =~= old(out)@ + digit_pulses(d));
}

/// Appends one frame: the pulses of `word`, then the synchronisation gap.
fn push_frame(out: &mut Vec<Pulse>, word: &Vec<TriState>)
    ensures
        final(out)@ == old(out)@ + frame_pulses(word@),
{
    let ghost start = out@;
    let mut i: usize = 0;
    while i < word.len()
        invariant
            i <= word@.len(),
            out@ == start + word_pulses(word@.take(i as int)),
        decreases word@.len() - i,
    {
        let ghost before = out@;
        push_digit_pulses(out, word[i]);
        assert(word@.take(i + 1).drop_last() =~= word@.take(i as int));
        i = i + 1;
        assert(out@ =~= start + word_pulses(word@.take(i as int)));
    }
    assert(word@.take(i as int) =~= word@);
    out.push(Pulse { level: Level::High, duration_us: PULSE_LENGTH_US });
    out.push(Pulse { level: Level::Low, duration_us: SYNC_FACTOR * PULSE_LENGTH_US });
    assert(out@ =~= start + frame_pulses(word@));
}

/// The pulse train that switches the socket at `address` to `state`: the
/// code word's frame, sent `REPEAT_COUNT` times.
pub fn encode(address: &Switch, state: SwitchState) -> (r: Vec<Pulse>)
    ensures
        r@ == encoded(address@, state),
{
    let word = address.code_word(state);
    let mut out: Vec<Pulse> = Vec::new();
    let mut n: usize = 0;
    while n < REPEAT_COUNT
        invariant
            n <= REPEAT_COUNT,
            word@ == code_word(address@, state),
            out@ == repeated_frames(word@, n as nat),
        decreases REPEAT_COUNT - n,
    {
        push_frame(&mut out, &word);
        n = n + 1;
    }
    out
}

/// Encoding depends on nothing but the address and the state: two encodings
/// of the same command are the same pulse train.
pub proof fn lemma_encode_deterministic(
    a: SwitchAddress,
    b: SwitchAddress,
    state: SwitchState,
    first: Seq<Pulse>,
    second: Seq<Pulse>,
)
    requires
        a == b,
        first == encoded(a, state),
        second == encoded(b, state),
    ensures
        first == second,
{
}

/// Frame `k` of `n` repeated frames is exactly one frame, so the train is
/// `n` copies of the word's pulses, each closed by one synchronisation gap.
pub proof fn lemma_repeated_frames(word: Seq<TriState>, n: nat)
    ensures
        repeated_frames(word, n).len() == n * frame_pulses(word).len(),
        forall|k: int|
            0 <= k < n ==> #[trigger] repeated_frames(word, n).subrange(
                k * frame_pulses(word).len(),
                (k + 1) * frame_pulses(word).len(),
            ) == frame_pulses(word),
    decreases n,
{
    let f = frame_pulses(word).len() as int;
    if n > 0 {
        let m = (n - 1) as nat;
        lemma_repeated_frames(word, m);
        let prev = repeated_frames(word, m);
        let all = repeated_frames(word, n);
        assert(all == prev + frame_pulses(word));
        assert(prev.len() == m * f);
        assert(n * f == m * f + f) by (nonlinear_arith)
            requires
                m == n - 1,
        ;
        assert forall|k: int| 0 <= k < n implies #[trigger] all.subrange(k * f, (k + 1) * f)
            == frame_pulses(word) by {
            assert(0 <= k * f) by (nonlinear_arith)
                requires
                    0 <= k,
                    0 <= f,
            ;
            assert((k + 1) * f == k * f + f) by (nonlinear_arith);
            if k < m {
                assert((k + 1) * f <= m * f) by (nonlinear_arith)
                    requires
                        k + 1 <= m,
                        0 <= f,
                ;
                assert(all.subrange(k * f, (k + 1) * f) =~= prev.subrange(k * f, (k + 1) * f));
            } else {
                assert(k * f == m * f);
                assert((k + 1) * f == m * f + f) by (nonlinear_arith)
                    requires
                        k == m,
                ;
                assert(all.subrange(k * f, (k + 1) * f) =~= frame_pulses(word));
            }
        }
    }
}

/// Shape of the train for one command: the word has the system-code digits,
/// `SELECTOR_LEN` selector digits and two state digits; the train is
/// `REPEAT_COUNT` identical frames, each ending in one synchronisation gap.
pub proof fn lemma_encoded_shape(address: SwitchAddress, state: SwitchState)
    ensures
        code_word(address, state).len() == address.system_code.len() + SELECTOR_LEN + 2,
        frame_pulses(code_word(address, state)).len() >= 2,
        frame_pulses(code_word(address, state)).subrange(
            frame_pulses(code_word(address, state)).len() - 2,
            frame_pulses(code_word(address, state)).len() as int,
        ) == sync_pulses(),
        encoded(address, state).len() == REPEAT_COUNT * frame_pulses(
            code_word(address, state),
        ).len(),
        forall|k: int|
            0 <= k < REPEAT_COUNT ==> #[trigger] encoded(address, state).subrange(
                k * frame_pulses(code_word(address, state)).len(),
                (k + 1) * frame_pulses(code_word(address, state)).len(),
            ) == frame_pulses(code_word(address, state)),
{
    let word = code_word(address, state);
    let frame = frame_pulses(word);
    assert(frame.subrange(frame.len() - 2, frame.len() as int) =~= sync_pulses());
    lemma_repeated_frames(word, REPEAT_COUNT as nat);
}

} // verus!
