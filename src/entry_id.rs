//! Positions in the command log: ordered `(timestamp, sequence)` pairs with a
//! canonical `"<ms>-<seq>"` text form.
use vstd::prelude::*;
use vstd::string::*;

verus! {

/// The decimal digit characters, indexed by their value.
pub open spec fn digit_chars() -> Seq<char> {
    seq!['0', '1', '2', '3', '4', '5', '6', '7', '8', '9']
}

pub open spec fn is_digit(c: char) -> bool {
    '0' <= c && c <= '9'
}

pub open spec fn digit_value(c: char) -> int {
    c as int - '0' as int
}

/// The number that a run of digit characters spells, most significant first.
pub open spec fn decimal_value(s: Seq<char>) -> int
    decreases s.len(),
{
    if s.len() == 0 {
        0
    } else {
        decimal_value(s.drop_last()) * 10 + digit_value(s.last())
    }
}

/// A non-empty run of digits whose value fits in a `u64`.
pub open spec fn is_number(s: Seq<char>) -> bool {
    &&& s.len() > 0
    &&& forall|i: int| 0 <= i < s.len() ==> is_digit(#[trigger] s[i])
    &&& decimal_value(s) <= u64::MAX
}

/// The canonical decimal text of `n`: no sign, no leading zeros.
pub open spec fn decimal_text(n: nat) -> Seq<char>
    decreases n,
{
    if n < 10 {
        seq![digit_chars()[n as int]]
    } else {
        decimal_text(n / 10).push(digit_chars()[(n % 10) as int])
    }
}

/// Index of the first `'-'` in `s`, or `s.len()` when there is none.
pub open spec fn first_dash(s: Seq<char>) -> int
    decreases s.len(),
{
    if s.len() == 0 {
        0
    } else if s[0] == '-' {
        0
    } else {
        1 + first_dash(s.skip(1))
    }
}

/// A log position. Positions are ordered by timestamp, then by sequence.
#[derive(Clone, Copy, Debug, PartialEq, Eq, Structural, Hash)]
pub struct EntryId {
    pub timestamp: u64,
    pub sequence: u64,
}

/// Strict lexicographic order on `(timestamp, sequence)`.
pub open spec fn precedes(a: EntryId, b: EntryId) -> bool {
    a.timestamp < b.timestamp || (a.timestamp == b.timestamp && a.sequence < b.sequence)
}

pub open spec fn precedes_or_equal(a: EntryId, b: EntryId) -> bool {
    precedes(a, b) || a == b
}

pub open spec fn compare(a: EntryId, b: EntryId) -> core::cmp::Ordering {
    if precedes(a, b) {
        core::cmp::Ordering::Less
    } else if a == b {
        core::cmp::Ordering::Equal
    } else {
        core::cmp::Ordering::Greater
    }
}

/// The position right after `id`, used as an exclusive lower bound.
pub open spec fn next_of(id: EntryId) -> EntryId {
    EntryId { timestamp: id.timestamp, sequence: (id.sequence + 1) as u64 }
}

/// The canonical text `"<timestamp>-<sequence>"`.
pub open spec fn entry_text(id: EntryId) -> Seq<char> {
    decimal_text(id.timestamp as nat) + seq!['-'] + decimal_text(id.sequence as nat)
}

/// What a text denotes: the numbers before and after its first dash, when
/// both are well-formed `u64` numbers.
pub open spec fn parsed_entry(s: Seq<char>) -> Option<EntryId> {
    let k = first_dash(s);
    if k < s.len() && is_number(s.take(k)) && is_number(s.skip(k + 1)) {
        Some(
            EntryId {
                timestamp: decimal_value(s.take(k)) as u64,
                sequence: decimal_value(s.skip(k + 1)) as u64,
            },
        )
    } else {
        None
    }
}

/// The text was not of the form `"<ms>-<seq>"`.
#[derive(Clone, Copy, Debug, PartialEq, Eq, Structural)]
pub struct FormatError;

impl PartialOrd for EntryId {
    fn partial_cmp(&self, other: &EntryId) -> (r: Option<core::cmp::Ordering>)
        ensures
            r == Some(compare(*self, *other)),
    {
        if self.timestamp < other.timestamp {
            Some(core::cmp::Ordering::Less)
        } else if self.timestamp > other.timestamp {
            Some(core::cmp::Ordering::Greater)
        } else if self.sequence < other.sequence {
            Some(core::cmp::Ordering::Less)
        } else if self.sequence > other.sequence {
            Some(core::cmp::Ordering::Greater)
        } else {
            Some(core::cmp::Ordering::Equal)
        }
    }
}

impl vstd::std_specs::cmp::PartialOrdSpecImpl for EntryId {
    open spec fn obeys_partial_cmp_spec() -> bool {
        true
    }

    open spec fn partial_cmp_spec(&self, other: &EntryId) -> Option<core::cmp::Ordering> {
        Some(compare(*self, *other))
    }
}

impl EntryId {
    pub fn new(timestamp: u64, sequence: u64) -> (r: EntryId)
        ensures
            r.timestamp == timestamp,
            r.sequence == sequence,
    {
        EntryId { timestamp, sequence }
    }

    /// The start-of-stream position `0-0`.
    pub fn start() -> (r: EntryId)
        ensures
            r.timestamp == 0,
            r.sequence == 0,
    {
        EntryId { timestamp: 0, sequence: 0 }
    }

    /// Same timestamp, sequence plus one.
    pub fn next(&self) -> (r: EntryId)
        requires
            self.sequence < u64::MAX,
        ensures
            r == next_of(*self),
    {
        EntryId { timestamp: self.timestamp, sequence: self.sequence + 1 }
    }

    /// Whether `self` comes strictly before `other`.
    pub fn is_before(&self, other: &EntryId) -> (r: bool)
        ensures
            r == precedes(*self, *other),
    {
        self.timestamp < other.timestamp || (self.timestamp == other.timestamp
            && self.sequence < other.sequence)
    }
}

/// Appends the digit character for `d`.
fn push_digit(out: &mut String, d: u64)
    requires
        d < 10,
    ensures
        final(out)@ == old(out)@.push(digit_chars()[d as int]),
{
    let digits: &str = "0123456789";
    proof {
        reveal_strlit("0123456789");
    }
    let piece = digits.substring_char(d as usize, d as usize + 1);
    assert(piece@ =~= seq![digit_chars()[d as int]]);
    out.append(piece);
    assert(final(out)@ =~= old(out)@.push(digit_chars()[d as int]));
}

/// Appends the canonical decimal text of `n`.
fn push_decimal(out: &mut String, n: u64)
    ensures
        final(out)@ == old(out)@ + decimal_text(n as nat),
    decreases n,
{
    if n >= 10 {
        push_decimal(out, n / 10);
    }
    push_digit(out, n % 10);
    assert(final(out)@ =~= old(out)@ + decimal_text(n as nat));
}

/// Finds the first dash of `s`, or its length when it has none.
fn find_dash(s: &str, len: usize) -> (k: usize)
    requires
        len == s@.len(),
    ensures
        k == first_dash(s@),
{
    let mut i: usize = 0;
    assert(s@.skip(0) =~= s@);
    while i < len && s.get_char(i) != '-'
        invariant
            len == s@.len(),
            i <= len,
            first_dash(s@) == i + first_dash(s@.skip(i as int)),
        decreases len - i,
    {
        assert(s@.skip(i as int).skip(1) =~= s@.skip(i + 1));
        i = i + 1;
    }
    if i < len {
        assert(s@.skip(i as int)[0] == '-');
    }
    i
}

/// Grows a digit run by one character at the end.
proof fn lemma_value_push(t: Seq<char>, c: char)
    ensures
        decimal_value(t.push(c)) == decimal_value(t) * 10 + digit_value(c),
{
    assert(t.push(c).drop_last() =~= t);
}

/// A digit run spells a number that is not negative.
proof fn lemma_value_nonneg(t: Seq<char>)
    requires
        forall|i: int| 0 <= i < t.len() ==> is_digit(#[trigger] t[i]),
    ensures
        decimal_value(t) >= 0,
    decreases t.len(),
{
    if t.len() > 0 {
        let u = t.drop_last();
        assert(forall|i: int| 0 <= i < u.len() ==> u[i] == t[i]);
        lemma_value_nonneg(u);
        assert(is_digit(t[t.len() - 1]));
    }
}

/// A prefix of a digit run never spells a larger number.
proof fn lemma_value_prefix(t: Seq<char>, j: int)
    requires
        0 <= j <= t.len(),
        forall|i: int| 0 <= i < t.len() ==> is_digit(#[trigger] t[i]),
    ensures
        decimal_value(t.take(j)) <= decimal_value(t),
    decreases t.len(),
{
    if j == t.len() {
        assert(t.take(j) =~= t);
    } else {
        let u = t.drop_last();
        assert(u.take(j) =~= t.take(j));
        assert(forall|i: int| 0 <= i < u.len() ==> u[i] == t[i]);
        lemma_value_prefix(u, j);
        lemma_value_nonneg(u);
        assert(is_digit(t[t.len() - 1]));
    }
}

/// Reads the number spelled by `s[from..to]`.
fn parse_number(s: &str, from: usize, to: usize) -> (r: Option<u64>)
    requires
        from <= to <= s@.len(),
    ensures
        r == (if is_number(s@.subrange(from as int, to as int)) {
            Some(decimal_value(s@.subrange(from as int, to as int)) as u64)
        } else {
            None::<u64>
        }),
{
    let ghost sub = s@.subrange(from as int, to as int);
    if from == to {
        return None;
    }
    let mut value: u64 = 0;
    let mut i: usize = from;
    while i < to
        invariant
            from <= i <= to <= s@.len(),
            sub == s@.subrange(from as int, to as int),
            forall|j: int| from <= j < i ==> is_digit(#[trigger] s@[j]),
            value == decimal_value(s@.subrange(from as int, i as int)),
        decreases to - i,
    {
        let c = s.get_char(i);
        if !('0' <= c && c <= '9') {
            assert(!is_digit(sub[i - from]));
            return None;
        }
        let d: u64 = (c as u32 - '0' as u32) as u64;
        proof {
            lemma_value_push(s@.subrange(from as int, i as int), c);
            assert(s@.subrange(from as int, i as int).push(c) =~= s@.subrange(
                from as int,
                i + 1,
            ));
        }
        if value > (u64::MAX - d) / 10 {
            proof {
                assert(value * 10 + d > u64::MAX) by (nonlinear_arith)
                    requires
                        value > (u64::MAX - d) / 10,
                        d < 10,
                ;
                assert(sub.take(i + 1 - from) =~= s@.subrange(from as int, i + 1));
                if forall|j: int| 0 <= j < sub.len() ==> is_digit(#[trigger] sub[j]) {
                    lemma_value_prefix(sub, i + 1 - from);
                }
            }
            return None;
        }
        value = value * 10 + d;
        i = i + 1;
    }
    assert(s@.subrange(from as int, i as int) =~= sub);
    Some(value)
}

impl EntryId {
    /// The canonical text `"<timestamp>-<sequence>"`.
    pub fn render(&self) -> (r: String)
        ensures
            r@ == entry_text(*self),
    {
        let mut out = String::new();
        push_decimal(&mut out, self.timestamp);
        proof {
            reveal_strlit("-");
        }
        out.append("-");
        push_decimal(&mut out, self.sequence);
        assert(out@ =~= entry_text(*self));
        out
    }

    /// Reads the canonical text `"<ms>-<seq>"`; anything else is a
    /// `FormatError`.
    pub fn parse(s: &str) -> (r: Result<EntryId, FormatError>)
        ensures
            match r {
                Ok(id) => parsed_entry(s@) == Some(id),
                Err(_) => parsed_entry(s@) is None,
            },
    {
        let len = s.unicode_len();
        let k = find_dash(s, len);
        if k >= len {
            return Err(FormatError);
        }
        assert(s@.take(k as int) =~= s@.subrange(0, k as int));
        assert(s@.skip(k + 1) =~= s@.subrange(k + 1, len as int));
        let timestamp = parse_number(s, 0, k);
        let sequence = parse_number(s, k + 1, len);
        match (timestamp, sequence) {
            (Some(timestamp), Some(sequence)) => Ok(EntryId { timestamp, sequence }),
            _ => Err(FormatError),
        }
    }
}

proof fn lemma_digit_chars()
    ensures
        forall|d: int|
            0 <= d < 10 ==> is_digit(#[trigger] digit_chars()[d]) && digit_value(digit_chars()[d])
                == d,
{
    assert(digit_chars()[0] == '0');
    assert(digit_chars()[1] == '1');
    assert(digit_chars()[2] == '2');
    assert(digit_chars()[3] == '3');
    assert(digit_chars()[4] == '4');
    assert(digit_chars()[5] == '5');
    assert(digit_chars()[6] == '6');
    assert(digit_chars()[7] == '7');
    assert(digit_chars()[8] == '8');
    assert(digit_chars()[9] == '9');
}

/// The canonical text of `n` is a non-empty digit run that spells `n`.
proof fn lemma_decimal_text(n: nat)
    ensures
        decimal_text(n).len() > 0,
        forall|i: int| 0 <= i < decimal_text(n).len() ==> is_digit(#[trigger] decimal_text(n)[i]),
        decimal_value(decimal_text(n)) == n,
    decreases n,
{
    lemma_digit_chars();
    let t = decimal_text(n);
    if n < 10 {
        assert(t.drop_last() =~= Seq::<char>::empty());
        assert(decimal_value(t) == decimal_value(Seq::<char>::empty()) * 10 + digit_value(t[0]));
    } else {
        lemma_decimal_text(n / 10);
        lemma_value_push(decimal_text(n / 10), digit_chars()[(n % 10) as int]);
        assert((n / 10) * 10 + n % 10 == n);
    }
}

/// A dash placed after a run of digits is the first dash.
proof fn lemma_first_dash_after_digits(a: Seq<char>, b: Seq<char>)
    requires
        forall|i: int| 0 <= i < a.len() ==> is_digit(#[trigger] a[i]),
    ensures
        first_dash(a + seq!['-'] + b) == a.len(),
    decreases a.len(),
{
    let s = a + seq!['-'] + b;
    if a.len() == 0 {
        assert(s[0] == '-');
    } else {
        assert(is_digit(a[0]));
        assert(s.skip(1) =~= a.skip(1) + seq!['-'] + b);
        assert(forall|i: int| 0 <= i < a.skip(1).len() ==> a.skip(1)[i] == a[i + 1]);
        lemma_first_dash_after_digits(a.skip(1), b);
    }
}

/// Reading the canonical text of a position gives that position back.
pub proof fn lemma_text_round_trip(id: EntryId)
    ensures
        parsed_entry(entry_text(id)) == Some(id),
{
    let a = decimal_text(id.timestamp as nat);
    let b = decimal_text(id.sequence as nat);
    let s = entry_text(id);
    lemma_decimal_text(id.timestamp as nat);
    lemma_decimal_text(id.sequence as nat);
    lemma_first_dash_after_digits(a, b);
    assert(s.take(a.len() as int) =~= a);
    assert(s.skip(a.len() as int + 1) =~= b);
}

/// `<` on positions is the lexicographic order on `(timestamp, sequence)`,
/// and `next` moves strictly forward within the same timestamp.
pub proof fn lemma_order_is_lexicographic(a: EntryId, b: EntryId)
    ensures
        (compare(a, b) == core::cmp::Ordering::Less) <==> (a.timestamp
            < b.timestamp || (a.timestamp == b.timestamp && a.sequence < b.sequence)),
        a.sequence < u64::MAX ==> {
            &&& compare(next_of(a), a) == core::cmp::Ordering::Greater
            &&& next_of(a).timestamp == a.timestamp
            &&& next_of(a).sequence == a.sequence + 1
        },
{
}

} // verus!
