//! The identifier: a creation timestamp written as `YYYYMMDDTHHMMSSmm`.

use vstd::prelude::*;
use crate::timestamp::{
    date_minute_of, date_of, local_now, parse_date, parse_date_minute, Date, Timestamp,
};
use crate::unicode::{chars_between, chars_of, is_ascii_digit, string_of};

verus! {

/// Whether position `i` of a candidate token holds what the pattern asks:
/// `T` at position 8, an ASCII digit elsewhere.
pub open spec fn id_char_ok(s: Seq<char>, i: int) -> bool {
    if i == 8 {
        s[i] == 'T'
    } else {
        is_ascii_digit(s[i])
    }
}

/// Whether `s` is an identifier token: eight digits, `T`, eight digits.
pub open spec fn is_id(s: Seq<char>) -> bool {
    &&& s.len() == 17
    &&& forall|i: int| 0 <= i < 17 ==> #[trigger] id_char_ok(s, i)
}

/// Whether an identifier token starts at position `i` of `s`.
pub open spec fn id_at(s: Seq<char>, i: int) -> bool {
    0 <= i && i + 17 <= s.len() && is_id(s.subrange(i, i + 17))
}

/// The leftmost identifier token in `s` at or after position `i`.
pub open spec fn first_id_from(s: Seq<char>, i: int) -> Option<Seq<char>>
    decreases s.len() - i,
{
    if i < 0 || i + 17 > s.len() {
        None
    } else if id_at(s, i) {
        Some(s.subrange(i, i + 17))
    } else {
        first_id_from(s, i + 1)
    }
}

/// The leftmost identifier token in `s`.
pub open spec fn first_id(s: Seq<char>) -> Option<Seq<char>> {
    first_id_from(s, 0)
}

/// `n` in decimal, padded with zeros (or cut) to `width` digits.
pub open spec fn decimal(n: nat, width: nat) -> Seq<char>
    decreases width,
{
    if width == 0 {
        seq![]
    } else {
        decimal(n / 10, (width - 1) as nat).push(((n % 10) + 48) as char)
    }
}

/// The token for a timestamp: date, `T`, hours, minutes, seconds (60 during a
/// leap second) and hundredths of a second.
pub open spec fn id_text(t: Timestamp) -> Seq<char> {
    decimal(t.date.year as nat, 4) + decimal(t.date.month as nat, 2) + decimal(t.date.day as nat, 2)
        + seq!['T'] + decimal(t.hour as nat, 2) + decimal(t.minute as nat, 2) + decimal(
        (t.second + t.nanosecond / 1_000_000_000) as nat,
        2,
    ) + decimal(((t.nanosecond / 10_000_000) % 100) as nat, 2)
}

/// The identifier of a timestamp; `None` when it is not valid or its year
/// does not have four digits.
pub open spec fn id_of(t: Timestamp) -> Option<Seq<char>> {
    if t.valid() && 0 <= t.date.year <= 9999 {
        Some(id_text(t))
    } else {
        None
    }
}

/// A parsed date and minute, with seconds and fraction taken from `clock`.
pub open spec fn with_clock_seconds(t: Timestamp, clock: Timestamp) -> Timestamp {
    Timestamp { second: clock.second, nanosecond: clock.nanosecond, ..t }
}

/// A parsed date, with the time of day taken from `clock`.
pub open spec fn on_date(d: Date, clock: Timestamp) -> Timestamp {
    Timestamp { date: d, ..clock }
}

/// The identifier for a `YYYY-MM-DD HH:MM` text, seconds from `clock`.
pub open spec fn date_minute_id(text: Seq<char>, clock: Timestamp) -> Option<Seq<char>> {
    match date_minute_of(text) {
        Some(t) => id_of(with_clock_seconds(t, clock)),
        None => None,
    }
}

/// The identifier for a `YYYY-MM-DD` text, time of day from `clock`.
pub open spec fn date_id(text: Seq<char>, clock: Timestamp) -> Option<Seq<char>> {
    match date_of(text) {
        Some(d) => id_of(on_date(d, clock)),
        None => None,
    }
}

/// The identifier for a date text: `YYYY-MM-DD HH:MM` first, then
/// `YYYY-MM-DD`.
pub open spec fn date_text_id(text: Seq<char>, clock: Timestamp) -> Option<Seq<char>> {
    match date_minute_id(text, clock) {
        Some(id) => Some(id),
        None => date_id(text, clock),
    }
}

/// The identifier that `text` resolves to at the time `clock`: the word
/// `now`, then a token inside the text, then a date with a time, then a date.
pub open spec fn resolve_id(text: Seq<char>, clock: Timestamp) -> Option<Seq<char>> {
    if text == seq!['n', 'o', 'w'] {
        id_of(clock)
    } else {
        match first_id(text) {
            Some(id) => Some(id),
            None => date_text_id(text, clock),
        }
    }
}

/// The token that an optional identifier holds.
pub open spec fn id_view(r: Option<Identifier>) -> Option<Seq<char>> {
    match r {
        Some(id) => Some(id@),
        None => None,
    }
}

proof fn lemma_decimal(n: nat, width: nat)
    ensures
        decimal(n, width).len() == width,
        forall|i: int| 0 <= i < width ==> is_ascii_digit(#[trigger] decimal(n, width)[i]),
    decreases width,
{
    if width > 0 {
        lemma_decimal(n / 10, (width - 1) as nat);
    }
}

proof fn lemma_id_text(t: Timestamp)
    ensures
        is_id(id_text(t)),
{
    let y = t.date.year as nat;
    let s = (t.second + t.nanosecond / 1_000_000_000) as nat;
    let f = ((t.nanosecond / 10_000_000) % 100) as nat;
    lemma_decimal(y, 4);
    lemma_decimal(t.date.month as nat, 2);
    lemma_decimal(t.date.day as nat, 2);
    lemma_decimal(t.hour as nat, 2);
    lemma_decimal(t.minute as nat, 2);
    lemma_decimal(s, 2);
    lemma_decimal(f, 2);
    let text = id_text(t);
    assert forall|i: int| 0 <= i < 17 implies #[trigger] id_char_ok(text, i) by {
        if i < 4 {
            assert(text[i] == decimal(y, 4)[i]);
        } else if i < 6 {
            assert(text[i] == decimal(t.date.month as nat, 2)[i - 4]);
        } else if i < 8 {
            assert(text[i] == decimal(t.date.day as nat, 2)[i - 6]);
        } else if i == 8 {
        } else if i < 11 {
            assert(text[i] == decimal(t.hour as nat, 2)[i - 9]);
        } else if i < 13 {
            assert(text[i] == decimal(t.minute as nat, 2)[i - 11]);
        } else if i < 15 {
            assert(text[i] == decimal(s, 2)[i - 13]);
        } else {
            assert(text[i] == decimal(f, 2)[i - 15]);
        }
    }
}

fn push_decimal(out: &mut Vec<char>, n: u32, width: u32)
    ensures
        final(out)@ == old(out)@ + decimal(n as nat, width as nat),
    decreases width,
{
    if width > 0 {
        push_decimal(out, n / 10, width - 1);
        let d = (n % 10) as u8;
        out.push((d + 48) as char);
        assert(final(out)@ =~= old(out)@ + decimal(n as nat, width as nat));
    }
}

/// A unique identifier for a file: its timestamp as `YYYYMMDDTHHMMSSmm`,
/// always 17 characters.
#[derive(Debug, PartialEq, Eq, Hash)]
pub struct Identifier(String);

impl View for Identifier {
    type V = Seq<char>;

    closed spec fn view(&self) -> Seq<char> {
        self.0@
    }
}

impl Clone for Identifier {
    fn clone(&self) -> (r: Self)
        ensures
            r@ == self@,
    {
        proof {
            use_type_invariant(self);
        }
        Identifier(self.0.clone())
    }
}

/// Whether an identifier token starts at position `i` of `chars`.
pub(crate) fn is_id_at(chars: &Vec<char>, i: usize) -> (r: bool)
    requires
        i + 17 <= chars.len(),
    ensures
        r == id_at(chars@, i as int),
{
    let ghost window = chars@.subrange(i as int, i + 17);
    let mut j: usize = 0;
    while j < 17
        invariant
            i + 17 <= chars.len(),
            j <= 17,
            window == chars@.subrange(i as int, i + 17),
            forall|k: int| 0 <= k < j ==> #[trigger] id_char_ok(window, k),
        decreases 17 - j,
    {
        let c = chars[i + j];
        assert(window[j as int] == c);
        let code = c as u32;
        let ok = if j == 8 {
            c == 'T'
        } else {
            48 <= code && code <= 57
        };
        if !ok {
            assert(!id_char_ok(window, j as int));
            return false;
        }
        j = j + 1;
    }
    true
}

impl Identifier {
    #[verifier::type_invariant]
    spec fn inv(&self) -> bool {
        is_id(self.0@)
    }

    /// Wraps a token that is known to have the identifier's shape.
    pub(crate) fn from_token(token: Vec<char>) -> (r: Identifier)
        requires
            is_id(token@),
        ensures
            r@ == token@,
    {
        Identifier(string_of(&token))
    }

    /// The identifier of `t`; `None` when `t` is not valid or its year does
    /// not have four digits.
    pub fn from_timestamp(t: &Timestamp) -> (r: Option<Identifier>)
        ensures
            id_view(r) == id_of(*t),
    {
        if !t.is_valid() || t.date.year < 0 || t.date.year > 9999 {
            return None;
        }
        let mut out: Vec<char> = Vec::new();
        push_decimal(&mut out, t.date.year as u32, 4);
        push_decimal(&mut out, t.date.month, 2);
        push_decimal(&mut out, t.date.day, 2);
        out.push('T');
        push_decimal(&mut out, t.hour, 2);
        push_decimal(&mut out, t.minute, 2);
        push_decimal(&mut out, t.second + t.nanosecond / 1_000_000_000, 2);
        push_decimal(&mut out, (t.nanosecond / 10_000_000) % 100, 2);
        assert(out@ =~= id_text(*t));
        proof {
            lemma_id_text(*t);
        }
        Some(Self::from_token(out))
    }

    /// The identifier of the current local time; `None` when the clock
    /// cannot be read or gives a year without four digits.
    pub fn now() -> (r: Option<Identifier>)
        ensures
            r matches Some(id) ==> exists|clock: Timestamp|
                clock.valid() && id_of(clock) == Some(id@),
    {
        match local_now() {
            Some(clock) => Self::from_timestamp(&clock),
            None => None,
        }
    }

    /// The first identifier token that occurs in `string`.
    pub fn find_in_string(string: &str) -> (r: Option<Identifier>)
        ensures
            id_view(r) == first_id(string@),
    {
        let chars = chars_of(string);
        let mut i: usize = 0;
        while i <= chars.len() && 17 <= chars.len() - i
            invariant
                i <= chars.len(),
                chars@ == string@,
                first_id(string@) == first_id_from(string@, i as int),
            decreases chars.len() - i,
        {
            if is_id_at(&chars, i) {
                let token = chars_between(&chars, i, i + 17);
                return Some(Self::from_token(token));
            }
            i = i + 1;
        }
        None
    }

    /// The identifier for a `YYYY-MM-DD HH:MM` text, with seconds and
    /// fraction taken from `time`.
    pub fn from_string_date(string: &str, time: &Timestamp) -> (r: Option<Identifier>)
        ensures
            id_view(r) == date_minute_id(string@, *time),
    {
        match parse_date_minute(string) {
            Some(t) => {
                let combined = Timestamp { second: time.second, nanosecond: time.nanosecond, ..t };
                Self::from_timestamp(&combined)
            },
            None => None,
        }
    }

    /// The identifier for a `YYYY-MM-DD` text, with the time of day taken
    /// from `time`.
    pub fn parse_from_xml_date(string: &str, time: &Timestamp) -> (r: Option<Identifier>)
        ensures
            id_view(r) == date_id(string@, *time),
    {
        match parse_date(string) {
            Some(d) => {
                let combined = Timestamp { date: d, ..*time };
                Self::from_timestamp(&combined)
            },
            None => None,
        }
    }

    /// The identifier for a date text at the time `clock`: a date with hours
    /// and minutes first, then a bare date.
    pub fn from_string_at(string: &str, clock: &Timestamp) -> (r: Option<Identifier>)
        ensures
            id_view(r) == date_text_id(string@, *clock),
    {
        match Self::from_string_date(string, clock) {
            Some(id) => Some(id),
            None => Self::parse_from_xml_date(string, clock),
        }
    }

    /// The identifier for a date text, completed from the current local time;
    /// `None` also when the clock cannot be read.
    pub fn from_string(string: &str) -> (r: Option<Identifier>)
        ensures
            r matches Some(id) ==> exists|clock: Timestamp|
                clock.valid() && date_text_id(string@, clock) == Some(id@),
    {
        match local_now() {
            Some(clock) => Self::from_string_at(string, &clock),
            None => None,
        }
    }

    /// Resolves `string` into an identifier at the time `clock`. Tried in
    /// order: the word `now`, a token inside the text, `YYYY-MM-DD HH:MM`,
    /// `YYYY-MM-DD`.
    pub fn parse_at(string: &str, clock: &Timestamp) -> (r: Option<Identifier>)
        ensures
            id_view(r) == resolve_id(string@, *clock),
    {
        let chars = chars_of(string);
        if chars.len() == 3 && chars[0] == 'n' && chars[1] == 'o' && chars[2] == 'w' {
            assert(string@ =~= seq!['n', 'o', 'w']);
            return Self::from_timestamp(clock);
        }
        assert(string@ != seq!['n', 'o', 'w']);
        match Self::find_in_string(string) {
            Some(id) => Some(id),
            None => Self::from_string_at(string, clock),
        }
    }

    /// Resolves `string` into an identifier at the current local time (see
    /// [`Identifier::parse_at`]). A token inside the text is found without
    /// the clock; the other rules read it, and fail when it cannot be read.
    pub fn parse(string: &str) -> (r: Option<Identifier>)
        ensures
            string@ != seq!['n', 'o', 'w'] && first_id(string@) is Some ==> id_view(r)
                == first_id(string@),
            r matches Some(id) ==> exists|clock: Timestamp|
                clock.valid() && resolve_id(string@, clock) == Some(id@),
    {
        let chars = chars_of(string);
        let is_now = chars.len() == 3 && chars[0] == 'n' && chars[1] == 'o' && chars[2] == 'w';
        if is_now {
            assert(string@ =~= seq!['n', 'o', 'w']);
        } else {
            assert(string@ != seq!['n', 'o', 'w']);
            if let Some(id) = Self::find_in_string(string) {
                proof {
                    let any = Timestamp {
                        date: Date { year: 2000, month: 1, day: 1 },
                        hour: 0,
                        minute: 0,
                        second: 0,
                        nanosecond: 0,
                    };
                    assert(any.valid() && resolve_id(string@, any) == Some(id@));
                }
                return Some(id);
            }
        }
        match local_now() {
            Some(clock) => Self::parse_at(string, &clock),
            None => None,
        }
    }

    /// The identifier as it appears in a file name: always 17 characters,
    /// eight digits, `T`, eight digits.
    pub fn to_string(&self) -> (r: String)
        ensures
            r@ == self@,
            is_id(r@),
    {
        proof {
            use_type_invariant(self);
        }
        self.0.clone()
    }
}

/// Whether `date` names one fixed identifier (it holds an identifier token),
/// rather than a time that differs from one use to the next.
pub fn unic_id(date: Option<&str>) -> (r: bool)
    ensures
        r == (date matches Some(d) && first_id(d@) is Some),
{
    match date {
        Some(d) => Identifier::find_in_string(d).is_some(),
        None => false,
    }
}

} // verus!
