//! Scheduling slots: the compact `YYYY-MM-DD|HOUR|DURATION` form, its parser,
//! and its rendering. A slot string is split on the literal `|` into exactly
//! three segments: a calendar date, an hour and a duration in minutes. Hour
//! and duration are deliberately not range-checked.

use vstd::prelude::*;
use vstd::string::*;

use crate::date::{
    date_of_str, date_str_of, date_string, is_date_str, lemma_date_str_round_trip, parse_date,
    SlotDate,
};
use crate::numeral::{
    dec_str, is_digit, is_u32_numeral, lemma_dec_str_digits, lemma_dec_str_numeral, parse_u32,
    u32_numeral_value, u32_string,
};

verus! {

/// A parsed scheduling request.
#[derive(Debug, Clone, PartialEq, Eq, Structural)]
pub struct ContactSlot {
    pub date: SlotDate,
    pub hour: u32,
    pub duration: u32,
}

/// Why a slot string was rejected.
#[derive(Debug, Clone, Copy, PartialEq, Eq, Structural)]
pub enum SlotError {
    /// Not exactly three pipe-separated segments.
    Format,
    /// The first segment is not a valid `YYYY-MM-DD` date.
    Date,
    /// The second segment is not an integer hour.
    Hour,
    /// The third segment is not an integer duration.
    Duration,
}

impl SlotError {
    /// The human-readable reason carried to the caller.
    pub open spec fn message_spec(self) -> Seq<char> {
        match self {
            SlotError::Format => "Invalid slot format"@,
            SlotError::Date => "Invalid date"@,
            SlotError::Hour => "Invalid hour"@,
            SlotError::Duration => "Invalid duration"@,
        }
    }

    /// Render the reason.
    pub fn message(&self) -> (r: String)
        ensures
            r@ == self.message_spec(),
    {
        match self {
            SlotError::Format => "Invalid slot format".to_owned(),
            SlotError::Date => "Invalid date".to_owned(),
            SlotError::Hour => "Invalid hour".to_owned(),
            SlotError::Duration => "Invalid duration".to_owned(),
        }
    }
}

/// The segments of `s` split on the separator `sep`: splitting the empty
/// sequence gives one empty segment, and each separator ends a segment.
pub open spec fn split_chars(s: Seq<char>, sep: char) -> Seq<Seq<char>>
    decreases s.len(),
{
    if s.len() == 0 {
        seq![Seq::<char>::empty()]
    } else if s[0] == sep {
        seq![Seq::<char>::empty()] + split_chars(s.drop_first(), sep)
    } else {
        let rest = split_chars(s.drop_first(), sep);
        seq![seq![s[0]] + rest[0]] + rest.drop_first()
    }
}

/// Splitting always yields at least one segment.
pub proof fn lemma_split_nonempty(s: Seq<char>, sep: char)
    ensures
        split_chars(s, sep).len() >= 1,
    decreases s.len(),
{
    if s.len() > 0 {
        lemma_split_nonempty(s.drop_first(), sep);
    }
}

/// A sequence without the separator is one single segment.
proof fn lemma_split_no_sep(s: Seq<char>, sep: char)
    requires
        forall|i: int| 0 <= i < s.len() ==> s[i] != sep,
    ensures
        split_chars(s, sep) == seq![s],
    decreases s.len(),
{
    if s.len() == 0 {
        assert(split_chars(s, sep) =~~= seq![s]);
    } else {
        lemma_split_no_sep(s.drop_first(), sep);
        assert(seq![s[0]] + s.drop_first() =~= s);
        assert(split_chars(s, sep) =~~= seq![s]);
    }
}

/// Splitting at the first separator: everything before it is the first
/// segment, and the rest splits on its own.
proof fn lemma_split_at_first_sep(s: Seq<char>, sep: char, k: int)
    requires
        0 <= k < s.len(),
        s[k] == sep,
        forall|i: int| 0 <= i < k ==> s[i] != sep,
    ensures
        split_chars(s, sep) == seq![s.subrange(0, k)] + split_chars(
            s.subrange(k + 1, s.len() as int),
            sep,
        ),
    decreases k,
{
    if k == 0 {
        assert(s.subrange(0, 0) =~= Seq::<char>::empty());
        assert(s.drop_first() =~= s.subrange(1, s.len() as int));
        assert(split_chars(s, sep) =~~= seq![s.subrange(0, k)] + split_chars(
            s.subrange(k + 1, s.len() as int),
            sep,
        ));
    } else {
        let t = s.drop_first();
        assert(t[k - 1] == sep);
        lemma_split_at_first_sep(t, sep, k - 1);
        let rest = split_chars(t, sep);
        lemma_split_nonempty(t.subrange(k, t.len() as int), sep);
        assert(rest[0] == t.subrange(0, k - 1));
        assert(seq![s[0]] + t.subrange(0, k - 1) =~= s.subrange(0, k));
        assert(t.subrange(k, t.len() as int) =~= s.subrange(k + 1, s.len() as int));
        assert(rest.drop_first() =~~= split_chars(s.subrange(k + 1, s.len() as int), sep));
        assert(split_chars(s, sep) =~~= seq![s.subrange(0, k)] + split_chars(
            s.subrange(k + 1, s.len() as int),
            sep,
        ));
    }
}

/// The views of a sequence of strings.
pub open spec fn views_of(v: Seq<String>) -> Seq<Seq<char>> {
    v.map_values(|t: String| t@)
}

/// Split a string on the pipe character into its segments.
fn split_pipe(s: &str) -> (r: Vec<String>)
    ensures
        views_of(r@) == split_chars(s@, '|'),
{
    let len = s.unicode_len();
    let mut segments: Vec<String> = Vec::new();
    let mut start: usize = 0;
    let mut i: usize = 0;
    proof {
        assert(s@.subrange(0, len as int) =~= s@);
        assert(views_of(segments@) + split_chars(s@, '|') =~~= split_chars(s@, '|'));
    }
    while i < len
        invariant
            start <= i <= len,
            len == s@.len(),
            forall|j: int| start <= j < i ==> s@[j] != '|',
            split_chars(s@, '|') == views_of(segments@) + split_chars(
                s@.subrange(start as int, len as int),
                '|',
            ),
        decreases len - i,
    {
        if s.get_char(i) == '|' {
            let segment = s.substring_char(start, i).to_owned();
            proof {
                let rem = s@.subrange(start as int, len as int);
                let k = i - start;
                assert(forall|j: int| 0 <= j < k ==> rem[j] == s@[start + j] && rem[j] != '|');
                assert(rem[k] == s@[i as int]);
                lemma_split_at_first_sep(rem, '|', k);
                assert(rem.subrange(0, k) =~= s@.subrange(start as int, i as int));
                assert(rem.subrange(k + 1, rem.len() as int) =~= s@.subrange(
                    i + 1,
                    len as int,
                ));
                assert(views_of(segments@.push(segment)) =~= views_of(segments@) + seq![
                    segment@,
                ]);
            }
            segments.push(segment);
            start = i + 1;
        }
        i += 1;
    }
    let last = s.substring_char(start, len).to_owned();
    proof {
        let rem = s@.subrange(start as int, len as int);
        lemma_split_no_sep(rem, '|');
        assert(views_of(segments@.push(last)) =~= views_of(segments@) + seq![last@]);
        assert(views_of(segments@.push(last)) =~~= split_chars(s@, '|'));
    }
    segments.push(last);
    segments
}

/// What parsing a slot string yields: the three segments read as a valid
/// date, an hour and a duration, or the first reason a segment is rejected.
pub open spec fn parse_slot_chars(s: Seq<char>) -> Result<ContactSlot, SlotError> {
    let segments = split_chars(s, '|');
    if segments.len() != 3 {
        Err(SlotError::Format)
    } else if !is_date_str(segments[0]) {
        Err(SlotError::Date)
    } else if !is_u32_numeral(segments[1]) {
        Err(SlotError::Hour)
    } else if !is_u32_numeral(segments[2]) {
        Err(SlotError::Duration)
    } else {
        Ok(
            ContactSlot {
                date: date_of_str(segments[0]),
                hour: u32_numeral_value(segments[1]) as u32,
                duration: u32_numeral_value(segments[2]) as u32,
            },
        )
    }
}

impl ContactSlot {
    /// The slot's date is a valid calendar date.
    pub open spec fn wf(self) -> bool {
        self.date.wf()
    }

    /// Parse the compact `YYYY-MM-DD|HOUR|DURATION` form.
    pub fn from_str(s: &str) -> (r: Result<ContactSlot, SlotError>)
        ensures
            r == parse_slot_chars(s@),
            r matches Ok(slot) ==> slot.wf(),
    {
        let segments = split_pipe(s);
        if segments.len() != 3 {
            return Err(SlotError::Format);
        }
        let date = match parse_date(segments[0].as_str()) {
            Some(d) => d,
            None => {
                return Err(SlotError::Date);
            },
        };
        let hour = match parse_u32(segments[1].as_str()) {
            Some(v) => v,
            None => {
                return Err(SlotError::Hour);
            },
        };
        let duration = match parse_u32(segments[2].as_str()) {
            Some(v) => v,
            None => {
                return Err(SlotError::Duration);
            },
        };
        Ok(ContactSlot { date, hour, duration })
    }

    /// Render the slot back in its compact form.
    pub fn render(&self) -> (r: String)
        ensures
            r@ == slot_str_of(*self),
    {
        let mut out = date_string(&self.date);
        out.append("|");
        out.append(u32_string(self.hour).as_str());
        out.append("|");
        out.append(u32_string(self.duration).as_str());
        proof {
            reveal_strlit("|");
            assert(out@ =~= slot_str_of(*self));
        }
        out
    }
}

/// The compact rendering of a slot: date, hour and duration joined by pipes.
pub open spec fn slot_str_of(slot: ContactSlot) -> Seq<char> {
    date_str_of(slot.date) + seq!['|'] + dec_str(slot.hour as nat) + seq!['|'] + dec_str(
        slot.duration as nat,
    )
}

/// Splitting three pipe-free segments joined by pipes recovers the segments.
proof fn lemma_split_three(a: Seq<char>, b: Seq<char>, c: Seq<char>)
    requires
        forall|i: int| 0 <= i < a.len() ==> a[i] != '|',
        forall|i: int| 0 <= i < b.len() ==> b[i] != '|',
        forall|i: int| 0 <= i < c.len() ==> c[i] != '|',
    ensures
        split_chars(a + seq!['|'] + b + seq!['|'] + c, '|') == seq![a, b, c],
{
    let s = a + seq!['|'] + b + seq!['|'] + c;
    let t = b + seq!['|'] + c;
    assert(s[a.len() as int] == '|');
    assert(forall|i: int| 0 <= i < a.len() ==> s[i] == a[i]);
    lemma_split_at_first_sep(s, '|', a.len() as int);
    assert(s.subrange(0, a.len() as int) =~= a);
    assert(s.subrange(a.len() as int + 1, s.len() as int) =~= t);
    assert(t[b.len() as int] == '|');
    assert(forall|i: int| 0 <= i < b.len() ==> t[i] == b[i]);
    lemma_split_at_first_sep(t, '|', b.len() as int);
    assert(t.subrange(0, b.len() as int) =~= b);
    assert(t.subrange(b.len() as int + 1, t.len() as int) =~= c);
    lemma_split_no_sep(c, '|');
    assert(split_chars(s, '|') =~~= seq![a, b, c]);
}

/// Rendering a well-formed slot and parsing the result gives back the slot:
/// the compact form is a faithful encoding.
pub proof fn lemma_slot_round_trip(slot: ContactSlot)
    requires
        slot.wf(),
    ensures
        parse_slot_chars(slot_str_of(slot)) == Ok::<ContactSlot, SlotError>(slot),
{
    let a = date_str_of(slot.date);
    let h = dec_str(slot.hour as nat);
    let u = dec_str(slot.duration as nat);
    lemma_date_str_round_trip(slot.date);
    lemma_dec_str_numeral(slot.hour as nat);
    lemma_dec_str_numeral(slot.duration as nat);
    lemma_dec_str_digits(slot.hour as nat);
    lemma_dec_str_digits(slot.duration as nat);
    assert forall|i: int| 0 <= i < a.len() implies a[i] != '|' by {
        if i == 4 || i == 7 {
        } else if i < 4 {
            assert(is_digit(a.subrange(0, 4)[i]));
        } else if i < 7 {
            assert(is_digit(a.subrange(5, 7)[i - 5]));
        } else {
            assert(is_digit(a.subrange(8, 10)[i - 8]));
        }
    }
    assert forall|i: int| 0 <= i < h.len() implies h[i] != '|' by {
        assert(is_digit(h[i]));
    }
    assert forall|i: int| 0 <= i < u.len() implies u[i] != '|' by {
        assert(is_digit(u[i]));
    }
    lemma_split_three(a, h, u);
    assert(slot_str_of(slot) == a + seq!['|'] + h + seq!['|'] + u);
    let segments = split_chars(slot_str_of(slot), '|');
    assert(segments[0] == a && segments[1] == h && segments[2] == u);
}

/// A well-formed slot string — three pipe-separated segments holding a valid
/// date and two in-range integers — parses, and the slot's fields equal the
/// parsed components exactly.
pub proof fn lemma_well_formed_slot_parses(s: Seq<char>)
    requires
        split_chars(s, '|').len() == 3,
        is_date_str(split_chars(s, '|')[0]),
        is_u32_numeral(split_chars(s, '|')[1]),
        is_u32_numeral(split_chars(s, '|')[2]),
    ensures
        parse_slot_chars(s) == Ok::<ContactSlot, SlotError>(
            ContactSlot {
                date: date_of_str(split_chars(s, '|')[0]),
                hour: u32_numeral_value(split_chars(s, '|')[1]) as u32,
                duration: u32_numeral_value(split_chars(s, '|')[2]) as u32,
            },
        ),
{
}

/// A slot string that does not split into exactly three pipe-separated
/// segments is rejected as a format error.
pub proof fn lemma_wrong_segment_count_rejected(s: Seq<char>)
    requires
        split_chars(s, '|').len() != 3,
    ensures
        parse_slot_chars(s) == Err::<ContactSlot, SlotError>(SlotError::Format),
{
}

} // verus!
