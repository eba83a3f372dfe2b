//! The arrival time stored with each mailbox record.
//!
//! A [`Timestamp`] holds a civil date and time in UTC as plain integers,
//! so that the store and its document codec stay total computations.
//! Reading the clock is the one outside call, behind [`now_utc`].

use vstd::prelude::*;

verus! {

use crate::text::{
    all_ascii, ascii_chars, ascii_to_string, dec_digits_padded, lemma_pad_digits_ascii,
    spec_pad_digits,
};

/// A civil date and time in UTC, to second precision.
#[derive(Debug, Clone, Copy, PartialEq, Eq, Structural)]
pub struct Timestamp {
    pub year: u16,
    pub month: u8,
    pub day: u8,
    pub hour: u8,
    pub minute: u8,
    pub second: u8,
}

/// A timestamp whose fields lie in the calendar's ranges.
pub open spec fn wf_timestamp(t: Timestamp) -> bool {
    &&& 1 <= t.month <= 12
    &&& 1 <= t.day <= 31
    &&& t.hour <= 23
    &&& t.minute <= 59
    &&& t.second <= 59
}

/// Relies on `chrono::Utc::now` and its field accessors: the current civil
/// date and time in UTC, with month in `1..=12`, day in `1..=31`, hour
/// below 24, minute and second below 60. Nothing more can be promised of
/// a clock reading; years outside `u16` are truncated.
#[verifier::external_body]
pub fn now_utc() -> (t: Timestamp)
    ensures
        wf_timestamp(t),
{
    let now = chrono::Utc::now();
    Timestamp {
        year: chrono::Datelike::year(&now) as u16,
        month: chrono::Datelike::month(&now) as u8,
        day: chrono::Datelike::day(&now) as u8,
        hour: chrono::Timelike::hour(&now) as u8,
        minute: chrono::Timelike::minute(&now) as u8,
        second: chrono::Timelike::second(&now) as u8,
    }
}

/// The bytes of a rendered timestamp: `YYYY-MM-DDTHH:MM:SS`, zero-padded.
pub open spec fn spec_timestamp_bytes(t: Timestamp) -> Seq<u8> {
    spec_pad_digits(t.year as nat, 4) + seq![45u8] + spec_pad_digits(t.month as nat, 2)
        + seq![45u8] + spec_pad_digits(t.day as nat, 2) + seq![84u8]
        + spec_pad_digits(t.hour as nat, 2) + seq![58u8] + spec_pad_digits(t.minute as nat, 2)
        + seq![58u8] + spec_pad_digits(t.second as nat, 2)
}

/// A rendered timestamp as a character sequence.
pub open spec fn spec_timestamp_str(t: Timestamp) -> Seq<char> {
    ascii_chars(spec_timestamp_bytes(t))
}

/// Renders a timestamp as `YYYY-MM-DDTHH:MM:SS`, zero-padded.
pub fn render_timestamp(t: &Timestamp) -> (s: String)
    ensures
        s@ == spec_timestamp_str(*t),
{
    proof {
        lemma_pad_digits_ascii(t.year as nat, 4);
        lemma_pad_digits_ascii(t.month as nat, 2);
        lemma_pad_digits_ascii(t.day as nat, 2);
        lemma_pad_digits_ascii(t.hour as nat, 2);
        lemma_pad_digits_ascii(t.minute as nat, 2);
        lemma_pad_digits_ascii(t.second as nat, 2);
    }
    let mut v = dec_digits_padded(t.year as u64, 4);
    proof {
        assert(all_ascii(v@));
    }
    v.push(45);
    let mut p = dec_digits_padded(t.month as u64, 2);
    v.append(&mut p);
    proof {
        assert(all_ascii(v@));
    }
    v.push(45);
    let mut p = dec_digits_padded(t.day as u64, 2);
    v.append(&mut p);
    proof {
        assert(all_ascii(v@));
    }
    v.push(84);
    let mut p = dec_digits_padded(t.hour as u64, 2);
    v.append(&mut p);
    proof {
        assert(all_ascii(v@));
    }
    v.push(58);
    let mut p = dec_digits_padded(t.minute as u64, 2);
    v.append(&mut p);
    proof {
        assert(all_ascii(v@));
    }
    v.push(58);
    let mut p = dec_digits_padded(t.second as u64, 2);
    v.append(&mut p);
    proof {
        assert(all_ascii(v@));
        assert(v@ =~= spec_timestamp_bytes(*t));
    }
    ascii_to_string(&v)
}

} // verus!
