//! Capture timestamps for image entries, held as plain calendar fields and
//! rendered as `MM-DD HH:MM:SS`.

use vstd::prelude::*;

use crate::text::{spec_two_digits, two_digits, push_char};

verus! {

/// The wall-clock moment at which an image entry was captured, reduced to
/// the fields its display string shows.
#[derive(Clone, Copy, PartialEq, Eq, Structural, Debug)]
pub struct Timestamp {
    pub month: u8,
    pub day: u8,
    pub hour: u8,
    pub minute: u8,
    pub second: u8,
}

impl Timestamp {
    /// Field ranges of a calendar timestamp.
    pub open spec fn wf(self) -> bool {
        &&& 1 <= self.month <= 12
        &&& 1 <= self.day <= 31
        &&& self.hour < 24
        &&& self.minute < 60
        &&& self.second < 60
    }

    /// The `MM-DD HH:MM:SS` rendering of the timestamp.
    pub open spec fn spec_render(self) -> Seq<char> {
        spec_two_digits(self.month as int) + seq!['-'] + spec_two_digits(self.day as int)
            + seq![' '] + spec_two_digits(self.hour as int) + seq![':'] + spec_two_digits(
            self.minute as int,
        ) + seq![':'] + spec_two_digits(self.second as int)
    }

    /// Renders the timestamp as `MM-DD HH:MM:SS`.
    pub fn render(&self) -> (r: String)
        requires
            self.wf(),
        ensures
            r@ == self.spec_render(),
    {
        let mut r = two_digits(self.month);
        push_char(&mut r, '-');
        r.append(two_digits(self.day).as_str());
        push_char(&mut r, ' ');
        r.append(two_digits(self.hour).as_str());
        push_char(&mut r, ':');
        r.append(two_digits(self.minute).as_str());
        push_char(&mut r, ':');
        r.append(two_digits(self.second).as_str());
        assert(r@ =~= self.spec_render());
        r
    }
}

/// Relies on `chrono::Local::now` and the `Datelike`/`Timelike` accessors
/// `month`, `day`, `hour`, `minute` and `second`, whose documented ranges are
/// 1..=12, 1..=31, 0..=23, 0..=59 and 0..=59. Nothing more can be promised
/// of the current wall-clock time.
#[verifier::external_body]
pub(crate) fn now_stamp() -> (r: Timestamp)
    ensures
        r.wf(),
{
    let now = chrono::Local::now();
    Timestamp {
        month: chrono::Datelike::month(&now) as u8,
        day: chrono::Datelike::day(&now) as u8,
        hour: chrono::Timelike::hour(&now) as u8,
        minute: chrono::Timelike::minute(&now) as u8,
        second: chrono::Timelike::second(&now) as u8,
    }
}

} // verus!
