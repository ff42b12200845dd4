//! Days of the week.

use vstd::prelude::*;

verus! {

/// A day of the week.
#[derive(Clone, Copy, Debug, PartialEq, Eq, Hash, Structural)]
pub enum Weekday {
    Monday,
    Tuesday,
    Wednesday,
    Thursday,
    Friday,
    Saturday,
    Sunday,
}

/// The zero-based index of a weekday counted from Monday.
pub open spec fn weekday_index(w: Weekday) -> int {
    match w {
        Weekday::Monday => 0,
        Weekday::Tuesday => 1,
        Weekday::Wednesday => 2,
        Weekday::Thursday => 3,
        Weekday::Friday => 4,
        Weekday::Saturday => 5,
        Weekday::Sunday => 6,
    }
}

/// The weekday with the given zero-based index counted from Monday.
pub fn weekday_from_index(idx: u8) -> (w: Weekday)
    requires
        idx < 7,
    ensures
        weekday_index(w) == idx,
{
    match idx {
        0 => Weekday::Monday,
        1 => Weekday::Tuesday,
        2 => Weekday::Wednesday,
        3 => Weekday::Thursday,
        4 => Weekday::Friday,
        5 => Weekday::Saturday,
        _ => Weekday::Sunday,
    }
}

impl Weekday {
    /// The previous weekday, wrapping from Monday to Sunday.
    pub fn previous(self) -> (r: Self)
        ensures
            weekday_index(r) == (weekday_index(self) - 1) % 7,
    {
        match self {
            Weekday::Monday => Weekday::Sunday,
            Weekday::Tuesday => Weekday::Monday,
            Weekday::Wednesday => Weekday::Tuesday,
            Weekday::Thursday => Weekday::Wednesday,
            Weekday::Friday => Weekday::Thursday,
            Weekday::Saturday => Weekday::Friday,
            Weekday::Sunday => Weekday::Saturday,
        }
    }

    /// The next weekday, wrapping from Sunday to Monday.
    pub fn next(self) -> (r: Self)
        ensures
            weekday_index(r) == (weekday_index(self) + 1) % 7,
    {
        match self {
            Weekday::Monday => Weekday::Tuesday,
            Weekday::Tuesday => Weekday::Wednesday,
            Weekday::Wednesday => Weekday::Thursday,
            Weekday::Thursday => Weekday::Friday,
            Weekday::Friday => Weekday::Saturday,
            Weekday::Saturday => Weekday::Sunday,
            Weekday::Sunday => Weekday::Monday,
        }
    }

    /// The one-based number of the weekday counted from Monday.
    pub fn number_from_monday(self) -> (r: u8)
        ensures
            r == weekday_index(self) + 1,
    {
        match self {
            Weekday::Monday => 1,
            Weekday::Tuesday => 2,
            Weekday::Wednesday => 3,
            Weekday::Thursday => 4,
            Weekday::Friday => 5,
            Weekday::Saturday => 6,
            Weekday::Sunday => 7,
        }
    }

    /// The one-based number of the weekday counted from Sunday.
    pub fn number_from_sunday(self) -> (r: u8)
        ensures
            r == (weekday_index(self) + 1) % 7 + 1,
    {
        match self {
            Weekday::Monday => 2,
            Weekday::Tuesday => 3,
            Weekday::Wednesday => 4,
            Weekday::Thursday => 5,
            Weekday::Friday => 6,
            Weekday::Saturday => 7,
            Weekday::Sunday => 1,
        }
    }

    /// The zero-based number of days since Monday.
    pub fn number_days_from_monday(self) -> (r: u8)
        ensures
            r == weekday_index(self),
    {
        match self {
            Weekday::Monday => 0,
            Weekday::Tuesday => 1,
            Weekday::Wednesday => 2,
            Weekday::Thursday => 3,
            Weekday::Friday => 4,
            Weekday::Saturday => 5,
            Weekday::Sunday => 6,
        }
    }

    /// The zero-based number of days since Sunday.
    pub fn number_days_from_sunday(self) -> (r: u8)
        ensures
            r == (weekday_index(self) + 1) % 7,
    {
        match self {
            Weekday::Monday => 1,
            Weekday::Tuesday => 2,
            Weekday::Wednesday => 3,
            Weekday::Thursday => 4,
            Weekday::Friday => 5,
            Weekday::Saturday => 6,
            Weekday::Sunday => 0,
        }
    }
}

} // verus!
