//! Calendar dates, clock times, and UTC-offset-aware instants with exact,
//! leap-year-aware arithmetic, together with a textual encode/decode engine
//! driven by a small format-description language.
//!
//! Offsets are fixed and caller-supplied; there is no timezone database and
//! no handling of leap seconds.

mod date;
mod duration;
mod offset_date_time;
mod time;
mod weekday;
pub mod error;
pub mod format_description;
pub mod parsing;
pub mod formatting;
mod primitive_date_time;
mod utc_offset;
mod util;

pub use crate::date::Date;
pub use crate::duration::Duration;
pub use crate::offset_date_time::OffsetDateTime;
pub use crate::primitive_date_time::PrimitiveDateTime;
pub use crate::time::Time;
pub use crate::utc_offset::UtcOffset;
pub use crate::weekday::Weekday;
pub use crate::util::DateAdjustment;
