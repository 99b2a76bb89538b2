//! Codec for a calendar text format: VTODO record blocks inside a VCALENDAR
//! envelope, converted to and from in-memory task records.

use vstd::prelude::*;

mod chars;
mod dates;
mod emit;
mod escape;
mod parse;
mod record;
mod roundtrip;
mod scan;

pub use emit::{serialize_calendar, serialize_calendar_at, stamp_from_parts, Stamp};
pub use escape::{escape_ical_text, unescape_ical_text};
pub use parse::{parse_calendar, parse_vtodo_from_lines};
pub use record::{CalendarFile, Todo};
pub use scan::count_todos;

verus! {

} // verus!
