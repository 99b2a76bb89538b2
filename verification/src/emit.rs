//! The calendar serializer: an ordered list of task records becomes
//! complete calendar text, with a fixed envelope and one record block per
//! task, every line ending in a carriage return and line feed.

use vstd::prelude::*;
use crate::chars::{str_to_chars, chars_to_string, chars_eq_str};
use crate::dates::{
    valid_date, valid_time, compact_datetime, due_encode_spec, created_encode_spec, due_encode,
    created_encode, push2, push4, month_days,
};
use crate::escape::{escape_spec, escape_chars};
use crate::record::{Todo, TodoView};

verus! {

/// A wall-clock instant, held as plain calendar fields.
#[derive(Debug, Clone, Copy)]
pub struct Stamp {
    pub year: u32,
    pub month: u32,
    pub day: u32,
    pub hour: u32,
    pub minute: u32,
    pub second: u32,
}

/// A stamp naming a real calendar date with a four-digit year and a real
/// time of day.
pub open spec fn valid_stamp(st: Stamp) -> bool {
    valid_date(st.year as int, st.month as int, st.day as int) && valid_time(
        st.hour as int,
        st.minute as int,
        st.second as int,
    )
}

/// The compact date-time text of a stamp, as `DTSTAMP` carries it.
pub open spec fn stamp_text(st: Stamp) -> Seq<char> {
    compact_datetime(
        st.year as int,
        st.month as int,
        st.day as int,
        st.hour as int,
        st.minute as int,
        st.second as int,
    )
}

pub open spec fn crlf() -> Seq<char> {
    seq!['\r', '\n']
}

/// The fixed envelope header.
pub open spec fn header_text() -> Seq<char> {
    "BEGIN:VCALENDAR"@ + crlf() + "VERSION:2.0"@ + crlf()
        + "PRODID:-//Todo Calendar//Todo Calendar//EN"@ + crlf() + "CALSCALE:GREGORIAN"@ + crlf()
}

/// The digit emitted for a stored priority: high becomes 1, low becomes 9,
/// medium and anything else become 5.
pub open spec fn priority_digit(p: Seq<char>) -> Seq<char> {
    if p == "high"@ {
        "1"@
    } else if p == "low"@ {
        "9"@
    } else {
        "5"@
    }
}

/// The opening of a record block: marker, identifier and summary lines.
pub open spec fn rec_head(r: TodoView) -> Seq<char> {
    "BEGIN:VTODO"@ + crlf() + "UID:"@ + r.id + crlf() + "SUMMARY:"@ + escape_spec(r.title) + crlf()
}

/// The description (only if non-empty), status and priority lines.
pub open spec fn rec_mid(r: TodoView) -> Seq<char> {
    (if r.description.len() > 0 {
        "DESCRIPTION:"@ + escape_spec(r.description) + crlf()
    } else {
        Seq::empty()
    }) + (if r.completed {
        "STATUS:COMPLETED"@
    } else {
        "STATUS:NEEDS-ACTION"@
    }) + crlf() + "PRIORITY:"@ + priority_digit(r.priority) + crlf()
}

/// The category line, if a category is present.
pub open spec fn cat_text(r: TodoView) -> Seq<char> {
    match r.category {
        Some(c) => "CATEGORIES:"@ + escape_spec(c) + crlf(),
        None => Seq::empty(),
    }
}

/// The due-date line, if a due date is present and encodable.
pub open spec fn due_text(r: TodoView) -> Seq<char> {
    match r.due_date {
        Some(d) => match due_encode_spec(d) {
            Some(e) => "DUE:"@ + e + crlf(),
            None => Seq::empty(),
        },
        None => Seq::empty(),
    }
}

/// The creation line, if a creation value is present and encodable.
pub open spec fn created_text(r: TodoView) -> Seq<char> {
    match r.created_at {
        Some(c) => match created_encode_spec(c) {
            Some(e) => "CREATED:"@ + e + crlf(),
            None => Seq::empty(),
        },
        None => Seq::empty(),
    }
}

/// The optional category, due date and creation lines.
pub open spec fn rec_opt(r: TodoView) -> Seq<char> {
    cat_text(r) + due_text(r) + created_text(r)
}

/// The stamp line and closing marker.
pub open spec fn rec_tail(st: Stamp) -> Seq<char> {
    "DTSTAMP:"@ + stamp_text(st) + crlf() + "END:VTODO"@ + crlf()
}

/// One record block as emitted, markers and line endings included.
pub open spec fn record_text(r: TodoView, st: Stamp) -> Seq<char> {
    rec_head(r) + rec_mid(r) + rec_opt(r) + rec_tail(st)
}

/// The record blocks of all records, in order.
pub open spec fn records_text(rs: Seq<TodoView>, st: Stamp) -> Seq<char>
    decreases rs.len(),
{
    if rs.len() == 0 {
        Seq::empty()
    } else {
        record_text(rs[0], st) + records_text(rs.skip(1), st)
    }
}

/// The whole calendar text for a record list serialized at instant `st`.
pub open spec fn serialize_spec(rs: Seq<TodoView>, st: Stamp) -> Seq<char> {
    header_text() + records_text(rs, st) + "END:VCALENDAR"@ + crlf()
}

pub proof fn lemma_records_push(rs: Seq<TodoView>, r: TodoView, st: Stamp)
    ensures
        records_text(rs.push(r), st) == records_text(rs, st) + record_text(r, st),
    decreases rs.len(),
{
    if rs.len() == 0 {
        assert(rs.push(r).skip(1) =~= Seq::<TodoView>::empty());
        assert(rs.push(r)[0] == r);
        assert(records_text(rs.push(r), st) == record_text(r, st) + records_text(
            Seq::<TodoView>::empty(),
            st,
        ));
        assert(record_text(r, st) + Seq::<char>::empty() =~= record_text(r, st));
        assert(records_text(rs, st) + record_text(r, st) =~= record_text(r, st));
    } else {
        lemma_records_push(rs.skip(1), r, st);
        assert(rs.push(r).skip(1) =~= rs.skip(1).push(r));
        assert(rs.push(r)[0] == rs[0]);
        assert(records_text(rs.push(r), st) == record_text(rs[0], st) + records_text(
            rs.skip(1).push(r),
            st,
        ));
        assert(record_text(rs[0], st) + (records_text(rs.skip(1), st) + record_text(r, st)) =~= (
        record_text(rs[0], st) + records_text(rs.skip(1), st)) + record_text(r, st));
    }
}

// ------------------------------------------------------------------
// Executable code
// ------------------------------------------------------------------
fn append_vec(out: &mut Vec<char>, v: &Vec<char>)
    ensures
        final(out)@ == old(out)@ + v@,
{
    let mut i: usize = 0;
    proof {
        assert(out@ =~= old(out)@ + v@.take(0));
    }
    while i < v.len()
        invariant
            i <= v.len(),
            out@ == old(out)@ + v@.take(i as int),
        decreases v.len() - i,
    {
        out.push(v[i]);
        proof {
            assert(old(out)@ + v@.take(i as int + 1) =~= (old(out)@ + v@.take(i as int)).push(
                v@[i as int],
            ));
        }
        i += 1;
    }
    proof {
        assert(v@.take(v.len() as int) =~= v@);
    }
}

fn append_str(out: &mut Vec<char>, s: &str)
    ensures
        final(out)@ == old(out)@ + s@,
{
    let v = str_to_chars(s);
    append_vec(out, &v);
}

fn append_crlf(out: &mut Vec<char>)
    ensures
        final(out)@ == old(out)@ + crlf(),
{
    out.push('\r');
    out.push('\n');
    proof {
        assert(out@ =~= old(out)@ + crlf());
    }
}

fn append_escaped(out: &mut Vec<char>, s: &String)
    ensures
        final(out)@ == old(out)@ + escape_spec(s@),
{
    let v = str_to_chars(s.as_str());
    let e = escape_chars(&v);
    append_vec(out, &e);
}

fn append_head(out: &mut Vec<char>, todo: &Todo)
    ensures
        final(out)@ == old(out)@ + rec_head(todo@),
{
    append_str(out, "BEGIN:VTODO");
    append_crlf(out);
    append_str(out, "UID:");
    append_str(out, todo.id.as_str());
    append_crlf(out);
    append_str(out, "SUMMARY:");
    append_escaped(out, &todo.title);
    append_crlf(out);
    proof {
        assert(out@ =~= old(out)@ + rec_head(todo@));
    }
}

fn append_mid(out: &mut Vec<char>, todo: &Todo)
    ensures
        final(out)@ == old(out)@ + rec_mid(todo@),
{
    if !todo.description.as_str().is_empty() {
        append_str(out, "DESCRIPTION:");
        append_escaped(out, &todo.description);
        append_crlf(out);
    }
    if todo.completed {
        append_str(out, "STATUS:COMPLETED");
    } else {
        append_str(out, "STATUS:NEEDS-ACTION");
    }
    append_crlf(out);
    append_str(out, "PRIORITY:");
    let pr = str_to_chars(todo.priority.as_str());
    if chars_eq_str(&pr, "high") {
        append_str(out, "1");
    } else if chars_eq_str(&pr, "low") {
        append_str(out, "9");
    } else {
        append_str(out, "5");
    }
    append_crlf(out);
    proof {
        assert(out@ =~= old(out)@ + rec_mid(todo@));
    }
}

fn append_category(out: &mut Vec<char>, todo: &Todo)
    ensures
        final(out)@ == old(out)@ + cat_text(todo@),
{
    match &todo.category {
        Some(c) => {
            append_str(out, "CATEGORIES:");
            append_escaped(out, c);
            append_crlf(out);
            proof {
                assert(out@ =~= old(out)@ + cat_text(todo@));
            }
        },
        None => {
            proof {
                assert(out@ =~= old(out)@ + cat_text(todo@));
            }
        },
    }
}

fn append_due(out: &mut Vec<char>, todo: &Todo)
    ensures
        final(out)@ == old(out)@ + due_text(todo@),
{
    match &todo.due_date {
        Some(d) => {
            let dv = str_to_chars(d.as_str());
            match due_encode(&dv) {
                Some(e) => {
                    append_str(out, "DUE:");
                    append_vec(out, &e);
                    append_crlf(out);
                    proof {
                        assert(out@ =~= old(out)@ + due_text(todo@));
                    }
                },
                None => {
                    proof {
                        assert(out@ =~= old(out)@ + due_text(todo@));
                    }
                },
            }
        },
        None => {
            proof {
                assert(out@ =~= old(out)@ + due_text(todo@));
            }
        },
    }
}

fn append_created(out: &mut Vec<char>, todo: &Todo)
    ensures
        final(out)@ == old(out)@ + created_text(todo@),
{
    match &todo.created_at {
        Some(c) => {
            let cv = str_to_chars(c.as_str());
            match created_encode(&cv) {
                Some(e) => {
                    append_str(out, "CREATED:");
                    append_vec(out, &e);
                    append_crlf(out);
                    proof {
                        assert(out@ =~= old(out)@ + created_text(todo@));
                    }
                },
                None => {
                    proof {
                        assert(out@ =~= old(out)@ + created_text(todo@));
                    }
                },
            }
        },
        None => {
            proof {
                assert(out@ =~= old(out)@ + created_text(todo@));
            }
        },
    }
}

fn append_opt(out: &mut Vec<char>, todo: &Todo)
    ensures
        final(out)@ == old(out)@ + rec_opt(todo@),
{
    append_category(out, todo);
    append_due(out, todo);
    append_created(out, todo);
    proof {
        assert(out@ =~= old(out)@ + rec_opt(todo@));
    }
}

fn append_tail(out: &mut Vec<char>, st: &Stamp)
    ensures
        final(out)@ == old(out)@ + rec_tail(*st),
{
    append_str(out, "DTSTAMP:");
    push4(out, st.year);
    push2(out, st.month);
    push2(out, st.day);
    out.push('T');
    push2(out, st.hour);
    push2(out, st.minute);
    push2(out, st.second);
    out.push('Z');
    append_crlf(out);
    append_str(out, "END:VTODO");
    append_crlf(out);
    proof {
        assert(out@ =~= old(out)@ + rec_tail(*st));
    }
}

/// Append one record block for `todo`, stamped with `st`.
fn append_record(out: &mut Vec<char>, todo: &Todo, st: &Stamp)
    ensures
        final(out)@ == old(out)@ + record_text(todo@, *st),
{
    append_head(out, todo);
    append_mid(out, todo);
    append_opt(out, todo);
    append_tail(out, st);
    proof {
        assert(out@ =~= old(out)@ + record_text(todo@, *st));
    }
}

/// Serialize a record list to calendar text, stamping every block with the
/// given instant.  Total: records whose date fields do not decode simply
/// lose those lines.
pub fn serialize_calendar_at(todos: &Vec<Todo>, now: &Stamp) -> (r: String)
    ensures
        r@ == serialize_spec(todos.deep_view(), *now),
{
    let ghost tv = todos.deep_view();
    let mut out: Vec<char> = Vec::new();
    append_str(&mut out, "BEGIN:VCALENDAR");
    append_crlf(&mut out);
    append_str(&mut out, "VERSION:2.0");
    append_crlf(&mut out);
    append_str(&mut out, "PRODID:-//Todo Calendar//Todo Calendar//EN");
    append_crlf(&mut out);
    append_str(&mut out, "CALSCALE:GREGORIAN");
    append_crlf(&mut out);
    proof {
        assert(tv.take(0).len() == 0);
        assert(out@ =~= header_text() + records_text(tv.take(0), *now));
    }
    let mut i: usize = 0;
    while i < todos.len()
        invariant
            i <= todos.len(),
            tv == todos.deep_view(),
            tv.len() == todos.len(),
            out@ == header_text() + records_text(tv.take(i as int), *now),
        decreases todos.len() - i,
    {
        append_record(&mut out, &todos[i], now);
        proof {
            assert(todos@[i as int]@ == tv[i as int]);
            lemma_records_push(tv.take(i as int), tv[i as int], *now);
            assert(tv.take(i as int).push(tv[i as int]) =~= tv.take(i as int + 1));
            assert(out@ =~= header_text() + records_text(tv.take(i as int + 1), *now));
        }
        i += 1;
    }
    append_str(&mut out, "END:VCALENDAR");
    append_crlf(&mut out);
    proof {
        assert(tv.take(todos.len() as int) =~= tv);
        assert(out@ =~= serialize_spec(tv, *now));
    }
    chars_to_string(&out)
}

/// Relies on `chrono::Utc::now` with the `Datelike` and `Timelike`
/// accessors: the month is 1 to 12, the day 1 to 31, the hour below 24,
/// and the minute and second below 60.
#[verifier::external_body]
fn now_parts() -> (r: (i64, u32, u32, u32, u32, u32))
    ensures
        1 <= r.1 <= 12,
        1 <= r.2 <= 31,
        r.3 < 24,
        r.4 < 60,
        r.5 < 60,
{
    let now = chrono::Utc::now();
    (
        chrono::Datelike::year(&now) as i64,
        chrono::Datelike::month(&now),
        chrono::Datelike::day(&now),
        chrono::Timelike::hour(&now),
        chrono::Timelike::minute(&now),
        chrono::Timelike::second(&now),
    )
}

/// Build a valid stamp from clock parts, falling back to the epoch date
/// should the parts not name a real four-digit-year instant.
pub fn stamp_from_parts(y: i64, mo: u32, d: u32, h: u32, mi: u32, s: u32) -> (st: Stamp)
    ensures
        valid_stamp(st),
        valid_date(y as int, mo as int, d as int) && valid_time(h as int, mi as int, s as int)
            ==> st == (Stamp { year: y as u32, month: mo, day: d, hour: h, minute: mi, second: s }),
{
    if 0 <= y && y <= 9999 {
        let yy = y as u32;
        if 1 <= mo && mo <= 12 && 1 <= d && d <= month_days(yy, mo) && h < 24 && mi < 60 && s < 60 {
            return Stamp { year: yy, month: mo, day: d, hour: h, minute: mi, second: s };
        }
    }
    Stamp { year: 1970, month: 1, day: 1, hour: 0, minute: 0, second: 0 }
}

/// Serialize a record list to calendar text, stamped with the wall clock:
/// the text is the serialization of the records at some valid instant.
pub fn serialize_calendar(todos: &Vec<Todo>) -> (r: String)
    ensures
        exists|st: Stamp| valid_stamp(st) && r@ == #[trigger] serialize_spec(
            todos.deep_view(),
            st,
        ),
{
    let (y, mo, d, h, mi, s) = now_parts();
    let st = stamp_from_parts(y, mo, d, h, mi, s);
    let r = serialize_calendar_at(todos, &st);
    proof {
        assert(valid_stamp(st) && r@ == serialize_spec(todos.deep_view(), st));
    }
    r
}

} // verus!
