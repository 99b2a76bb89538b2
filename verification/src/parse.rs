//! The property parser: one record block of property lines becomes exactly
//! one task record.  It never fails; unusable lines are skipped and missing
//! fields are defaulted.

use vstd::prelude::*;
use crate::chars::{first_idx, trim_spec, trim_chars, find_char, chars_eq_str, str_to_chars,
    chars_to_string};
use crate::dates::{due_value_spec, created_value_spec, due_value, created_value};
use crate::escape::{unescape_spec, unescape_chars};
use crate::record::{Todo, TodoView};
use crate::scan::{lines_spec, blocks_of, scan_blocks, split_lines, copy_range};

verus! {

/// The fields gathered while scanning a record block, before defaulting.
pub struct RecView {
    pub id: Seq<char>,
    pub title: Seq<char>,
    pub description: Seq<char>,
    pub completed: bool,
    pub priority: Seq<char>,
    pub category: Option<Seq<char>>,
    pub due_date: Option<Seq<char>>,
    pub created_at: Option<Seq<char>>,
}

/// The state before any property line is read.
pub open spec fn init_rec() -> RecView {
    RecView {
        id: Seq::empty(),
        title: Seq::empty(),
        description: Seq::empty(),
        completed: false,
        priority: "medium"@,
        category: None,
        due_date: None,
        created_at: None,
    }
}

/// The priority category named by a `PRIORITY` value: `1` to `3` is high,
/// `7` to `9` is low, everything else (including `4` to `6`, the empty
/// value and non-numbers) is medium.
pub open spec fn priority_of(v: Seq<char>) -> Seq<char> {
    if v == "1"@ || v == "2"@ || v == "3"@ {
        "high"@
    } else if v == "7"@ || v == "8"@ || v == "9"@ {
        "low"@
    } else {
        "medium"@
    }
}

/// One property line applied to the scan state: trim, split at the first
/// colon, take the name up to the first semicolon, and apply the field
/// rule for that name.  Lines without a colon and unknown names do nothing.
pub open spec fn apply_line(st: RecView, line: Seq<char>) -> RecView {
    let l = trim_spec(line);
    if l.len() == 0 {
        st
    } else {
        let ci = first_idx(l, ':');
        if ci == l.len() {
            st
        } else {
            let name_full = l.take(ci);
            let semi = first_idx(name_full, ';');
            let name = name_full.take(semi);
            let value = l.skip(ci + 1);
            if name == "UID"@ {
                RecView { id: value, ..st }
            } else if name == "SUMMARY"@ {
                RecView { title: unescape_spec(value), ..st }
            } else if name == "DESCRIPTION"@ {
                RecView { description: unescape_spec(value), ..st }
            } else if name == "STATUS"@ {
                RecView { completed: value == "COMPLETED"@, ..st }
            } else if name == "PRIORITY"@ {
                RecView { priority: priority_of(value), ..st }
            } else if name == "CATEGORIES"@ {
                RecView { category: Some(unescape_spec(value)), ..st }
            } else if name == "DUE"@ {
                match due_value_spec(value) {
                    Some(d) => RecView { due_date: Some(d), ..st },
                    None => st,
                }
            } else if name == "CREATED"@ || name == "DTSTAMP"@ {
                match created_value_spec(value) {
                    Some(d) => RecView { created_at: Some(d), ..st },
                    None => st,
                }
            } else {
                st
            }
        }
    }
}

/// The scan state after all lines of a block, top to bottom: a later line
/// writing a field wins over an earlier one.
pub open spec fn fold_lines(st: RecView, lines: Seq<Seq<char>>) -> RecView
    decreases lines.len(),
{
    if lines.len() == 0 {
        st
    } else {
        fold_lines(apply_line(st, lines[0]), lines.skip(1))
    }
}

/// Defaulting after the scan: an empty id becomes the synthesized `fid`,
/// an empty title the fixed placeholder; the source name is attached.
pub open spec fn finish_rec(st: RecView, source: Seq<char>, fid: Seq<char>) -> TodoView {
    TodoView {
        id: if st.id.len() == 0 {
            fid
        } else {
            st.id
        },
        title: if st.title.len() == 0 {
            "Untitled Task"@
        } else {
            st.title
        },
        description: st.description,
        completed: st.completed,
        priority: st.priority,
        category: st.category,
        due_date: st.due_date,
        created_at: st.created_at,
        calendar_name: source,
    }
}

/// The record parsed from one block, given the identifier `fid` to use if
/// the block names none.
pub open spec fn parse_vtodo_spec(lines: Seq<Seq<char>>, source: Seq<char>, fid: Seq<char>) -> TodoView {
    finish_rec(fold_lines(init_rec(), lines), source, fid)
}

// ------------------------------------------------------------------
// Executable code
// ------------------------------------------------------------------
struct RecState {
    id: Vec<char>,
    title: Vec<char>,
    description: Vec<char>,
    completed: bool,
    priority: Vec<char>,
    category: Option<Vec<char>>,
    due_date: Option<Vec<char>>,
    created_at: Option<Vec<char>>,
}

spec fn rec_view(st: RecState) -> RecView {
    RecView {
        id: st.id@,
        title: st.title@,
        description: st.description@,
        completed: st.completed,
        priority: st.priority@,
        category: match st.category {
            Some(c) => Some(c@),
            None => None,
        },
        due_date: match st.due_date {
            Some(d) => Some(d@),
            None => None,
        },
        created_at: match st.created_at {
            Some(c) => Some(c@),
            None => None,
        },
    }
}

fn apply_line_exec(st: RecState, line: &Vec<char>) -> (r: RecState)
    ensures
        rec_view(r) == apply_line(rec_view(st), line@),
{
    let l = trim_chars(line);
    if l.len() == 0 {
        return st;
    }
    let ci = find_char(&l, ':');
    if ci == l.len() {
        return st;
    }
    let name_full = copy_range(&l, 0, ci);
    proof {
        assert(name_full@ =~= trim_spec(line@).take(ci as int));
    }
    let semi = find_char(&name_full, ';');
    let name = copy_range(&name_full, 0, semi);
    proof {
        assert(name@ =~= name_full@.take(semi as int));
    }
    let value = copy_range(&l, ci + 1, l.len());
    proof {
        assert(value@ =~= trim_spec(line@).skip(ci as int + 1));
    }
    if chars_eq_str(&name, "UID") {
        RecState { id: value, ..st }
    } else if chars_eq_str(&name, "SUMMARY") {
        RecState { title: unescape_chars(value), ..st }
    } else if chars_eq_str(&name, "DESCRIPTION") {
        RecState { description: unescape_chars(value), ..st }
    } else if chars_eq_str(&name, "STATUS") {
        let done = chars_eq_str(&value, "COMPLETED");
        RecState { completed: done, ..st }
    } else if chars_eq_str(&name, "PRIORITY") {
        let p: &str = if chars_eq_str(&value, "1") || chars_eq_str(&value, "2") || chars_eq_str(
            &value,
            "3",
        ) {
            "high"
        } else if chars_eq_str(&value, "7") || chars_eq_str(&value, "8") || chars_eq_str(
            &value,
            "9",
        ) {
            "low"
        } else {
            "medium"
        };
        RecState { priority: str_to_chars(p), ..st }
    } else if chars_eq_str(&name, "CATEGORIES") {
        RecState { category: Some(unescape_chars(value)), ..st }
    } else if chars_eq_str(&name, "DUE") {
        match due_value(&value) {
            Some(d) => RecState { due_date: Some(d), ..st },
            None => st,
        }
    } else if chars_eq_str(&name, "CREATED") || chars_eq_str(&name, "DTSTAMP") {
        match created_value(&value) {
            Some(d) => RecState { created_at: Some(d), ..st },
            None => st,
        }
    } else {
        st
    }
}

/// Relies on `uuid::Uuid::new_v4` and the `Display` impl of `Uuid`: a fresh
/// random identifier formats as 36 characters in hyphenated form.
#[verifier::external_body]
fn new_uid() -> (r: String)
    ensures
        r@.len() == 36,
{
    uuid::Uuid::new_v4().to_string()
}

/// Parse one record block, handed as its raw lines.  Never fails: a record
/// always comes back, with a fresh 36-character identifier if the block
/// named none, and the placeholder title if it named no usable summary.
pub fn parse_vtodo_block(lines: &Vec<Vec<char>>, calendar_name: &str) -> (r: Todo)
    ensures
        exists|fid: Seq<char>|
            fid.len() == 36 && r@ == #[trigger] parse_vtodo_spec(
                lines.deep_view(),
                calendar_name@,
                fid,
            ),
{
    let ghost lv = lines.deep_view();
    let mut st = RecState {
        id: Vec::new(),
        title: Vec::new(),
        description: Vec::new(),
        completed: false,
        priority: str_to_chars("medium"),
        category: None,
        due_date: None,
        created_at: None,
    };
    proof {
        assert(rec_view(st) == init_rec());
        assert(lv.skip(0) =~= lv);
    }
    let mut i: usize = 0;
    while i < lines.len()
        invariant
            i <= lines.len(),
            lv == lines.deep_view(),
            lv.len() == lines.len(),
            fold_lines(rec_view(st), lv.skip(i as int)) == fold_lines(init_rec(), lv),
        decreases lines.len() - i,
    {
        let ghost rest = lv.skip(i as int);
        proof {
            assert(lv[i as int] == lines@[i as int]@);
            assert(rest[0] == lv[i as int]);
            assert(rest.skip(1) =~= lv.skip(i as int + 1));
        }
        st = apply_line_exec(st, &lines[i]);
        i += 1;
    }
    proof {
        assert(lv.skip(lines.len() as int).len() == 0);
        assert(fold_lines(rec_view(st), lv.skip(lines.len() as int)) == rec_view(st));
    }
    let ghost folded = rec_view(st);
    let RecState { id, title, description, completed, priority, category, due_date, created_at } =
        st;
    let id_str: String = if id.len() == 0 {
        new_uid()
    } else {
        chars_to_string(&id)
    };
    let ghost fid_used: Seq<char> = if folded.id.len() == 0 {
        id_str@
    } else {
        Seq::new(36, |k: int| 'x')
    };
    let title_str: String = if title.len() == 0 {
        let t = str_to_chars("Untitled Task");
        chars_to_string(&t)
    } else {
        chars_to_string(&title)
    };
    let r = Todo {
        id: id_str,
        title: title_str,
        description: chars_to_string(&description),
        completed,
        priority: chars_to_string(&priority),
        category: match category {
            Some(c) => Some(chars_to_string(&c)),
            None => None,
        },
        due_date: match due_date {
            Some(d) => Some(chars_to_string(&d)),
            None => None,
        },
        created_at: match created_at {
            Some(c) => Some(chars_to_string(&c)),
            None => None,
        },
        calendar_name: {
            let cn = str_to_chars(calendar_name);
            chars_to_string(&cn)
        },
    };
    proof {
        assert(fid_used.len() == 36);
        assert(r@ == finish_rec(folded, calendar_name@, fid_used));
        assert(r@ == parse_vtodo_spec(lv, calendar_name@, fid_used));
    }
    r
}

/// Parse one record block handed as strings, one property line each.
pub fn parse_vtodo_from_lines(lines: &Vec<String>, calendar_name: &str) -> (r: Todo)
    ensures
        exists|fid: Seq<char>|
            fid.len() == 36 && r@ == #[trigger] parse_vtodo_spec(
                lines.deep_view(),
                calendar_name@,
                fid,
            ),
{
    let mut raw: Vec<Vec<char>> = Vec::new();
    let mut i: usize = 0;
    while i < lines.len()
        invariant
            i <= lines.len(),
            raw.deep_view() == lines.deep_view().take(i as int),
        decreases lines.len() - i,
    {
        let ghost prev = raw.deep_view();
        raw.push(str_to_chars(lines[i].as_str()));
        proof {
            assert(lines.deep_view()[i as int] == lines@[i as int]@);
            assert(raw.deep_view() =~~= prev.push(lines@[i as int]@));
            assert(prev.push(lines.deep_view()[i as int]) =~= lines.deep_view().take(i as int + 1));
        }
        i += 1;
    }
    proof {
        assert(lines.deep_view().take(lines.len() as int) =~= lines.deep_view());
    }
    parse_vtodo_block(&raw, calendar_name)
}

/// What `parse_calendar` yields: one record per extracted block, each parsed
/// by the property parser with some synthesized identifier.
pub open spec fn parsed_records_ok(r: Seq<Todo>, text: Seq<char>, source: Seq<char>) -> bool {
    let blocks = blocks_of(lines_spec(text));
    &&& r.len() == blocks.len()
    &&& forall|k: int|
        0 <= k < blocks.len() ==> exists|fid: Seq<char>|
            fid.len() == 36 && (#[trigger] r[k])@ == parse_vtodo_spec(blocks[k], source, fid)
}

/// Parse whole calendar text: scan out the record blocks and parse each.
/// Total: malformed text yields the records of whatever blocks it holds.
pub fn parse_calendar(text: &str, calendar_name: &str) -> (r: Vec<Todo>)
    ensures
        parsed_records_ok(r@, text@, calendar_name@),
{
    let v = str_to_chars(text);
    let lines = split_lines(&v);
    let blocks = scan_blocks(&lines);
    let ghost bv = blocks.deep_view();
    let mut r: Vec<Todo> = Vec::new();
    let mut i: usize = 0;
    while i < blocks.len()
        invariant
            i <= blocks.len(),
            bv == blocks.deep_view(),
            bv.len() == blocks.len(),
            bv == blocks_of(lines_spec(text@)),
            r@.len() == i,
            forall|k: int|
                0 <= k < i ==> exists|fid: Seq<char>|
                    fid.len() == 36 && (#[trigger] r@[k])@ == parse_vtodo_spec(
                        bv[k],
                        calendar_name@,
                        fid,
                    ),
        decreases blocks.len() - i,
    {
        let todo = parse_vtodo_block(&blocks[i], calendar_name);
        proof {
            assert(blocks@[i as int].deep_view() == bv[i as int]);
        }
        r.push(todo);
        i += 1;
    }
    r
}

} // verus!
