//! The task record and calendar file types exchanged with the surrounding
//! application.

use vstd::prelude::*;

verus! {

/// One task, as parsed from a record block or handed in for serialization.
#[derive(Debug, Clone)]
pub struct Todo {
    pub id: String,
    pub title: String,
    pub description: String,
    pub completed: bool,
    pub priority: String,
    pub category: Option<String>,
    pub due_date: Option<String>,
    pub created_at: Option<String>,
    pub calendar_name: String,
}

/// The mathematical view of a task record.
pub struct TodoView {
    pub id: Seq<char>,
    pub title: Seq<char>,
    pub description: Seq<char>,
    pub completed: bool,
    pub priority: Seq<char>,
    pub category: Option<Seq<char>>,
    pub due_date: Option<Seq<char>>,
    pub created_at: Option<Seq<char>>,
    pub calendar_name: Seq<char>,
}

impl View for Todo {
    type V = TodoView;

    open spec fn view(&self) -> TodoView {
        TodoView {
            id: self.id@,
            title: self.title@,
            description: self.description@,
            completed: self.completed,
            priority: self.priority@,
            category: self.category.deep_view(),
            due_date: self.due_date.deep_view(),
            created_at: self.created_at.deep_view(),
            calendar_name: self.calendar_name@,
        }
    }
}

impl DeepView for Todo {
    type V = TodoView;

    open spec fn deep_view(&self) -> TodoView {
        self.view()
    }
}

/// A calendar file's name, location, modification time and task count, as
/// listed to the surrounding application.
#[derive(Debug, Clone)]
pub struct CalendarFile {
    pub name: String,
    pub path: String,
    pub last_modified: String,
    pub todo_count: usize,
}

} // verus!
