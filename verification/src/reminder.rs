//! Reminders, as the application keeps them in memory.

use vstd::prelude::*;

verus! {

/// A reminder.
#[derive(Debug)]
pub struct Reminder {
    pub id: u32,
    pub title: String,
    pub description: String,
    pub time: String,
    pub completed: bool,
    pub category: String,
    pub frequency: String,
}

impl Clone for Reminder {
    fn clone(&self) -> (r: Self)
        ensures
            r == *self,
    {
        Reminder {
            id: self.id,
            title: self.title.clone(),
            description: self.description.clone(),
            time: self.time.clone(),
            completed: self.completed,
            category: self.category.clone(),
            frequency: self.frequency.clone(),
        }
    }
}

impl Reminder {
    /// The reminder that a stored row stands for. The row holds the identifier
    /// as a 64-bit number, of which the low 32 bits are kept, and the
    /// completion mark as a number that is zero for an open reminder.
    pub fn from_row(
        id: i64,
        title: String,
        description: String,
        time: String,
        completed: i64,
        category: String,
        frequency: String,
    ) -> (r: Self)
        ensures
            r.id == id as u32,
            0 <= id <= u32::MAX ==> r.id == id,
            r.completed == (completed != 0),
            r.title == title,
            r.description == description,
            r.time == time,
            r.category == category,
            r.frequency == frequency,
    {
        Reminder {
            id: #[verifier::truncate]
            (id as u32),
            title,
            description,
            time,
            completed: completed != 0,
            category,
            frequency,
        }
    }
}

} // verus!
