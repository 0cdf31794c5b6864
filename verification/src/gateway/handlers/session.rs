//! Creating and listing sessions.

use crate::json;
use crate::json::Json;
use crate::text;
use crate::text::Text;
use vstd::prelude::*;
use vstd::string::*;

verus! {

/// A session that was created.
pub struct SessionCreated<S = String> {
    pub id: S,
    pub title: S,
}

impl View for SessionCreated<String> {
    type V = SessionCreated<Text>;

    open spec fn view(&self) -> SessionCreated<Text> {
        SessionCreated { id: self.id@, title: self.title@ }
    }
}

/// Answers `session.create`.
pub struct SessionCreateHandler;

impl SessionCreateHandler {
    /// Create a session in a process. It has the title that it is given, or
    /// none.
    pub fn handle(&self, params: &Json, pid: u32) -> (r: SessionCreated)
        ensures
            r@ == (SessionCreated {
                id: "session-"@ + text::decimal(pid as nat),
                title: json::str_member_or(params@, "title"@, "Untitled Session"@),
            }),
    {
        let title = params.get_str_or("title", "Untitled Session");
        let number = text::number(pid as u64);
        SessionCreated { id: text::cat2("session-", number.as_str()), title }
    }
}

/// The sessions that there are.
pub struct SessionListing {
    pub sessions: Vec<String>,
    pub total: usize,
}

/// Answers `session.list`.
pub struct SessionListHandler;

impl SessionListHandler {
    /// List the sessions. None is kept here.
    pub fn handle(&self) -> (r: SessionListing)
        ensures
            r.sessions@.len() == 0,
            r.total == 0,
    {
        SessionListing { sessions: Vec::new(), total: 0 }
    }
}

} // verus!
