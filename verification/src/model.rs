//! Data model of a conversation: roles, errors, models, turns.

use crate::render::{rendered, RenderBlock};
use vstd::prelude::*;

verus! {

/// Who produced a message.
#[derive(Clone, Copy, PartialEq, Eq, Structural, Debug)]
pub enum Role {
    User,
    Assistant,
    System,
}

/// Every failure the library reports. No operation panics: each failure
/// path returns one of these.
#[derive(Clone, Copy, PartialEq, Eq, Structural, Debug)]
pub enum ChatError {
    NoModelSelected,
    EmptyPrompt,
    BackendUnavailable,
    StreamInterrupted,
    PersistenceWriteFailed,
    PersistenceReadFailed,
}

/// An available backend model: immutable once fetched.
pub struct ModelRef {
    pub name: String,
    pub size: u64,
}

impl ModelRef {
    pub fn new(name: String, size: u64) -> (m: ModelRef)
        ensures
            m.name@ == name@,
            m.size == size,
    {
        ModelRef { name, size }
    }
}

/// One message of a conversation. The display blocks are derived data:
/// a well-formed turn keeps them equal to the rendering of its text.
pub struct Turn {
    pub role: Role,
    pub content: String,
    pub blocks: Vec<RenderBlock>,
}

impl Turn {
    /// The persisted part of a turn: its role and its text.
    pub open spec fn pair(self) -> (Role, Seq<char>) {
        (self.role, self.content@)
    }

    /// The derived blocks agree with the current text.
    pub open spec fn wf(self) -> bool {
        self.blocks.deep_view() == rendered(self.content@)
    }

    /// Builds a turn with freshly derived display blocks.
    pub fn new(role: Role, content: String) -> (t: Turn)
        ensures
            t.role == role,
            t.content@ == content@,
            t.wf(),
    {
        let blocks = crate::render::render_turn(content.as_str());
        Turn { role, content, blocks }
    }
}

/// The persisted form of a sequence of turns: ordered (role, content) pairs.
pub open spec fn pairs_of(ts: Seq<Turn>) -> Seq<(Role, Seq<char>)> {
    Seq::new(ts.len(), |i: int| ts[i].pair())
}

/// One conversation: an optional storage identifier — absent until the first
/// exchange assigns one — and the ordered turns.
pub struct Session {
    pub id: Option<String>,
    pub turns: Vec<Turn>,
}

impl Session {
    /// Every turn keeps its derived blocks consistent with its text.
    pub open spec fn wf(self) -> bool {
        forall|i: int| 0 <= i < self.turns@.len() ==> (#[trigger] self.turns@[i]).wf()
    }

    /// A fresh, unsaved, empty session.
    pub fn empty() -> (s: Session)
        ensures
            s.id is None,
            s.turns@.len() == 0,
            s.wf(),
    {
        Session { id: None, turns: Vec::new() }
    }
}

} // verus!
