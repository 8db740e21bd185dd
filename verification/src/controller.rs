//! The streaming conversation controller: the one owner of conversation
//! state. User intents and backend events enter as calls; the controller
//! mutates the session, and hands back the outbound work — a chat request to
//! send, a document to persist — as plain values for the shell to carry out.
//!
//! Every exchange carries a generation token: the epoch at which it was
//! started. Replacing the session (a new chat, a load) increments the epoch,
//! so fragments of a superseded exchange can never touch the replacement.

use crate::codec::{doc_json, encode_session, p_doc, parse_session};
use crate::model::{pairs_of, ChatError, ModelRef, Role, Session, Turn};
use vstd::prelude::*;
use vstd::string::StringExecFns;

verus! {

/// Most characters a storage identifier may take from the prompt.
pub const TITLE_LEN: usize = 40;

/// The sanitized form of one identifier character: letters, digits, space,
/// dash and underscore stand for themselves; everything else becomes an
/// underscore, so the identifier is safe as a path component.
pub open spec fn sanitize_char(c: char) -> char {
    if ('a' <= c && c <= 'z') || ('A' <= c && c <= 'Z') || ('0' <= c && c <= '9') || c == ' ' || c
        == '-' || c == '_' {
        c
    } else {
        '_'
    }
}

/// The sanitized form of a whole title.
pub open spec fn sanitize(s: Seq<char>) -> Seq<char> {
    Seq::new(s.len(), |i: int| sanitize_char(s[i]))
}

/// The storage identifier a prompt derives: its first characters, at most
/// `TITLE_LEN` of them, sanitized.
pub open spec fn derived_id(prompt: Seq<char>) -> Seq<char> {
    if prompt.len() <= TITLE_LEN as int {
        sanitize(prompt)
    } else {
        sanitize(prompt.take(TITLE_LEN as int))
    }
}

/// Whether a delivered fragment is applied: only while an exchange is in
/// progress, and only when the fragment's token is the current epoch.
pub open spec fn chunk_applies(generating: bool, epoch: u64, token: u64) -> bool {
    generating && token == epoch
}

/// A turn's content after one fragment has been applied.
pub open spec fn extended(content: Seq<char>, chunk: Seq<char>) -> Seq<char> {
    content + chunk
}

/// One outbound message of a chat request.
pub struct OutMessage {
    pub role: Role,
    pub content: String,
}

/// The chat request an accepted submission produces: the model to ask, the
/// history to send, and the generation token of the new exchange.
pub struct ChatRequest {
    pub model_name: String,
    pub messages: Vec<OutMessage>,
    pub token: u64,
}

/// A persistence order: write `json` under the session identifier `id`;
/// `refresh` asks the shell to reload the session listing afterwards.
pub struct PersistRequest {
    pub id: String,
    pub json: String,
    pub refresh: bool,
}

/// The controller's whole state.
pub struct Controller {
    pub session: Session,
    pub prompt: String,
    pub model: Option<ModelRef>,
    pub models: Vec<ModelRef>,
    pub models_failed: bool,
    pub conversations: Vec<String>,
    pub generating: bool,
    pub epoch: u64,
    pub refresh_on_end: bool,
    pub last_error: Option<ChatError>,
}

impl Controller {
    /// Well-formedness: every turn's blocks match its text, and while an
    /// exchange is in progress the session has an identifier and ends in the
    /// assistant turn being streamed into.
    pub open spec fn wf(self) -> bool {
        &&& self.session.wf()
        &&& (self.generating ==> self.session.turns@.len() >= 1
            && self.session.turns@.last().role == Role::Assistant && self.session.id is Some)
    }

    /// A fresh controller: empty unsaved session, nothing selected, idle.
    pub fn new() -> (c: Controller)
        ensures
            c.wf(),
            c.session.id is None,
            c.session.turns@.len() == 0,
            c.prompt@.len() == 0,
            c.model is None,
            c.models@.len() == 0,
            !c.models_failed,
            c.conversations@.len() == 0,
            !c.generating,
            c.epoch == 0,
            c.last_error is None,
    {
        Controller {
            session: Session::empty(),
            prompt: String::new(),
            model: None,
            models: Vec::new(),
            models_failed: false,
            conversations: Vec::new(),
            generating: false,
            epoch: 0,
            refresh_on_end: false,
            last_error: None,
        }
    }

    /// The user edited the prompt box.
    pub fn set_prompt(&mut self, text: String)
        requires
            old(self).wf(),
        ensures
            final(self).wf(),
            final(self).prompt@ == text@,
            final(self).session == old(self).session,
            final(self).model == old(self).model,
            final(self).models == old(self).models,
            final(self).models_failed == old(self).models_failed,
            final(self).conversations == old(self).conversations,
            final(self).generating == old(self).generating,
            final(self).epoch == old(self).epoch,
            final(self).refresh_on_end == old(self).refresh_on_end,
            final(self).last_error == old(self).last_error,
    {
        self.prompt = text;
    }

    /// The user chose a model, or none to return to model selection. The
    /// session's turns are untouched.
    pub fn select_model(&mut self, m: Option<ModelRef>)
        requires
            old(self).wf(),
        ensures
            final(self).wf(),
            final(self).model == m,
            final(self).session == old(self).session,
            final(self).prompt == old(self).prompt,
            final(self).models == old(self).models,
            final(self).models_failed == old(self).models_failed,
            final(self).conversations == old(self).conversations,
            final(self).generating == old(self).generating,
            final(self).epoch == old(self).epoch,
            final(self).refresh_on_end == old(self).refresh_on_end,
            final(self).last_error == old(self).last_error,
    {
        self.model = m;
    }

    /// The model catalog arrived.
    pub fn set_models(&mut self, list: Vec<ModelRef>)
        requires
            old(self).wf(),
        ensures
            final(self).wf(),
            final(self).models == list,
            !final(self).models_failed,
            final(self).session == old(self).session,
            final(self).prompt == old(self).prompt,
            final(self).model == old(self).model,
            final(self).conversations == old(self).conversations,
            final(self).generating == old(self).generating,
            final(self).epoch == old(self).epoch,
            final(self).last_error == old(self).last_error,
    {
        self.models = list;
        self.models_failed = false;
    }

    /// The model catalog could not be fetched: a recoverable error state
    /// with an empty list, not a crash.
    pub fn set_models_failed(&mut self)
        requires
            old(self).wf(),
        ensures
            final(self).wf(),
            final(self).models@.len() == 0,
            final(self).models_failed,
            final(self).last_error == Some(ChatError::BackendUnavailable),
            final(self).session == old(self).session,
            final(self).prompt == old(self).prompt,
            final(self).model == old(self).model,
            final(self).conversations == old(self).conversations,
            final(self).generating == old(self).generating,
            final(self).epoch == old(self).epoch,
    {
        self.models = Vec::new();
        self.models_failed = true;
        self.last_error = Some(ChatError::BackendUnavailable);
    }

    /// Accepts the prompt, or reports why it cannot be accepted. On
    /// acceptance: an identifier is derived from the prompt if the session
    /// has none yet; a user turn with the prompt text and an empty assistant
    /// turn are appended; the prompt box is cleared; a new exchange begins
    /// under a fresh token; and the returned request carries the history to
    /// send — every prior turn and the new user turn, not the still-empty
    /// assistant turn. On rejection nothing changes at all.
    pub fn submit_prompt(&mut self) -> (r: Result<ChatRequest, ChatError>)
        requires
            old(self).wf(),
            !old(self).generating,
            old(self).epoch < u64::MAX,
        ensures
            final(self).wf(),
            match r {
                Ok(req) => {
                    &&& old(self).model is Some
                    &&& old(self).prompt@.len() > 0
                    &&& (old(self).session.id is Some ==> final(self).session.id == old(self).session.id)
                    &&& (old(self).session.id is None ==> final(self).session.id is Some && final(self).session.id->0@ == derived_id(old(self).prompt@))
                    &&& final(self).refresh_on_end == (old(self).session.id is None)
                    &&& final(self).session.turns@.len() == old(self).session.turns@.len() + 2
                    &&& final(self).session.turns@.take(old(self).session.turns@.len() as int)
                        == old(self).session.turns@
                    &&& final(self).session.turns@[old(self).session.turns@.len() as int].role
                        == Role::User
                    &&& final(self).session.turns@[old(self).session.turns@.len() as int].content@
                        == old(self).prompt@
                    &&& final(self).session.turns@.last().role == Role::Assistant
                    &&& final(self).session.turns@.last().content@ == Seq::<char>::empty()
                    &&& final(self).prompt@.len() == 0
                    &&& final(self).generating
                    &&& final(self).epoch == old(self).epoch + 1
                    &&& req.token == final(self).epoch
                    &&& req.model_name@ == old(self).model->0.name@
                    &&& req.messages@.len() == old(self).session.turns@.len() + 1
                    &&& forall|i: int|
                        0 <= i < old(self).session.turns@.len() ==> (#[trigger] req.messages@[i]).role
                            == old(self).session.turns@[i].role && req.messages@[i].content@ == old(self).session.turns@[i].content@
                    &&& req.messages@.last().role == Role::User
                    &&& req.messages@.last().content@ == old(self).prompt@
                    &&& final(self).model == old(self).model
                    &&& final(self).models == old(self).models
                    &&& final(self).conversations == old(self).conversations
                    &&& final(self).last_error is None
                },
                Err(e) => {
                    &&& *final(self) == *old(self)
                    &&& (old(self).model is None || old(self).prompt@.len() == 0)
                    &&& (e == ChatError::NoModelSelected <==> old(self).model is None)
                    &&& (e == ChatError::EmptyPrompt <==> old(self).model is Some && old(self).prompt@.len() == 0)
                },
            },
    {
        let model_name = match &self.model {
            Some(m) => m.name.clone(),
            None => {
                return Err(ChatError::NoModelSelected);
            },
        };
        if self.prompt.as_str().is_empty() {
            return Err(ChatError::EmptyPrompt);
        }
        if self.session.id.is_none() {
            let id = derive_id(&self.prompt);
            self.session.id = Some(id);
            self.refresh_on_end = true;
        } else {
            self.refresh_on_end = false;
        }
        let ghost turns0 = self.session.turns@;
        let mut messages: Vec<OutMessage> = Vec::new();
        let mut i: usize = 0;
        while i < self.session.turns.len()
            invariant
                i <= turns0.len(),
                self.session.turns@ == turns0,
                messages@.len() == i,
                forall|q: int|
                    0 <= q < i ==> (#[trigger] messages@[q]).role == turns0[q].role
                        && messages@[q].content@ == turns0[q].content@,
            decreases turns0.len() - i,
        {
            let t = &self.session.turns[i];
            messages.push(OutMessage { role: t.role, content: t.content.clone() });
            i = i + 1;
        }
        messages.push(OutMessage { role: Role::User, content: self.prompt.clone() });
        let user_turn = Turn::new(Role::User, self.prompt.clone());
        let asst_turn = Turn::new(Role::Assistant, String::new());
        self.session.turns.push(user_turn);
        self.session.turns.push(asst_turn);
        proof {
            assert(self.session.turns@.take(turns0.len() as int) =~= turns0);
            assert forall|q: int| 0 <= q < self.session.turns@.len() implies (
            #[trigger] self.session.turns@[q]).wf() by {
                if q < turns0.len() {
                    assert(self.session.turns@[q] == turns0[q]);
                }
            }
        }
        self.prompt = String::new();
        self.generating = true;
        self.epoch = self.epoch + 1;
        self.last_error = None;
        Ok(ChatRequest { model_name, messages, token: self.epoch })
    }

    /// Applies one streamed fragment, or discards it. A fragment is applied
    /// only while an exchange is in progress and its token is current: then
    /// the last turn's content is extended in place and that turn's display
    /// blocks are recomputed from the full text. A stale or unexpected
    /// fragment changes nothing.
    pub fn apply_chunk(&mut self, token: u64, chunk: &str) -> (applied: bool)
        requires
            old(self).wf(),
        ensures
            final(self).wf(),
            applied == chunk_applies(old(self).generating, old(self).epoch, token),
            !applied ==> *final(self) == *old(self),
            applied ==> {
                let n = old(self).session.turns@.len();
                &&& final(self).session.turns@.len() == n
                &&& final(self).session.turns@.take(n - 1) == old(self).session.turns@.take(n - 1)
                &&& final(self).session.turns@.last().role == old(self).session.turns@.last().role
                &&& final(self).session.turns@.last().content@ == extended(
                    old(self).session.turns@.last().content@,
                    chunk@,
                )
                &&& final(self).session.id == old(self).session.id
                &&& final(self).prompt == old(self).prompt
                &&& final(self).model == old(self).model
                &&& final(self).models == old(self).models
                &&& final(self).conversations == old(self).conversations
                &&& final(self).models_failed == old(self).models_failed
                &&& final(self).generating == old(self).generating
                &&& final(self).epoch == old(self).epoch
                &&& final(self).refresh_on_end == old(self).refresh_on_end
                &&& final(self).last_error == old(self).last_error
            },
    {
        if !self.generating || token != self.epoch {
            return false;
        }
        let ghost turns0 = self.session.turns@;
        let mut t = match self.session.turns.pop() {
            Some(t) => t,
            None => {
                return false;
            },
        };
        t.content.append(chunk);
        t.blocks = crate::render::render_turn(t.content.as_str());
        self.session.turns.push(t);
        proof {
            let n = turns0.len() as int;
            assert(self.session.turns@.take(n - 1) =~= turns0.take(n - 1));
            assert forall|q: int| 0 <= q < self.session.turns@.len() implies (
            #[trigger] self.session.turns@[q]).wf() by {
                if q < n - 1 {
                    assert(self.session.turns@[q] == turns0[q]);
                    assert(turns0[q].wf());
                }
            }
        }
        true
    }

    /// The stream of the exchange under `token` ended. If that exchange is
    /// still the current one, the exchange closes and the whole session is
    /// ordered persisted — after every applied fragment, never before.
    pub fn stream_ended(&mut self, token: u64) -> (r: Option<PersistRequest>)
        requires
            old(self).wf(),
        ensures
            final(self).wf(),
            !chunk_applies(old(self).generating, old(self).epoch, token) ==> *final(self) == *old(self) && r is None,
            chunk_applies(old(self).generating, old(self).epoch, token) ==> {
                &&& r is Some
                &&& r->0.id@ == old(self).session.id->0@
                &&& r->0.json@ == doc_json(pairs_of(old(self).session.turns@))
                &&& r->0.refresh == old(self).refresh_on_end
                &&& !final(self).generating
                &&& !final(self).refresh_on_end
                &&& final(self).session == old(self).session
                &&& final(self).prompt == old(self).prompt
                &&& final(self).model == old(self).model
                &&& final(self).models == old(self).models
                &&& final(self).conversations == old(self).conversations
                &&& final(self).epoch == old(self).epoch
                &&& final(self).last_error == old(self).last_error
            },
    {
        if !self.generating || token != self.epoch {
            return None;
        }
        let id = match &self.session.id {
            Some(id) => id.clone(),
            None => {
                return None;
            },
        };
        let json = encode_session(&self.session.turns);
        let refresh = self.refresh_on_end;
        self.generating = false;
        self.refresh_on_end = false;
        Some(PersistRequest { id, json, refresh })
    }

    /// The stream of the exchange under `token` failed. If that exchange is
    /// still the current one, it ends in a retryable error state; the
    /// partial assistant content already applied is preserved, not dropped.
    pub fn stream_failed(&mut self, token: u64, kind: ChatError)
        requires
            old(self).wf(),
            kind == ChatError::BackendUnavailable || kind == ChatError::StreamInterrupted,
        ensures
            final(self).wf(),
            !chunk_applies(old(self).generating, old(self).epoch, token) ==> *final(self) == *old(self),
            chunk_applies(old(self).generating, old(self).epoch, token) ==> {
                &&& !final(self).generating
                &&& final(self).last_error == Some(kind)
                &&& final(self).session == old(self).session
                &&& final(self).prompt == old(self).prompt
                &&& final(self).model == old(self).model
                &&& final(self).models == old(self).models
                &&& final(self).conversations == old(self).conversations
                &&& final(self).epoch == old(self).epoch
                &&& final(self).refresh_on_end == old(self).refresh_on_end
            },
    {
        if !self.generating || token != self.epoch {
            return;
        }
        self.generating = false;
        self.last_error = Some(kind);
    }

    /// Replaces the session with a fresh empty one. If the old session had
    /// an identifier, its document is handed back to be persisted first. The
    /// epoch moves past every token issued so far: an exchange still in
    /// flight is thereby cancelled and its fragments will be discarded.
    pub fn new_chat(&mut self) -> (r: Option<PersistRequest>)
        requires
            old(self).wf(),
            old(self).epoch < u64::MAX,
        ensures
            final(self).wf(),
            final(self).epoch == old(self).epoch + 1,
            !final(self).generating,
            final(self).session.turns@.len() == 0,
            final(self).session.id is None,
            final(self).prompt == old(self).prompt,
            final(self).model == old(self).model,
            final(self).models == old(self).models,
            final(self).models_failed == old(self).models_failed,
            final(self).conversations == old(self).conversations,
            final(self).last_error == old(self).last_error,
            r is Some <==> old(self).session.id is Some,
            old(self).session.id is Some ==> r->0.id@ == old(self).session.id->0@
                && r->0.json@ == doc_json(pairs_of(old(self).session.turns@)) && !r->0.refresh,
    {
        let r = match &self.session.id {
            Some(id) => Some(
                PersistRequest {
                    id: id.clone(),
                    json: encode_session(&self.session.turns),
                    refresh: false,
                },
            ),
            None => None,
        };
        self.session = Session::empty();
        self.generating = false;
        self.epoch = self.epoch + 1;
        self.refresh_on_end = false;
        r
    }

    /// Replaces the session wholesale with one read back from storage. A
    /// document that does not parse leaves the current session untouched and
    /// reports an explicit read error. A successful load also moves the
    /// epoch, cancelling any exchange still in flight.
    pub fn load_session(&mut self, id: String, text: &str) -> (r: Result<(), ChatError>)
        requires
            old(self).wf(),
            old(self).epoch < u64::MAX,
        ensures
            final(self).wf(),
            match r {
                Ok(()) => {
                    &&& p_doc(text@) is Some
                    &&& pairs_of(final(self).session.turns@) == p_doc(text@)->0
                    &&& final(self).session.id is Some
                    &&& final(self).session.id->0@ == id@
                    &&& final(self).epoch == old(self).epoch + 1
                    &&& !final(self).generating
                    &&& final(self).prompt == old(self).prompt
                    &&& final(self).model == old(self).model
                    &&& final(self).models == old(self).models
                    &&& final(self).models_failed == old(self).models_failed
                    &&& final(self).conversations == old(self).conversations
                    &&& final(self).last_error is None
                },
                Err(e) => {
                    &&& e == ChatError::PersistenceReadFailed
                    &&& p_doc(text@) is None
                    &&& *final(self) == *old(self)
                },
            },
    {
        let turns = match parse_session(text) {
            Ok(ts) => ts,
            Err(e) => {
                return Err(e);
            },
        };
        self.session = Session { id: Some(id), turns };
        self.generating = false;
        self.epoch = self.epoch + 1;
        self.refresh_on_end = false;
        self.last_error = None;
        Ok(())
    }

    /// The session listing arrived.
    pub fn set_conversations(&mut self, list: Vec<String>)
        requires
            old(self).wf(),
        ensures
            final(self).wf(),
            final(self).conversations == list,
            final(self).session == old(self).session,
            final(self).prompt == old(self).prompt,
            final(self).model == old(self).model,
            final(self).models == old(self).models,
            final(self).generating == old(self).generating,
            final(self).epoch == old(self).epoch,
            final(self).last_error == old(self).last_error,
    {
        self.conversations = list;
    }
}

/// The sanitized form of one identifier character.
fn sanitize_char_exec(c: char) -> (r: char)
    ensures
        r == sanitize_char(c),
{
    if ('a' <= c && c <= 'z') || ('A' <= c && c <= 'Z') || ('0' <= c && c <= '9') || c == ' ' || c
        == '-' || c == '_' {
        c
    } else {
        '_'
    }
}

/// Derives a storage identifier from a prompt.
fn derive_id(prompt: &String) -> (id: String)
    ensures
        id@ == derived_id(prompt@),
{
    let cs = crate::text::chars_of(prompt.as_str());
    let n: usize = if cs.len() > TITLE_LEN {
        TITLE_LEN
    } else {
        cs.len()
    };
    let mut out: Vec<char> = Vec::new();
    let mut i: usize = 0;
    while i < n
        invariant
            i <= n <= cs@.len(),
            cs@ == prompt@,
            out@.len() == i,
            forall|q: int| 0 <= q < i ==> out@[q] == sanitize_char(cs@[q]),
        decreases n - i,
    {
        out.push(sanitize_char_exec(cs[i]));
        i = i + 1;
    }
    proof {
        if prompt@.len() <= TITLE_LEN as int {
            assert(out@ =~= sanitize(prompt@));
        } else {
            assert(out@ =~= sanitize(prompt@.take(TITLE_LEN as int)));
        }
    }
    let id = crate::text::string_from(&out, 0);
    proof {
        assert(out@.skip(0) =~= out@);
    }
    id
}

/// Chunk associativity: applying fragments one at a time yields the same
/// content as applying their concatenation at once.
pub proof fn lemma_chunk_associative(content: Seq<char>, c1: Seq<char>, c2: Seq<char>, c3: Seq<char>)
    ensures
        extended(extended(extended(content, c1), c2), c3) == extended(content, c1 + c2 + c3),
{
    assert(extended(extended(extended(content, c1), c2), c3) =~= extended(content, c1 + c2 + c3));
}

/// Cancellation: a fragment whose token was issued before the epoch last
/// moved is never applied, whatever the rest of the state holds — and an
/// unapplied fragment, by `apply_chunk`'s contract, changes nothing.
pub proof fn lemma_stale_token_rejected(generating: bool, epoch: u64, token: u64)
    requires
        token < epoch,
    ensures
        !chunk_applies(generating, epoch, token),
{
}

} // verus!

