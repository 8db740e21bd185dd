use comhra::controller::Controller;
use comhra::model::{ChatError, ModelRef, Role};

fn with_model(name: &str) -> Controller {
    let mut c = Controller::new();
    c.select_model(Some(ModelRef::new(name.to_string(), 0)));
    c
}

#[test]
fn submit_without_model_is_rejected_and_mutates_nothing() {
    let mut c = Controller::new();
    c.set_prompt("Hello".to_string());
    let r = c.submit_prompt();
    assert!(matches!(r, Err(ChatError::NoModelSelected)));
    assert_eq!(c.session.turns.len(), 0);
    assert!(!c.generating);
    assert_eq!(c.prompt, "Hello");
    assert!(c.session.id.is_none());
}

#[test]
fn submit_with_empty_prompt_is_rejected() {
    let mut c = with_model("m1");
    let r = c.submit_prompt();
    assert!(matches!(r, Err(ChatError::EmptyPrompt)));
    assert_eq!(c.session.turns.len(), 0);
    assert!(!c.generating);
}

#[test]
fn submit_appends_user_and_empty_assistant_turns() {
    let mut c = with_model("m1");
    c.set_prompt("Hello".to_string());
    let req = c.submit_prompt().expect("must be accepted");
    assert_eq!(c.session.turns.len(), 2);
    assert_eq!(c.session.turns[0].role, Role::User);
    assert_eq!(c.session.turns[0].content, "Hello");
    assert_eq!(c.session.turns[1].role, Role::Assistant);
    assert_eq!(c.session.turns[1].content, "");
    assert!(c.generating);
    assert_eq!(c.prompt, "");
    // the outbound history carries the user turn, not the empty assistant turn
    assert_eq!(req.messages.len(), 1);
    assert_eq!(req.messages[0].role, Role::User);
    assert_eq!(req.messages[0].content, "Hello");
    assert_eq!(req.model_name, "m1");
}

#[test]
fn scenario_submit_hello_persists_both_turns() {
    // model "m1" selected, submit "Hello", stream delivers two fragments:
    // the persisted document holds the user turn and the concatenation.
    let mut c = with_model("m1");
    c.set_prompt("Hello".to_string());
    let req = c.submit_prompt().expect("accepted");
    assert!(c.apply_chunk(req.token, "Hi "));
    assert!(c.apply_chunk(req.token, "there"));
    let persist = c.stream_ended(req.token).expect("must order a save");
    assert_eq!(persist.id, "Hello");
    assert_eq!(
        persist.json,
        "[{\"role\":\"user\",\"content\":\"Hello\"},{\"role\":\"assistant\",\"content\":\"Hi there\"}]"
    );
    assert!(persist.refresh, "a fresh identifier must refresh the listing");
    assert!(!c.generating);
}

#[test]
fn chunks_one_by_one_equal_one_chunk() {
    let mut a = with_model("m");
    a.set_prompt("q".to_string());
    let ra = a.submit_prompt().unwrap();
    assert!(a.apply_chunk(ra.token, "one"));
    assert!(a.apply_chunk(ra.token, "two"));
    assert!(a.apply_chunk(ra.token, "three"));

    let mut b = with_model("m");
    b.set_prompt("q".to_string());
    let rb = b.submit_prompt().unwrap();
    assert!(b.apply_chunk(rb.token, "onetwothree"));

    assert_eq!(a.session.turns[1].content, b.session.turns[1].content);
}

#[test]
fn identifier_is_stable_across_submissions() {
    let mut c = with_model("m");
    c.set_prompt("first prompt".to_string());
    let r1 = c.submit_prompt().unwrap();
    assert!(c.apply_chunk(r1.token, "answer"));
    c.stream_ended(r1.token).unwrap();
    let id1 = c.session.id.clone().unwrap();
    assert_eq!(id1, "first prompt");

    c.set_prompt("second prompt".to_string());
    let r2 = c.submit_prompt().unwrap();
    c.stream_ended(r2.token).unwrap();
    assert_eq!(c.session.id.clone().unwrap(), id1);
}

#[test]
fn stale_token_never_mutates_replacement_session() {
    let mut c = with_model("m");
    c.set_prompt("doomed".to_string());
    let req = c.submit_prompt().unwrap();
    // a new chat invalidates the token of the in-flight exchange
    let _ = c.new_chat();
    assert_eq!(c.session.turns.len(), 0);
    assert!(!c.apply_chunk(req.token, "late chunk"));
    assert_eq!(c.session.turns.len(), 0);
    assert!(c.stream_ended(req.token).is_none());
}

#[test]
fn new_chat_persists_identified_session_first() {
    let mut c = with_model("m");
    c.set_prompt("keep me".to_string());
    let req = c.submit_prompt().unwrap();
    assert!(c.apply_chunk(req.token, "saved"));
    c.stream_ended(req.token).unwrap();
    let persist = c.new_chat().expect("an identified session is saved first");
    assert_eq!(persist.id, "keep me");
    assert!(persist.json.contains("saved"));
    assert!(c.session.id.is_none());
    assert_eq!(c.session.turns.len(), 0);
}

#[test]
fn new_chat_of_unsaved_session_saves_nothing() {
    let mut c = Controller::new();
    assert!(c.new_chat().is_none());
}

#[test]
fn scenario_loading_invalid_json_leaves_session_unchanged() {
    let mut c = with_model("m");
    c.set_prompt("original".to_string());
    let req = c.submit_prompt().unwrap();
    assert!(c.apply_chunk(req.token, "text"));
    c.stream_ended(req.token).unwrap();
    let before_len = c.session.turns.len();
    let r = c.load_session("other".to_string(), "{invalid json");
    assert!(matches!(r, Err(ChatError::PersistenceReadFailed)));
    assert_eq!(c.session.turns.len(), before_len);
    assert_eq!(c.session.id.clone().unwrap(), "original");
    assert_eq!(c.session.turns[0].content, "original");
}

#[test]
fn load_replaces_session_wholesale() {
    let mut c = Controller::new();
    let doc = "[{\"role\":\"user\",\"content\":\"old q\"},{\"role\":\"assistant\",\"content\":\"old a\"}]";
    c.load_session("old q".to_string(), doc).expect("must load");
    assert_eq!(c.session.id.clone().unwrap(), "old q");
    assert_eq!(c.session.turns.len(), 2);
    assert_eq!(c.session.turns[0].role, Role::User);
    assert_eq!(c.session.turns[0].content, "old q");
    assert_eq!(c.session.turns[1].role, Role::Assistant);
    assert_eq!(c.session.turns[1].content, "old a");
    assert!(!c.session.turns[1].blocks.is_empty());
}

#[test]
fn load_cancels_inflight_exchange() {
    let mut c = with_model("m");
    c.set_prompt("racing".to_string());
    let req = c.submit_prompt().unwrap();
    c.load_session("other".to_string(), "[]").expect("must load");
    assert!(!c.apply_chunk(req.token, "late"));
    assert_eq!(c.session.turns.len(), 0);
}

#[test]
fn stream_failure_preserves_partial_content() {
    let mut c = with_model("m");
    c.set_prompt("q".to_string());
    let req = c.submit_prompt().unwrap();
    assert!(c.apply_chunk(req.token, "partial ans"));
    c.stream_failed(req.token, ChatError::StreamInterrupted);
    assert!(!c.generating);
    assert_eq!(c.last_error, Some(ChatError::StreamInterrupted));
    assert_eq!(c.session.turns[1].content, "partial ans");
}

#[test]
fn model_catalog_failure_is_recoverable() {
    let mut c = Controller::new();
    c.set_models_failed();
    assert!(c.models.is_empty());
    assert!(c.models_failed);
    assert_eq!(c.last_error, Some(ChatError::BackendUnavailable));
    // a retry can still succeed afterwards
    c.set_models(vec![ModelRef::new("m".to_string(), 7)]);
    assert!(!c.models_failed);
    assert_eq!(c.models.len(), 1);
    assert_eq!(c.models[0].name, "m");
}

#[test]
fn select_model_leaves_turns_alone() {
    let mut c = with_model("m");
    c.set_prompt("hi".to_string());
    let req = c.submit_prompt().unwrap();
    c.stream_ended(req.token).unwrap();
    let n = c.session.turns.len();
    c.select_model(None);
    assert_eq!(c.session.turns.len(), n);
    assert!(c.model.is_none());
}

#[test]
fn derived_identifier_is_truncated_and_sanitized() {
    let mut c = with_model("m");
    c.set_prompt("a/b:c*d".to_string());
    c.submit_prompt().unwrap();
    assert_eq!(c.session.id.clone().unwrap(), "a_b_c_d");

    let mut d = with_model("m");
    let long = "x".repeat(100);
    d.set_prompt(long);
    d.submit_prompt().unwrap();
    assert_eq!(d.session.id.clone().unwrap(), "x".repeat(40));
}

#[test]
fn second_save_does_not_ask_for_listing_refresh() {
    let mut c = with_model("m");
    c.set_prompt("title".to_string());
    let r1 = c.submit_prompt().unwrap();
    let p1 = c.stream_ended(r1.token).unwrap();
    assert!(p1.refresh);
    c.set_prompt("more".to_string());
    let r2 = c.submit_prompt().unwrap();
    let p2 = c.stream_ended(r2.token).unwrap();
    assert!(!p2.refresh);
}

#[test]
fn apply_chunk_recomputes_blocks_from_full_text() {
    let mut c = with_model("m");
    c.set_prompt("q".to_string());
    let req = c.submit_prompt().unwrap();
    assert!(c.apply_chunk(req.token, "# Ti"));
    assert!(c.apply_chunk(req.token, "tle"));
    let blocks = &c.session.turns[1].blocks;
    assert_eq!(blocks.len(), 1);
    match &blocks[0] {
        comhra::render::RenderBlock::Heading { level, text } => {
            assert_eq!(*level, 1);
            assert_eq!(text, "Title");
        },
        other => panic!("expected a heading, got {:?}", std::mem::discriminant(other)),
    }
}

#[test]
fn persisted_document_loads_back_identically() {
    let mut c = with_model("m");
    c.set_prompt("Hello".to_string());
    let req = c.submit_prompt().unwrap();
    assert!(c.apply_chunk(req.token, "answer \"quoted\"\nsecond line"));
    let persist = c.stream_ended(req.token).unwrap();

    let mut d = Controller::new();
    d.load_session(persist.id.clone(), &persist.json)
        .expect("what was saved must load");
    assert_eq!(d.session.id.clone().unwrap(), persist.id);
    assert_eq!(d.session.turns.len(), c.session.turns.len());
    for (x, y) in c.session.turns.iter().zip(d.session.turns.iter()) {
        assert_eq!(x.role, y.role);
        assert_eq!(x.content, y.content);
    }
}

#[test]
fn chunk_when_idle_is_discarded() {
    let mut c = Controller::new();
    assert!(!c.apply_chunk(0, "noise"));
    assert_eq!(c.session.turns.len(), 0);
}
