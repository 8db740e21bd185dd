use comhra::render::{render_turn, RenderBlock};

fn texts(blocks: &[RenderBlock]) -> Vec<(String, String)> {
    blocks
        .iter()
        .map(|b| match b {
            RenderBlock::Heading { level, text } => (format!("h{}", level), text.clone()),
            RenderBlock::Bullet { text } => ("bullet".to_string(), text.clone()),
            RenderBlock::CodeLine { text } => ("code".to_string(), text.clone()),
            RenderBlock::Paragraph { text } => ("p".to_string(), text.clone()),
        })
        .collect()
}

#[test]
fn empty_text_renders_no_blocks() {
    assert!(render_turn("").is_empty());
    assert!(render_turn("   ").is_empty());
    assert!(render_turn("\n\n").is_empty());
}

#[test]
fn paragraphs_one_per_line() {
    let t = texts(&render_turn("first\n\nsecond"));
    assert_eq!(
        t,
        vec![
            ("p".to_string(), "first".to_string()),
            ("p".to_string(), "second".to_string())
        ]
    );
}

#[test]
fn headings_take_their_level_from_the_hashes() {
    let t = texts(&render_turn("# One\n### Three\n####### Seven"));
    assert_eq!(
        t,
        vec![
            ("h1".to_string(), "One".to_string()),
            ("h3".to_string(), "Three".to_string()),
            // the level is capped at six
            ("h6".to_string(), "Seven".to_string()),
        ]
    );
}

#[test]
fn bullets_drop_their_marker() {
    let t = texts(&render_turn("- apples\n- pears"));
    assert_eq!(
        t,
        vec![
            ("bullet".to_string(), "apples".to_string()),
            ("bullet".to_string(), "pears".to_string())
        ]
    );
}

#[test]
fn fenced_code_keeps_lines_verbatim() {
    let t = texts(&render_turn("```\n# not a heading\n- not a bullet\n```\nafter"));
    assert_eq!(
        t,
        vec![
            ("code".to_string(), "# not a heading".to_string()),
            ("code".to_string(), "- not a bullet".to_string()),
            ("p".to_string(), "after".to_string()),
        ]
    );
}

#[test]
fn unterminated_fence_is_safe_mid_stream() {
    // a fragment may end inside a fence: the rest renders as code
    let t = texts(&render_turn("intro\n```\nlet x = 1;"));
    assert_eq!(
        t,
        vec![
            ("p".to_string(), "intro".to_string()),
            ("code".to_string(), "let x = 1;".to_string()),
        ]
    );
}
