use chromist::error::CdpError;
use chromist::input::{
    after_actionability_check, key_press_events, typed_characters, AfterCheck, KeyEventKind,
    ACTIONABILITY_RETRY_MS,
};

#[test]
fn a_printable_key_sends_down_char_up() {
    let evs = key_press_events("a", "KeyA", 65, Some("a"));
    let kinds: Vec<KeyEventKind> = evs.iter().map(|e| e.kind).collect();
    assert_eq!(kinds, vec![KeyEventKind::KeyDown, KeyEventKind::Char, KeyEventKind::KeyUp]);
    assert_eq!(evs[0].text.as_deref(), Some("a"));
    assert_eq!(evs[1].text.as_deref(), Some("a"));
    assert_eq!(evs[2].text, None);
    assert!(evs.iter().all(|e| e.key == "a" && e.code == "KeyA" && e.key_code == 65));
}

#[test]
fn a_key_without_text_sends_down_up() {
    let evs = key_press_events("Shift", "ShiftLeft", 16, None);
    let kinds: Vec<KeyEventKind> = evs.iter().map(|e| e.kind).collect();
    assert_eq!(kinds, vec![KeyEventKind::KeyDown, KeyEventKind::KeyUp]);
    let unknown = key_press_events("F24x", "", 0, None);
    assert_eq!(unknown[0].code, "");
    assert_eq!(unknown[0].key_code, 0);
}

#[test]
fn typing_sends_each_character() {
    assert_eq!(typed_characters("hé!"), vec!["h", "é", "!"]);
    assert!(typed_characters("").is_empty());
}

#[test]
fn actionability_failures_retry_only_when_retryable() {
    assert!(matches!(after_actionability_check(Ok(())), AfterCheck::Proceed));
    assert!(matches!(
        after_actionability_check(Err(CdpError::NotFound)),
        AfterCheck::RetryAfterMs(ms) if ms == ACTIONABILITY_RETRY_MS
    ));
    assert!(matches!(
        after_actionability_check(Err(CdpError::Timeout)),
        AfterCheck::Fail(CdpError::Timeout)
    ));
}
