//! The decisions of element actions: which key events a key press sends,
//! which characters typing sends one by one, and what follows a failed
//! actionability check.

use vstd::prelude::*;

use crate::error::{kind_of, CdpError, ErrorKind};
use crate::pdl::strs;
use crate::text::chars_of;

verus! {

/// How long an action waits before checking an element's actionability
/// again, in milliseconds.
pub const ACTIONABILITY_RETRY_MS: u64 = 50;

/// The kinds of key event.
#[derive(Debug, Clone, Copy, PartialEq, Eq, Structural)]
pub enum KeyEventKind {
    KeyDown,
    Char,
    KeyUp,
}

/// One key event to dispatch.
#[derive(Debug, Clone)]
pub struct KeyEvent {
    pub kind: KeyEventKind,
    /// The key's name (e.g. `Enter`, `a`).
    pub key: String,
    /// The physical key (e.g. `KeyA`); empty when unknown.
    pub code: String,
    /// The Windows virtual key code; `0` when unknown.
    pub key_code: i64,
    /// The text the key produces, if any.
    pub text: Option<String>,
}

/// A key event as plain values.
pub ghost struct SpecKeyEvent {
    pub kind: KeyEventKind,
    pub key: Seq<char>,
    pub code: Seq<char>,
    pub key_code: i64,
    pub text: Option<Seq<char>>,
}

impl View for KeyEvent {
    type V = SpecKeyEvent;

    open spec fn view(&self) -> SpecKeyEvent {
        SpecKeyEvent {
            kind: self.kind,
            key: self.key@,
            code: self.code@,
            key_code: self.key_code,
            text: match &self.text {
                Some(t) => Some(t@),
                None => None,
            },
        }
    }
}

/// The views of a list of key events.
pub open spec fn key_events_view(v: Seq<KeyEvent>) -> Seq<SpecKeyEvent> {
    v.map_values(|e: KeyEvent| e@)
}

/// The events of pressing a key with name `key`, physical code `code`,
/// virtual key code `key_code`, producing `text`: a key-down (carrying the
/// text), a character event when the key produces text, and a key-up.
pub open spec fn spec_key_press(key: Seq<char>, code: Seq<char>, key_code: i64, text: Option<Seq<char>>) -> Seq<SpecKeyEvent> {
    let down = SpecKeyEvent { kind: KeyEventKind::KeyDown, key, code, key_code, text };
    let up = SpecKeyEvent { kind: KeyEventKind::KeyUp, key, code, key_code, text: None };
    match text {
        Some(t) => seq![
            down,
            SpecKeyEvent { kind: KeyEventKind::Char, key, code, key_code, text: Some(t) },
            up,
        ],
        None => seq![down, up],
    }
}

/// The events of pressing one key.
pub fn key_press_events(key: &str, code: &str, key_code: i64, text: Option<&str>) -> (v: Vec<KeyEvent>)
    ensures
        key_events_view(v@) == spec_key_press(
            key@,
            code@,
            key_code,
            match text {
                Some(t) => Some(t@),
                None => None,
            },
        ),
{
    let mut v: Vec<KeyEvent> = Vec::new();
    let down_text = match text {
        Some(t) => Some(t.to_owned()),
        None => None,
    };
    v.push(KeyEvent { kind: KeyEventKind::KeyDown, key: key.to_owned(), code: code.to_owned(), key_code, text: down_text });
    match text {
        Some(t) => {
            v.push(KeyEvent { kind: KeyEventKind::Char, key: key.to_owned(), code: code.to_owned(), key_code, text: Some(t.to_owned()) });
        },
        None => {},
    }
    v.push(KeyEvent { kind: KeyEventKind::KeyUp, key: key.to_owned(), code: code.to_owned(), key_code, text: None });
    assert(key_events_view(v@) =~= spec_key_press(
        key@,
        code@,
        key_code,
        match text {
            Some(t) => Some(t@),
            None => None,
        },
    ));
    v
}

/// The texts sent when typing `text` one character at a time: each
/// character on its own, in order.
pub fn typed_characters(text: &str) -> (v: Vec<String>)
    ensures
        strs(v@).len() == text@.len(),
        forall|i: int| 0 <= i < text@.len() ==> #[trigger] strs(v@)[i] == seq![text@[i]],
{
    let cs = chars_of(text);
    let mut v: Vec<String> = Vec::new();
    let mut i: usize = 0;
    while i < cs.len()
        invariant
            i <= cs@.len(),
            cs@ == text@,
            v@.len() == i,
            forall|j: int| 0 <= j < i ==> #[trigger] v@[j]@ == seq![text@[j]],
        decreases cs@.len() - i,
    {
        let mut s = String::new();
        crate::text::push_char(&mut s, cs[i]);
        assert(s@ =~= seq![cs@[i as int]]);
        v.push(s);
        i = i + 1;
    }
    v
}

/// What an action does after checking that its element is actionable.
#[derive(Debug)]
pub enum AfterCheck {
    /// The element is ready: act on it.
    Proceed,
    /// Not yet: wait this many milliseconds and check again.
    RetryAfterMs(u64),
    /// Give up with this error.
    Fail(CdpError),
}

/// What an action does after an actionability check that came out as
/// `outcome`: proceed when it passed; wait and check again when it failed
/// with an error worth retrying; otherwise give up with that error.
pub fn after_actionability_check(outcome: Result<(), CdpError>) -> (r: AfterCheck)
    ensures
        match outcome {
            Ok(()) => r is Proceed,
            Err(e) => if kind_of(e) == ErrorKind::Retry {
                r == AfterCheck::RetryAfterMs(ACTIONABILITY_RETRY_MS)
            } else {
                r == AfterCheck::Fail(e)
            },
        },
{
    match outcome {
        Ok(()) => AfterCheck::Proceed,
        Err(e) => if e.is_retryable() {
            AfterCheck::RetryAfterMs(ACTIONABILITY_RETRY_MS)
        } else {
            AfterCheck::Fail(e)
        },
    }
}

} // verus!
