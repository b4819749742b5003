//! Small values of page interaction: dialogs, file choosers, console
//! locations, mouse buttons, element attributes and call arguments.

use vstd::prelude::*;

verus! {

/// The kind of a JavaScript dialog.
#[derive(Debug, Clone, Copy, PartialEq, Eq, Structural)]
pub enum DialogType {
    /// `alert(...)`: a single OK button.
    Alert,
    /// `confirm(...)`: OK / Cancel.
    Confirm,
    /// `prompt(...)`: a text input with OK / Cancel.
    Prompt,
    /// The `beforeunload` confirmation.
    BeforeUnload,
}

/// The protocol name of a dialog kind.
pub open spec fn dialog_type_text(d: DialogType) -> Seq<char> {
    match d {
        DialogType::Alert => "alert"@,
        DialogType::Confirm => "confirm"@,
        DialogType::Prompt => "prompt"@,
        DialogType::BeforeUnload => "beforeunload"@,
    }
}

/// The dialog kind a protocol name stands for; unknown names count as
/// `alert`.
pub open spec fn dialog_type_of(name: Seq<char>) -> DialogType {
    if name == "confirm"@ {
        DialogType::Confirm
    } else if name == "prompt"@ {
        DialogType::Prompt
    } else if name == "beforeunload"@ {
        DialogType::BeforeUnload
    } else {
        DialogType::Alert
    }
}

impl DialogType {
    /// The protocol name: `alert`, `confirm`, `prompt` or `beforeunload`.
    pub fn to_display_string(&self) -> (s: String)
        ensures
            s@ == dialog_type_text(*self),
    {
        match self {
            DialogType::Alert => "alert".to_owned(),
            DialogType::Confirm => "confirm".to_owned(),
            DialogType::Prompt => "prompt".to_owned(),
            DialogType::BeforeUnload => "beforeunload".to_owned(),
        }
    }

    /// The dialog kind of a protocol name; unknown names count as `alert`.
    pub fn from_protocol_name(name: &str) -> (d: Self)
        ensures
            d == dialog_type_of(name@),
    {
        let v = crate::text::chars_of(name);
        if crate::text::eq_str(v.as_slice(), "confirm") {
            DialogType::Confirm
        } else if crate::text::eq_str(v.as_slice(), "prompt") {
            DialogType::Prompt
        } else if crate::text::eq_str(v.as_slice(), "beforeunload") {
            DialogType::BeforeUnload
        } else {
            DialogType::Alert
        }
    }
}

/// The mode of an intercepted file chooser.
#[derive(Debug, Clone, Copy, PartialEq, Eq, Structural)]
pub enum FileChooserMode {
    /// `<input type="file">`: exactly one file.
    SelectSingle,
    /// `<input type="file" multiple>`: several files.
    SelectMultiple,
}

impl FileChooserMode {
    /// The protocol name: `selectSingle` or `selectMultiple`.
    pub fn to_display_string(&self) -> (s: String)
        ensures
            s@ == (match *self {
                FileChooserMode::SelectSingle => "selectSingle"@,
                FileChooserMode::SelectMultiple => "selectMultiple"@,
            }),
    {
        match self {
            FileChooserMode::SelectSingle => "selectSingle".to_owned(),
            FileChooserMode::SelectMultiple => "selectMultiple".to_owned(),
        }
    }
}

/// Source location of a console message.
#[derive(Debug, Clone)]
pub struct ConsoleLocation {
    /// Script URL of the console call.
    pub url: String,
    /// Line of the call site (0-based).
    pub line_number: i64,
    /// Column of the call site (0-based).
    pub column_number: i64,
}

/// A mouse button as callers name it.
#[derive(Debug, Clone, Copy, PartialEq, Eq, Structural)]
pub enum MouseButton {
    Left,
    Right,
    Middle,
    /// No button.
    NoButton,
}

/// A mouse button as the protocol names it.
#[derive(Debug, Clone, Copy, PartialEq, Eq, Structural)]
pub enum ProtocolMouseButton {
    /// No button.
    NoButton,
    Left,
    Middle,
    Right,
    Back,
    Forward,
}

/// The protocol button for a caller's button; "no button" presses the
/// left one.
pub fn mouse_button_to_cdp(b: &MouseButton) -> (r: ProtocolMouseButton)
    ensures
        r == (match *b {
            MouseButton::Left => ProtocolMouseButton::Left,
            MouseButton::Right => ProtocolMouseButton::Right,
            MouseButton::Middle => ProtocolMouseButton::Middle,
            MouseButton::NoButton => ProtocolMouseButton::Left,
        }),
{
    match b {
        MouseButton::Left => ProtocolMouseButton::Left,
        MouseButton::Right => ProtocolMouseButton::Right,
        MouseButton::Middle => ProtocolMouseButton::Middle,
        MouseButton::NoButton => ProtocolMouseButton::Left,
    }
}

/// An argument of a function call in the page: a JSON value, a value JSON
/// cannot hold (`NaN`, `-0`, …), or a reference to a live object.
#[derive(Debug, Clone)]
pub struct CallArgument {
    /// The argument as JSON text.
    pub value: Option<String>,
    /// A value JSON cannot hold, by name.
    pub unserializable_value: Option<String>,
    /// A live object, by its handle.
    pub object_id: Option<String>,
}

/// The call argument that passes the live object `object_id` by reference.
pub fn call_argument_for_object(object_id: &str) -> (a: CallArgument)
    ensures
        a.value is None,
        a.unserializable_value is None,
        a.object_id matches Some(o) && o@ == object_id@,
{
    CallArgument { value: None, unserializable_value: None, object_id: Some(object_id.to_owned()) }
}

/// The attributes of an element, handed out one `(name, value)` pair at a
/// time in document order.
#[derive(Debug)]
pub struct AttributeStream {
    /// All the pairs.
    pub attrs: Vec<(String, String)>,
    /// How many pairs have been handed out.
    pub pos: usize,
}

impl AttributeStream {
    /// A stream over `attrs`, starting at the first pair.
    pub fn new(attrs: Vec<(String, String)>) -> (s: Self)
        ensures
            s.attrs@ == attrs@,
            s.pos == 0,
    {
        AttributeStream { attrs, pos: 0 }
    }

    /// The next pair, or `None` once all have been handed out.
    pub fn next_attribute(&mut self) -> (r: Option<(String, String)>)
        requires
            old(self).pos <= old(self).attrs@.len(),
        ensures
            final(self).attrs@ == old(self).attrs@,
            final(self).pos <= final(self).attrs@.len(),
            old(self).pos < old(self).attrs@.len() ==> final(self).pos == old(self).pos + 1 && (r matches Some(p) && p.0@ == old(self).attrs@[old(self).pos as int].0@ && p.1@ == old(self).attrs@[old(self).pos as int].1@),
            old(self).pos == old(self).attrs@.len() ==> final(self).pos == old(self).pos && r is None,
    {
        if self.pos < self.attrs.len() {
            let name = self.attrs[self.pos].0.clone();
            let value = self.attrs[self.pos].1.clone();
            self.pos = self.pos + 1;
            Some((name, value))
        } else {
            None
        }
    }
}

} // verus!

verus! {

/// The protocol name of a dialog kind reads back as that kind.
pub proof fn law_dialog_name_round_trip(d: DialogType)
    ensures
        dialog_type_of(dialog_type_text(d)) == d,
{
    reveal_strlit("alert");
    reveal_strlit("confirm");
    reveal_strlit("prompt");
    reveal_strlit("beforeunload");
    assert("alert"@[0] != "confirm"@[0]);
    assert("alert"@[0] != "prompt"@[0]);
    assert("alert"@[0] != "beforeunload"@[0]);
    assert("prompt"@[0] != "confirm"@[0]);
    assert("beforeunload"@[0] != "confirm"@[0]);
    assert("beforeunload"@[0] != "prompt"@[0]);
}

} // verus!
