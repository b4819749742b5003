use chromist::dom::{
    call_argument_for_object, mouse_button_to_cdp, AttributeStream, CallArgument, DialogType, FileChooserMode,
    MouseButton, ProtocolMouseButton,
};

#[test]
fn as_call_argument_sets_object_id() {
    let arg = CallArgument { value: None, unserializable_value: None, object_id: Some("test-id".to_string()) };
    assert!(arg.object_id.is_some());
    assert!(arg.value.is_none());
}

#[test]
fn call_argument_for_object_passes_by_reference() {
    let arg = call_argument_for_object("obj-7");
    assert_eq!(arg.object_id.as_deref(), Some("obj-7"));
    assert!(arg.value.is_none());
    assert!(arg.unserializable_value.is_none());
}

#[test]
fn dialog_names_round_trip() {
    for d in [DialogType::Alert, DialogType::Confirm, DialogType::Prompt, DialogType::BeforeUnload] {
        assert_eq!(DialogType::from_protocol_name(&d.to_display_string()), d);
    }
    assert_eq!(DialogType::BeforeUnload.to_display_string(), "beforeunload");
    assert_eq!(DialogType::from_protocol_name("something new"), DialogType::Alert);
}

#[test]
fn file_chooser_mode_names() {
    assert_eq!(FileChooserMode::SelectSingle.to_display_string(), "selectSingle");
    assert_eq!(FileChooserMode::SelectMultiple.to_display_string(), "selectMultiple");
}

#[test]
fn mouse_buttons_map_to_protocol_buttons() {
    assert_eq!(mouse_button_to_cdp(&MouseButton::Right), ProtocolMouseButton::Right);
    assert_eq!(mouse_button_to_cdp(&MouseButton::NoButton), ProtocolMouseButton::Left);
}

#[test]
fn attribute_stream_yields_pairs_in_order() {
    let mut s = AttributeStream::new(vec![("id".into(), "x".into()), ("class".into(), "y z".into())]);
    assert_eq!(s.next_attribute(), Some(("id".to_string(), "x".to_string())));
    assert_eq!(s.next_attribute(), Some(("class".to_string(), "y z".to_string())));
    assert_eq!(s.next_attribute(), None);
    assert_eq!(s.next_attribute(), None);
}
