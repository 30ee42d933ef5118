use termscp::components::OwnStates;
use termscp::layout::Payload;

#[test]
fn test_ui_components_bookmark_states() {
    let mut states: OwnStates = OwnStates::default();
    assert_eq!(states.list_index, 0);
    assert_eq!(states.list_len, 0);
    assert_eq!(states.focus, false);
    // With an empty list the index cannot move.
    states.incr_list_index();
    assert_eq!(states.get_list_index(), 0);
    // Set list length
    states.set_list_len(3);
    assert_eq!(states.list_len, 3);
    // Move down, but never past the last element.
    states.incr_list_index();
    assert_eq!(states.get_list_index(), 1);
    states.incr_list_index();
    assert_eq!(states.get_list_index(), 2);
    states.incr_list_index();
    assert_eq!(states.get_list_index(), 2);
    // Move up, but never below zero.
    states.decr_list_index();
    assert_eq!(states.get_list_index(), 1);
    states.decr_list_index();
    assert_eq!(states.get_list_index(), 0);
    states.decr_list_index();
    assert_eq!(states.get_list_index(), 0);
    // Reset
    states.incr_list_index();
    states.reset_list_index();
    assert_eq!(states.get_list_index(), 0);
}

#[test]
fn test_layout_payload() {
    let p = Payload::Unumber(4);
    assert!(!p.is_empty());
    assert!(matches!(p, Payload::Unumber(4)));
    let p = Payload::Text(String::from("hello"));
    assert!(matches!(p, Payload::Text(_)));
    let p = Payload::Number(-2);
    assert!(matches!(p, Payload::Number(-2)));
    assert!(Payload::Empty.is_empty());
}
