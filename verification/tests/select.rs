use gpuicn::select::{Mode, SelectEvent, SelectFocus, SelectItem, SelectState};

fn fruit() -> Vec<SelectItem> {
    vec![SelectItem::new("apple", "Apple"), SelectItem::new("pear", "Pear")]
}

/// Sets a value as the application does, echoing the editor text back.
fn set(state: &mut SelectState, value: Option<&str>) {
    let effects = state.set_value(value);
    if let Some(text) = effects.editor {
        state.input_changed(&text);
    }
}

#[test]
fn choosing_an_option_without_a_rendered_editor() {
    let mut state = SelectState::new(vec![SelectItem::new("pear", "Pear")]);
    state.pick(0);
    assert_eq!(state.value(), Some("pear"));
    assert!(state.input_text().is_empty());
}

#[test]
fn combobox_syncs_prefill_programmatic_changes_and_reset() {
    let mut state = SelectState::new(fruit());
    state.configure(Mode::Combobox, false);
    set(&mut state, Some("pear"));
    assert_eq!(state.value(), Some("pear"));
    assert_eq!(state.input_text(), "Pear");
    assert!(!state.is_open());
    set(&mut state, Some("apple"));
    assert_eq!(state.value(), Some("apple"));
    assert_eq!(state.input_text(), "Apple");
    assert!(!state.is_open());
    set(&mut state, None);
    assert_eq!(state.value(), None);
    assert!(state.input_text().is_empty());
    assert!(!state.is_open());
    set(&mut state, Some("pear"));
    assert_eq!(state.value(), Some("pear"));
    assert_eq!(state.input_text(), "Pear");
    assert!(!state.is_open());
}

#[test]
fn autocomplete_preserves_free_text_across_prefill_changes_and_reset() {
    let mut state = SelectState::new(fruit());
    state.configure(Mode::Autocomplete, false);
    set(&mut state, Some("dragonfruit"));
    assert_eq!(state.value(), Some("dragonfruit"));
    assert_eq!(state.input_text(), "dragonfruit");
    assert!(!state.is_open());
    for value in [Some("lychee"), None, Some("pear")] {
        set(&mut state, value);
    }
    assert_eq!(state.value(), Some("pear"));
    assert_eq!(state.input_text(), "Pear");
    assert!(!state.is_open());
}

fn picker() -> SelectState {
    SelectState::new(vec![
        SelectItem::new("apple", "Apple"),
        SelectItem::new("orange", "Orange").disabled(true),
        SelectItem::new("banana", "Banana"),
    ])
}

#[test]
fn picker_filters_commits_and_closes() {
    for editable in [false, true] {
        let mut state = picker();
        if editable {
            state.configure(Mode::Combobox, false);
            for typed in ["b", "ba", "ban"] {
                state.input_changed(typed);
            }
        } else {
            state.navigate(1);
            state.navigate(1);
        }
        let effects = state.confirm();
        assert_eq!(state.value(), Some("banana"), "editable={editable}");
        assert!(!state.is_open(), "editable={editable}");
        assert_eq!(effects.focus, SelectFocus::Selector);
        assert_eq!(effects.change, Some(SelectEvent::Change(Some("banana".into()))));
        state.navigate(1);
        assert!(state.is_open());
        state.set_open(false);
        assert!(!state.is_open());
    }
}

#[test]
fn navigation_skips_disabled_options_and_wraps() {
    let mut state = picker();
    state.navigate(1);
    assert_eq!(state.highlighted(), Some(0));
    let effects = state.navigate(1);
    assert_eq!(state.highlighted(), Some(2));
    assert_eq!(effects.scroll_to, Some(2));
    state.navigate(1);
    assert_eq!(state.highlighted(), Some(0));
    state.navigate(-1);
    assert_eq!(state.highlighted(), Some(2));
    state.navigate(-2);
    assert_eq!(state.highlighted(), Some(0));
    state.navigate(2);
    assert_eq!(state.highlighted(), Some(2));
}

#[test]
fn opening_prefers_the_committed_value() {
    let mut state = picker();
    state.set_value(Some("banana"));
    state.set_open(true);
    assert_eq!(state.highlighted(), Some(2));
}

#[test]
fn clearing_reopens_with_the_editor_focused() {
    let mut state = picker();
    state.configure(Mode::Combobox, false);
    set(&mut state, Some("apple"));
    let effects = state.clear();
    assert_eq!(state.value(), None);
    assert!(state.is_open());
    assert_eq!(effects.editor.as_deref(), Some(""));
    assert_eq!(effects.focus, SelectFocus::Editor);
    assert_eq!(effects.change, Some(SelectEvent::Change(None)));
}

#[test]
fn autocomplete_commits_typed_text_without_a_match() {
    let mut state = picker();
    state.configure(Mode::Autocomplete, false);
    state.input_changed("kiwi");
    assert!(state.is_open());
    assert_eq!(state.highlighted(), None);
    let effects = state.confirm();
    assert_eq!(state.value(), Some("kiwi"));
    assert!(!state.is_open());
    assert_eq!(effects.change, Some(SelectEvent::Change(Some("kiwi".into()))));
}

#[test]
fn disabled_selectors_ignore_input() {
    let mut state = picker();
    state.configure(Mode::Combobox, true);
    state.input_changed("ban");
    assert!(!state.is_open());
    assert_eq!(state.input_text(), "ban");
    state.set_open(true);
    assert!(!state.is_open());
    let effects = state.pick(2);
    assert!(effects.change.is_none());
    assert_eq!(state.value(), None);
}

#[test]
fn presentation_text_is_kept() {
    let mut state = picker();
    assert_eq!(state.label(), "Selection");
    assert_eq!(state.placeholder(), "Select…");
    state.set_presentation("Fruit", "Choose fruit");
    assert_eq!(state.label(), "Fruit");
    assert_eq!(state.placeholder(), "Choose fruit");
}

#[test]
fn losing_focus_closes_the_popup_and_keeps_the_value() {
    let mut state = SelectState::new(fruit());
    state.pick(1);
    state.set_open(true);
    assert!(state.is_open());
    state.blur();
    assert!(!state.is_open());
    assert_eq!(state.value(), Some("pear"));
}
