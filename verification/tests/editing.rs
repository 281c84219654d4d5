use gpuicn::editing::{CompositeInput, EditEffect, Editing, normalize_single_line};

#[test]
fn unicode_ime_commit_is_one_undoable_edit() {
    let mut input = Editing::new("🦀a");
    input.replace_and_mark_text_in_range(None, "日本", Some(1..2));
    assert_eq!(input.value(), "🦀a日本");
    assert_eq!(input.selected_text_range(false).unwrap().0, 4..5);
    input.replace_and_mark_text_in_range(None, "日本語", Some(3..3));
    input.replace_text_in_range(None, "日本語");
    assert!(input.marked_range().is_none());
    assert_eq!(input.value(), "🦀a日本語");
    input.undo();
    assert_eq!(input.value(), "🦀a");
    input.redo();
    assert_eq!(input.value(), "🦀a日本語");
    // A UTF-16 replacement spans the complete supplementary character.
    input.replace_text_in_range(Some(0..2), "é");
    assert_eq!(input.value(), "éa日本語");
    input.undo();
    assert_eq!(input.value(), "🦀a日本語");
    input.sync_props(Some("かな"), false, false, false);
    input.select_all();
    input.replace_and_mark_text_in_range(None, "かな", Some(0..2));
    input.replace_and_mark_text_in_range(None, "カナ", Some(2..2));
    input.replace_text_in_range(None, "カナ");
    input.undo();
    assert_eq!(input.value(), "かな");
    input.redo();
    assert_eq!(input.value(), "カナ");
    input.sync_props(Some("カナ"), false, true, false);
    input.undo();
    input.replace_text_in_range(None, "ignored");
    assert_eq!(input.value(), "カナ");
}

#[test]
fn line_breaks_become_spaces() {
    assert_eq!(normalize_single_line("a\nb\r\nc"), "a b  c");
    assert_eq!(normalize_single_line("plain"), "plain");
}

#[test]
fn typing_separate_words_and_deleting() {
    let mut input = Editing::new("");
    for (i, c) in ["h", "i"].iter().enumerate() {
        input.replace_text_in_range_at(None, c, i as u64);
    }
    assert_eq!(input.value(), "hi");
    assert!(input.dirty());
    // Two quick single-grapheme insertions coalesce into one undo step.
    input.undo();
    assert_eq!(input.value(), "");
    input.redo();
    assert_eq!(input.value(), "hi");
    assert_eq!(input.backspace(), EditEffect::ValueChanged);
    assert_eq!(input.value(), "h");
    input.home();
    assert_eq!(input.cursor_offset(), 0);
    assert_eq!(input.delete(), EditEffect::ValueChanged);
    assert_eq!(input.value(), "");
    assert_eq!(input.backspace(), EditEffect::Bell);
}

#[test]
fn insertions_far_apart_are_separate_steps() {
    let mut input = Editing::new("");
    input.replace_text_in_range_at(None, "a", 0);
    input.replace_text_in_range_at(None, "b", 5_000_000_000);
    input.undo();
    assert_eq!(input.value(), "a");
    input.undo();
    assert_eq!(input.value(), "");
}

#[test]
fn caret_moves_by_grapheme_and_selection_collapses() {
    let mut input = Editing::new("e\u{301}x");
    assert_eq!(input.cursor_offset(), 4);
    input.left();
    assert_eq!(input.cursor_offset(), 3);
    input.left();
    assert_eq!(input.cursor_offset(), 0);
    input.select_right();
    assert_eq!(input.selected_range(), 0..3);
    input.right();
    assert_eq!(input.selected_range(), 3..3);
    input.select_all();
    assert_eq!(input.copy().as_deref(), Some("e\u{301}x"));
    let (cut, effect) = input.cut();
    assert_eq!(cut.as_deref(), Some("e\u{301}x"));
    assert_eq!(effect, EditEffect::ValueChanged);
    assert_eq!(input.value(), "");
}

#[test]
fn words_are_skipped_and_deleted() {
    let mut input = Editing::new("alpha beta");
    input.word_left();
    assert_eq!(input.cursor_offset(), 6);
    input.delete_word_left();
    assert_eq!(input.value(), "beta");
    input.end();
    input.delete_to_start();
    assert_eq!(input.value(), "");
}

#[test]
fn pasting_keeps_one_line_and_locked_editors_refuse_edits() {
    let mut input = Editing::new("x");
    input.paste(Some("a\nb"));
    assert_eq!(input.value(), "xa b");
    input.sync_props(None, true, false, false);
    assert!(input.disabled());
    input.paste(Some("more"));
    assert_eq!(input.value(), "xa b");
    assert!(!input.enter());
    assert!(input.selected_text_range(false).is_none());
}

#[test]
fn utf16_offsets_map_to_characters() {
    let input = Editing::new("🦀a");
    assert_eq!(input.offset_to_utf16(4), 2);
    assert_eq!(input.range_from_utf16(0..2), 0..4);
    // A UTF-16 offset inside the crab rounds forward past it.
    let (text, actual) = input.text_for_range(1..3);
    assert_eq!(text, "a");
    assert_eq!(actual, 2..3);
}

#[test]
fn double_click_selects_the_word_under_the_pointer() {
    let mut input = Editing::new("alpha beta");
    assert!(input.on_mouse_down(8, 2, Some(8), false));
    input.on_mouse_up();
    assert_eq!(input.selected_range(), 6..10);
    input.on_mouse_down(1, 3, Some(1), false);
    assert_eq!(input.selected_range(), 0..10);
    input.on_mouse_down(3, 1, None, false);
    assert_eq!(input.selected_range(), 3..3);
    input.on_mouse_down(7, 1, None, true);
    assert_eq!(input.selected_range(), 3..7);
}

#[test]
fn word_selection_and_forward_deletion() {
    let mut input = Editing::new("hello brave world");
    input.word_left();
    assert_eq!(input.cursor_offset(), 12);
    input.select_word_left();
    assert_eq!(input.selected_range(), 6..12);
    assert_eq!(input.delete_word_right(), EditEffect::ValueChanged);
    assert_eq!(input.value(), "hello world");
    assert_eq!(input.cursor_offset(), 6);
    input.word_right();
    assert_eq!(input.cursor_offset(), 11);
    input.home();
    input.select_word_right();
    assert_eq!(input.selected_range(), 0..5);
    input.select_end();
    assert_eq!(input.selected_range(), 0..11);
    input.select_home();
    assert_eq!(input.selected_range(), 0..0);
    input.delete_word_right();
    assert_eq!(input.value(), " world");
    input.delete_to_end();
    assert_eq!(input.value(), "");
    assert_eq!(input.delete_to_end(), EditEffect::ValueChanged);
    assert_eq!(input.value(), "");
}

#[test]
fn selecting_left_extends_backwards_by_grapheme() {
    let mut input = Editing::new("ab");
    input.select_left();
    assert_eq!(input.selected_range(), 1..2);
    input.select_left();
    assert_eq!(input.selected_range(), 0..2);
    input.select_left();
    assert_eq!(input.selected_range(), 0..2);
}

#[test]
fn dragging_extends_the_selection_only_while_pressed() {
    let mut input = Editing::new("alpha beta");
    input.on_mouse_down(2, 1, None, false);
    input.on_mouse_move(7);
    assert_eq!(input.selected_range(), 2..7);
    input.on_mouse_up();
    input.on_mouse_move(9);
    assert_eq!(input.selected_range(), 2..7);
}

#[test]
fn focus_hooks_select_all_and_clear_pointer_state() {
    let mut input = Editing::new("team");
    assert!(!input.on_focus());
    assert_eq!(input.selected_range(), 4..4);
    input.composite = CompositeInput {
        select_all_on_focus: true,
        on_focus_change: true,
        ..CompositeInput::default()
    };
    assert!(input.on_focus());
    assert_eq!(input.selected_range(), 0..4);
    input.on_mouse_down(1, 1, None, false);
    assert!(input.on_blur());
    input.on_mouse_move(3);
    assert_eq!(input.selected_range(), 1..1);
    assert!(input.accepts_text_input());
    input.sync_props(None, false, true, false);
    assert!(!input.accepts_text_input());
}

#[test]
fn marked_text_is_reported_in_utf16_until_unmarked() {
    let mut input = Editing::new("🦀");
    assert!(input.marked_text_range().is_none());
    input.replace_and_mark_text_in_range(None, "かな", None);
    assert_eq!(input.marked_text_range(), Some(2..4));
    input.unmark_text();
    assert!(input.marked_text_range().is_none());
    assert_eq!(input.value(), "🦀かな");
}

#[test]
fn refused_or_empty_actions_do_nothing() {
    let mut input = Editing::new("kept");
    assert_eq!(input.undo(), EditEffect::Nothing);
    assert_eq!(input.redo(), EditEffect::Nothing);
    assert_eq!(input.cut(), (None, EditEffect::Nothing));
    assert_eq!(input.paste(None), EditEffect::Nothing);
    input.select_all();
    input.sync_props(None, false, true, false);
    assert_eq!(input.cut(), (Some("kept".to_string()), EditEffect::Nothing));
    assert_eq!(input.backspace(), EditEffect::Nothing);
    assert_eq!(input.delete(), EditEffect::Nothing);
    assert_eq!(input.delete_to_end(), EditEffect::Nothing);
    assert_eq!(input.replace_text_in_range(None, "x"), EditEffect::Nothing);
    assert_eq!(input.value(), "kept");
}
