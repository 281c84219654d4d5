use gpuicn::menu::{
    FocusReturn, MenuAction, MenuItem, MenuKey, MenuState, menu_key, menubar_hover, menubar_next,
    trigger_opens,
};

fn settings_menu() -> MenuState {
    MenuState::new(vec![
        MenuItem::new("notifications", "Notifications").checked(true),
        MenuItem::new("compact", "Compact").radio(true),
        MenuItem::new("comfortable", "Comfortable").radio(false),
        MenuItem::new("locked", "Locked").checked(true).disabled(true),
    ])
}

#[test]
fn check_actions_toggle_and_radio_actions_select_one() {
    let mut menu = settings_menu();
    menu.activate(0, 0);
    assert_eq!(menu.items()[0].checked_state(), Some(false));
    menu.activate(0, 2);
    assert_eq!(menu.items()[1].checked_state(), Some(false));
    assert_eq!(menu.items()[2].checked_state(), Some(true));
    menu.activate(0, 3);
    assert_eq!(menu.items()[3].checked_state(), Some(true));
}

fn action_menu() -> MenuState {
    MenuState::new(vec![
        MenuItem::new("first", "First"),
        MenuItem::new("unavailable", "Unavailable").disabled(true),
        MenuItem::submenu("more", "More", vec![MenuItem::new("run", "Run")]),
    ])
}

#[test]
fn menu_skips_disabled_opens_submenu_and_restores_focus() {
    for pointer in [false, true] {
        let mut menu = action_menu();
        menu.open_at(pointer, false);
        assert!(menu.is_open(), "pointer={pointer}");
        assert_eq!(menu.highlighted_at(0), Some(0));
        let down = menu.key("down", false);
        assert!(matches!(down.action, MenuAction::Redraw));
        assert_eq!(menu.highlighted_at(0), Some(2));
        let right = menu.key("right", false);
        assert!(matches!(right.action, MenuAction::Redraw));
        assert_eq!(menu.path(), &vec![2]);
        assert_eq!(menu.highlighted_at(1), Some(0));
        let enter = menu.key("enter", false);
        match enter.action {
            MenuAction::Activated(event, focus) => {
                assert_eq!(event.path, vec![2, 0]);
                assert_eq!(event.checked, None);
                assert_eq!(focus, FocusReturn::Trigger);
            }
            _ => panic!("the leaf was not activated"),
        }
        assert!(!menu.is_open());
    }
}

#[test]
fn key_names_are_read() {
    assert_eq!(menu_key("escape"), MenuKey::Escape);
    assert_eq!(menu_key("tab"), MenuKey::Tab);
    assert_eq!(menu_key("down"), MenuKey::Down);
    assert_eq!(menu_key("home"), MenuKey::Home);
    assert_eq!(menu_key("space"), MenuKey::Space);
    assert_eq!(menu_key("é"), MenuKey::Char('é'));
    assert_eq!(menu_key("f10"), MenuKey::F10);
    assert_eq!(menu_key("pageup"), MenuKey::Other);
}

#[test]
fn arrows_wrap_and_ends_jump() {
    let mut menu = action_menu();
    menu.open();
    menu.key("up", false);
    assert_eq!(menu.highlighted_at(0), Some(2));
    menu.key("down", false);
    assert_eq!(menu.highlighted_at(0), Some(0));
    menu.key("end", false);
    assert_eq!(menu.highlighted_at(0), Some(2));
    menu.key("home", false);
    assert_eq!(menu.highlighted_at(0), Some(0));
    let modified = menu.key("down", true);
    assert!(!modified.stop_propagation);
    assert_eq!(menu.highlighted_at(0), Some(0));
}

#[test]
fn typeahead_matches_label_prefixes() {
    let mut menu = MenuState::new(vec![
        MenuItem::new("cut", "Cut"),
        MenuItem::new("copy", "Copy"),
        MenuItem::new("paste", "Paste"),
    ]);
    menu.open();
    let outcome = menu.key_at(MenuKey::Char('p'), false, 1_000);
    assert!(outcome.stop_propagation);
    assert_eq!(menu.highlighted_at(0), Some(2));
    menu.key_at(MenuKey::Char('c'), false, 2_000_000_000);
    assert_eq!(menu.highlighted_at(0), Some(0));
    menu.key_at(MenuKey::Char('o'), false, 2_100_000_000);
    assert_eq!(menu.highlighted_at(0), Some(1));
}

#[test]
fn escape_and_tab_close_and_left_leaves_a_submenu() {
    let mut menu = action_menu();
    menu.open_at(true, true);
    menu.key("end", false);
    menu.key("enter", false);
    assert_eq!(menu.path(), &vec![2]);
    let left = menu.key("left", false);
    assert!(left.stop_propagation);
    assert!(menu.path().is_empty());
    assert!(menu.is_open());
    let escape = menu.key("escape", false);
    assert!(matches!(escape.action, MenuAction::Closed(FocusReturn::Previous)));
    assert!(escape.stop_propagation);
    menu.open();
    let tab = menu.key("tab", false);
    assert!(matches!(tab.action, MenuAction::Closed(FocusReturn::Trigger)));
    assert!(!tab.stop_propagation);
    let closed = menu.key("down", false);
    assert!(matches!(closed.action, MenuAction::Nothing));
}

#[test]
fn submenu_keys_belong_to_the_menu_when_they_move_within_it() {
    let mut menu = action_menu();
    menu.open();
    assert!(!menu.submenu_key(false));
    assert!(!menu.submenu_key(true));
    menu.key("end", false);
    assert!(menu.submenu_key(true));
    menu.key("right", false);
    assert!(menu.submenu_key(false));
}

#[test]
fn disabled_entries_cannot_be_highlighted_or_activated() {
    let mut menu = action_menu();
    menu.open();
    assert!(!menu.highlight(0, 1));
    assert!(matches!(menu.activate(0, 1), MenuAction::Nothing));
    assert!(menu.highlight(0, 2));
    assert!(!menu.highlight(0, 2));
    let separator = MenuItem::separator();
    assert!(!separator.enabled());
    assert!(!MenuItem::label("heading", "Heading").enabled());
}

#[test]
fn triggers_open_from_the_keyboard() {
    assert!(trigger_opens(MenuKey::Down, false, false, true, false));
    assert!(trigger_opens(MenuKey::Up, false, false, true, false));
    assert!(!trigger_opens(MenuKey::Down, false, true, true, false));
    assert!(!trigger_opens(MenuKey::Down, false, false, false, false));
    assert!(trigger_opens(MenuKey::F10, true, false, true, true));
    assert!(!trigger_opens(MenuKey::F10, false, false, true, true));
    assert!(!trigger_opens(MenuKey::Down, false, false, true, true));
}

#[test]
fn menu_bars_move_between_menus() {
    assert_eq!(menubar_next(MenuKey::Left, false, 0, 3, false, false, false), Some(2));
    assert_eq!(menubar_next(MenuKey::Right, false, 2, 3, false, false, false), Some(0));
    assert_eq!(menubar_next(MenuKey::Home, false, 2, 3, false, false, false), Some(0));
    assert_eq!(menubar_next(MenuKey::End, false, 0, 3, false, false, false), Some(2));
    assert_eq!(menubar_next(MenuKey::End, false, 0, 3, true, false, false), None);
    assert_eq!(menubar_next(MenuKey::Right, false, 0, 3, true, false, true), None);
    assert_eq!(menubar_next(MenuKey::Right, true, 0, 3, false, false, false), None);
    assert_eq!(menubar_hover(Some(1), 2), Some(1));
    assert_eq!(menubar_hover(Some(2), 2), None);
    assert_eq!(menubar_hover(None, 2), None);
}

#[test]
fn replacing_items_closes_submenus_and_highlights_first_enabled() {
    let mut menu = action_menu();
    menu.set_items(vec![
        MenuItem::new("off", "Off").disabled(true),
        MenuItem::new("on", "On"),
    ]);
    assert!(menu.path().is_empty());
    assert_eq!(menu.highlighted_at(0), Some(1));
    assert_eq!(menu.items().len(), 2);
}
