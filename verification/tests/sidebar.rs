use gpuicn::sidebar::{
    SidebarCollapsible, SidebarFocus, SidebarFocusAction, SidebarItemSize, SidebarLayoutPlan,
    SidebarSide, SidebarState, SidebarVariant, is_toggle_shortcut, sidebar_item_label,
    sidebar_layout,
};

#[test]
fn mobile_and_desktop_state_are_independent() {
    let mut state = SidebarState::default();
    state.toggle(false);
    assert!(state.icon_collapsed(false, SidebarCollapsible::Icon));
    state.toggle(true);
    assert!(!state.open && state.mobile_open);
    assert!(!state.icon_collapsed(true, SidebarCollapsible::Icon));
    assert!(!state.icon_collapsed(false, SidebarCollapsible::NonCollapsible));
    state.toggle(true);
    assert!(!state.open && !state.mobile_open);
}

#[test]
fn toggling_a_viewport_twice_restores_it() {
    let start = SidebarState::default();
    for mobile in [false, true] {
        let mut state = start;
        state.toggle(mobile);
        assert_ne!(state, start);
        state.toggle(mobile);
        assert_eq!(state, start);
    }
}

#[test]
fn defaults_match_the_shell() {
    assert_eq!(SidebarSide::default(), SidebarSide::Left);
    assert_eq!(SidebarVariant::default(), SidebarVariant::Sidebar);
    assert_eq!(SidebarCollapsible::default(), SidebarCollapsible::Offcanvas);
    assert_eq!(SidebarItemSize::default(), SidebarItemSize::Default);
    let state = SidebarState::default();
    assert!(state.open && !state.mobile_open);
}

#[test]
fn item_labels_announce_state() {
    assert_eq!(sidebar_item_label("Inbox", false, false, None), "Inbox");
    assert_eq!(
        sidebar_item_label("Inbox", true, false, None),
        "Inbox, current destination"
    );
    assert_eq!(
        sidebar_item_label("Archive", false, true, Some(true)),
        "Archive, unavailable, expanded"
    );
    assert_eq!(
        sidebar_item_label("Projects", true, true, Some(false)),
        "Projects, current destination, unavailable, collapsed"
    );
}

#[test]
fn layout_plans_follow_viewport_and_mode() {
    let closed = SidebarState { open: false, mobile_open: false };
    let open = SidebarState::default();
    assert_eq!(
        sidebar_layout(true, SidebarCollapsible::Offcanvas, SidebarVariant::Inset, open),
        SidebarLayoutPlan { mobile: true, inset: false, floating: false, collapsed: false, hidden: true }
    );
    assert_eq!(
        sidebar_layout(true, SidebarCollapsible::NonCollapsible, SidebarVariant::Floating, closed),
        SidebarLayoutPlan { mobile: false, inset: false, floating: true, collapsed: false, hidden: false }
    );
    assert_eq!(
        sidebar_layout(false, SidebarCollapsible::Offcanvas, SidebarVariant::Sidebar, closed),
        SidebarLayoutPlan { mobile: false, inset: false, floating: false, collapsed: true, hidden: true }
    );
    assert_eq!(
        sidebar_layout(false, SidebarCollapsible::Icon, SidebarVariant::Inset, closed),
        SidebarLayoutPlan { mobile: false, inset: true, floating: false, collapsed: true, hidden: false }
    );
}

#[test]
fn command_b_toggles_collapsible_navigation() {
    assert!(is_toggle_shortcut("b", true, SidebarCollapsible::Icon));
    assert!(!is_toggle_shortcut("b", false, SidebarCollapsible::Icon));
    assert!(!is_toggle_shortcut("c", true, SidebarCollapsible::Icon));
    assert!(!is_toggle_shortcut("b", true, SidebarCollapsible::NonCollapsible));
}

#[test]
fn sheet_focus_enters_and_returns_to_the_opener() {
    let mut focus: SidebarFocus<&str> = SidebarFocus::new();
    assert!(matches!(focus.reconcile(true, true, Some("opener"), false), SidebarFocusAction::FocusSheet));
    assert!(matches!(focus.reconcile(true, true, Some("sheet"), false), SidebarFocusAction::Nothing));
    assert!(matches!(
        focus.reconcile(false, false, Some("sheet"), false),
        SidebarFocusAction::Restore("opener")
    ));
    assert!(matches!(focus.reconcile(false, true, None, true), SidebarFocusAction::FocusContent));
    assert!(matches!(focus.reconcile(false, false, None, true), SidebarFocusAction::Nothing));
}
