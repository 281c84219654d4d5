use gpuicn::controls::{
    AvatarSize, ButtonSize, ButtonVariant, DrawerSide, EmptyMediaVariant, FieldOrientation,
    FieldsetLegendVariant, InputGroupAddonAlignment, TabsVariant, ToggleSize, ToggleVariant,
    OtpCell, checkbox_group_next, field_accessible_label, otp_cells, selected_index,
    toggle_group_next,
};
use gpuicn::theme::{ThemeMode, UiEasing, UiMotion};
use std::time::Duration;

fn values(items: &[&str]) -> Vec<String> {
    items.iter().map(|s| s.to_string()).collect()
}

#[test]
fn field_applies_shared_state_to_composed_controls() {
    assert_eq!(field_accessible_label("Quantity", true), "Quantity (required)");
    assert_eq!(field_accessible_label("Quantity", false), "Quantity");
}

#[test]
fn variants_default_to_the_nova_presentation() {
    assert_eq!(AvatarSize::default(), AvatarSize::Default);
    assert_eq!(ButtonVariant::default(), ButtonVariant::Default);
    assert_eq!(ButtonSize::default(), ButtonSize::Default);
    assert_eq!(DrawerSide::default(), DrawerSide::Bottom);
    assert_eq!(EmptyMediaVariant::default(), EmptyMediaVariant::Default);
    assert_eq!(FieldOrientation::default(), FieldOrientation::Vertical);
    assert_eq!(FieldsetLegendVariant::default(), FieldsetLegendVariant::Legend);
    assert_eq!(InputGroupAddonAlignment::default(), InputGroupAddonAlignment::InlineStart);
    assert_eq!(TabsVariant::default(), TabsVariant::Default);
    assert_eq!(ToggleVariant::default(), ToggleVariant::Default);
    assert_eq!(ToggleSize::default(), ToggleSize::Default);
    assert_eq!(UiEasing::default(), UiEasing::EaseInOut);
    assert_ne!(ThemeMode::Light, ThemeMode::Dark);
}

#[test]
fn drawers_know_their_axis() {
    assert!(DrawerSide::Top.vertical());
    assert!(DrawerSide::Bottom.vertical());
    assert!(!DrawerSide::Left.vertical());
    assert!(!DrawerSide::Right.vertical());
}

#[test]
fn motion_defaults() {
    let motion = UiMotion::default();
    assert_eq!(motion.fast, Duration::from_millis(150));
    assert_eq!(motion.normal, Duration::from_millis(200));
    assert!(!motion.reduced);
    assert_eq!(motion.easing, UiEasing::EaseInOut);
}

#[test]
fn toggle_groups_request_the_next_value() {
    let current = values(&["bold", "italic"]);
    assert_eq!(toggle_group_next(&current, "italic", true), ["bold"]);
    assert_eq!(toggle_group_next(&current, "underline", true), ["bold", "italic", "underline"]);
    assert_eq!(toggle_group_next(&current, "italic", false), Vec::<String>::new());
    assert_eq!(toggle_group_next(&current, "underline", false), ["underline"]);
    let once = checkbox_group_next(&current, "bold");
    assert_eq!(once, ["italic"]);
    assert_eq!(checkbox_group_next(&once, "bold"), ["italic", "bold"]);
}

#[test]
fn the_selected_item_is_the_first_with_the_value() {
    let items = values(&["day", "week", "week", "month"]);
    assert_eq!(selected_index(&items, Some("week")), Some(1));
    assert_eq!(selected_index(&items, Some("year")), None);
    assert_eq!(selected_index(&items, None), None);
}

#[test]
fn one_time_code_cells_follow_the_code() {
    let cells = otp_cells("12", 4, false, true, true);
    assert_eq!(cells.len(), 4);
    assert_eq!(cells[0], OtpCell { text: Some('1'), active: false, caret: false });
    assert_eq!(cells[1], OtpCell { text: Some('2'), active: false, caret: false });
    assert_eq!(cells[2], OtpCell { text: None, active: true, caret: true });
    assert_eq!(cells[3], OtpCell { text: None, active: false, caret: false });
    let full = otp_cells("1234", 4, true, true, true);
    assert_eq!(full[3], OtpCell { text: Some('•'), active: true, caret: false });
    assert!(otp_cells("1", 4, false, false, true).iter().all(|c| !c.active && !c.caret));
    assert!(otp_cells("", 0, false, true, true).is_empty());
}
