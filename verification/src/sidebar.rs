//! Sidebar state and layout decisions. Applications own navigation and collapsed state.
use crate::segmentation::string_from_chars;
use crate::text::chars_of;
use vstd::prelude::*;

verus! {

/// Which edge contains the navigation.
#[derive(Clone, Copy, Debug, PartialEq, Eq, Structural)]
pub enum SidebarSide {
    /// Navigation before the content.
    Left,
    /// Navigation after the content.
    Right,
}

impl Default for SidebarSide {
    fn default() -> (side: Self)
        ensures
            side == SidebarSide::Left,
    {
        SidebarSide::Left
    }
}

/// The three shadcn application layouts.
#[derive(Clone, Copy, Debug, PartialEq, Eq, Structural)]
pub enum SidebarVariant {
    /// Full-height navigation with an edge border.
    Sidebar,
    /// A rounded, bordered navigation surface.
    Floating,
    /// Content inset into the sidebar-colored shell.
    Inset,
}

impl Default for SidebarVariant {
    fn default() -> (variant: Self)
        ensures
            variant == SidebarVariant::Sidebar,
    {
        SidebarVariant::Sidebar
    }
}

/// Desktop collapse behavior. Mobile uses a modal sheet except for `None`.
#[derive(Clone, Copy, Debug, PartialEq, Eq, Structural)]
pub enum SidebarCollapsible {
    /// Completely hide desktop navigation when closed.
    Offcanvas,
    /// Keep a compact icon rail when closed.
    Icon,
    /// Always display full navigation, including on narrow windows.
    NonCollapsible,
}

impl Default for SidebarCollapsible {
    fn default() -> (mode: Self)
        ensures
            mode == SidebarCollapsible::Offcanvas,
    {
        SidebarCollapsible::Offcanvas
    }
}

/// Caller-owned state. Desktop preference survives opening and closing mobile navigation.
#[derive(Clone, Copy, Debug, PartialEq, Eq, Structural)]
pub struct SidebarState {
    /// Desktop expanded preference.
    pub open: bool,
    /// Whether the mobile sheet is open.
    pub mobile_open: bool,
}

impl Default for SidebarState {
    fn default() -> (state: Self)
        ensures
            state.open,
            !state.mobile_open,
    {
        SidebarState { open: true, mobile_open: false }
    }
}

/// The state after toggling the navigation of the active viewport.
pub open spec fn toggled(state: SidebarState, mobile: bool) -> SidebarState {
    if mobile {
        SidebarState { mobile_open: !state.mobile_open, ..state }
    } else {
        SidebarState { open: !state.open, ..state }
    }
}

/// Whether navigation renders icons without labels.
pub open spec fn is_icon_collapsed(state: SidebarState, mobile: bool, mode: SidebarCollapsible) -> bool {
    !mobile && !state.open && mode == SidebarCollapsible::Icon
}

impl SidebarState {
    /// Toggle the state for the active viewport.
    pub fn toggle(&mut self, mobile: bool)
        ensures
            *final(self) == toggled(*old(self), mobile),
    {
        if mobile {
            self.mobile_open = !self.mobile_open;
        } else {
            self.open = !self.open;
        }
    }

    /// Whether navigation should render icons without labels.
    pub fn icon_collapsed(self, mobile: bool, mode: SidebarCollapsible) -> (collapsed: bool)
        ensures
            collapsed == is_icon_collapsed(self, mobile, mode),
    {
        !mobile && !self.open && mode == SidebarCollapsible::Icon
    }
}

/// Toggling one viewport never changes the other viewport's state.
pub proof fn lemma_viewports_are_independent(state: SidebarState)
    ensures
        toggled(state, true).open == state.open,
        toggled(state, false).mobile_open == state.mobile_open,
{
}

/// Toggling the same viewport twice restores the state it started from.
pub proof fn lemma_toggle_twice_restores(state: SidebarState, mobile: bool)
    ensures
        toggled(toggled(state, mobile), mobile) == state,
{
}

/// The icon rail is only shown on desktop, while closed, in icon mode.
pub proof fn lemma_icon_rail_only_when_closed_on_desktop(
    state: SidebarState,
    mobile: bool,
    mode: SidebarCollapsible,
)
    ensures
        is_icon_collapsed(state, mobile, mode) ==> !mobile && !state.open,
        mobile ==> !is_icon_collapsed(state, mobile, mode),
        mode != SidebarCollapsible::Icon ==> !is_icon_collapsed(state, mobile, mode),
{
}


/// Menu row sizes. Collapsed rows always use the icon size.
#[derive(Clone, Copy, Debug, PartialEq, Eq, Structural)]
pub enum SidebarItemSize {
    /// 28px high, 12px text at the default theme scale.
    Small,
    /// 32px high, 14px text.
    Default,
    /// 48px high, for workspace and account controls.
    Large,
}

impl Default for SidebarItemSize {
    fn default() -> (size: Self)
        ensures
            size == SidebarItemSize::Default,
    {
        SidebarItemSize::Default
    }
}

/// `, current destination`.
pub open spec fn current_suffix() -> Seq<char> {
    seq![',', ' ', 'c', 'u', 'r', 'r', 'e', 'n', 't', ' ', 'd', 'e', 's', 't', 'i', 'n', 'a', 't', 'i', 'o', 'n']
}

/// `, unavailable`.
pub open spec fn unavailable_suffix() -> Seq<char> {
    seq![',', ' ', 'u', 'n', 'a', 'v', 'a', 'i', 'l', 'a', 'b', 'l', 'e']
}

/// `, expanded`.
pub open spec fn expanded_suffix() -> Seq<char> {
    seq![',', ' ', 'e', 'x', 'p', 'a', 'n', 'd', 'e', 'd']
}

/// `, collapsed`.
pub open spec fn collapsed_suffix() -> Seq<char> {
    seq![',', ' ', 'c', 'o', 'l', 'l', 'a', 'p', 's', 'e', 'd']
}

/// The accessible label of a menu row: its label, then whether it is the
/// current destination, whether it is unavailable, and whether its section is
/// expanded or collapsed when it has one.
pub open spec fn item_label(label: Seq<char>, selected: bool, disabled: bool, expanded: Option<bool>) -> Seq<char> {
    label + (if selected {
        current_suffix()
    } else {
        Seq::empty()
    }) + (if disabled {
        unavailable_suffix()
    } else {
        Seq::empty()
    }) + match expanded {
        Some(true) => expanded_suffix(),
        Some(false) => collapsed_suffix(),
        None => Seq::empty(),
    }
}

/// The accessible label of a menu row (see `item_label`).
pub fn sidebar_item_label(label: &str, selected: bool, disabled: bool, expanded: Option<bool>) -> (accessible: String)
    ensures
        accessible@ == item_label(label@, selected, disabled, expanded),
{
    proof {
        reveal_strlit(", current destination");
        reveal_strlit(", unavailable");
        reveal_strlit(", expanded");
        reveal_strlit(", collapsed");
        assert(", current destination"@ =~= current_suffix());
        assert(", unavailable"@ =~= unavailable_suffix());
        assert(", expanded"@ =~= expanded_suffix());
        assert(", collapsed"@ =~= collapsed_suffix());
    }
    let mut chars = chars_of(label);
    let ghost a = chars@;
    if selected {
        crate::text::append_str(&mut chars, ", current destination");
    }
    let ghost b = chars@;
    proof {
        assert(b =~= a + (if selected { current_suffix() } else { Seq::empty() }));
    }
    if disabled {
        crate::text::append_str(&mut chars, ", unavailable");
    }
    let ghost c = chars@;
    proof {
        assert(c =~= b + (if disabled { unavailable_suffix() } else { Seq::empty() }));
    }
    match expanded {
        Some(true) => crate::text::append_str(&mut chars, ", expanded"),
        Some(false) => crate::text::append_str(&mut chars, ", collapsed"),
        None => {},
    }
    proof {
        assert(chars@ =~= c + match expanded {
            Some(true) => expanded_suffix(),
            Some(false) => collapsed_suffix(),
            None => Seq::empty(),
        });
    }
    string_from_chars(chars.as_slice())
}

/// How a sidebar layout presents itself.
#[derive(Clone, Copy, Debug, PartialEq, Eq, Structural)]
pub struct SidebarLayoutPlan {
    /// Navigation is a modal sheet (narrow viewport, collapsible navigation).
    pub mobile: bool,
    /// Content is inset into the sidebar-colored shell.
    pub inset: bool,
    /// Navigation floats on a rounded surface.
    pub floating: bool,
    /// Desktop navigation is closed.
    pub collapsed: bool,
    /// Desktop navigation takes no width.
    pub hidden: bool,
}

/// The presentation of a layout: narrow viewports use a sheet unless the
/// navigation cannot collapse; inset and floating surfaces apply on desktop only;
/// closed collapsible navigation is collapsed, and hidden when off-canvas or on mobile.
pub open spec fn layout_plan(
    narrow: bool,
    mode: SidebarCollapsible,
    variant: SidebarVariant,
    state: SidebarState,
) -> SidebarLayoutPlan {
    let mobile = narrow && mode != SidebarCollapsible::NonCollapsible;
    let collapsed = !state.open && mode != SidebarCollapsible::NonCollapsible;
    SidebarLayoutPlan {
        mobile,
        inset: variant == SidebarVariant::Inset && !mobile,
        floating: variant == SidebarVariant::Floating && !mobile,
        collapsed,
        hidden: mobile || (collapsed && mode == SidebarCollapsible::Offcanvas),
    }
}

/// The presentation of a layout (see `layout_plan`); `narrow` is whether the
/// viewport is below the mobile breakpoint.
pub fn sidebar_layout(
    narrow: bool,
    mode: SidebarCollapsible,
    variant: SidebarVariant,
    state: SidebarState,
) -> (plan: SidebarLayoutPlan)
    ensures
        plan == layout_plan(narrow, mode, variant, state),
{
    let mobile = narrow && mode != SidebarCollapsible::NonCollapsible;
    let collapsed = !state.open && mode != SidebarCollapsible::NonCollapsible;
    SidebarLayoutPlan {
        mobile,
        inset: variant == SidebarVariant::Inset && !mobile,
        floating: variant == SidebarVariant::Floating && !mobile,
        collapsed,
        hidden: mobile || (collapsed && mode == SidebarCollapsible::Offcanvas),
    }
}

/// Whether a key press toggles the navigation: `b` with the platform or control
/// modifier, unless the navigation cannot collapse.
pub fn is_toggle_shortcut(key: &str, command: bool, mode: SidebarCollapsible) -> (toggles: bool)
    ensures
        toggles == (key@ == seq!['b'] && command && mode != SidebarCollapsible::NonCollapsible),
{
    let chars = chars_of(key);
    let is_b = chars.len() == 1 && chars[0] == 'b';
    proof {
        if chars@ == seq!['b'] {
            assert(chars@[0] == 'b');
        }
        if is_b {
            assert(chars@ =~= seq!['b']);
        }
    }
    is_b && command && mode != SidebarCollapsible::NonCollapsible
}

/// What the host does with focus when a layout renders.
pub enum SidebarFocusAction<H> {
    /// Focus stays where it is.
    Nothing,
    /// Focus moves into the mobile sheet.
    FocusSheet,
    /// Focus returns to the handle focused before the sheet opened.
    Restore(H),
    /// Focus leaves hidden navigation for the content.
    FocusContent,
}

/// Focus bookkeeping of a layout's mobile sheet; `H` is the host's focus handle.
pub struct SidebarFocus<H> {
    sheet_open: bool,
    return_to: Option<H>,
}

impl<H> SidebarFocus<H> {
    /// Whether the sheet was open at the last render.
    pub closed spec fn sheet_open_spec(&self) -> bool {
        self.sheet_open
    }

    /// What was focused when the sheet opened, while it stays open.
    pub closed spec fn return_to_spec(&self) -> Option<H> {
        self.return_to
    }

    /// A layout with its sheet closed.
    pub fn new() -> (focus: Self)
        ensures
            !focus.sheet_open_spec(),
            focus.return_to_spec() is None,
    {
        SidebarFocus { sheet_open: false, return_to: None }
    }

    /// Reconciles focus with a render in which the sheet is `sheet_open` and
    /// desktop navigation is `hidden`. Opening the sheet remembers `focused` and
    /// moves focus into it; closing returns focus to what was remembered; hidden
    /// navigation that holds focus (`navigation_has_focus`) passes it to the content.
    pub fn reconcile(&mut self, sheet_open: bool, hidden: bool, focused: Option<H>, navigation_has_focus: bool) -> (action: SidebarFocusAction<H>)
        ensures
            final(self).sheet_open_spec() == sheet_open,
            sheet_open && !old(self).sheet_open_spec() ==> action is FocusSheet && final(self).return_to_spec()
                == focused,
            !sheet_open && old(self).sheet_open_spec() ==> final(self).return_to_spec() is None && match old(
                self,
            ).return_to_spec() {
                Some(h) => action == SidebarFocusAction::Restore(h),
                None => action is Nothing,
            },
            sheet_open == old(self).sheet_open_spec() ==> final(self).return_to_spec() == old(self).return_to_spec()
                && if hidden && navigation_has_focus {
                action is FocusContent
            } else {
                action is Nothing
            },
    {
        if sheet_open && !self.sheet_open {
            self.return_to = focused;
            self.sheet_open = true;
            SidebarFocusAction::FocusSheet
        } else if !sheet_open && self.sheet_open {
            self.sheet_open = false;
            match self.return_to.take() {
                Some(h) => SidebarFocusAction::Restore(h),
                None => SidebarFocusAction::Nothing,
            }
        } else if hidden && navigation_has_focus {
            SidebarFocusAction::FocusContent
        } else {
            SidebarFocusAction::Nothing
        }
    }
}

} // verus!
