//! Variants of the styled controls, and the values that group controls
//! (toggle groups, checkbox groups, radio groups, tabs) and fields derive.
use crate::segmentation::string_from_chars;
use crate::text::chars_of;
use vstd::prelude::*;

verus! {

/// Avatar dimensions.
#[derive(Clone, Copy, Debug, PartialEq, Eq, Structural)]
pub enum AvatarSize {
    /// Compact dimensions.
    Sm,
    /// The default presentation.
    Default,
    /// Large dimensions.
    Lg,
}

impl Default for AvatarSize {
    fn default() -> (size: Self)
        ensures
            size == AvatarSize::Default,
    {
        AvatarSize::Default
    }
}

/// The button visual variant.
#[derive(Clone, Copy, Debug, PartialEq, Eq, Structural)]
pub enum ButtonVariant {
    /// Primary action.
    Default,
    /// Bordered action.
    Outline,
    /// Secondary action.
    Secondary,
    /// Low-emphasis action on a transparent surface (shadcn's ghost style).
    Transparent,
    /// Destructive action.
    Destructive,
    /// Link-styled action.
    Link,
}

impl Default for ButtonVariant {
    fn default() -> (variant: Self)
        ensures
            variant == ButtonVariant::Default,
    {
        ButtonVariant::Default
    }
}

/// The button size.
#[derive(Clone, Copy, Debug, PartialEq, Eq, Structural)]
pub enum ButtonSize {
    /// 24px-high extra-small button.
    Xs,
    /// 28px-high small button.
    Sm,
    /// 32px-high default button.
    Default,
    /// 36px-high large button.
    Lg,
    /// 24px square icon button.
    IconXs,
    /// 28px square icon button.
    IconSm,
    /// 32px square icon button.
    Icon,
    /// 36px square icon button.
    IconLg,
}

impl Default for ButtonSize {
    fn default() -> (size: Self)
        ensures
            size == ButtonSize::Default,
    {
        ButtonSize::Default
    }
}

/// The viewport edge from which a drawer opens and toward which it dismisses.
#[derive(Clone, Copy, Debug, PartialEq, Eq, Structural)]
pub enum DrawerSide {
    /// Attach to the top edge.
    Top,
    /// Attach to the right edge.
    Right,
    /// Attach to the bottom edge.
    Bottom,
    /// Attach to the left edge.
    Left,
}

impl Default for DrawerSide {
    fn default() -> (side: Self)
        ensures
            side == DrawerSide::Bottom,
    {
        DrawerSide::Bottom
    }
}

impl DrawerSide {
    /// Whether the drawer moves along the vertical axis (top and bottom drawers).
    pub fn vertical(self) -> (vertical: bool)
        ensures
            vertical == (self == DrawerSide::Top || self == DrawerSide::Bottom),
    {
        match self {
            DrawerSide::Top | DrawerSide::Bottom => true,
            DrawerSide::Left | DrawerSide::Right => false,
        }
    }
}

/// The visual treatment of an empty state's media slot.
#[derive(Clone, Copy, Debug, PartialEq, Eq, Structural)]
pub enum EmptyMediaVariant {
    /// Leaves images, avatars, and other custom media unframed.
    Default,
    /// Places an icon in a compact muted frame.
    Icon,
}

impl Default for EmptyMediaVariant {
    fn default() -> (variant: Self)
        ensures
            variant == EmptyMediaVariant::Default,
    {
        EmptyMediaVariant::Default
    }
}

/// The placement of a field label relative to its editor.
#[derive(Clone, Copy, Debug, PartialEq, Eq, Structural)]
pub enum FieldOrientation {
    /// Place the label above the editor.
    Vertical,
    /// Place the label beside the editor.
    Horizontal,
}

impl Default for FieldOrientation {
    fn default() -> (orientation: Self)
        ensures
            orientation == FieldOrientation::Vertical,
    {
        FieldOrientation::Vertical
    }
}

/// The two visual treatments of a group legend.
#[derive(Clone, Copy, Debug, PartialEq, Eq, Structural)]
pub enum FieldsetLegendVariant {
    /// A section heading.
    Legend,
    /// A compact field label.
    Label,
}

impl Default for FieldsetLegendVariant {
    fn default() -> (variant: Self)
        ensures
            variant == FieldsetLegendVariant::Legend,
    {
        FieldsetLegendVariant::Legend
    }
}

/// The logical side of an input group addon relative to the text control.
#[derive(Clone, Copy, Debug, PartialEq, Eq, Structural)]
pub enum InputGroupAddonAlignment {
    /// Before a single-line control.
    InlineStart,
    /// After a single-line control.
    InlineEnd,
    /// Above the control.
    BlockStart,
    /// Below the control.
    BlockEnd,
}

impl Default for InputGroupAddonAlignment {
    fn default() -> (alignment: Self)
        ensures
            alignment == InputGroupAddonAlignment::InlineStart,
    {
        InputGroupAddonAlignment::InlineStart
    }
}

/// The visual presentation of a tab list.
#[derive(Clone, Copy, Debug, PartialEq, Eq, Structural)]
pub enum TabsVariant {
    /// The default presentation.
    Default,
    /// Underline the selected tab.
    Line,
}

impl Default for TabsVariant {
    fn default() -> (variant: Self)
        ensures
            variant == TabsVariant::Default,
    {
        TabsVariant::Default
    }
}

/// Toggle surface styles.
#[derive(Clone, Copy, Debug, PartialEq, Eq, Structural)]
pub enum ToggleVariant {
    /// The default presentation.
    Default,
    /// Draw a border around the toggle.
    Outline,
}

impl Default for ToggleVariant {
    fn default() -> (variant: Self)
        ensures
            variant == ToggleVariant::Default,
    {
        ToggleVariant::Default
    }
}

/// Toggle dimensions.
#[derive(Clone, Copy, Debug, PartialEq, Eq, Structural)]
pub enum ToggleSize {
    /// Compact dimensions.
    Sm,
    /// The default presentation.
    Default,
    /// Large dimensions.
    Lg,
}

impl Default for ToggleSize {
    fn default() -> (size: Self)
        ensures
            size == ToggleSize::Default,
    {
        ToggleSize::Default
    }
}

/// The values of a group as plain values.
pub open spec fn values_view(values: Seq<String>) -> Seq<Seq<char>> {
    values.map_values(|v: String| v@)
}

/// The values other than `item`, in order.
pub open spec fn without(values: Seq<Seq<char>>, item: Seq<char>) -> Seq<Seq<char>>
    decreases values.len(),
{
    if values.len() == 0 {
        Seq::empty()
    } else if values.last() == item {
        without(values.drop_last(), item)
    } else {
        without(values.drop_last(), item).push(values.last())
    }
}

/// The value a group requests when `item` is pressed: a multiple-choice group
/// drops `item` if it was selected and appends it otherwise; a single-choice
/// group selects only `item`, or nothing when `item` was the selection.
pub open spec fn toggled(values: Seq<Seq<char>>, item: Seq<char>, multiple: bool) -> Seq<Seq<char>> {
    let kept = if multiple {
        without(values, item)
    } else {
        Seq::empty()
    };
    if values.contains(item) {
        kept
    } else {
        kept.push(item)
    }
}

proof fn lemma_push_contains(s: Seq<Seq<char>>, a: Seq<char>, x: Seq<char>)
    ensures
        s.push(a).contains(x) <==> (s.contains(x) || x == a),
{
    if s.contains(x) {
        let k = choose|k: int| 0 <= k < s.len() && s[k] == x;
        assert(s.push(a)[k] == x);
    }
    if x == a {
        assert(s.push(a)[s.len() as int] == x);
    }
    if s.push(a).contains(x) && x != a {
        let k = choose|k: int| 0 <= k < s.push(a).len() && s.push(a)[k] == x;
        assert(s[k] == x);
    }
}

proof fn lemma_without(values: Seq<Seq<char>>, item: Seq<char>, x: Seq<char>)
    ensures
        without(values, item).contains(x) <==> (values.contains(x) && x != item),
    decreases values.len(),
{
    if values.len() == 0 {
    } else {
        let rest = values.drop_last();
        let l = values.last();
        lemma_without(rest, item, x);
        assert(values =~= rest.push(l));
        lemma_push_contains(rest, l, x);
        lemma_push_contains(without(rest, item), l, x);
    }
}

/// Pressing the same item of a multiple-choice group twice requests the
/// starting selection again, as a set of values.
pub proof fn lemma_toggle_twice_restores(values: Seq<Seq<char>>, item: Seq<char>)
    ensures
        toggled(toggled(values, item, true), item, true).to_set() == values.to_set(),
{
    let once = toggled(values, item, true);
    let twice = toggled(once, item, true);
    let w0 = without(values, item);
    lemma_without(values, item, item);
    lemma_push_contains(w0, item, item);
    assert forall|x: Seq<char>| twice.contains(x) <==> values.contains(x) by {
        lemma_without(values, item, x);
        lemma_without(once, item, x);
        lemma_push_contains(w0, item, x);
        lemma_push_contains(without(once, item), item, x);
    }
    assert(twice.to_set() =~= values.to_set());
}

/// Pressing an item of a single-choice group selects exactly that item, or
/// nothing when it was already selected.
pub proof fn lemma_single_choice(values: Seq<Seq<char>>, item: Seq<char>)
    ensures
        toggled(values, item, false) == if values.contains(item) {
            Seq::<Seq<char>>::empty()
        } else {
            seq![item]
        },
{
    if !values.contains(item) {
        assert(Seq::<Seq<char>>::empty().push(item) =~= seq![item]);
    }
}

fn contains_value(values: &Vec<String>, item: &String) -> (found: bool)
    ensures
        found == values_view(values@).contains(item@),
{
    let mut i: usize = 0;
    while i < values.len()
        invariant
            i <= values@.len(),
            forall|j: int| 0 <= j < i ==> values@[j]@ != item@,
        decreases values@.len() - i,
    {
        if values[i] == *item {
            proof {
                assert(values_view(values@)[i as int] == item@);
            }
            return true;
        }
        i = i + 1;
    }
    proof {
        if values_view(values@).contains(item@) {
            let k = choose|k: int| 0 <= k < values_view(values@).len() && values_view(values@)[k] == item@;
            assert(values@[k]@ == item@);
        }
    }
    false
}

/// The value a toggle group requests when `item` is pressed (see `toggled`).
pub fn toggle_group_next(values: &Vec<String>, item: &str, multiple: bool) -> (next: Vec<String>)
    ensures
        values_view(next@) == toggled(values_view(values@), item@, multiple),
{
    let item = item.to_owned();
    let pressed = contains_value(values, &item);
    let mut next: Vec<String> = Vec::new();
    if multiple {
        let mut i: usize = 0;
        proof {
            assert(values_view(values@).take(0) =~= Seq::<Seq<char>>::empty());
        }
        while i < values.len()
            invariant
                i <= values@.len(),
                values_view(next@) == without(values_view(values@).take(i as int), item@),
            decreases values@.len() - i,
        {
            proof {
                assert(values_view(values@).take(i as int + 1).drop_last() =~= values_view(values@).take(
                    i as int,
                ));
                assert(values_view(values@).take(i as int + 1).last() == values@[i as int]@);
            }
            if values[i] != item {
                next.push(values[i].clone());
                proof {
                    assert(values_view(next@) =~= without(values_view(values@).take(i as int), item@).push(
                        values@[i as int]@,
                    ));
                }
            }
            i = i + 1;
        }
        proof {
            assert(values_view(values@).take(i as int) =~= values_view(values@));
        }
    } else {
        proof {
            assert(values_view(next@) =~= Seq::<Seq<char>>::empty());
        }
    }
    if !pressed {
        let ghost before = values_view(next@);
        next.push(item);
        proof {
            assert(values_view(next@) =~= before.push(item@));
        }
    }
    next
}

/// The value a checkbox group requests when `item` is toggled: the
/// multiple-choice `toggled`.
pub fn checkbox_group_next(values: &Vec<String>, item: &str) -> (next: Vec<String>)
    ensures
        values_view(next@) == toggled(values_view(values@), item@, true),
{
    toggle_group_next(values, item, true)
}

/// The position of the first entry equal to `value`.
pub open spec fn first_position(values: Seq<Seq<char>>, value: Seq<char>) -> Option<int>
    decreases values.len(),
{
    if values.len() == 0 {
        None
    } else if values[0] == value {
        Some(0)
    } else {
        match first_position(values.drop_first(), value) {
            Some(k) => Some(k + 1),
            None => None,
        }
    }
}

/// The index of the selected item of a radio group or tab list: the first item
/// whose value is the selected value, if any.
pub fn selected_index(values: &Vec<String>, selected: Option<&str>) -> (index: Option<usize>)
    ensures
        match selected {
            None => index is None,
            Some(s) => match first_position(values_view(values@), s@) {
                Some(k) => index == Some(k as usize),
                None => index is None,
            },
        },
{
    let s = match selected {
        Some(s) => s.to_owned(),
        None => {
            return None;
        },
    };
    let ghost view = values_view(values@);
    let mut i: usize = 0;
    proof {
        assert(view.skip(0) =~= view);
    }
    while i < values.len()
        invariant
            i <= values@.len(),
            view == values_view(values@),
            selected matches Some(t) && t@ == s@,
            first_position(view, s@) == match first_position(view.skip(i as int), s@) {
                Some(k) => Some(k + i),
                None => None::<int>,
            },
        decreases values@.len() - i,
    {
        proof {
            assert(view.skip(i as int).drop_first() =~= view.skip(i as int + 1));
            assert(view.skip(i as int)[0] == values@[i as int]@);
        }
        if values[i] == s {
            return Some(i);
        }
        i = i + 1;
    }
    proof {
        assert(view.skip(i as int) =~= Seq::<Seq<char>>::empty());
    }
    None
}

/// ` (required)`.
pub open spec fn required_suffix() -> Seq<char> {
    seq![' ', '(', 'r', 'e', 'q', 'u', 'i', 'r', 'e', 'd', ')']
}

/// The accessible label of a field: its label, marked when the field is required.
pub fn field_accessible_label(label: &str, required: bool) -> (accessible: String)
    ensures
        accessible@ == if required {
            label@ + required_suffix()
        } else {
            label@
        },
{
    if !required {
        return label.to_owned();
    }
    let mut chars = chars_of(label);
    proof {
        reveal_strlit(" (required)");
        assert(" (required)"@ =~= required_suffix());
    }
    crate::text::append_str(&mut chars, " (required)");
    string_from_chars(chars.as_slice())
}


/// One cell of a one-time-code field.
#[derive(Clone, Copy, Debug, PartialEq, Eq, Structural)]
pub struct OtpCell {
    /// The character shown (`•` when masked), if the code reaches this cell.
    pub text: Option<char>,
    /// The cell shows the focus ring.
    pub active: bool,
    /// The cell shows the caret.
    pub caret: bool,
}

/// The cell at `index` of a `length`-cell field holding `code`: filled cells
/// show their character or a mask; while focused, the next cell to fill (the
/// last cell once full) is active, and it shows the caret while the caret is
/// visible and the code is not full.
pub open spec fn otp_cell(code: Seq<char>, length: int, index: int, masked: bool, focused: bool, caret_visible: bool) -> OtpCell {
    let n = code.len() as int;
    let last = if length > 0 { length - 1 } else { 0 };
    OtpCell {
        text: if index < n {
            Some(if masked { '•' } else { code[index] })
        } else {
            None
        },
        active: focused && index == (if n < last { n } else { last }),
        caret: focused && caret_visible && n < length && index == n,
    }
}

/// The cells of a one-time-code field (see `otp_cell`).
pub fn otp_cells(code: &str, length: usize, masked: bool, focused: bool, caret_visible: bool) -> (cells: Vec<OtpCell>)
    ensures
        cells@.len() == length,
        forall|i: int|
            0 <= i < length ==> #[trigger] cells@[i] == otp_cell(code@, length as int, i, masked, focused, caret_visible),
{
    let chars = chars_of(code);
    let n = chars.len();
    let last = if length > 0 { length - 1 } else { 0 };
    let active_index = if n < last { n } else { last };
    let mut cells: Vec<OtpCell> = Vec::new();
    let mut i: usize = 0;
    while i < length
        invariant
            chars@ == code@,
            n == chars@.len(),
            last == (if length > 0 { length - 1 } else { 0 }),
            active_index == (if n < last { n } else { last }),
            i <= length,
            cells@.len() == i,
            forall|k: int|
                0 <= k < i ==> #[trigger] cells@[k] == otp_cell(code@, length as int, k, masked, focused, caret_visible),
        decreases length - i,
    {
        let text = if i < n {
            Some(if masked { '•' } else { chars[i] })
        } else {
            None
        };
        cells.push(OtpCell {
            text,
            active: focused && i == active_index,
            caret: focused && caret_visible && n < length && i == n,
        });
        i = i + 1;
    }
    cells
}

} // verus!
