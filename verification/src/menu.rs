//! Menu entries and the retained state of a menu popup: opening and closing,
//! submenu navigation, keyboard highlight with typeahead, and activation of
//! action, check and radio entries.
use crate::clock::Clock;
use crate::segmentation::{lowercase, string_from_chars, to_lowercase};
use crate::text::chars_of;
use vstd::prelude::*;

verus! {

/// Typeahead keys typed within this many nanoseconds of the previous one
/// extend the query; a longer pause starts a new query.
pub const TYPEAHEAD_NANOS: u64 = 700000000;

/// An action, check item, radio item, separator or submenu entry.
pub struct MenuItem {
    id: String,
    label: String,
    disabled: bool,
    checked: Option<bool>,
    radio: bool,
    link: bool,
    children: Vec<MenuItem>,
    separator: bool,
}

/// What a menu entry is, as plain values.
pub struct MenuItemView {
    pub id: Seq<char>,
    pub label: Seq<char>,
    pub disabled: bool,
    pub checked: Option<bool>,
    pub radio: bool,
    pub link: bool,
    pub children: Seq<MenuItemView>,
    pub separator: bool,
}

impl MenuItemView {
    /// Separators and disabled entries cannot be highlighted or activated.
    pub open spec fn enabled(self) -> bool {
        !self.disabled && !self.separator
    }

    /// Whether the entry opens another level.
    pub open spec fn has_submenu(self) -> bool {
        self.children.len() > 0
    }
}

/// A plain entry with the given ID and label.
pub open spec fn plain_item(id: Seq<char>, label: Seq<char>) -> MenuItemView {
    MenuItemView {
        id,
        label,
        disabled: false,
        checked: None,
        radio: false,
        link: false,
        children: Seq::empty(),
        separator: false,
    }
}

impl MenuItem {
    /// The entry as plain values, children included.
    pub closed spec fn model(&self) -> MenuItemView
        decreases self,
    {
        MenuItemView {
            id: self.id@,
            label: self.label@,
            disabled: self.disabled,
            checked: self.checked,
            radio: self.radio,
            link: self.link,
            children: Seq::new(
                self.children@.len(),
                |i: int|
                    if 0 <= i < self.children@.len() {
                        self.children@[i].model()
                    } else {
                        arbitrary()
                    },
            ),
            separator: self.separator,
        }
    }
}

impl View for MenuItem {
    type V = MenuItemView;

    open spec fn view(&self) -> MenuItemView {
        self.model()
    }
}

/// The entries of a list as plain values.
pub open spec fn items_view(items: Seq<MenuItem>) -> Seq<MenuItemView> {
    Seq::new(items.len(), |i: int| items[i]@)
}

impl MenuItem {
    proof fn lemma_model_children(&self)
        ensures
            self@.children == items_view(self.children@),
    {
        assert(self@.children =~= items_view(self.children@));
    }

    /// Creates an action with a caller-owned ID, unique within its menu tree.
    pub fn new(id: &str, label: &str) -> (item: MenuItem)
        ensures
            item@ == plain_item(id@, label@),
    {
        let item = MenuItem {
            id: id.to_owned(),
            label: label.to_owned(),
            disabled: false,
            checked: None,
            radio: false,
            link: false,
            children: Vec::new(),
            separator: false,
        };
        proof {
            assert(item@.children =~= Seq::<MenuItemView>::empty());
        }
        item
    }

    /// Disables interaction.
    pub fn disabled(self, value: bool) -> (item: MenuItem)
        ensures
            item@ == (MenuItemView { disabled: value, ..self@ }),
    {
        let mut item = self;
        item.disabled = value;
        proof {
            assert(item@.children =~= self@.children);
        }
        item
    }

    /// Makes this a check item with the given initial state.
    pub fn checked(self, value: bool) -> (item: MenuItem)
        ensures
            item@ == (MenuItemView { checked: Some(value), ..self@ }),
    {
        let mut item = self;
        item.checked = Some(value);
        proof {
            assert(item@.children =~= self@.children);
        }
        item
    }

    /// Makes this a radio item; activating it clears the radio items beside it.
    pub fn radio(self, value: bool) -> (item: MenuItem)
        ensures
            item@ == (MenuItemView { checked: Some(value), radio: true, ..self@ }),
    {
        let mut item = self;
        item.checked = Some(value);
        item.radio = true;
        proof {
            assert(item@.children =~= self@.children);
        }
        item
    }

    /// Marks a link; the caller navigates when it is activated.
    pub fn link(self) -> (item: MenuItem)
        ensures
            item@ == (MenuItemView { link: true, ..self@ }),
    {
        let mut item = self;
        item.link = true;
        proof {
            assert(item@.children =~= self@.children);
        }
        item
    }

    /// An entry that opens another level holding `items`.
    pub fn submenu(id: &str, label: &str, items: Vec<MenuItem>) -> (item: MenuItem)
        ensures
            item@ == (MenuItemView { children: items_view(items@), ..plain_item(id@, label@) }),
    {
        let mut item = MenuItem::new(id, label);
        item.children = items;
        proof {
            assert(item@.children =~= items_view(items@));
        }
        item
    }

    /// A non-interactive separator between entries.
    pub fn separator() -> (item: MenuItem)
        ensures
            item@ == (MenuItemView { separator: true, ..plain_item("separator"@, ""@) }),
    {
        let mut item = MenuItem::new("separator", "");
        item.separator = true;
        proof {
            assert(item@.children =~= Seq::<MenuItemView>::empty());
        }
        item
    }

    /// A non-interactive heading.
    pub fn label(id: &str, label: &str) -> (item: MenuItem)
        ensures
            item@ == (MenuItemView { disabled: true, ..plain_item(id@, label@) }),
    {
        MenuItem::new(id, label).disabled(true)
    }

    /// Whether the entry can be highlighted and activated.
    pub fn enabled(&self) -> (enabled: bool)
        ensures
            enabled == self@.enabled(),
    {
        !self.disabled && !self.separator
    }

    /// The entry's label.
    pub fn label_text(&self) -> (label: &str)
        ensures
            label@ == self@.label,
    {
        self.label.as_str()
    }

    /// The checked state of a check or radio item, `None` for a plain action.
    pub fn checked_state(&self) -> (checked: Option<bool>)
        ensures
            checked == self@.checked,
    {
        self.checked
    }

    /// Whether this is a radio item.
    pub fn is_radio(&self) -> (radio: bool)
        ensures
            radio == self@.radio,
    {
        self.radio
    }

    /// Whether the entry opens another level.
    pub fn has_submenu(&self) -> (submenu: bool)
        ensures
            submenu == self@.has_submenu(),
    {
        proof {
            self.lemma_model_children();
        }
        self.children.len() > 0
    }
}


/// The entries at the level reached by following `path` from `items`.
pub open spec fn level(items: Seq<MenuItemView>, path: Seq<usize>) -> Seq<MenuItemView>
    decreases path.len(),
{
    if path.len() == 0 {
        items
    } else if path[0] < items.len() {
        level(items[path[0] as int].children, path.drop_first())
    } else {
        Seq::empty()
    }
}

pub proof fn lemma_level_push(items: Seq<MenuItemView>, path: Seq<usize>, x: usize)
    ensures
        level(items, path.push(x)) == (if x < level(items, path).len() {
            level(items, path)[x as int].children
        } else {
            Seq::<MenuItemView>::empty()
        }),
    decreases path.len(),
{
    assert(path.push(x)[0] == if path.len() == 0 { x } else { path[0] });
    if path.len() == 0 {
        assert(path.push(x).drop_first() =~= Seq::<usize>::empty());
        if x < items.len() {
            assert(level(items[x as int].children, Seq::<usize>::empty()) == items[x as int].children);
        }
    } else {
        assert(path.push(x).drop_first() =~= path.drop_first().push(x));
        if path[0] < items.len() {
            lemma_level_push(items[path[0] as int].children, path.drop_first(), x);
        }
    }
}

/// The indices of the enabled entries among the first `n`, in order.
pub open spec fn enabled_upto(items: Seq<MenuItemView>, n: int) -> Seq<usize>
    decreases n,
{
    if n <= 0 {
        Seq::empty()
    } else if items[n - 1].enabled() {
        enabled_upto(items, n - 1).push((n - 1) as usize)
    } else {
        enabled_upto(items, n - 1)
    }
}

/// The indices of the enabled entries, in order.
pub open spec fn enabled_indices(items: Seq<MenuItemView>) -> Seq<usize> {
    enabled_upto(items, items.len() as int)
}

/// The first enabled entry.
pub open spec fn first_enabled(items: Seq<MenuItemView>) -> Option<usize> {
    if enabled_indices(items).len() > 0 {
        Some(enabled_indices(items)[0])
    } else {
        None
    }
}

pub proof fn lemma_enabled_upto(items: Seq<MenuItemView>, n: int)
    requires
        0 <= n <= items.len(),
        items.len() <= usize::MAX,
    ensures
        forall|k: int|
            0 <= k < enabled_upto(items, n).len() ==> {
                &&& (#[trigger] enabled_upto(items, n)[k]) < n
                &&& items[enabled_upto(items, n)[k] as int].enabled()
            },
        forall|a: int, b: int|
            0 <= a < b < enabled_upto(items, n).len() ==> enabled_upto(items, n)[a] < enabled_upto(
                items,
                n,
            )[b],
        forall|i: int| 0 <= i < n && items[i].enabled() ==> enabled_upto(items, n).contains(i as usize),
        enabled_upto(items, n).len() <= n,
    decreases n,
{
    if n > 0 {
        lemma_enabled_upto(items, n - 1);
        let p = enabled_upto(items, n - 1);
        if items[n - 1].enabled() {
            assert(enabled_upto(items, n) == p.push((n - 1) as usize));
            assert forall|i: int| 0 <= i < n && items[i].enabled() implies enabled_upto(
                items,
                n,
            ).contains(i as usize) by {
                if i < n - 1 {
                    let k = choose|k: int| 0 <= k < p.len() && p[k] == i as usize;
                    assert(enabled_upto(items, n)[k] == i as usize);
                } else {
                    assert(enabled_upto(items, n)[p.len() as int] == i as usize);
                }
            }
        }
    }
}

/// Where `x` occurs in `s`, counting from the front.
pub open spec fn position_in(s: Seq<usize>, x: usize) -> Option<int>
    decreases s.len(),
{
    if s.len() == 0 {
        None
    } else if s[0] == x {
        Some(0)
    } else {
        match position_in(s.drop_first(), x) {
            Some(k) => Some(k + 1),
            None => None,
        }
    }
}

pub proof fn lemma_position_in(s: Seq<usize>, x: usize)
    ensures
        position_in(s, x) matches Some(k) ==> 0 <= k < s.len() && s[k] == x,
    decreases s.len(),
{
    if s.len() > 0 && s[0] != x {
        lemma_position_in(s.drop_first(), x);
    }
}

/// The position of the highlighted entry among the enabled ones, or 0.
pub open spec fn current_position(enabled: Seq<usize>, highlighted: Option<usize>) -> int {
    match highlighted {
        Some(i) => match position_in(enabled, i) {
            Some(k) => k,
            None => 0,
        },
        None => 0,
    }
}

/// `text` begins with `prefix`.
pub open spec fn starts_with(text: Seq<char>, prefix: Seq<char>) -> bool {
    prefix.len() <= text.len() && text.take(prefix.len() as int) == prefix
}

/// The first of `candidates` whose lowercased label begins with `query`.
pub open spec fn first_match(items: Seq<MenuItemView>, candidates: Seq<usize>, query: Seq<char>) -> Option<
    usize,
>
    decreases candidates.len(),
{
    if candidates.len() == 0 {
        None
    } else if candidates[0] < items.len() && starts_with(
        lowercase(items[candidates[0] as int].label),
        query,
    ) {
        Some(candidates[0])
    } else {
        first_match(items, candidates.drop_first(), query)
    }
}

pub proof fn lemma_first_match(items: Seq<MenuItemView>, candidates: Seq<usize>, query: Seq<char>)
    ensures
        first_match(items, candidates, query) matches Some(i) ==> candidates.contains(i),
    decreases candidates.len(),
{
    if candidates.len() > 0 {
        lemma_first_match(items, candidates.drop_first(), query);
        if let Some(i) = first_match(items, candidates.drop_first(), query) {
            if !(candidates[0] < items.len() && starts_with(
                lowercase(items[candidates[0] as int].label),
                query,
            )) {
                let k = choose|k: int|
                    0 <= k < candidates.drop_first().len() && candidates.drop_first()[k] == i;
                assert(candidates[k + 1] == i);
            }
        }
    }
}

/// Whether a typeahead key at `now` starts a new query.
pub open spec fn typeahead_expired(typed_at: Option<u64>, now: u64) -> bool {
    match typed_at {
        None => true,
        Some(t) => now > t && now - t > TYPEAHEAD_NANOS,
    }
}

/// The first `n` entries of `s`, or all of them when there are fewer (`Vec::truncate`).
pub open spec fn truncated<A>(s: Seq<A>, n: int) -> Seq<A> {
    if s.len() > n {
        s.take(n)
    } else {
        s
    }
}

/// `item` with its checked state replaced.
pub open spec fn with_checked(item: MenuItemView, checked: Option<bool>) -> MenuItemView {
    MenuItemView { checked, ..item }
}

/// A level after activating its check or radio entry `index`, which takes
/// the state `value`; activating a radio entry first clears every radio entry beside it.
pub open spec fn checked_level(level: Seq<MenuItemView>, index: int, value: bool, radio: bool) -> Seq<
    MenuItemView,
> {
    Seq::new(
        level.len(),
        |j: int|
            if j == index {
                with_checked(level[j], Some(value))
            } else if radio && level[j].radio {
                with_checked(level[j], Some(false))
            } else {
                level[j]
            },
    )
}

/// The entry tree after `checked_level` is applied at the level below `parents`.
pub open spec fn check_at(
    items: Seq<MenuItemView>,
    parents: Seq<usize>,
    index: int,
    value: bool,
    radio: bool,
) -> Seq<MenuItemView>
    decreases parents.len(),
{
    if parents.len() == 0 {
        checked_level(items, index, value, radio)
    } else if parents[0] < items.len() {
        items.update(
            parents[0] as int,
            MenuItemView {
                children: check_at(
                    items[parents[0] as int].children,
                    parents.drop_first(),
                    index,
                    value,
                    radio,
                ),
                ..items[parents[0] as int]
            },
        )
    } else {
        items
    }
}

/// Where keyboard focus goes when a menu closes.
#[derive(Clone, Copy, Debug, PartialEq, Eq, Structural)]
pub enum FocusReturn {
    /// Focus stays where it is.
    Keep,
    /// Focus returns to what was focused before a pointer opened the menu.
    Previous,
    /// Focus returns to the menu trigger.
    Trigger,
}

/// A committed leaf action, with its new checked state when it has one.
#[derive(Clone, Debug, PartialEq, Eq)]
pub struct MenuEvent {
    /// Indices from the root menu to the activated entry.
    pub path: Vec<usize>,
    /// The committed checked state, or `None` for a plain action.
    pub checked: Option<bool>,
}

/// What the host does after a menu operation.
pub enum MenuAction {
    /// Nothing changed.
    Nothing,
    /// The menu changed and is drawn again.
    Redraw,
    /// The menu closed; focus moves as given.
    Closed(FocusReturn),
    /// A leaf entry was activated: the menu closed, focus moves as given, the
    /// event is emitted and the entry's handler runs.
    Activated(MenuEvent, FocusReturn),
}

/// `MenuAction` as plain values.
pub enum ActionView {
    Nothing,
    Redraw,
    Closed(FocusReturn),
    Activated(Seq<usize>, Option<bool>, FocusReturn),
}

impl View for MenuAction {
    type V = ActionView;

    open spec fn view(&self) -> ActionView {
        match self {
            MenuAction::Nothing => ActionView::Nothing,
            MenuAction::Redraw => ActionView::Redraw,
            MenuAction::Closed(f) => ActionView::Closed(*f),
            MenuAction::Activated(e, f) => ActionView::Activated(e.path@, e.checked, *f),
        }
    }
}

/// A keystroke as the menu reads it.
#[derive(Clone, Copy, Debug, PartialEq, Eq, Structural)]
pub enum MenuKey {
    Escape,
    Tab,
    Left,
    Right,
    Up,
    Down,
    Home,
    End,
    Enter,
    Space,
    /// F10, which with Shift opens a context menu.
    F10,
    /// A key that types one character.
    Char(char),
    /// Any other key.
    Other,
}

/// The state of a menu as plain values.
pub struct MenuView {
    pub items: Seq<MenuItemView>,
    pub open: bool,
    pub pointer: bool,
    pub return_focus: bool,
    pub path: Seq<usize>,
    pub highlighted: Seq<Option<usize>>,
    pub query: Seq<char>,
    pub typed_at: Option<u64>,
}

impl MenuView {
    /// The entries shown at `depth`.
    pub open spec fn level_at(self, depth: int) -> Seq<MenuItemView> {
        level(self.items, self.path.take(depth))
    }

    /// The open submenus exist, and an open menu highlights at most one valid
    /// entry per level shown.
    pub open spec fn wf(self) -> bool {
        &&& forall|d: int|
            0 <= d < self.path.len() ==> (#[trigger] self.path[d]) < self.level_at(d).len()
                && self.level_at(d)[self.path[d] as int].has_submenu()
        &&& self.open ==> self.highlighted.len() == self.path.len() + 1
        &&& self.open ==> forall|d: int|
            0 <= d < self.highlighted.len() ==> (#[trigger] self.highlighted[d] matches Some(i)
                ==> i < self.level_at(d).len())
    }

    /// After `close(restore)`: closed with no submenu open; when restoring, focus
    /// goes back to what a pointer open captured, else to the trigger.
    pub open spec fn closed(self, restore: bool) -> (MenuView, FocusReturn) {
        let v = MenuView { open: false, path: Seq::empty(), ..self };
        if !restore {
            (v, FocusReturn::Keep)
        } else if self.return_focus {
            (MenuView { return_focus: false, ..v }, FocusReturn::Previous)
        } else {
            (v, FocusReturn::Trigger)
        }
    }

    /// After `open_at`: open at the top level with the first enabled entry
    /// highlighted and an empty typeahead query.
    pub open spec fn opened(self, pointer: bool, focused: bool) -> MenuView {
        MenuView {
            pointer,
            return_focus: pointer && focused,
            open: true,
            path: Seq::empty(),
            query: Seq::empty(),
            highlighted: seq![first_enabled(self.items)],
            ..self
        }
    }

    /// After `highlight(depth, index)`, and whether anything changed. Disabled
    /// entries and the entry already highlighted are left alone; otherwise
    /// deeper levels close and `index` becomes the highlight at `depth`.
    pub open spec fn highlighted_to(self, depth: int, index: int) -> (MenuView, bool) {
        if !self.level_at(depth)[index].enabled() {
            (self, false)
        } else if depth < self.highlighted.len() && self.highlighted[depth] == Some(index as usize) {
            (self, false)
        } else {
            (
                MenuView {
                    path: truncated(self.path, depth),
                    highlighted: truncated(self.highlighted, depth + 1).update(
                        depth,
                        Some(index as usize),
                    ),
                    ..self
                },
                true,
            )
        }
    }

    /// After `activate(depth, index)`. Disabled entries do nothing; a submenu
    /// entry opens its level with its first enabled entry highlighted; a leaf
    /// commits its new checked state (a check item flips, a radio item becomes
    /// the one checked radio entry of its level), closes the menu restoring
    /// focus, and is reported with its path.
    pub open spec fn activated(self, depth: int, index: int) -> (MenuView, ActionView) {
        let item = self.level_at(depth)[index];
        if !item.enabled() {
            (self, ActionView::Nothing)
        } else if item.has_submenu() {
            (
                MenuView {
                    path: self.path.take(depth).push(index as usize),
                    highlighted: truncated(self.highlighted, depth + 1).push(
                        first_enabled(item.children),
                    ),
                    ..self
                },
                ActionView::Redraw,
            )
        } else {
            let checked = match item.checked {
                Some(v) => Some(item.radio || !v),
                None => None,
            };
            let items = match checked {
                Some(c) => check_at(self.items, self.path.take(depth), index, c, item.radio),
                None => self.items,
            };
            let (v, focus) = MenuView { items, ..self }.closed(true);
            (v, ActionView::Activated(self.path.take(depth).push(index as usize), checked, focus))
        }
    }

    /// The highlight move of a navigation key: the result of `highlighted_to`
    /// when a target was found.
    pub open spec fn moved(self, depth: int, next: Option<usize>) -> (MenuView, ActionView, bool) {
        match next {
            Some(i) => {
                let (v, changed) = self.highlighted_to(depth, i as int);
                (v, if changed {
                    ActionView::Redraw
                } else {
                    ActionView::Nothing
                }, true)
            },
            None => (self, ActionView::Nothing, true),
        }
    }

    /// After a keystroke at `now`: the new state, what the host does, and
    /// whether the key stops propagating.
    pub open spec fn keyed(self, key: MenuKey, modified: bool, now: u64) -> (MenuView, ActionView, bool) {
        let depth = self.path.len() as int;
        if !self.open {
            (self, ActionView::Nothing, false)
        } else if key == MenuKey::Escape {
            let (v, f) = self.closed(true);
            (v, ActionView::Closed(f), true)
        } else if key == MenuKey::Tab {
            let (v, f) = self.closed(true);
            (v, ActionView::Closed(f), false)
        } else if modified {
            (self, ActionView::Nothing, false)
        } else if key == MenuKey::Left && depth > 0 {
            (
                MenuView {
                    path: self.path.drop_last(),
                    highlighted: self.highlighted.drop_last(),
                    ..self
                },
                ActionView::Redraw,
                true,
            )
        } else if key == MenuKey::Enter || key == MenuKey::Space || key == MenuKey::Right {
            match self.highlighted[depth] {
                Some(i) => if key != MenuKey::Right || self.level_at(depth)[i as int].has_submenu() {
                    let (v, a) = self.activated(depth, i as int);
                    (v, a, true)
                } else {
                    (self, ActionView::Nothing, true)
                },
                None => (self, ActionView::Nothing, true),
            }
        } else {
            self.navigated(key, now)
        }
    }

    /// The arrow, Home, End and typeahead keys of `keyed`: among the enabled
    /// entries of the deepest level, Up and Down move cyclically from the
    /// highlighted one (from the first when none is highlighted), Home and End
    /// go to the ends, and a character extends the typeahead query (a new query
    /// after a pause) and moves to the first entry whose lowercased label starts
    /// with the lowercased query. Other keys, and levels without enabled
    /// entries, are left to propagate.
    pub open spec fn navigated(self, key: MenuKey, now: u64) -> (MenuView, ActionView, bool) {
        let depth = self.path.len() as int;
        let enabled = enabled_indices(self.level_at(depth));
        let n = enabled.len() as int;
        let current = current_position(enabled, self.highlighted[depth]);
        if n == 0 {
            (self, ActionView::Nothing, false)
        } else {
            match key {
                MenuKey::Up => self.moved(depth, Some(enabled[(current + n - 1) % n])),
                MenuKey::Down => self.moved(depth, Some(enabled[(current + 1) % n])),
                MenuKey::Home => self.moved(depth, Some(enabled[0])),
                MenuKey::End => self.moved(depth, Some(enabled[n - 1])),
                MenuKey::Char(c) => {
                    let query = if typeahead_expired(self.typed_at, now) {
                        seq![c]
                    } else {
                        self.query.push(c)
                    };
                    let typed = MenuView { query, typed_at: Some(now), ..self };
                    typed.moved(depth, first_match(self.level_at(depth), enabled, lowercase(query)))
                },
                _ => (self, ActionView::Nothing, false),
            }
        }
    }
}

/// How the menu reads a key name: the named keys, a single character, or anything else.
pub open spec fn key_kind(key: Seq<char>) -> MenuKey {
    if key == seq!['e', 's', 'c', 'a', 'p', 'e'] {
        MenuKey::Escape
    } else if key == seq!['t', 'a', 'b'] {
        MenuKey::Tab
    } else if key == seq!['l', 'e', 'f', 't'] {
        MenuKey::Left
    } else if key == seq!['r', 'i', 'g', 'h', 't'] {
        MenuKey::Right
    } else if key == seq!['u', 'p'] {
        MenuKey::Up
    } else if key == seq!['d', 'o', 'w', 'n'] {
        MenuKey::Down
    } else if key == seq!['h', 'o', 'm', 'e'] {
        MenuKey::Home
    } else if key == seq!['e', 'n', 'd'] {
        MenuKey::End
    } else if key == seq!['e', 'n', 't', 'e', 'r'] {
        MenuKey::Enter
    } else if key == seq!['s', 'p', 'a', 'c', 'e'] {
        MenuKey::Space
    } else if key == seq!['f', '1', '0'] {
        MenuKey::F10
    } else if key.len() == 1 {
        MenuKey::Char(key[0])
    } else {
        MenuKey::Other
    }
}


fn enabled_list(items: &Vec<MenuItem>) -> (enabled: Vec<usize>)
    ensures
        enabled@ == enabled_indices(items_view(items@)),
{
    let ghost view = items_view(items@);
    let mut enabled: Vec<usize> = Vec::new();
    let mut i: usize = 0;
    while i < items.len()
        invariant
            i <= items@.len(),
            view == items_view(items@),
            enabled@ == enabled_upto(view, i as int),
        decreases items@.len() - i,
    {
        if items[i].enabled() {
            enabled.push(i);
        }
        i = i + 1;
    }
    enabled
}

fn first_enabled_of(items: &Vec<MenuItem>) -> (first: Option<usize>)
    ensures
        first == first_enabled(items_view(items@)),
{
    let enabled = enabled_list(items);
    if enabled.len() > 0 {
        Some(enabled[0])
    } else {
        None
    }
}

pub(crate) fn position_of(s: &Vec<usize>, x: usize) -> (position: Option<usize>)
    ensures
        match position_in(s@, x) {
            Some(k) => position == Some(k as usize),
            None => position is None,
        },
{
    let mut i: usize = 0;
    proof {
        assert(s@.skip(0) =~= s@);
    }
    while i < s.len()
        invariant
            i <= s@.len(),
            position_in(s@, x) == match position_in(s@.skip(i as int), x) {
                Some(k) => Some(k + i),
                None => None::<int>,
            },
        decreases s@.len() - i,
    {
        proof {
            assert(s@.skip(i as int).drop_first() =~= s@.skip(i as int + 1));
            assert(s@.skip(i as int)[0] == s@[i as int]);
        }
        if s[i] == x {
            return Some(i);
        }
        i = i + 1;
    }
    proof {
        assert(s@.skip(i as int) =~= Seq::<usize>::empty());
    }
    None
}

fn starts_with_chars(text: &Vec<char>, prefix: &Vec<char>) -> (r: bool)
    ensures
        r == starts_with(text@, prefix@),
{
    if prefix.len() > text.len() {
        return false;
    }
    let mut i: usize = 0;
    while i < prefix.len()
        invariant
            prefix@.len() <= text@.len(),
            i <= prefix@.len(),
            forall|j: int| 0 <= j < i ==> text@[j] == prefix@[j],
        decreases prefix@.len() - i,
    {
        if text[i] != prefix[i] {
            proof {
                assert(text@.take(prefix@.len() as int)[i as int] == text@[i as int]);
            }
            return false;
        }
        i = i + 1;
    }
    proof {
        assert(text@.take(prefix@.len() as int) =~= prefix@);
    }
    true
}

fn first_match_of(items: &Vec<MenuItem>, candidates: &Vec<usize>, query: &Vec<char>) -> (found: Option<usize>)
    ensures
        found == first_match(items_view(items@), candidates@, lowercase(query@)),
{
    let ghost view = items_view(items@);
    let q = chars_of(to_lowercase(string_from_chars(query.as_slice()).as_str()).as_str());
    let mut i: usize = 0;
    proof {
        assert(candidates@.skip(0) =~= candidates@);
    }
    while i < candidates.len()
        invariant
            i <= candidates@.len(),
            view == items_view(items@),
            q@ == lowercase(query@),
            first_match(view, candidates@, q@) == first_match(view, candidates@.skip(i as int), q@),
        decreases candidates@.len() - i,
    {
        proof {
            assert(candidates@.skip(i as int).drop_first() =~= candidates@.skip(i as int + 1));
            assert(candidates@.skip(i as int)[0] == candidates@[i as int]);
        }
        let c = candidates[i];
        if c < items.len() {
            let label = chars_of(to_lowercase(items[c].label_text()).as_str());
            if starts_with_chars(&label, &q) {
                return Some(c);
            }
        }
        i = i + 1;
    }
    proof {
        assert(candidates@.skip(i as int) =~= Seq::<usize>::empty());
    }
    None
}

/// Applies `checked_level` to the level below `parents[from..]`.
fn set_checked(
    items: &mut Vec<MenuItem>,
    parents: &Vec<usize>,
    from: usize,
    index: usize,
    value: bool,
    radio: bool,
)
    requires
        from <= parents@.len(),
        index < level(items_view(old(items)@), parents@.skip(from as int)).len(),
    ensures
        items_view(final(items)@) == check_at(
            items_view(old(items)@),
            parents@.skip(from as int),
            index as int,
            value,
            radio,
        ),
    decreases parents@.len() - from,
{
    let ghost old_view = items_view(items@);
    let ghost ps = parents@.skip(from as int);
    if from == parents.len() {
        proof {
            assert(ps =~= Seq::<usize>::empty());
        }
        let mut j: usize = 0;
        while j < items.len()
            invariant
                j <= items@.len(),
                items@.len() == old_view.len(),
                index < old_view.len(),
                forall|k: int|
                    0 <= k < j ==> (#[trigger] items@[k])@ == checked_level(
                        old_view,
                        index as int,
                        value,
                        radio,
                    )[k],
                forall|k: int| j <= k < items@.len() ==> (#[trigger] items@[k])@ == old_view[k],
            decreases items@.len() - j,
        {
            let is_radio = items[j].radio;
            if j == index {
                let item = &mut items[j];
                item.checked = Some(value);
                proof {
                    assert(item@.children =~= old_view[j as int].children);
                }
            } else if radio && is_radio {
                let item = &mut items[j];
                item.checked = Some(false);
                proof {
                    assert(item@.children =~= old_view[j as int].children);
                }
            }
            j = j + 1;
        }
        proof {
            assert(items_view(items@) =~= checked_level(old_view, index as int, value, radio));
        }
    } else {
        let p = parents[from];
        proof {
            assert(ps[0] == p);
            assert(ps.drop_first() =~= parents@.skip(from as int + 1));
        }
        if p < items.len() {
            let ghost before = items@[p as int];
            proof {
                before.lemma_model_children();
            }
            let item = &mut items[p];
            set_checked(&mut item.children, parents, from + 1, index, value, radio);
            proof {
                item.lemma_model_children();
                assert(item@ == MenuItemView {
                    children: check_at(
                        before@.children,
                        parents@.skip(from as int + 1),
                        index as int,
                        value,
                        radio,
                    ),
                    ..before@
                });
            }
            proof {
                assert(items_view(items@) =~= check_at(old_view, ps, index as int, value, radio));
            }
        }
    }
}


impl View for MenuEvent {
    type V = (Seq<usize>, Option<bool>);

    open spec fn view(&self) -> (Seq<usize>, Option<bool>) {
        (self.path@, self.checked)
    }
}

/// Retained popup visibility, entry state and keyboard navigation of a menu.
pub struct MenuState {
    items: Vec<MenuItem>,
    open: bool,
    pointer: bool,
    return_focus: bool,
    path: Vec<usize>,
    highlighted: Vec<Option<usize>>,
    query: Vec<char>,
    typed_at: Option<u64>,
    clock: Clock,
}

impl View for MenuState {
    type V = MenuView;

    closed spec fn view(&self) -> MenuView {
        MenuView {
            items: items_view(self.items@),
            open: self.open,
            pointer: self.pointer,
            return_focus: self.return_focus,
            path: self.path@,
            highlighted: self.highlighted@,
            query: self.query@,
            typed_at: self.typed_at,
        }
    }
}

impl MenuState {
    /// A closed menu holding `items`.
    pub fn new(items: Vec<MenuItem>) -> (menu: MenuState)
        ensures
            menu@ == (MenuView {
                items: items_view(items@),
                open: false,
                pointer: false,
                return_focus: false,
                path: Seq::empty(),
                highlighted: Seq::empty(),
                query: Seq::empty(),
                typed_at: None,
            }),
            menu@.wf(),
    {
        let menu = MenuState {
            items,
            open: false,
            pointer: false,
            return_focus: false,
            path: Vec::new(),
            highlighted: Vec::new(),
            query: Vec::new(),
            typed_at: None,
            clock: Clock::new(),
        };
        proof {
            assert(menu@.path =~= Seq::<usize>::empty());
        }
        menu
    }

    /// Whether the popup is open.
    pub fn is_open(&self) -> (open: bool)
        ensures
            open == self@.open,
    {
        self.open
    }

    /// The menu's entries.
    pub fn items(&self) -> (items: &Vec<MenuItem>)
        ensures
            items_view(items@) == self@.items,
    {
        &self.items
    }

    /// The indices of the open submenus, from the root.
    pub fn path(&self) -> (path: &Vec<usize>)
        ensures
            path@ == self@.path,
    {
        &self.path
    }

    /// The highlighted entry at `depth`, if any.
    pub fn highlighted_at(&self, depth: usize) -> (highlighted: Option<usize>)
        ensures
            highlighted == (if depth < self@.highlighted.len() {
                self@.highlighted[depth as int]
            } else {
                None
            }),
    {
        if depth < self.highlighted.len() {
            self.highlighted[depth]
        } else {
            None
        }
    }

    fn level_items(&self, depth: usize) -> (items: &Vec<MenuItem>)
        requires
            self@.wf(),
            depth <= self@.path.len(),
        ensures
            items_view(items@) == self@.level_at(depth as int),
    {
        let mut items: &Vec<MenuItem> = &self.items;
        let mut k: usize = 0;
        proof {
            assert(self@.path.take(0) =~= Seq::<usize>::empty());
        }
        while k < depth
            invariant
                self@.wf(),
                k <= depth <= self@.path.len(),
                items_view(items@) == self@.level_at(k as int),
            decreases depth - k,
        {
            let index = self.path[k];
            proof {
                assert(self@.path[k as int] == index);
                lemma_level_push(self@.items, self@.path.take(k as int), index);
                assert(self@.path.take(k as int + 1) =~= self@.path.take(k as int).push(index));
                items@[index as int].lemma_model_children();
            }
            items = &items[index].children;
            k = k + 1;
        }
        items
    }

    /// Replaces the entries and closes every submenu; the first enabled entry is highlighted.
    pub fn set_items(&mut self, items: Vec<MenuItem>)
        requires
            old(self)@.wf(),
        ensures
            final(self)@ == (MenuView {
                items: items_view(items@),
                path: Seq::empty(),
                highlighted: seq![first_enabled(items_view(items@))],
                ..old(self)@
            }),
            final(self)@.wf(),
    {
        self.items = items;
        self.path = Vec::new();
        let first = first_enabled_of(&self.items);
        let count = self.items.len();
        self.highlighted = vec![first];
        proof {
            assert(self@.items.len() == count);
            lemma_enabled_upto(self@.items, self@.items.len() as int);
            assert(self@.highlighted =~= seq![first]);
            assert(self@.level_at(0) == self@.items);
        }
    }

    /// Opens at the trigger (`pointer` false) or at a pointer position. A
    /// pointer open remembers to return focus to what was focused, when
    /// `focused` says something was.
    pub fn open_at(&mut self, pointer: bool, focused: bool)
        requires
            old(self)@.wf(),
        ensures
            final(self)@ == old(self)@.opened(pointer, focused),
            final(self)@.wf(),
    {
        self.pointer = pointer;
        self.return_focus = pointer && focused;
        self.open = true;
        self.path = Vec::new();
        self.query = Vec::new();
        let first = first_enabled_of(&self.items);
        let count = self.items.len();
        self.highlighted = vec![first];
        proof {
            assert(self@.items.len() == count);
            lemma_enabled_upto(self@.items, self@.items.len() as int);
            assert(self@.highlighted =~= seq![first]);
            assert(self@.path =~= Seq::<usize>::empty());
            assert(self@.query =~= Seq::<char>::empty());
            assert(self@.level_at(0) == self@.items);
        }
    }

    /// Opens at the trigger.
    pub fn open(&mut self)
        requires
            old(self)@.wf(),
        ensures
            final(self)@ == old(self)@.opened(false, false),
            final(self)@.wf(),
    {
        self.open_at(false, false);
    }

    /// Closes every level; with `restore`, says where focus returns.
    pub fn close(&mut self, restore: bool) -> (focus: FocusReturn)
        requires
            old(self)@.wf(),
        ensures
            (final(self)@, focus) == old(self)@.closed(restore),
            final(self)@.wf(),
    {
        self.open = false;
        self.path = Vec::new();
        proof {
            assert(self@.path =~= Seq::<usize>::empty());
        }
        if !restore {
            FocusReturn::Keep
        } else if self.return_focus {
            self.return_focus = false;
            FocusReturn::Previous
        } else {
            FocusReturn::Trigger
        }
    }

    /// Whether a left (`right` false) or right arrow moves within the menu's
    /// submenus rather than to a neighbouring menu: left while a submenu is
    /// open, right while the highlighted entry opens one.
    pub fn submenu_key(&self, right: bool) -> (inside: bool)
        requires
            self@.wf(),
            right && self@.highlighted.len() > 0 ==> (self@.highlighted.last() matches Some(i) ==> i
                < self@.level_at(self@.path.len() as int).len()),
        ensures
            inside == if !right {
                self@.path.len() > 0
            } else {
                self@.highlighted.len() > 0 && (self@.highlighted.last() matches Some(i)
                    && self@.level_at(self@.path.len() as int)[i as int].has_submenu())
            },
    {
        if !right {
            return self.path.len() > 0;
        }
        if self.highlighted.len() == 0 {
            return false;
        }
        match self.highlighted[self.highlighted.len() - 1] {
            Some(i) => {
                let items = self.level_items(self.path.len());
                items[i].has_submenu()
            },
            None => false,
        }
    }
}


/// The outcome of a keystroke: what the host does and whether the key stops propagating.
pub struct KeyOutcome {
    pub action: MenuAction,
    pub stop_propagation: bool,
}

fn same_chars(a: &Vec<char>, b: &Vec<char>) -> (same: bool)
    ensures
        same == (a@ == b@),
{
    if a.len() != b.len() {
        return false;
    }
    let mut i: usize = 0;
    while i < a.len()
        invariant
            a@.len() == b@.len(),
            i <= a@.len(),
            forall|j: int| 0 <= j < i ==> a@[j] == b@[j],
        decreases a@.len() - i,
    {
        if a[i] != b[i] {
            return false;
        }
        i = i + 1;
    }
    proof {
        assert(a@ =~= b@);
    }
    true
}

fn is_word(key: &Vec<char>, word: &str) -> (same: bool)
    ensures
        same == (key@ == word@),
{
    let w = chars_of(word);
    same_chars(key, &w)
}

/// Reads a key name as the menu does.
pub fn menu_key(key: &str) -> (kind: MenuKey)
    ensures
        kind == key_kind(key@),
{
    let k = chars_of(key);
    proof {
        reveal_strlit("escape");
        reveal_strlit("tab");
        reveal_strlit("left");
        reveal_strlit("right");
        reveal_strlit("up");
        reveal_strlit("down");
        reveal_strlit("home");
        reveal_strlit("end");
        reveal_strlit("enter");
        reveal_strlit("space");
        reveal_strlit("f10");
        assert("escape"@ =~= seq!['e', 's', 'c', 'a', 'p', 'e']);
        assert("tab"@ =~= seq!['t', 'a', 'b']);
        assert("left"@ =~= seq!['l', 'e', 'f', 't']);
        assert("right"@ =~= seq!['r', 'i', 'g', 'h', 't']);
        assert("up"@ =~= seq!['u', 'p']);
        assert("down"@ =~= seq!['d', 'o', 'w', 'n']);
        assert("home"@ =~= seq!['h', 'o', 'm', 'e']);
        assert("end"@ =~= seq!['e', 'n', 'd']);
        assert("enter"@ =~= seq!['e', 'n', 't', 'e', 'r']);
        assert("space"@ =~= seq!['s', 'p', 'a', 'c', 'e']);
        assert("f10"@ =~= seq!['f', '1', '0']);
    }
    if is_word(&k, "escape") {
        MenuKey::Escape
    } else if is_word(&k, "tab") {
        MenuKey::Tab
    } else if is_word(&k, "left") {
        MenuKey::Left
    } else if is_word(&k, "right") {
        MenuKey::Right
    } else if is_word(&k, "up") {
        MenuKey::Up
    } else if is_word(&k, "down") {
        MenuKey::Down
    } else if is_word(&k, "home") {
        MenuKey::Home
    } else if is_word(&k, "end") {
        MenuKey::End
    } else if is_word(&k, "enter") {
        MenuKey::Enter
    } else if is_word(&k, "space") {
        MenuKey::Space
    } else if is_word(&k, "f10") {
        MenuKey::F10
    } else if k.len() == 1 {
        MenuKey::Char(k[0])
    } else {
        MenuKey::Other
    }
}

impl MenuState {
    /// Highlights entry `index` at `depth`, closing deeper levels; disabled
    /// entries and the current highlight are left alone. Reports whether the menu changed.
    pub fn highlight(&mut self, depth: usize, index: usize) -> (changed: bool)
        requires
            old(self)@.wf(),
            depth <= old(self)@.path.len(),
            index < old(self)@.level_at(depth as int).len(),
            old(self)@.level_at(depth as int)[index as int].enabled() ==> depth < old(
                self,
            )@.highlighted.len(),
        ensures
            (final(self)@, changed) == old(self)@.highlighted_to(depth as int, index as int),
            final(self)@.wf(),
    {
        let ghost v = self@;
        let enabled = {
            let items = self.level_items(depth);
            items[index].enabled()
        };
        if !enabled {
            return false;
        }
        let same = match self.highlighted[depth] {
            Some(current) => current == index,
            None => false,
        };
        if same {
            return false;
        }
        self.path.truncate(depth);
        if depth < self.highlighted.len() {
            self.highlighted.truncate(depth + 1);
        }
        self.highlighted.set(depth, Some(index));
        proof {
            assert(self@.path =~= truncated(v.path, depth as int));
            assert(self@.highlighted =~= truncated(v.highlighted, depth as int + 1).update(
                depth as int,
                Some(index),
            ));
            assert forall|d: int| 0 <= d <= depth implies self@.path.take(d) =~= v.path.take(d) by {}
            assert forall|d: int| 0 <= d < self@.path.len() implies (#[trigger] self@.path[d])
                < self@.level_at(d).len() && self@.level_at(d)[self@.path[d] as int].has_submenu() by {
                assert(self@.path.take(d) =~= v.path.take(d));
                assert(self@.path[d] == v.path[d]);
            }
            if self@.open {
                assert forall|d: int|
                    0 <= d < self@.highlighted.len() implies (#[trigger] self@.highlighted[d] matches Some(
                    i,
                ) ==> i < self@.level_at(d).len()) by {
                    assert(self@.path.take(d) =~= v.path.take(d));
                }
            }
        }
        true
    }

    /// Activates entry `index` at `depth` (see `MenuView::activated`).
    pub fn activate(&mut self, depth: usize, index: usize) -> (action: MenuAction)
        requires
            old(self)@.wf(),
            depth <= old(self)@.path.len(),
            index < old(self)@.level_at(depth as int).len(),
        ensures
            (final(self)@, action@) == old(self)@.activated(depth as int, index as int),
            final(self)@.wf(),
    {
        let ghost v = self@;
        let (enabled, submenu, checked, radio, first_child, child_count) = {
            let items = self.level_items(depth);
            let item = &items[index];
            proof {
                item.lemma_model_children();
                assert(item@ == v.level_at(depth as int)[index as int]);
            }
            (
                item.enabled(),
                item.has_submenu(),
                item.checked,
                item.radio,
                first_enabled_of(&item.children),
                item.children.len(),
            )
        };
        if !enabled {
            return MenuAction::Nothing;
        }
        if submenu {
            let ghost item = v.level_at(depth as int)[index as int];
            self.path.truncate(depth);
            self.path.push(index);
            if depth < self.highlighted.len() {
                self.highlighted.truncate(depth + 1);
            }
            self.highlighted.push(first_child);
            proof {
                assert(self@.path =~= v.path.take(depth as int).push(index));
                assert(self@.highlighted =~= truncated(v.highlighted, depth as int + 1).push(first_child));
                assert forall|d: int| 0 <= d <= depth implies self@.path.take(d) =~= v.path.take(d) by {}
                assert(self@.path.take(depth as int + 1) =~= v.path.take(depth as int).push(index));
                lemma_level_push(v.items, v.path.take(depth as int), index);
                assert(self@.level_at(depth as int + 1) == item.children);
                assert(item.children.len() == child_count);
                lemma_enabled_upto(item.children, item.children.len() as int);
                assert forall|d: int| 0 <= d < self@.path.len() implies (#[trigger] self@.path[d])
                    < self@.level_at(d).len() && self@.level_at(d)[self@.path[d] as int].has_submenu() by {
                    if d < depth {
                        assert(self@.path[d] == v.path[d]);
                    }
                }
                if self@.open {
                    assert forall|d: int|
                        0 <= d < self@.highlighted.len() implies (#[trigger] self@.highlighted[d] matches Some(
                        i,
                    ) ==> i < self@.level_at(d).len()) by {
                        if d <= depth {
                            assert(self@.highlighted[d] == v.highlighted[d]);
                        }
                    }
                }
            }
            return MenuAction::Redraw;
        }
        let mut parents: Vec<usize> = Vec::new();
        let mut path: Vec<usize> = Vec::new();
        let mut k: usize = 0;
        while k < depth
            invariant
                k <= depth <= self.path@.len(),
                self@ == v,
                parents@ == v.path.take(k as int),
                path@ == v.path.take(k as int),
            decreases depth - k,
        {
            parents.push(self.path[k]);
            path.push(self.path[k]);
            proof {
                assert(v.path.take(k as int + 1) =~= v.path.take(k as int).push(v.path[k as int]));
            }
            k = k + 1;
        }
        path.push(index);
        let new_checked = match checked {
            Some(value) => Some(radio || !value),
            None => None,
        };
        let focus = self.close(true);
        match new_checked {
            Some(c) => {
                proof {
                    assert(parents@.skip(0) =~= parents@);
                }
                set_checked(&mut self.items, &parents, 0, index, c, radio);
            },
            None => {},
        }
        MenuAction::Activated(MenuEvent { path, checked: new_checked }, focus)
    }
}


impl MenuState {
    fn move_to(&mut self, depth: usize, next: Option<usize>) -> (outcome: KeyOutcome)
        requires
            old(self)@.wf(),
            old(self)@.open,
            depth == old(self)@.path.len(),
            next matches Some(i) ==> i < old(self)@.level_at(depth as int).len(),
        ensures
            (final(self)@, outcome.action@, outcome.stop_propagation) == old(self)@.moved(
                depth as int,
                next,
            ),
            final(self)@.wf(),
    {
        match next {
            Some(i) => {
                let changed = self.highlight(depth, i);
                KeyOutcome {
                    action: if changed {
                        MenuAction::Redraw
                    } else {
                        MenuAction::Nothing
                    },
                    stop_propagation: true,
                }
            },
            None => KeyOutcome { action: MenuAction::Nothing, stop_propagation: true },
        }
    }

    /// Handles a keystroke read as `key` at clock reading `now` (see `MenuView::keyed`).
    pub fn key_at(&mut self, key: MenuKey, modified: bool, now: u64) -> (outcome: KeyOutcome)
        requires
            old(self)@.wf(),
        ensures
            (final(self)@, outcome.action@, outcome.stop_propagation) == old(self)@.keyed(
                key,
                modified,
                now,
            ),
            final(self)@.wf(),
    {
        let ghost v = self@;
        if !self.open {
            return KeyOutcome { action: MenuAction::Nothing, stop_propagation: false };
        }
        let depth = self.path.len();
        if key == MenuKey::Escape {
            let focus = self.close(true);
            return KeyOutcome { action: MenuAction::Closed(focus), stop_propagation: true };
        }
        if key == MenuKey::Tab {
            let focus = self.close(true);
            return KeyOutcome { action: MenuAction::Closed(focus), stop_propagation: false };
        }
        if modified {
            return KeyOutcome { action: MenuAction::Nothing, stop_propagation: false };
        }
        if key == MenuKey::Left && depth > 0 {
            self.path.pop();
            self.highlighted.pop();
            proof {
                assert(self@.path =~= v.path.drop_last());
                assert(self@.highlighted =~= v.highlighted.drop_last());
                assert forall|d: int| 0 <= d <= self@.path.len() implies self@.path.take(d)
                    =~= v.path.take(d) by {}
                assert forall|d: int| 0 <= d < self@.path.len() implies (#[trigger] self@.path[d])
                    < self@.level_at(d).len() && self@.level_at(d)[self@.path[d] as int].has_submenu() by {
                    assert(self@.path[d] == v.path[d]);
                }
                assert forall|d: int|
                    0 <= d < self@.highlighted.len() implies (#[trigger] self@.highlighted[d] matches Some(
                    i,
                ) ==> i < self@.level_at(d).len()) by {
                    assert(self@.highlighted[d] == v.highlighted[d]);
                }
            }
            return KeyOutcome { action: MenuAction::Redraw, stop_propagation: true };
        }
        if key == MenuKey::Enter || key == MenuKey::Space || key == MenuKey::Right {
            match self.highlighted[depth] {
                Some(i) => {
                    let submenu = {
                        let items = self.level_items(depth);
                        items[i].has_submenu()
                    };
                    if key != MenuKey::Right || submenu {
                        let action = self.activate(depth, i);
                        return KeyOutcome { action, stop_propagation: true };
                    }
                    return KeyOutcome { action: MenuAction::Nothing, stop_propagation: true };
                },
                None => {
                    return KeyOutcome { action: MenuAction::Nothing, stop_propagation: true };
                },
            }
        }
        self.navigate(key, now)
    }

    /// Handles a keystroke named `key`, reading the menu's clock for typeahead timing.
    pub fn key(&mut self, key: &str, modified: bool) -> (outcome: KeyOutcome)
        requires
            old(self)@.wf(),
        ensures
            exists|now: u64|
                (final(self)@, outcome.action@, outcome.stop_propagation) == #[trigger] old(
                    self,
                )@.keyed(key_kind(key@), modified, now),
            final(self)@.wf(),
    {
        let kind = menu_key(key);
        let now = self.clock.nanos();
        self.key_at(kind, modified, now)
    }
}


impl MenuState {
    fn navigate(&mut self, key: MenuKey, now: u64) -> (outcome: KeyOutcome)
        requires
            old(self)@.wf(),
            old(self)@.open,
        ensures
            (final(self)@, outcome.action@, outcome.stop_propagation) == old(self)@.navigated(key, now),
            final(self)@.wf(),
    {
        let ghost v = self@;
        let depth = self.path.len();
        let enabled = {
            let items = self.level_items(depth);
            let count = items.len();
            proof {
                lemma_enabled_upto(v.level_at(depth as int), count as int);
            }
            enabled_list(items)
        };
        let n = enabled.len();
        if n == 0 {
            return KeyOutcome { action: MenuAction::Nothing, stop_propagation: false };
        }
        let current = match self.highlighted[depth] {
            Some(i) => match position_of(&enabled, i) {
                Some(k) => k,
                None => 0,
            },
            None => 0,
        };
        proof {
            if let Some(i) = v.highlighted[depth as int] {
                lemma_position_in(enabled@, i);
            }
            assert(current == current_position(enabled@, v.highlighted[depth as int]));
            assert(0 <= current < n);
        }
        match key {
            MenuKey::Up => {
                let k = if current == 0 {
                    n - 1
                } else {
                    current - 1
                };
                proof {
                    if current == 0 {
                        vstd::arithmetic::div_mod::lemma_small_mod((n - 1) as nat, n as nat);
                    } else {
                        vstd::arithmetic::div_mod::lemma_mod_add_multiples_vanish(current - 1, n as int);
                        vstd::arithmetic::div_mod::lemma_small_mod((current - 1) as nat, n as nat);
                    }
                    assert(k as int == (current + n - 1) % (n as int));
                }
                self.move_to(depth, Some(enabled[k]))
            },
            MenuKey::Down => {
                let k = (current + 1) % n;
                self.move_to(depth, Some(enabled[k]))
            },
            MenuKey::Home => self.move_to(depth, Some(enabled[0])),
            MenuKey::End => self.move_to(depth, Some(enabled[n - 1])),
            MenuKey::Char(c) => {
                let expired = match self.typed_at {
                    None => true,
                    Some(t) => now > t && now - t > TYPEAHEAD_NANOS,
                };
                if expired {
                    self.query = Vec::new();
                }
                self.typed_at = Some(now);
                self.query.push(c);
                proof {
                    if expired {
                        assert(self@.query =~= seq![c]);
                    }
                }
                let found = {
                    let items = self.level_items(depth);
                    first_match_of(items, &enabled, &self.query)
                };
                proof {
                    lemma_first_match(v.level_at(depth as int), enabled@, lowercase(self@.query));
                }
                self.move_to(depth, found)
            },
            _ => KeyOutcome { action: MenuAction::Nothing, stop_propagation: false },
        }
    }

}


proof fn lemma_level_of_check(
    items: Seq<MenuItemView>,
    parents: Seq<usize>,
    index: int,
    value: bool,
    radio: bool,
)
    requires
        forall|d: int| 0 <= d < parents.len() ==> (#[trigger] parents[d]) < level(items, parents.take(d)).len(),
    ensures
        level(check_at(items, parents, index, value, radio), parents) == checked_level(
            level(items, parents),
            index,
            value,
            radio,
        ),
    decreases parents.len(),
{
    if parents.len() > 0 {
        let p = parents[0];
        assert(parents.take(0) =~= Seq::<usize>::empty());
        assert(p < items.len());
        let rest = parents.drop_first();
        assert forall|d: int| 0 <= d < rest.len() implies (#[trigger] rest[d]) < level(
            items[p as int].children,
            rest.take(d),
        ).len() by {
            assert(parents[d + 1] == rest[d]);
            assert(parents.take(d + 1).drop_first() =~= rest.take(d));
            assert(parents.take(d + 1)[0] == p);
        }
        lemma_level_of_check(items[p as int].children, rest, index, value, radio);
        let updated = check_at(items, parents, index, value, radio);
        assert(updated[p as int].children == check_at(items[p as int].children, rest, index, value, radio));
    }
}

/// Activating an enabled radio entry leaves it the one checked radio entry
/// of its level; activating an enabled check entry flips it.
pub proof fn lemma_activation_commits_check(v: MenuView, depth: int, index: int)
    requires
        v.wf(),
        0 <= depth <= v.path.len(),
        0 <= index < v.level_at(depth).len(),
        v.level_at(depth)[index].enabled(),
        !v.level_at(depth)[index].has_submenu(),
        v.level_at(depth)[index].checked is Some,
    ensures
        ({
            let item = v.level_at(depth)[index];
            let after = level(v.activated(depth, index).0.items, v.path.take(depth));
            &&& after.len() == v.level_at(depth).len()
            &&& item.radio ==> forall|j: int|
                0 <= j < after.len() && (#[trigger] after[j]).radio ==> after[j].checked == Some(j == index)
            &&& !item.radio ==> after[index].checked == Some(!item.checked->Some_0)
        }),
{
    let parents = v.path.take(depth);
    assert forall|d: int| 0 <= d < parents.len() implies (#[trigger] parents[d]) < level(
        v.items,
        parents.take(d),
    ).len() by {
        assert(parents.take(d) =~= v.path.take(d));
        assert(parents[d] == v.path[d]);
    }
    let item = v.level_at(depth)[index];
    let c = item.radio || !item.checked->Some_0;
    lemma_level_of_check(v.items, parents, index, c, item.radio);
}

/// Arrow, Home, End and typeahead keys change neither the entries nor the
/// open levels, and when they move the highlight, the new one is enabled.
pub proof fn lemma_navigation_highlights_enabled(v: MenuView, key: MenuKey, modified: bool, now: u64)
    requires
        v.wf(),
        v.open,
        key == MenuKey::Up || key == MenuKey::Down || key == MenuKey::Home || key == MenuKey::End
            || key is Char,
    ensures
        ({
            let w = v.keyed(key, modified, now).0;
            let depth = v.path.len() as int;
            &&& w.items == v.items
            &&& w.path == v.path
            &&& w.open
            &&& w.highlighted.len() == v.highlighted.len()
            &&& w.highlighted[depth] != v.highlighted[depth] ==> (w.highlighted[depth] matches Some(
                i,
            ) && v.level_at(depth)[i as int].enabled())
        }),
{
    let depth = v.path.len() as int;
    let w = v.keyed(key, modified, now).0;
    assert(truncated(v.path, depth) == v.path);
    assert(truncated(v.highlighted, depth + 1) == v.highlighted);
}

/// Escape and Tab close an open menu, closing every submenu.
pub proof fn lemma_escape_and_tab_close(v: MenuView, key: MenuKey, modified: bool, now: u64)
    requires
        v.open,
        key == MenuKey::Escape || key == MenuKey::Tab,
    ensures
        !v.keyed(key, modified, now).0.open,
        v.keyed(key, modified, now).0.path.len() == 0,
        v.keyed(key, modified, now).1 is Closed,
        v.keyed(key, modified, now).2 == (key == MenuKey::Escape),
{
}


/// Whether a key on a focused menu trigger opens its menu: Down or Up on a
/// menu button, Shift-F10 on a context area, never while disabled.
pub fn trigger_opens(key: MenuKey, shift: bool, disabled: bool, trigger_focused: bool, context: bool) -> (opens: bool)
    ensures
        opens == (!disabled && trigger_focused && ((!context && (key == MenuKey::Down || key == MenuKey::Up))
            || (context && key == MenuKey::F10 && shift))),
{
    !disabled && trigger_focused && ((!context && (key == MenuKey::Down || key == MenuKey::Up)) || (context
        && key == MenuKey::F10 && shift))
}

/// The menu of a menu bar that a key moves to from menu `current` of `count`:
/// Left and Right move cyclically (unless the open menu uses them for its own
/// submenus: `left_inside`, `right_inside`), Home and End jump to the ends
/// while no menu is open. Modified keys are left alone.
pub open spec fn menubar_target(
    key: MenuKey,
    modified: bool,
    current: int,
    count: int,
    open: bool,
    left_inside: bool,
    right_inside: bool,
) -> Option<int> {
    if modified || count == 0 {
        None
    } else if open && ((key == MenuKey::Left && left_inside) || (key == MenuKey::Right && right_inside)) {
        None
    } else if key == MenuKey::Left {
        Some((current + count - 1) % count)
    } else if key == MenuKey::Right {
        Some((current + 1) % count)
    } else if key == MenuKey::Home && !open {
        Some(0)
    } else if key == MenuKey::End && !open {
        Some(count - 1)
    } else {
        None
    }
}

/// The menu a menu bar key moves to (see `menubar_target`).
pub fn menubar_next(
    key: MenuKey,
    modified: bool,
    current: usize,
    count: usize,
    open: bool,
    left_inside: bool,
    right_inside: bool,
) -> (next: Option<usize>)
    requires
        current < count,
    ensures
        match menubar_target(key, modified, current as int, count as int, open, left_inside, right_inside) {
            Some(i) => next == Some(i as usize),
            None => next is None,
        },
{
    if modified {
        return None;
    }
    if open && ((key == MenuKey::Left && left_inside) || (key == MenuKey::Right && right_inside)) {
        return None;
    }
    if key == MenuKey::Left {
        let k = if current == 0 {
            count - 1
        } else {
            current - 1
        };
        proof {
            if current == 0 {
                vstd::arithmetic::div_mod::lemma_small_mod((count - 1) as nat, count as nat);
            } else {
                vstd::arithmetic::div_mod::lemma_mod_add_multiples_vanish(current - 1, count as int);
                vstd::arithmetic::div_mod::lemma_small_mod((current - 1) as nat, count as nat);
            }
        }
        Some(k)
    } else if key == MenuKey::Right {
        Some((current + 1) % count)
    } else if key == MenuKey::Home && !open {
        Some(0)
    } else if key == MenuKey::End && !open {
        Some(count - 1)
    } else {
        None
    }
}

/// Hovering entry `hovered` of a menu bar while menu `open` is open switches
/// to the hovered menu: the menu to close, if any.
pub fn menubar_hover(open: Option<usize>, hovered: usize) -> (close: Option<usize>)
    ensures
        close == match open {
            Some(i) => if i != hovered {
                Some(i)
            } else {
                None
            },
            None => None,
        },
{
    match open {
        Some(i) => if i != hovered {
            Some(i)
        } else {
            None
        },
        None => None,
    }
}

} // verus!
