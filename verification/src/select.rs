//! The retained state of single-choice selectors: plain selects, comboboxes
//! that filter listed options, and autocompletes that also accept free text.
use crate::menu::{position_in, position_of};
use crate::segmentation::{lowercase, to_lowercase};
use crate::text::chars_of;
use vstd::prelude::*;

verus! {

/// One selectable value and its visible label.
pub struct SelectItem {
    /// The stable value emitted when selected.
    pub value: String,
    /// The visible option label.
    pub label: String,
    /// Whether this option is excluded from selection.
    pub disabled: bool,
}

/// An option as plain values.
pub struct OptionView {
    pub value: Seq<char>,
    pub label: Seq<char>,
    pub disabled: bool,
}

impl View for SelectItem {
    type V = OptionView;

    open spec fn view(&self) -> OptionView {
        OptionView { value: self.value@, label: self.label@, disabled: self.disabled }
    }
}

impl SelectItem {
    /// An enabled option with the given value and label.
    pub fn new(value: &str, label: &str) -> (item: SelectItem)
        ensures
            item@ == (OptionView { value: value@, label: label@, disabled: false }),
    {
        SelectItem { value: value.to_owned(), label: label.to_owned(), disabled: false }
    }

    /// Sets whether the option is excluded from selection.
    pub fn disabled(self, disabled: bool) -> (item: SelectItem)
        ensures
            item@ == (OptionView { disabled, ..self@ }),
    {
        let mut item = self;
        item.disabled = disabled;
        item
    }
}

/// Notifications emitted when a selector commits a value.
#[derive(Clone, Debug, PartialEq, Eq)]
pub enum SelectEvent {
    /// The newly committed value, or `None` after clearing the selection.
    Change(Option<String>),
}

impl View for SelectEvent {
    type V = Option<Seq<char>>;

    open spec fn view(&self) -> Option<Seq<char>> {
        match self {
            SelectEvent::Change(Some(v)) => Some(v@),
            SelectEvent::Change(None) => None,
        }
    }
}

/// How the selector is presented.
#[derive(Clone, Copy, Debug, PartialEq, Eq, Structural)]
pub enum Mode {
    /// A plain select without a text editor.
    Select,
    /// An editable selector that filters and commits listed values.
    Combobox,
    /// An editable selector that also commits free text.
    Autocomplete,
}

/// Where keyboard focus goes after an operation.
#[derive(Clone, Copy, Debug, PartialEq, Eq, Structural)]
pub enum SelectFocus {
    /// Focus stays where it is.
    Keep,
    /// Focus goes to the selector (the editor in editable modes).
    Selector,
    /// Focus goes to the editor.
    Editor,
}

/// What the host does after a selector operation.
pub struct SelectEffects {
    /// Text the host writes into the selector's editor.
    pub editor: Option<String>,
    /// The event emitted.
    pub change: Option<SelectEvent>,
    /// Where focus goes.
    pub focus: SelectFocus,
    /// The visible row to scroll into view.
    pub scroll_to: Option<usize>,
}

/// `SelectEffects` as plain values.
pub struct EffectsView {
    pub editor: Option<Seq<char>>,
    pub change: Option<Option<Seq<char>>>,
    pub focus: SelectFocus,
    pub scroll_to: Option<usize>,
}

impl View for SelectEffects {
    type V = EffectsView;

    open spec fn view(&self) -> EffectsView {
        EffectsView {
            editor: match self.editor {
                Some(t) => Some(t@),
                None => None,
            },
            change: match self.change {
                Some(e) => Some(e@),
                None => None,
            },
            focus: self.focus,
            scroll_to: self.scroll_to,
        }
    }
}

/// No effect.
pub open spec fn no_effects() -> EffectsView {
    EffectsView { editor: None, change: None, focus: SelectFocus::Keep, scroll_to: None }
}

/// The state of a selector as plain values.
pub struct SelectView {
    pub items: Seq<OptionView>,
    pub syncing: Option<Seq<char>>,
    pub value: Option<Seq<char>>,
    /// The text of the selector's editor.
    pub input: Seq<char>,
    pub open: bool,
    pub highlighted: Option<usize>,
    pub mode: Mode,
    pub disabled: bool,
    /// The accessible label.
    pub label: Seq<char>,
    /// The text shown while nothing is selected.
    pub placeholder: Seq<char>,
}

/// The options as plain values.
pub open spec fn options_view(items: Seq<SelectItem>) -> Seq<OptionView> {
    Seq::new(items.len(), |i: int| items[i]@)
}

/// `text` contains `needle` as a contiguous part.
pub open spec fn contains_text(text: Seq<char>, needle: Seq<char>) -> bool {
    exists|k: int|
        0 <= k && k + needle.len() <= text.len() && #[trigger] text.subrange(k, k + needle.len())
            == needle
}

/// The indices among the first `n` options whose lowercased label contains `query`, in order.
pub open spec fn matching_upto(items: Seq<OptionView>, query: Seq<char>, n: int) -> Seq<usize>
    decreases n,
{
    if n <= 0 {
        Seq::empty()
    } else if contains_text(lowercase(items[n - 1].label), query) {
        matching_upto(items, query, n - 1).push((n - 1) as usize)
    } else {
        matching_upto(items, query, n - 1)
    }
}

/// The first of `candidates` that is enabled and, when `value` is given, has that value.
pub open spec fn first_choice(items: Seq<OptionView>, candidates: Seq<usize>, value: Option<Seq<char>>) -> Option<
    usize,
>
    decreases candidates.len(),
{
    if candidates.len() == 0 {
        None
    } else if candidates[0] < items.len() && !items[candidates[0] as int].disabled && (match value {
        Some(v) => items[candidates[0] as int].value == v,
        None => true,
    }) {
        Some(candidates[0])
    } else {
        first_choice(items, candidates.drop_first(), value)
    }
}

/// The indices of `candidates` whose options are enabled, in order.
pub open spec fn enabled_among(items: Seq<OptionView>, candidates: Seq<usize>) -> Seq<usize>
    decreases candidates.len(),
{
    if candidates.len() == 0 {
        Seq::empty()
    } else {
        let rest = enabled_among(items, candidates.drop_last());
        let c = candidates.last();
        if c < items.len() && !items[c as int].disabled {
            rest.push(c)
        } else {
            rest
        }
    }
}

/// The label of the first option with value `value`.
pub open spec fn label_of(items: Seq<OptionView>, value: Seq<char>) -> Option<Seq<char>>
    decreases items.len(),
{
    if items.len() == 0 {
        None
    } else if items[0].value == value {
        Some(items[0].label)
    } else {
        label_of(items.drop_first(), value)
    }
}

impl SelectView {
    /// Options whose lowercased label contains the lowercased editor text (all
    /// of them for a plain select), in order.
    pub open spec fn visible(self) -> Seq<usize> {
        let query = if self.mode == Mode::Select {
            Seq::empty()
        } else {
            lowercase(self.input)
        };
        matching_upto(self.items, query, self.items.len() as int)
    }

    /// The highlight is a listed option.
    pub open spec fn wf(self) -> bool {
        self.highlighted matches Some(i) ==> i < self.items.len()
    }

    /// After `set_value`: a listed value is committed and its label becomes the
    /// editor text; an autocomplete also commits unlisted text as typed;
    /// anything else clears the selection and the editor. Editable modes write
    /// the text into the editor and expect it back once.
    pub open spec fn value_set(self, value: Option<Seq<char>>) -> (SelectView, EffectsView) {
        let text = match value {
            Some(v) => match label_of(self.items, v) {
                Some(label) => Some(label),
                None => if self.mode == Mode::Autocomplete {
                    Some(v)
                } else {
                    None
                },
            },
            None => None,
        };
        let committed = if text is Some {
            value
        } else {
            None
        };
        let t = match text {
            Some(t) => t,
            None => Seq::empty(),
        };
        if self.mode != Mode::Select {
            (
                SelectView { value: committed, syncing: Some(t), input: t, ..self },
                EffectsView { editor: Some(t), ..no_effects() },
            )
        } else {
            (SelectView { value: committed, ..self }, no_effects())
        }
    }

    /// After `set_open(open)`: nothing while disabled; opening highlights the
    /// visible enabled option holding the committed value, else the first
    /// visible enabled option.
    pub open spec fn opened(self, open: bool) -> SelectView {
        if self.disabled {
            self
        } else if !open {
            SelectView { open, ..self }
        } else {
            let visible = self.visible();
            let highlighted = match first_choice(self.items, visible, self.value) {
                Some(i) => Some(i),
                None => first_choice(self.items, visible, None),
            };
            SelectView { open, highlighted, ..self }
        }
    }

    /// After `navigate(direction)`: a closed selector opens; an open one moves
    /// among the visible enabled options, to the first (-2), to the last (2), or
    /// cyclically by `direction` from the highlighted one (from the first when
    /// none is), scrolling the new row into view.
    pub open spec fn navigated(self, direction: int) -> (SelectView, EffectsView) {
        if self.disabled {
            (self, no_effects())
        } else if !self.open {
            (self.opened(true), no_effects())
        } else {
            let visible = self.visible();
            let enabled = enabled_among(self.items, visible);
            let n = enabled.len() as int;
            if n == 0 {
                (self, no_effects())
            } else {
                let current = match self.highlighted {
                    Some(h) => match position_in(enabled, h) {
                        Some(k) => k,
                        None => 0,
                    },
                    None => 0,
                };
                let next = if direction == -2 {
                    0
                } else if direction == 2 {
                    n - 1
                } else {
                    (current + direction) % n
                };
                let target = enabled[next];
                (
                    SelectView { highlighted: Some(target), ..self },
                    EffectsView {
                        scroll_to: match position_in(visible, target) {
                            Some(k) => Some(k as usize),
                            None => None,
                        },
                        ..no_effects()
                    },
                )
            }
        }
    }

    /// After `choose(index)`: a disabled selector or option does nothing;
    /// otherwise the option's value is committed (as `value_set`), the popup
    /// closes, focus returns to the selector and the value is emitted.
    pub open spec fn chosen(self, index: int) -> (SelectView, EffectsView) {
        if self.disabled || self.items[index].disabled {
            (self, no_effects())
        } else {
            let (v, e) = self.value_set(Some(self.items[index].value));
            (
                SelectView { open: false, ..v },
                EffectsView { change: Some(v.value), focus: SelectFocus::Selector, ..e },
            )
        }
    }

    /// After `confirm`: a closed selector opens; an open one chooses the
    /// highlighted option; with nothing highlighted an autocomplete commits the
    /// editor text and closes.
    pub open spec fn confirmed(self) -> (SelectView, EffectsView) {
        if !self.open {
            (self.opened(true), no_effects())
        } else {
            match self.highlighted {
                Some(i) => self.chosen(i as int),
                None => if self.mode == Mode::Autocomplete {
                    (
                        SelectView { value: Some(self.input), open: false, ..self },
                        EffectsView { change: Some(Some(self.input)), ..no_effects() },
                    )
                } else {
                    (self, no_effects())
                },
            }
        }
    }

    /// After `clear`: the selection and editor are cleared, the popup opens,
    /// focus goes to the editor and `None` is emitted.
    pub open spec fn cleared(self) -> (SelectView, EffectsView) {
        let (v, e) = self.value_set(None);
        (v.opened(true), EffectsView { change: Some(None), focus: SelectFocus::Editor, ..e })
    }

    /// After the editor reports its text changed to `text`: the text is kept;
    /// an enabled selector ignores the one echo of text it wrote itself, and
    /// otherwise opens with the first visible enabled option highlighted.
    pub open spec fn input_changed(self, text: Seq<char>) -> SelectView {
        let v = SelectView { input: text, ..self };
        if self.disabled {
            v
        } else if self.syncing == Some(text) {
            SelectView { syncing: None, ..v }
        } else {
            let w = SelectView { syncing: None, open: true, ..v };
            SelectView { highlighted: first_choice(w.items, w.visible(), None), ..w }
        }
    }
}


fn matches_at(text: &Vec<char>, needle: &Vec<char>, k: usize) -> (m: bool)
    requires
        k + needle@.len() <= text@.len(),
    ensures
        m == (text@.subrange(k as int, k + needle@.len()) == needle@),
{
    let count = text.len();
    let mut j: usize = 0;
    while j < needle.len()
        invariant
            count == text@.len(),
            k + needle@.len() <= text@.len(),
            j <= needle@.len(),
            forall|i: int| 0 <= i < j ==> text@[k + i] == needle@[i],
        decreases needle@.len() - j,
    {
        if text[k + j] != needle[j] {
            proof {
                assert(text@.subrange(k as int, k + needle@.len())[j as int] == text@[k + j]);
            }
            return false;
        }
        j = j + 1;
    }
    proof {
        assert(text@.subrange(k as int, k + needle@.len()) =~= needle@);
    }
    true
}

pub(crate) fn contains_chars(text: &Vec<char>, needle: &Vec<char>) -> (found: bool)
    ensures
        found == contains_text(text@, needle@),
{
    if needle.len() > text.len() {
        return false;
    }
    let last = text.len() - needle.len();
    let mut k: usize = 0;
    while k < last
        invariant
            last + needle@.len() == text@.len(),
            k <= last,
            forall|i: int| 0 <= i < k ==> #[trigger] text@.subrange(i, i + needle@.len()) != needle@,
        decreases last - k,
    {
        if matches_at(text, needle, k) {
            return true;
        }
        k = k + 1;
    }
    matches_at(text, needle, last)
}

fn matching_list(items: &Vec<SelectItem>, query: &Vec<char>) -> (visible: Vec<usize>)
    ensures
        visible@ == matching_upto(options_view(items@), query@, items@.len() as int),
{
    let ghost view = options_view(items@);
    let mut visible: Vec<usize> = Vec::new();
    let mut i: usize = 0;
    while i < items.len()
        invariant
            i <= items@.len(),
            view == options_view(items@),
            visible@ == matching_upto(view, query@, i as int),
        decreases items@.len() - i,
    {
        let label = chars_of(to_lowercase(items[i].label.as_str()).as_str());
        if contains_chars(&label, query) {
            visible.push(i);
        }
        i = i + 1;
    }
    visible
}

fn same_text(a: &String, b: &String) -> (same: bool)
    ensures
        same == (a@ == b@),
{
    *a == *b
}

fn first_choice_of(items: &Vec<SelectItem>, candidates: &Vec<usize>, value: &Option<String>) -> (found: Option<usize>)
    ensures
        found == first_choice(
            options_view(items@),
            candidates@,
            match value {
                Some(v) => Some(v@),
                None => None,
            },
        ),
{
    let ghost view = options_view(items@);
    let ghost wanted = match value {
        Some(v) => Some(v@),
        None => None::<Seq<char>>,
    };
    let mut i: usize = 0;
    proof {
        assert(candidates@.skip(0) =~= candidates@);
    }
    while i < candidates.len()
        invariant
            i <= candidates@.len(),
            view == options_view(items@),
            wanted == match value {
                Some(v) => Some(v@),
                None => None::<Seq<char>>,
            },
            first_choice(view, candidates@, wanted) == first_choice(view, candidates@.skip(i as int), wanted),
        decreases candidates@.len() - i,
    {
        proof {
            assert(candidates@.skip(i as int).drop_first() =~= candidates@.skip(i as int + 1));
            assert(candidates@.skip(i as int)[0] == candidates@[i as int]);
        }
        let c = candidates[i];
        if c < items.len() && !items[c].disabled {
            proof {
                assert(view[c as int] == items@[c as int]@);
            }
            let fits = match value {
                Some(v) => {
                    proof {
                        assert(wanted == Some(v@));
                    }
                    same_text(&items[c].value, v)
                },
                None => true,
            };
            proof {
                assert(fits == match wanted {
                    Some(w) => view[c as int].value == w,
                    None => true,
                });
            }
            if fits {
                return Some(c);
            }
        }
        i = i + 1;
    }
    proof {
        assert(candidates@.skip(i as int) =~= Seq::<usize>::empty());
    }
    None
}

fn enabled_of(items: &Vec<SelectItem>, candidates: &Vec<usize>) -> (enabled: Vec<usize>)
    ensures
        enabled@ == enabled_among(options_view(items@), candidates@),
{
    let ghost view = options_view(items@);
    let mut enabled: Vec<usize> = Vec::new();
    let mut i: usize = 0;
    proof {
        assert(candidates@.take(0) =~= Seq::<usize>::empty());
    }
    while i < candidates.len()
        invariant
            i <= candidates@.len(),
            view == options_view(items@),
            enabled@ == enabled_among(view, candidates@.take(i as int)),
        decreases candidates@.len() - i,
    {
        let c = candidates[i];
        proof {
            assert(candidates@.take(i as int + 1).drop_last() =~= candidates@.take(i as int));
            assert(candidates@.take(i as int + 1).last() == c);
        }
        if c < items.len() && !items[c].disabled {
            enabled.push(c);
        }
        i = i + 1;
    }
    proof {
        assert(candidates@.take(i as int) =~= candidates@);
    }
    enabled
}

fn label_for(items: &Vec<SelectItem>, value: &String) -> (label: Option<String>)
    ensures
        match label_of(options_view(items@), value@) {
            Some(l) => label matches Some(s) && s@ == l,
            None => label is None,
        },
{
    let ghost view = options_view(items@);
    let mut i: usize = 0;
    proof {
        assert(view.skip(0) =~= view);
    }
    while i < items.len()
        invariant
            i <= items@.len(),
            view == options_view(items@),
            label_of(view, value@) == label_of(view.skip(i as int), value@),
        decreases items@.len() - i,
    {
        proof {
            assert(view.skip(i as int).drop_first() =~= view.skip(i as int + 1));
            assert(view.skip(i as int)[0] == view[i as int]);
        }
        if items[i].value == *value {
            return Some(items[i].label.clone());
        }
        i = i + 1;
    }
    proof {
        assert(view.skip(i as int) =~= Seq::<OptionView>::empty());
    }
    None
}


proof fn lemma_first_choice_listed(items: Seq<OptionView>, candidates: Seq<usize>, value: Option<Seq<char>>)
    ensures
        first_choice(items, candidates, value) matches Some(i) ==> i < items.len() && candidates.contains(i),
    decreases candidates.len(),
{
    if candidates.len() > 0 {
        lemma_first_choice_listed(items, candidates.drop_first(), value);
        if let Some(i) = first_choice(items, candidates.drop_first(), value) {
            if first_choice(items, candidates, value) == Some(i) && candidates[0] != i {
                let k = choose|k: int| 0 <= k < candidates.drop_first().len() && candidates.drop_first()[k] == i;
                assert(candidates[k + 1] == i);
            }
        }
    }
}

proof fn lemma_enabled_among(items: Seq<OptionView>, candidates: Seq<usize>)
    ensures
        forall|k: int|
            0 <= k < enabled_among(items, candidates).len() ==> {
                &&& (#[trigger] enabled_among(items, candidates)[k]) < items.len()
                &&& !items[enabled_among(items, candidates)[k] as int].disabled
                &&& candidates.contains(enabled_among(items, candidates)[k])
            },
    decreases candidates.len(),
{
    if candidates.len() > 0 {
        let rest = candidates.drop_last();
        lemma_enabled_among(items, rest);
        assert forall|k: int| 0 <= k < enabled_among(items, rest).len() implies candidates.contains(
            #[trigger] enabled_among(items, rest)[k],
        ) by {
            let x = enabled_among(items, rest)[k];
            let j = choose|j: int| 0 <= j < rest.len() && rest[j] == x;
            assert(candidates[j] == x);
        }
        assert(candidates[candidates.len() - 1] == candidates.last());
    }
}

/// `(current + direction)` reduced into `0..n`, as `rem_euclid` does.
fn cyclic_step(current: usize, direction: isize, n: usize) -> (next: usize)
    requires
        current < n,
    ensures
        next as int == (current + direction) % (n as int),
        next < n,
{
    let m: u128 = n as u128;
    if direction >= 0 {
        let d: u128 = (direction as u128) % m;
        let r: u128 = (current as u128 + d) % m;
        proof {
            vstd::arithmetic::div_mod::lemma_add_mod_noop_right(current as int, direction as int, n as int);
        }
        r as usize
    } else {
        let a: u128 = (-(direction as i128)) as u128;
        let d: u128 = a % m;
        let r: u128 = (current as u128 + m - d) % m;
        proof {
            vstd::arithmetic::div_mod::lemma_sub_mod_noop_right(current as int, a as int, n as int);
            vstd::arithmetic::div_mod::lemma_mod_add_multiples_vanish(current - d, n as int);
            assert(current + direction == current - a);
        }
        r as usize
    }
}

/// Own the state and watch the `SelectEvent::Change` effects for committed values.
pub struct SelectState {
    items: Vec<SelectItem>,
    syncing: Option<String>,
    value: Option<String>,
    input: String,
    open: bool,
    highlighted: Option<usize>,
    mode: Mode,
    disabled: bool,
    label: String,
    placeholder: String,
}

impl View for SelectState {
    type V = SelectView;

    closed spec fn view(&self) -> SelectView {
        SelectView {
            items: options_view(self.items@),
            syncing: match self.syncing {
                Some(s) => Some(s@),
                None => None,
            },
            value: match self.value {
                Some(v) => Some(v@),
                None => None,
            },
            input: self.input@,
            open: self.open,
            highlighted: self.highlighted,
            mode: self.mode,
            disabled: self.disabled,
            label: self.label@,
            placeholder: self.placeholder@,
        }
    }
}

impl SelectState {
    /// A closed plain select over `items` with nothing selected.
    pub fn new(items: Vec<SelectItem>) -> (state: SelectState)
        ensures
            state@ == (SelectView {
                items: options_view(items@),
                syncing: None,
                value: None,
                input: Seq::empty(),
                open: false,
                highlighted: None,
                mode: Mode::Select,
                disabled: false,
                label: "Selection"@,
                placeholder: "Select…"@,
            }),
            state@.wf(),
    {
        SelectState {
            items,
            syncing: None,
            value: None,
            input: String::new(),
            open: false,
            highlighted: None,
            mode: Mode::Select,
            disabled: false,
            label: "Selection".to_owned(),
            placeholder: "Select…".to_owned(),
        }
    }

    /// The committed value.
    pub fn value(&self) -> (value: Option<&str>)
        ensures
            match value {
                Some(v) => self@.value == Some(v@),
                None => self@.value is None,
            },
    {
        match &self.value {
            Some(v) => Some(v.as_str()),
            None => None,
        }
    }

    /// The text of the selector's editor.
    pub fn input_text(&self) -> (text: &str)
        ensures
            text@ == self@.input,
    {
        self.input.as_str()
    }

    /// Whether the popup is open.
    pub fn is_open(&self) -> (open: bool)
        ensures
            open == self@.open,
    {
        self.open
    }

    /// The highlighted option.
    pub fn highlighted(&self) -> (highlighted: Option<usize>)
        ensures
            highlighted == self@.highlighted,
    {
        self.highlighted
    }

    /// The presentation and availability chosen by the rendering selector.
    pub fn configure(&mut self, mode: Mode, disabled: bool)
        requires
            old(self)@.wf(),
        ensures
            final(self)@ == (SelectView { mode, disabled, ..old(self)@ }),
            final(self)@.wf(),
    {
        self.mode = mode;
        self.disabled = disabled;
    }

    /// The accessible label and the placeholder shown while nothing is selected.
    pub fn set_presentation(&mut self, label: &str, placeholder: &str)
        ensures
            final(self)@ == (SelectView { label: label@, placeholder: placeholder@, ..old(self)@ }),
    {
        self.label = label.to_owned();
        self.placeholder = placeholder.to_owned();
    }

    /// The accessible label.
    pub fn label(&self) -> (label: &str)
        ensures
            label@ == self@.label,
    {
        self.label.as_str()
    }

    /// The text shown while nothing is selected.
    pub fn placeholder(&self) -> (placeholder: &str)
        ensures
            placeholder@ == self@.placeholder,
    {
        self.placeholder.as_str()
    }

    fn visible_list(&self) -> (visible: Vec<usize>)
        ensures
            visible@ == self@.visible(),
    {
        let query = if self.mode == Mode::Select {
            Vec::new()
        } else {
            chars_of(to_lowercase(self.input.as_str()).as_str())
        };
        proof {
            if self.mode == Mode::Select {
                assert(query@ =~= Seq::<char>::empty());
            }
        }
        matching_list(&self.items, &query)
    }

    /// Commits `value` and synchronizes the editor (see `SelectView::value_set`).
    pub fn set_value(&mut self, value: Option<&str>) -> (effects: SelectEffects)
        requires
            old(self)@.wf(),
        ensures
            (final(self)@, effects@) == old(self)@.value_set(
                match value {
                    Some(v) => Some(v@),
                    None => None,
                },
            ),
            final(self)@.wf(),
    {
        let requested: Option<String> = match value {
            Some(v) => Some(v.to_owned()),
            None => None,
        };
        let text: Option<String> = match &requested {
            Some(v) => match label_for(&self.items, v) {
                Some(label) => Some(label),
                None => if self.mode == Mode::Autocomplete {
                    Some(v.clone())
                } else {
                    None
                },
            },
            None => None,
        };
        let has_text = text.is_some();
        self.value = if has_text {
            requested
        } else {
            None
        };
        let t = match text {
            Some(t) => t,
            None => String::new(),
        };
        if self.mode != Mode::Select {
            self.syncing = Some(t.clone());
            self.input = t.clone();
            SelectEffects { editor: Some(t), change: None, focus: SelectFocus::Keep, scroll_to: None }
        } else {
            SelectEffects { editor: None, change: None, focus: SelectFocus::Keep, scroll_to: None }
        }
    }

    /// Opens or closes the popup (see `SelectView::opened`).
    pub fn set_open(&mut self, open: bool)
        requires
            old(self)@.wf(),
        ensures
            final(self)@ == old(self)@.opened(open),
            final(self)@.wf(),
    {
        if self.disabled {
            return;
        }
        self.open = open;
        if open {
            let visible = self.visible_list();
            let preferred = first_choice_of(&self.items, &visible, &self.value);
            let highlighted = match preferred {
                Some(i) => Some(i),
                None => first_choice_of(&self.items, &visible, &None),
            };
            proof {
                lemma_first_choice_listed(self@.items, visible@, self@.value);
                lemma_first_choice_listed(self@.items, visible@, None);
            }
            self.highlighted = highlighted;
        }
    }

    /// Moves the highlight (see `SelectView::navigated`).
    pub fn navigate(&mut self, direction: isize) -> (effects: SelectEffects)
        requires
            old(self)@.wf(),
        ensures
            (final(self)@, effects@) == old(self)@.navigated(direction as int),
            final(self)@.wf(),
    {
        let none = SelectEffects { editor: None, change: None, focus: SelectFocus::Keep, scroll_to: None };
        if self.disabled {
            return none;
        }
        if !self.open {
            self.set_open(true);
            return none;
        }
        let visible = self.visible_list();
        let enabled = enabled_of(&self.items, &visible);
        let n = enabled.len();
        if n == 0 {
            return none;
        }
        let current = match self.highlighted {
            Some(h) => match position_of(&enabled, h) {
                Some(k) => k,
                None => 0,
            },
            None => 0,
        };
        proof {
            if let Some(h) = self@.highlighted {
                crate::menu::lemma_position_in(enabled@, h);
            }
        }
        let next = if direction == -2 {
            0
        } else if direction == 2 {
            n - 1
        } else {
            cyclic_step(current, direction, n)
        };
        let target = enabled[next];
        proof {
            lemma_enabled_among(self@.items, visible@);
            assert(target == enabled@[next as int]);
        }
        self.highlighted = Some(target);
        let row = position_of(&visible, target);
        SelectEffects { editor: None, change: None, focus: SelectFocus::Keep, scroll_to: row }
    }

    /// Chooses option `index` (see `SelectView::chosen`).
    pub fn pick(&mut self, index: usize) -> (effects: SelectEffects)
        requires
            old(self)@.wf(),
            index < old(self)@.items.len(),
        ensures
            (final(self)@, effects@) == old(self)@.chosen(index as int),
            final(self)@.wf(),
    {
        if self.disabled || self.items[index].disabled {
            return SelectEffects { editor: None, change: None, focus: SelectFocus::Keep, scroll_to: None };
        }
        let chosen = self.items[index].value.clone();
        let synced = self.set_value(Some(chosen.as_str()));
        self.open = false;
        let committed = self.value.clone();
        SelectEffects {
            editor: synced.editor,
            change: Some(SelectEvent::Change(committed)),
            focus: SelectFocus::Selector,
            scroll_to: None,
        }
    }

    /// Confirms the highlighted option (see `SelectView::confirmed`).
    pub fn confirm(&mut self) -> (effects: SelectEffects)
        requires
            old(self)@.wf(),
        ensures
            (final(self)@, effects@) == old(self)@.confirmed(),
            final(self)@.wf(),
    {
        if !self.open {
            self.set_open(true);
            return SelectEffects { editor: None, change: None, focus: SelectFocus::Keep, scroll_to: None };
        }
        match self.highlighted {
            Some(index) => self.pick(index),
            None => if self.mode == Mode::Autocomplete {
                let text = self.input.clone();
                self.value = Some(text.clone());
                self.open = false;
                SelectEffects {
                    editor: None,
                    change: Some(SelectEvent::Change(Some(text))),
                    focus: SelectFocus::Keep,
                    scroll_to: None,
                }
            } else {
                SelectEffects { editor: None, change: None, focus: SelectFocus::Keep, scroll_to: None }
            },
        }
    }

    /// Clears the selection and opens the popup (see `SelectView::cleared`).
    pub fn clear(&mut self) -> (effects: SelectEffects)
        requires
            old(self)@.wf(),
        ensures
            (final(self)@, effects@) == old(self)@.cleared(),
            final(self)@.wf(),
    {
        let synced = self.set_value(None);
        self.set_open(true);
        SelectEffects {
            editor: synced.editor,
            change: Some(SelectEvent::Change(None)),
            focus: SelectFocus::Editor,
            scroll_to: None,
        }
    }

    /// The editor reports that its text is now `text` (see `SelectView::input_changed`).
    pub fn input_changed(&mut self, text: &str)
        requires
            old(self)@.wf(),
        ensures
            final(self)@ == old(self)@.input_changed(text@),
            final(self)@.wf(),
    {
        self.input = text.to_owned();
        if self.disabled {
            return;
        }
        let echoed = match &self.syncing {
            Some(s) => same_text(s, &self.input),
            None => false,
        };
        self.syncing = None;
        if echoed {
            return;
        }
        self.open = true;
        let visible = self.visible_list();
        let first = first_choice_of(&self.items, &visible, &None);
        proof {
            lemma_first_choice_listed(self@.items, visible@, None);
        }
        self.highlighted = first;
    }

    /// The editor lost focus: the popup closes.
    pub fn blur(&mut self)
        requires
            old(self)@.wf(),
        ensures
            final(self)@ == (SelectView { open: false, ..old(self)@ }),
            final(self)@.wf(),
    {
        self.open = false;
    }
}


proof fn lemma_label_of_listed(items: Seq<OptionView>, i: int)
    requires
        0 <= i < items.len(),
    ensures
        label_of(items, items[i].value) is Some,
    decreases items.len(),
{
    if items[0].value != items[i].value {
        assert(items.drop_first()[i - 1] == items[i]);
        lemma_label_of_listed(items.drop_first(), i - 1);
    }
}

/// When an editable selector's value is set programmatically, the editor's
/// echo of the synchronized text changes nothing but clearing the pending
/// echo: the selection stays committed and the popup stays as it was.
pub proof fn lemma_synced_echo_is_ignored(v: SelectView, value: Option<Seq<char>>)
    requires
        v.mode != Mode::Select,
        !v.disabled,
    ensures
        ({
            let w = v.value_set(value).0;
            w.input_changed(w.input) == (SelectView { syncing: None, ..w })
        }),
{
}

/// Choosing an enabled option of an enabled selector commits that option's
/// value, closes the popup and emits the value.
pub proof fn lemma_pick_commits(v: SelectView, index: int)
    requires
        v.wf(),
        0 <= index < v.items.len(),
        !v.disabled,
        !v.items[index].disabled,
    ensures
        ({
            let (w, e) = v.chosen(index);
            &&& w.value == Some(v.items[index].value)
            &&& !w.open
            &&& e.change == Some(Some(v.items[index].value))
        }),
{
    lemma_label_of_listed(v.items, index);
}

/// Keyboard navigation of an open selector only highlights visible enabled options.
pub proof fn lemma_navigation_stays_on_enabled(v: SelectView, direction: int)
    requires
        v.wf(),
        v.open,
        !v.disabled,
    ensures
        ({
            let w = v.navigated(direction).0;
            w.highlighted != v.highlighted ==> (w.highlighted matches Some(t) && !v.items[t as int].disabled
                && v.visible().contains(t))
        }),
{
    let visible = v.visible();
    lemma_enabled_among(v.items, visible);
    let enabled = enabled_among(v.items, visible);
    let n = enabled.len() as int;
    if n > 0 {
        let current = match v.highlighted {
            Some(h) => match position_in(enabled, h) {
                Some(k) => k,
                None => 0,
            },
            None => 0,
        };
        if let Some(h) = v.highlighted {
            crate::menu::lemma_position_in(enabled, h);
        }
        let next = if direction == -2 {
            0
        } else if direction == 2 {
            n - 1
        } else {
            (current + direction) % n
        };
        assert(0 <= next < n);
        assert(enabled[next] == enabled[next]);
    }
}

/// The options matching `query` among the first `n` are exactly those whose
/// lowercased label contains `query`, each once and in increasing order.
proof fn lemma_matching_upto(items: Seq<OptionView>, query: Seq<char>, n: int)
    requires
        0 <= n <= items.len(),
        items.len() <= usize::MAX,
    ensures
        forall|j: int|
            0 <= j < n ==> (matching_upto(items, query, n).contains(j as usize) <==> contains_text(
                lowercase(#[trigger] items[j].label),
                query,
            )),
        forall|k: int|
            0 <= k < matching_upto(items, query, n).len() ==> #[trigger] matching_upto(items, query, n)[k]
                < n,
        forall|a: int, b: int|
            0 <= a < b < matching_upto(items, query, n).len() ==> #[trigger] matching_upto(items, query, n)[a]
                < #[trigger] matching_upto(items, query, n)[b],
    decreases n,
{
    if n > 0 {
        lemma_matching_upto(items, query, n - 1);
        let prev = matching_upto(items, query, n - 1);
        let cur = matching_upto(items, query, n);
        if contains_text(lowercase(items[n - 1].label), query) {
            assert(cur =~= prev.push((n - 1) as usize));
            assert forall|j: int| 0 <= j < n implies (cur.contains(j as usize) <==> contains_text(
                lowercase(#[trigger] items[j].label),
                query,
            )) by {
                if j < n - 1 {
                    if cur.contains(j as usize) {
                        let k = choose|k: int| 0 <= k < cur.len() && cur[k] == j as usize;
                        if k < prev.len() {
                            assert(prev[k] == cur[k]);
                            assert(prev.contains(j as usize));
                        } else {
                            assert(cur[k] == (n - 1) as usize);
                        }
                    }
                    if prev.contains(j as usize) {
                        let k = choose|k: int| 0 <= k < prev.len() && prev[k] == j as usize;
                        assert(cur[k] == prev[k]);
                    }
                } else {
                    assert(cur[prev.len() as int] == (n - 1) as usize);
                }
            }
            assert forall|k: int| 0 <= k < cur.len() implies #[trigger] cur[k] < n by {
                if k < prev.len() {
                    assert(cur[k] == prev[k]);
                }
            }
            assert forall|x: int, y: int| 0 <= x < y < cur.len() implies #[trigger] cur[x] < #[trigger] cur[y] by {
                assert(cur[x] == prev[x]);
                if y < prev.len() {
                    assert(cur[y] == prev[y]);
                }
            }
        } else {
            assert(cur == prev);
            assert forall|j: int| 0 <= j < n implies (cur.contains(j as usize) <==> contains_text(
                lowercase(#[trigger] items[j].label),
                query,
            )) by {
                if j == n - 1 && prev.contains(j as usize) {
                    let k = choose|k: int| 0 <= k < prev.len() && prev[k] == j as usize;
                    assert(prev[k] < n - 1);
                }
            }
        }
    }
}

/// Filtering ignores case: an option of an editable selector is visible
/// exactly when its lowercased label contains the lowercased editor text; a
/// plain select shows every option. Visible options are listed once each, in
/// increasing order.
pub proof fn lemma_visible_is_case_insensitive_filter(v: SelectView)
    requires
        v.items.len() <= usize::MAX,
    ensures
        forall|j: int|
            0 <= j < v.items.len() ==> (#[trigger] v.visible().contains(j as usize) <==> (v.mode
                == Mode::Select || contains_text(lowercase(v.items[j].label), lowercase(v.input)))),
        forall|k: int| 0 <= k < v.visible().len() ==> #[trigger] v.visible()[k] < v.items.len(),
        forall|a: int, b: int|
            0 <= a < b < v.visible().len() ==> #[trigger] v.visible()[a] < #[trigger] v.visible()[b],
{
    let query = if v.mode == Mode::Select {
        Seq::<char>::empty()
    } else {
        lowercase(v.input)
    };
    lemma_matching_upto(v.items, query, v.items.len() as int);
    if v.mode == Mode::Select {
        assert forall|j: int| 0 <= j < v.items.len() implies contains_text(
            lowercase(#[trigger] v.items[j].label),
            query,
        ) by {
            assert(lowercase(v.items[j].label).subrange(0, 0 + query.len() as int) =~= query);
        }
    }
    assert(v.visible() == matching_upto(v.items, query, v.items.len() as int));
    assert forall|j: int| 0 <= j < v.items.len() implies #[trigger] v.visible().contains(j as usize) == (v.mode
        == Mode::Select || contains_text(lowercase(v.items[j].label), lowercase(v.input))) by {
        assert(v.visible().contains(j as usize) == contains_text(lowercase(v.items[j].label), query));
        if v.mode != Mode::Select {
            assert(query == lowercase(v.input));
        }
    }
}

/// Two editor texts that lowercase alike show the same options: changing the
/// case of what is typed never changes the filtered list.
pub proof fn lemma_visible_ignores_input_case(v: SelectView, input: Seq<char>)
    requires
        lowercase(input) == lowercase(v.input),
    ensures
        (SelectView { input, ..v }).visible() == v.visible(),
{
}

} // verus!
