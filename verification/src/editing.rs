//! Single-line text editing: selection, grapheme and word movement, IME
//! composition and undo history.
//!
//! The text is held as characters; selections are character indices and are
//! reported to callers as UTF-8 byte offsets or UTF-16 offsets. Work that
//! belongs to the host (clipboard, bells, focus, callbacks) is reported back
//! as an [`EditEffect`] for the host to perform.
use crate::segmentation::{
    grapheme_indices, grapheme_starts, string_from_chars, unicode_words, word_bound_indices,
    word_bound_pieces, word_indices,
};
use crate::text::{
    byte_len, byte_offset, byte_offset_of, char_index_at_byte, char_index_at_utf16, char_index_for_byte,
    char_index_for_utf16, char_utf8_width, chars_of, fits, utf16_at_byte, utf16_for_byte,
    utf16_offset, utf16_offset_of, utf8_len, utf8_len_wide, utf8_width, lemma_char_index_at_end,
    lemma_char_index_of_offset, lemma_offset_bounded, lemma_offset_monotone, lemma_offset_step,
};
use std::collections::VecDeque;
use crate::clock::Clock;
use vstd::prelude::*;

verus! {

/// At most this many snapshots are kept in each history.
pub const HISTORY_LIMIT: usize = 100;

/// At most this many bytes of snapshot text are kept in each history.
pub const HISTORY_BYTES: usize = 8388608;

/// One second, the window within which single-grapheme insertions coalesce.
pub const COALESCE_NANOS: u64 = 1000000000;

/// Hooks a composite control installs on its editor.
#[derive(Clone, Copy, Debug, PartialEq, Eq, Structural)]
pub struct CompositeInput {
    /// Select the whole value whenever the editor gains focus.
    pub select_all_on_focus: bool,
    /// Left at the start of an empty selection is handed to the host.
    pub on_edge_left: bool,
    /// Right at the end of an empty selection is handed to the host.
    pub on_edge_right: bool,
    /// Home is handed to the host.
    pub on_home: bool,
    /// End is handed to the host.
    pub on_end: bool,
    /// Focus changes are reported to the host.
    pub on_focus_change: bool,
}

/// No hooks installed.
pub open spec fn no_hooks() -> CompositeInput {
    CompositeInput {
        select_all_on_focus: false,
        on_edge_left: false,
        on_edge_right: false,
        on_home: false,
        on_end: false,
        on_focus_change: false,
    }
}

impl Default for CompositeInput {
    fn default() -> (c: Self)
        ensures
            c == no_hooks(),
    {
        CompositeInput {
            select_all_on_focus: false,
            on_edge_left: false,
            on_edge_right: false,
            on_home: false,
            on_end: false,
            on_focus_change: false,
        }
    }
}

/// Work an editing action leaves to the host.
#[derive(Clone, Copy, Debug, PartialEq, Eq, Structural)]
pub enum EditEffect {
    /// Nothing happens: the action was refused or had nothing to act on, and
    /// the host does not even redraw.
    Nothing,
    /// Nothing beyond redrawing.
    Redraw,
    /// The value-change callback runs with the current value.
    ValueChanged,
    /// The system bell plays.
    Bell,
    /// The composite's left-edge handler runs.
    EdgeLeft,
    /// The composite's right-edge handler runs.
    EdgeRight,
    /// The composite's Home handler runs.
    Home,
    /// The composite's End handler runs.
    End,
}

/// A saved value and selection.
pub struct Snapshot {
    value: Vec<char>,
    start: usize,
    end: usize,
    reversed: bool,
}

/// The mathematical content of a snapshot.
#[verifier::ext_equal]
pub struct SnapshotModel {
    pub value: Seq<char>,
    pub start: nat,
    pub end: nat,
    pub reversed: bool,
}

impl View for Snapshot {
    type V = SnapshotModel;

    closed spec fn view(&self) -> SnapshotModel {
        SnapshotModel {
            value: self.value@,
            start: self.start as nat,
            end: self.end as nat,
            reversed: self.reversed,
        }
    }
}

impl SnapshotModel {
    pub open spec fn wf(self) -> bool {
        &&& self.start <= self.end <= self.value.len()
        &&& fits(self.value)
    }
}

/// The total text held by a history.
pub open spec fn history_bytes(h: Seq<SnapshotModel>) -> nat
    decreases h.len(),
{
    if h.len() == 0 {
        0
    } else {
        utf8_len(h[0].value) + history_bytes(h.drop_first())
    }
}

/// A history within both limits.
pub open spec fn history_fits(h: Seq<SnapshotModel>) -> bool {
    h.len() <= HISTORY_LIMIT && history_bytes(h) <= HISTORY_BYTES
}

/// Drops the oldest snapshots until the history is within both limits.
pub open spec fn trim_history(h: Seq<SnapshotModel>) -> Seq<SnapshotModel>
    decreases h.len(),
{
    if h.len() == 0 || history_fits(h) {
        h
    } else {
        trim_history(h.drop_first())
    }
}

/// Appends a snapshot and trims the history.
pub open spec fn pushed(h: Seq<SnapshotModel>, s: SnapshotModel) -> Seq<SnapshotModel> {
    trim_history(h.push(s))
}

/// Replaces line breaks by spaces.
pub open spec fn single_line(text: Seq<char>) -> Seq<char> {
    text.map_values(|c: char| if c == '\n' || c == '\r' { ' ' } else { c })
}

/// The last offset in `g` below `b`, or 0.
pub open spec fn last_below(g: Seq<usize>, b: int) -> int
    decreases g.len(),
{
    if g.len() == 0 {
        0
    } else if (g.last() as int) < b {
        g.last() as int
    } else {
        last_below(g.drop_last(), b)
    }
}

/// The first offset in `g` above `b`, or `default`.
pub open spec fn first_above(g: Seq<usize>, b: int, default: int) -> int
    decreases g.len(),
{
    if g.len() == 0 {
        default
    } else if (g[0] as int) > b {
        g[0] as int
    } else {
        first_above(g.drop_first(), b, default)
    }
}

/// The first word end after `b`, or `default`.
pub open spec fn first_end_after(words: Seq<(usize, Seq<char>)>, b: int, default: int) -> int
    decreases words.len(),
{
    if words.len() == 0 {
        default
    } else if words[0].0 + utf8_len(words[0].1) > b {
        words[0].0 + utf8_len(words[0].1)
    } else {
        first_end_after(words.drop_first(), b, default)
    }
}

/// The last word start of the leading words that start before `b`, or `acc`.
pub open spec fn last_start_before(words: Seq<(usize, Seq<char>)>, b: int, acc: int) -> int
    decreases words.len(),
{
    if words.len() == 0 || words[0].0 >= b {
        acc
    } else {
        last_start_before(words.drop_first(), b, words[0].0 as int)
    }
}

/// The piece containing byte `b`, as a byte range; `(b, b)` when none does.
pub open spec fn piece_at(pieces: Seq<(usize, Seq<char>)>, b: int) -> (int, int)
    decreases pieces.len(),
{
    if pieces.len() == 0 {
        (b, b)
    } else if pieces[0].0 <= b < pieces[0].0 + utf8_len(pieces[0].1) {
        (pieces[0].0 as int, pieces[0].0 + utf8_len(pieces[0].1))
    } else {
        piece_at(pieces.drop_first(), b)
    }
}

/// The time elapsed between two readings of a monotonic clock, saturating at zero.
pub open spec fn elapsed(now: u64, then: u64) -> int {
    if now >= then {
        now - then
    } else {
        0
    }
}

/// The mathematical state of an editor.
#[verifier::ext_equal]
pub struct EditorModel {
    pub value: Seq<char>,
    pub initial_value: Seq<char>,
    pub start: nat,
    pub end: nat,
    pub reversed: bool,
    pub marked: Option<(nat, nat)>,
    pub selecting: bool,
    pub disabled: bool,
    pub read_only: bool,
    pub required: bool,
    pub controlled: bool,
    pub composite: CompositeInput,
    pub undo: Seq<SnapshotModel>,
    pub redo: Seq<SnapshotModel>,
    pub last_insertion: Option<(u64, nat)>,
}

impl EditorModel {
    /// The invariant every editor keeps.
    pub open spec fn wf(self) -> bool {
        &&& self.start <= self.end <= self.value.len()
        &&& fits(self.value)
        &&& (self.marked matches Some((s, e)) ==> s <= e <= self.value.len())
        &&& (self.last_insertion matches Some((_, e)) ==> e <= self.value.len()
            && self.marked is None)
        &&& history_fits(self.undo)
        &&& history_fits(self.redo)
        &&& forall|i: int| 0 <= i < self.undo.len() ==> (#[trigger] self.undo[i]).wf()
        &&& forall|i: int| 0 <= i < self.redo.len() ==> (#[trigger] self.redo[i]).wf()
    }

    pub open spec fn can_edit(self) -> bool {
        !self.disabled && !self.read_only
    }

    /// The caret: the moving end of the selection, as a character index.
    pub open spec fn cursor(self) -> nat {
        if self.reversed {
            self.start
        } else {
            self.end
        }
    }

    pub open spec fn cursor_byte(self) -> nat {
        byte_offset(self.value, self.cursor() as int)
    }

    pub open spec fn len_bytes(self) -> nat {
        utf8_len(self.value)
    }

    /// The character boundary at or before byte `b`.
    pub open spec fn clamp(self, b: int) -> nat {
        char_index_at_byte(self.value, b)
    }

    pub open spec fn snapshot(self) -> SnapshotModel {
        SnapshotModel { value: self.value, start: self.start, end: self.end, reversed: self.reversed }
    }

    /// A collapsed selection at byte `b`.
    pub open spec fn moved_to(self, b: int) -> Self {
        EditorModel {
            last_insertion: None,
            start: self.clamp(b),
            end: self.clamp(b),
            reversed: false,
            ..self
        }
    }

    /// The selection extended from its anchor to byte `b`.
    pub open spec fn selected_to(self, b: int) -> Self {
        let k = self.clamp(b);
        let s = if self.reversed { k } else { self.start };
        let e = if self.reversed { self.end } else { k };
        if e < s {
            EditorModel {
                last_insertion: None,
                start: e,
                end: s,
                reversed: !self.reversed,
                ..self
            }
        } else {
            EditorModel { last_insertion: None, start: s, end: e, ..self }
        }
    }

    pub open spec fn all_selected(self) -> Self {
        EditorModel {
            last_insertion: None,
            start: 0,
            end: self.value.len(),
            reversed: false,
            ..self
        }
    }

    /// The grapheme boundary before byte `b`.
    pub open spec fn previous_boundary(self, b: int) -> int {
        last_below(grapheme_starts(self.value), b)
    }

    /// The grapheme boundary after byte `b`.
    pub open spec fn next_boundary(self, b: int) -> int {
        first_above(grapheme_starts(self.value), b, self.len_bytes() as int)
    }

    /// The word boundary after (`forward`) or before the caret, in bytes.
    pub open spec fn word_boundary(self, forward: bool) -> int {
        if forward {
            first_end_after(unicode_words(self.value), self.cursor_byte() as int, self.len_bytes() as int)
        } else {
            last_start_before(unicode_words(self.value), self.cursor_byte() as int, 0)
        }
    }
}

/// An editing state for a single line of text.
pub struct Editing {
    /// Hooks installed by a composite control.
    pub composite: CompositeInput,
    value: Vec<char>,
    initial_value: Vec<char>,
    start: usize,
    end: usize,
    reversed: bool,
    marked: Option<(usize, usize)>,
    selecting: bool,
    disabled: bool,
    read_only: bool,
    required: bool,
    controlled: bool,
    undo: VecDeque<Snapshot>,
    redo: VecDeque<Snapshot>,
    last_insertion: Option<(u64, usize)>,
    clock: Clock,
}

pub open spec fn history_view(h: Seq<Snapshot>) -> Seq<SnapshotModel> {
    h.map_values(|s: Snapshot| s@)
}

pub open spec fn pair_view(p: Option<(usize, usize)>) -> Option<(nat, nat)> {
    match p {
        Some((s, e)) => Some((s as nat, e as nat)),
        None => None,
    }
}

pub open spec fn insertion_view(p: Option<(u64, usize)>) -> Option<(u64, nat)> {
    match p {
        Some((t, e)) => Some((t, e as nat)),
        None => None,
    }
}

impl View for Editing {
    type V = EditorModel;

    closed spec fn view(&self) -> EditorModel {
        EditorModel {
            value: self.value@,
            initial_value: self.initial_value@,
            start: self.start as nat,
            end: self.end as nat,
            reversed: self.reversed,
            marked: pair_view(self.marked),
            selecting: self.selecting,
            disabled: self.disabled,
            read_only: self.read_only,
            required: self.required,
            controlled: self.controlled,
            composite: self.composite,
            undo: history_view(self.undo@),
            redo: history_view(self.redo@),
            last_insertion: insertion_view(self.last_insertion),
        }
    }
}

fn clone_chars(v: &Vec<char>) -> (r: Vec<char>)
    ensures
        r@ == v@,
{
    let r = v.clone();
    proof {
        assert(r@ =~= v@);
    }
    r
}

impl Editing {
    /// A new editor holding `value` with the caret at its end.
    pub fn new(value: &str) -> (e: Self)
        requires
            fits(value@),
        ensures
            e@.wf(),
            e@.value == value@,
            e@.initial_value == value@,
            e@.start == value@.len() && e@.end == value@.len(),
            !e@.reversed && e@.marked is None && !e@.selecting,
            !e@.disabled && !e@.read_only && !e@.required && !e@.controlled,
            e@.composite == no_hooks(),
            e@.undo.len() == 0 && e@.redo.len() == 0,
            e@.last_insertion is None,
    {
        let chars = chars_of(value);
        let cursor = chars.len();
        let e = Editing {
            composite: CompositeInput::default(),
            initial_value: clone_chars(&chars),
            value: chars,
            start: cursor,
            end: cursor,
            reversed: false,
            marked: None,
            selecting: false,
            disabled: false,
            read_only: false,
            required: false,
            controlled: false,
            undo: VecDeque::new(),
            redo: VecDeque::new(),
            last_insertion: None,
            clock: Clock::new(),
        };
        proof {
            assert(e@.undo =~= Seq::<SnapshotModel>::empty());
            assert(e@.redo =~= Seq::<SnapshotModel>::empty());
        }
        e
    }

    /// The current value.
    pub fn value(&self) -> (s: String)
        ensures
            s@ == self@.value,
    {
        string_from_chars(self.value.as_slice())
    }

    /// Whether the value differs from the value the editor was created with.
    pub fn dirty(&self) -> (d: bool)
        ensures
            d == (self@.value != self@.initial_value),
    {
        let mut i: usize = 0;
        if self.value.len() != self.initial_value.len() {
            return true;
        }
        while i < self.value.len()
            invariant
                self.value@.len() == self.initial_value@.len(),
                i <= self.value@.len(),
                self.value@.take(i as int) =~= self.initial_value@.take(i as int),
            decreases self.value@.len() - i,
        {
            if self.value[i] != self.initial_value[i] {
                return true;
            }
            proof {
                assert(self.value@.take(i as int + 1) =~= self.initial_value@.take(i as int + 1));
            }
            i = i + 1;
        }
        proof {
            assert(self.value@ =~= self.value@.take(i as int));
            assert(self.initial_value@ =~= self.initial_value@.take(i as int));
        }
        false
    }

    pub fn disabled(&self) -> (d: bool)
        ensures
            d == self@.disabled,
    {
        self.disabled
    }

    /// The selection, in bytes.
    pub fn selected_range(&self) -> (r: std::ops::Range<usize>)
        requires
            self@.wf(),
        ensures
            r.start == byte_offset(self@.value, self@.start as int),
            r.end == byte_offset(self@.value, self@.end as int),
    {
        let s = byte_offset_of(self.value.as_slice(), self.start);
        let e = byte_offset_of(self.value.as_slice(), self.end);
        s..e
    }

    /// The composition range, in bytes.
    pub fn marked_range(&self) -> (r: Option<std::ops::Range<usize>>)
        requires
            self@.wf(),
        ensures
            match self@.marked {
                Some((s, e)) => r matches Some(r) && r.start == byte_offset(self@.value, s as int)
                    && r.end == byte_offset(self@.value, e as int),
                None => r is None,
            },
    {
        match self.marked {
            Some((s, e)) => Some(
                byte_offset_of(self.value.as_slice(), s)..byte_offset_of(self.value.as_slice(), e),
            ),
            None => None,
        }
    }

    /// The caret, in bytes.
    pub fn cursor_offset(&self) -> (b: usize)
        requires
            self@.wf(),
        ensures
            b == self@.cursor_byte(),
    {
        let k = if self.reversed {
            self.start
        } else {
            self.end
        };
        byte_offset_of(self.value.as_slice(), k)
    }

    fn clamp_offset(&self, b: usize) -> (k: usize)
        ensures
            k == self@.clamp(b as int),
            k <= self@.value.len(),
    {
        char_index_for_byte(self.value.as_slice(), b)
    }

    fn move_to(&mut self, b: usize)
        requires
            old(self)@.wf(),
        ensures
            final(self)@ == old(self)@.moved_to(b as int),
            final(self)@.wf(),
    {
        self.last_insertion = None;
        let k = self.clamp_offset(b);
        self.start = k;
        self.end = k;
        self.reversed = false;
    }

    fn select_to(&mut self, b: usize)
        requires
            old(self)@.wf(),
        ensures
            final(self)@ == old(self)@.selected_to(b as int),
            final(self)@.wf(),
    {
        self.last_insertion = None;
        let k = self.clamp_offset(b);
        if self.reversed {
            self.start = k;
        } else {
            self.end = k;
        }
        if self.end < self.start {
            self.reversed = !self.reversed;
            let s = self.start;
            self.start = self.end;
            self.end = s;
        }
    }
}

impl EditorModel {
    pub open spec fn restored(self, snap: SnapshotModel) -> Self {
        EditorModel {
            value: snap.value,
            start: snap.start,
            end: snap.end,
            reversed: snap.reversed,
            marked: None,
            last_insertion: None,
            ..self
        }
    }

    /// Undo: the newest undo snapshot is restored and the current state saved for redo.
    pub open spec fn undone(self) -> (Self, EditEffect) {
        if !self.can_edit() || self.undo.len() == 0 {
            (self, EditEffect::Nothing)
        } else {
            let m = EditorModel {
                undo: self.undo.drop_last(),
                redo: pushed(self.redo, self.snapshot()),
                ..self
            };
            (m.restored(self.undo.last()), EditEffect::ValueChanged)
        }
    }

    /// Redo: the newest redo snapshot is restored and the current state saved for undo.
    pub open spec fn redone(self) -> (Self, EditEffect) {
        if !self.can_edit() || self.redo.len() == 0 {
            (self, EditEffect::Nothing)
        } else {
            let m = EditorModel {
                redo: self.redo.drop_last(),
                undo: pushed(self.undo, self.snapshot()),
                ..self
            };
            (m.restored(self.redo.last()), EditEffect::ValueChanged)
        }
    }
}

proof fn lemma_history_bytes_step(h: Seq<SnapshotModel>, i: int)
    requires
        0 <= i < h.len(),
    ensures
        history_bytes(h.take(i + 1)) == history_bytes(h.take(i)) + utf8_len(h[i].value),
    decreases i,
{
    if i > 0 {
        assert(h.take(i + 1).drop_first() =~= h.drop_first().take(i));
        assert(h.take(i).drop_first() =~= h.drop_first().take(i - 1));
        lemma_history_bytes_step(h.drop_first(), i - 1);
    } else {
        assert(h.take(1).drop_first() =~= Seq::<SnapshotModel>::empty());
        assert(h.take(0) =~= Seq::<SnapshotModel>::empty());
    }
}

fn snapshot_bytes(s: &Snapshot) -> (n: u128)
    ensures
        n == utf8_len(s@.value),
        n <= 0x40000000000000000,
{
    let n = utf8_len_wide(s.value.as_slice());
    let len = s.value.len();
    proof {
        assert(len == s.value@.len());
        assert(usize::MAX as int <= 0xffff_ffff_ffff_ffff);
    }
    n
}

fn history_total(h: &VecDeque<Snapshot>) -> (n: u128)
    requires
        h@.len() <= HISTORY_LIMIT,
    ensures
        n == history_bytes(history_view(h@)),
{
    let ghost hv = history_view(h@);
    let mut i: usize = 0;
    let mut acc: u128 = 0;
    proof {
        assert(hv.take(0) =~= Seq::<SnapshotModel>::empty());
    }
    while i < h.len()
        invariant
            hv == history_view(h@),
            h@.len() <= HISTORY_LIMIT,
            i <= h@.len(),
            acc == history_bytes(hv.take(i as int)),
            acc <= i * 0x40000000000000000,
        decreases h@.len() - i,
    {
        let b = snapshot_bytes(&h[i]);
        proof {
            lemma_history_bytes_step(hv, i as int);
        }
        acc = acc + b;
        i = i + 1;
    }
    proof {
        assert(hv.take(i as int) =~= hv);
    }
    acc
}

/// Appends `snapshot` to `history` and drops the oldest entries until both limits hold.
fn push_history(history: &mut VecDeque<Snapshot>, snapshot: Snapshot)
    requires
        forall|i: int| 0 <= i < old(history)@.len() ==> (#[trigger] old(history)@[i])@.wf(),
        snapshot@.wf(),
    ensures
        history_view(final(history)@) == pushed(history_view(old(history)@), snapshot@),
        history_fits(history_view(final(history)@)),
        forall|i: int| 0 <= i < final(history)@.len() ==> (#[trigger] final(history)@[i])@.wf(),
{
    let ghost target = pushed(history_view(history@), snapshot@);
    let ghost s = snapshot@;
    history.push_back(snapshot);
    proof {
        assert(history_view(history@) =~= history_view(old(history)@).push(s));
    }
    let mut done = false;
    while !done
        invariant
            trim_history(history_view(history@)) == target,
            done ==> history_fits(history_view(history@)),
            forall|i: int| 0 <= i < history@.len() ==> (#[trigger] history@[i])@.wf(),
        decreases history@.len() + (if done { 0int } else { 1int }),
    {
        let ghost before = history@;
        if history.len() > HISTORY_LIMIT {
            history.pop_front();
            proof {
                assert(history_view(history@) =~= history_view(before).drop_first());
                assert(history@.len() < before.len());
                assert forall|i: int| 0 <= i < history@.len() implies (#[trigger] history@[i])@.wf() by {
                    assert(history@[i] == before[i + 1]);
                }
            }
        } else if history_total(history) > HISTORY_BYTES as u128 {
            history.pop_front();
            proof {
                assert(history_view(history@) =~= history_view(before).drop_first());
                assert forall|i: int| 0 <= i < history@.len() implies (#[trigger] history@[i])@.wf() by {
                    assert(history@[i] == before[i + 1]);
                }
            }
        } else {
            done = true;
        }
    }
}

/// The exec snapshots of a history are well formed when its model's are.
proof fn lemma_history_elements_wf(h: Seq<Snapshot>)
    requires
        forall|i: int| 0 <= i < history_view(h).len() ==> (#[trigger] history_view(h)[i]).wf(),
    ensures
        forall|i: int| 0 <= i < h.len() ==> (#[trigger] h[i])@.wf(),
{
    assert forall|i: int| 0 <= i < h.len() implies (#[trigger] h[i])@.wf() by {
        assert(history_view(h)[i] == h[i]@);
    }
}

impl Editing {
    fn can_edit(&self) -> (b: bool)
        ensures
            b == self@.can_edit(),
    {
        !self.disabled && !self.read_only
    }

    fn snapshot(&self) -> (s: Snapshot)
        requires
            self@.wf(),
        ensures
            s@ == self@.snapshot(),
            s@.wf(),
    {
        Snapshot {
            value: clone_chars(&self.value),
            start: self.start,
            end: self.end,
            reversed: self.reversed,
        }
    }

    fn restore(&mut self, snapshot: Snapshot)
        requires
            snapshot@.wf(),
        ensures
            final(self)@ == old(self)@.restored(snapshot@),
    {
        self.value = snapshot.value;
        self.start = snapshot.start;
        self.end = snapshot.end;
        self.reversed = snapshot.reversed;
        self.marked = None;
        self.last_insertion = None;
    }

    /// Restores the newest undo snapshot.
    pub fn undo(&mut self) -> (effect: EditEffect)
        requires
            old(self)@.wf(),
        ensures
            final(self)@.wf(),
            (final(self)@, effect) == old(self)@.undone(),
    {
        if !self.can_edit() {
            return EditEffect::Nothing;
        }
        let ghost before = self@;
        proof {
            lemma_history_elements_wf(self.redo@);
            lemma_history_elements_wf(self.undo@);
        }
        match self.undo.pop_back() {
            Some(snapshot) => {
                proof {
                    assert(history_view(self.undo@) =~= before.undo.drop_last());
                    assert(snapshot@ == before.undo.last());
                    assert(before.undo[before.undo.len() - 1].wf());
                    lemma_history_subsequence_fits(before.undo);
                }
                let current = self.snapshot();
                push_history(&mut self.redo, current);
                self.restore(snapshot);
                proof {
                    assert(self@ =~= before.undone().0);
                }
                EditEffect::ValueChanged
            },
            None => EditEffect::Nothing,
        }
    }

    /// Restores the newest redo snapshot.
    pub fn redo(&mut self) -> (effect: EditEffect)
        requires
            old(self)@.wf(),
        ensures
            final(self)@.wf(),
            (final(self)@, effect) == old(self)@.redone(),
    {
        if !self.can_edit() {
            return EditEffect::Nothing;
        }
        let ghost before = self@;
        proof {
            lemma_history_elements_wf(self.redo@);
            lemma_history_elements_wf(self.undo@);
        }
        match self.redo.pop_back() {
            Some(snapshot) => {
                proof {
                    assert(history_view(self.redo@) =~= before.redo.drop_last());
                    assert(snapshot@ == before.redo.last());
                    assert(before.redo[before.redo.len() - 1].wf());
                    lemma_history_subsequence_fits(before.redo);
                }
                let current = self.snapshot();
                push_history(&mut self.undo, current);
                self.restore(snapshot);
                proof {
                    assert(self@ =~= before.redone().0);
                }
                EditEffect::ValueChanged
            },
            None => EditEffect::Nothing,
        }
    }
}

/// Dropping the newest entry keeps a history within its limits.
proof fn lemma_history_subsequence_fits(h: Seq<SnapshotModel>)
    requires
        history_fits(h),
        h.len() > 0,
    ensures
        history_fits(h.drop_last()),
{
    lemma_history_bytes_prefix(h, h.len() - 1);
}

proof fn lemma_history_bytes_prefix(h: Seq<SnapshotModel>, k: int)
    requires
        0 <= k <= h.len(),
    ensures
        history_bytes(h.take(k)) <= history_bytes(h),
    decreases h.len() - k,
{
    if k < h.len() {
        lemma_history_bytes_step(h, k);
        lemma_history_bytes_prefix(h, k + 1);
    } else {
        assert(h.take(k) =~= h);
    }
}

impl EditorModel {
    pub open spec fn moved_left(self) -> (Self, EditEffect) {
        if self.start == self.end {
            if self.cursor_byte() == 0 && self.composite.on_edge_left {
                (self, EditEffect::EdgeLeft)
            } else {
                (self.moved_to(self.previous_boundary(self.cursor_byte() as int)), EditEffect::Redraw)
            }
        } else {
            (self.moved_to(byte_offset(self.value, self.start as int) as int), EditEffect::Redraw)
        }
    }

    pub open spec fn moved_right(self) -> (Self, EditEffect) {
        if self.start == self.end {
            if self.cursor_byte() == self.len_bytes() && self.composite.on_edge_right {
                (self, EditEffect::EdgeRight)
            } else {
                (self.moved_to(self.next_boundary(self.cursor_byte() as int)), EditEffect::Redraw)
            }
        } else {
            (self.moved_to(byte_offset(self.value, self.end as int) as int), EditEffect::Redraw)
        }
    }

    pub open spec fn moved_home(self) -> (Self, EditEffect) {
        if self.composite.on_home {
            (self, EditEffect::Home)
        } else {
            (self.moved_to(0), EditEffect::Redraw)
        }
    }

    pub open spec fn moved_end(self) -> (Self, EditEffect) {
        if self.composite.on_end {
            (self, EditEffect::End)
        } else {
            (self.moved_to(self.len_bytes() as int), EditEffect::Redraw)
        }
    }
}

impl Editing {
    fn text(&self) -> (s: String)
        ensures
            s@ == self@.value,
    {
        string_from_chars(self.value.as_slice())
    }

    fn len_bytes(&self) -> (n: usize)
        requires
            self@.wf(),
        ensures
            n == self@.len_bytes(),
    {
        byte_len(self.value.as_slice())
    }

    fn previous_boundary(&self, b: usize) -> (p: usize)
        ensures
            p == self@.previous_boundary(b as int),
    {
        let text = self.text();
        let g = grapheme_indices(text.as_str());
        let mut i = g.len();
        proof {
            assert(g@.take(i as int) =~= g@);
        }
        while i > 0
            invariant
                i <= g@.len(),
                g@ == grapheme_starts(self@.value),
                last_below(g@, b as int) == last_below(g@.take(i as int), b as int),
            decreases i,
        {
            proof {
                assert(g@.take(i as int).last() == g@[i - 1]);
                assert(g@.take(i as int).drop_last() =~= g@.take(i - 1));
            }
            if g[i - 1] < b {
                return g[i - 1];
            }
            i = i - 1;
        }
        0
    }

    fn next_boundary(&self, b: usize) -> (p: usize)
        requires
            self@.wf(),
        ensures
            p == self@.next_boundary(b as int),
    {
        let text = self.text();
        let g = grapheme_indices(text.as_str());
        let default = self.len_bytes();
        let mut i: usize = 0;
        proof {
            assert(g@.skip(0) =~= g@);
        }
        while i < g.len()
            invariant
                i <= g@.len(),
                g@ == grapheme_starts(self@.value),
                default == self@.len_bytes(),
                first_above(g@, b as int, default as int) == first_above(
                    g@.skip(i as int),
                    b as int,
                    default as int,
                ),
            decreases g@.len() - i,
        {
            proof {
                assert(g@.skip(i as int).drop_first() =~= g@.skip(i as int + 1));
                assert(g@.skip(i as int)[0] == g@[i as int]);
            }
            if g[i] > b {
                return g[i];
            }
            i = i + 1;
        }
        default
    }

    /// A byte offset that clamps to the same boundary as the word boundary.
    fn word_boundary(&self, forward: bool) -> (t: usize)
        requires
            self@.wf(),
        ensures
            self@.clamp(t as int) == self@.clamp(self@.word_boundary(forward)),
            !forward ==> t == self@.word_boundary(forward),
    {
        let text = self.text();
        let words = word_indices(text.as_str());
        let cursor = self.cursor_offset();
        let ghost ws = unicode_words(self@.value);
        let mut i: usize = 0;
        proof {
            assert(ws.skip(0) =~= ws);
        }
        if forward {
            let len = self.len_bytes();
            while i < words.len()
                invariant
                    i <= words@.len(),
                    words@.len() == ws.len(),
                    forall|j: int|
                        0 <= j < words@.len() ==> {
                            &&& (#[trigger] words@[j]).0 == ws[j].0
                            &&& words@[j].1@ == ws[j].1
                        },
                    first_end_after(ws, cursor as int, len as int) == first_end_after(
                        ws.skip(i as int),
                        cursor as int,
                        len as int,
                    ),
                    len == self@.len_bytes(),
                    forward,
                    ws == unicode_words(self@.value),
                    cursor == self@.cursor_byte(),
                    self@.wf(),
                decreases words@.len() - i,
            {
                let word_chars = chars_of(words[i].1.as_str());
                let end = words[i].0 as u128 + utf8_len_wide(word_chars.as_slice());
                proof {
                    assert(ws.skip(i as int).drop_first() =~= ws.skip(i as int + 1));
                    assert(ws.skip(i as int)[0] == ws[i as int]);
                    assert(words@[i as int].0 == ws[i as int].0);
                    assert(words@[i as int].1@ == ws[i as int].1);
                }
                if end > cursor as u128 {
                    proof {
                        assert(word_chars@ == ws[i as int].1);
                        assert(end == ws[i as int].0 + utf8_len(ws[i as int].1));
                        assert(first_end_after(ws.skip(i as int), cursor as int, len as int) == end as int);
                        assert(self@.word_boundary(true) == end as int);
                    }
                    if end > len as u128 {
                        proof {
                            lemma_char_index_at_end(self@.value, end as int);
                            lemma_char_index_at_end(self@.value, len as int);
                            assert(self@.clamp(end as int) == self@.value.len());
                            assert(self@.clamp(len as int) == self@.value.len());
                        }
                        return len;
                    }
                    return end as usize;
                }
                i = i + 1;
            }
            len
        } else {
            let mut acc: usize = 0;
            while i < words.len()
                invariant
                    i <= words@.len(),
                    words@.len() == ws.len(),
                    forall|j: int|
                        0 <= j < words@.len() ==> {
                            &&& (#[trigger] words@[j]).0 == ws[j].0
                            &&& words@[j].1@ == ws[j].1
                        },
                    last_start_before(ws, cursor as int, 0) == last_start_before(
                        ws.skip(i as int),
                        cursor as int,
                        acc as int,
                    ),
                    !forward,
                    ws == unicode_words(self@.value),
                    cursor == self@.cursor_byte(),
                decreases words@.len() - i,
            {
                proof {
                    assert(ws.skip(i as int).drop_first() =~= ws.skip(i as int + 1));
                    assert(ws.skip(i as int)[0] == ws[i as int]);
                    assert(words@[i as int].0 == ws[i as int].0);
                }
                if words[i].0 >= cursor {
                    proof {
                        assert(last_start_before(ws.skip(i as int), cursor as int, acc as int) == acc as int);
                        assert(last_start_before(ws, cursor as int, 0) == acc as int);
                        assert(self@.word_boundary(false) == acc as int);
                    }
                    return acc;
                }
                acc = words[i].0;
                i = i + 1;
            }
            acc
        }
    }

    /// Moves the caret to the previous word start.
    pub fn word_left(&mut self)
        requires
            old(self)@.wf(),
        ensures
            final(self)@.wf(),
            final(self)@ == old(self)@.moved_to(old(self)@.word_boundary(false)),
    {
        let t = self.word_boundary(false);
        self.move_to(t);
    }

    /// Moves the caret to the next word end.
    pub fn word_right(&mut self)
        requires
            old(self)@.wf(),
        ensures
            final(self)@.wf(),
            final(self)@ == old(self)@.moved_to(old(self)@.word_boundary(true)),
    {
        let t = self.word_boundary(true);
        self.move_to(t);
    }

    /// Extends the selection to the previous word start.
    pub fn select_word_left(&mut self)
        requires
            old(self)@.wf(),
        ensures
            final(self)@.wf(),
            final(self)@ == old(self)@.selected_to(old(self)@.word_boundary(false)),
    {
        let t = self.word_boundary(false);
        self.select_to(t);
    }

    /// Extends the selection to the next word end.
    pub fn select_word_right(&mut self)
        requires
            old(self)@.wf(),
        ensures
            final(self)@.wf(),
            final(self)@ == old(self)@.selected_to(old(self)@.word_boundary(true)),
    {
        let t = self.word_boundary(true);
        self.select_to(t);
    }

    /// Extends the selection to the start of the text.
    pub fn select_home(&mut self)
        requires
            old(self)@.wf(),
        ensures
            final(self)@.wf(),
            final(self)@ == old(self)@.selected_to(0),
    {
        self.select_to(0);
    }

    /// Extends the selection to the end of the text.
    pub fn select_end(&mut self)
        requires
            old(self)@.wf(),
        ensures
            final(self)@.wf(),
            final(self)@ == old(self)@.selected_to(old(self)@.len_bytes() as int),
    {
        let n = self.len_bytes();
        self.select_to(n);
    }

    /// Moves left by one grapheme, or collapses the selection to its start.
    pub fn left(&mut self) -> (effect: EditEffect)
        requires
            old(self)@.wf(),
        ensures
            final(self)@.wf(),
            (final(self)@, effect) == old(self)@.moved_left(),
    {
        if self.start == self.end {
            let cursor = self.cursor_offset();
            if cursor == 0 && self.composite.on_edge_left {
                return EditEffect::EdgeLeft;
            }
            let p = self.previous_boundary(cursor);
            self.move_to(p);
        } else {
            let s = byte_offset_of(self.value.as_slice(), self.start);
            self.move_to(s);
        }
        EditEffect::Redraw
    }

    /// Moves right by one grapheme, or collapses the selection to its end.
    pub fn right(&mut self) -> (effect: EditEffect)
        requires
            old(self)@.wf(),
        ensures
            final(self)@.wf(),
            (final(self)@, effect) == old(self)@.moved_right(),
    {
        if self.start == self.end {
            let cursor = self.cursor_offset();
            if cursor == self.len_bytes() && self.composite.on_edge_right {
                return EditEffect::EdgeRight;
            }
            let n = self.next_boundary(cursor);
            self.move_to(n);
        } else {
            let e = byte_offset_of(self.value.as_slice(), self.end);
            self.move_to(e);
        }
        EditEffect::Redraw
    }

    /// Extends the selection by one grapheme to the left.
    pub fn select_left(&mut self)
        requires
            old(self)@.wf(),
        ensures
            final(self)@.wf(),
            final(self)@ == old(self)@.selected_to(old(self)@.previous_boundary(old(self)@.cursor_byte() as int)),
    {
        let cursor = self.cursor_offset();
        let p = self.previous_boundary(cursor);
        self.select_to(p);
    }

    /// Extends the selection by one grapheme to the right.
    pub fn select_right(&mut self)
        requires
            old(self)@.wf(),
        ensures
            final(self)@.wf(),
            final(self)@ == old(self)@.selected_to(old(self)@.next_boundary(old(self)@.cursor_byte() as int)),
    {
        let cursor = self.cursor_offset();
        let n = self.next_boundary(cursor);
        self.select_to(n);
    }

    /// Selects the whole value.
    pub fn select_all(&mut self)
        requires
            old(self)@.wf(),
        ensures
            final(self)@.wf(),
            final(self)@ == old(self)@.all_selected(),
    {
        self.last_insertion = None;
        self.start = 0;
        self.end = self.value.len();
        self.reversed = false;
    }

    /// Moves to the start, unless a composite handles Home.
    pub fn home(&mut self) -> (effect: EditEffect)
        requires
            old(self)@.wf(),
        ensures
            final(self)@.wf(),
            (final(self)@, effect) == old(self)@.moved_home(),
    {
        if self.composite.on_home {
            return EditEffect::Home;
        }
        self.move_to(0);
        EditEffect::Redraw
    }

    /// Moves to the end, unless a composite handles End.
    pub fn end(&mut self) -> (effect: EditEffect)
        requires
            old(self)@.wf(),
        ensures
            final(self)@.wf(),
            (final(self)@, effect) == old(self)@.moved_end(),
    {
        if self.composite.on_end {
            return EditEffect::End;
        }
        let n = self.len_bytes();
        self.move_to(n);
        EditEffect::Redraw
    }
}

/// Whether two character sequences are equal.
pub(crate) fn chars_equal(a: &[char], b: &[char]) -> (eq: bool)
    ensures
        eq == (a@ == b@),
{
    if a.len() != b.len() {
        return false;
    }
    let mut i: usize = 0;
    while i < a.len()
        invariant
            a@.len() == b@.len(),
            i <= a@.len(),
            a@.take(i as int) =~= b@.take(i as int),
        decreases a@.len() - i,
    {
        if a[i] != b[i] {
            proof {
                assert(a@[i as int] != b@[i as int]);
            }
            return false;
        }
        proof {
            assert(a@.take(i as int + 1) =~= b@.take(i as int + 1));
        }
        i = i + 1;
    }
    proof {
        assert(a@ =~= a@.take(i as int));
        assert(b@ =~= b@.take(i as int));
    }
    true
}

/// Line breaks become spaces.
fn normalize_chars(text: &[char]) -> (r: Vec<char>)
    ensures
        r@ == single_line(text@),
{
    let mut r: Vec<char> = Vec::new();
    let mut i: usize = 0;
    while i < text.len()
        invariant
            i <= text@.len(),
            r@ =~= single_line(text@.take(i as int)),
        decreases text@.len() - i,
    {
        let c = text[i];
        if c == '\n' || c == '\r' {
            r.push(' ');
        } else {
            r.push(c);
        }
        proof {
            assert(single_line(text@.take(i as int + 1)) =~= single_line(text@.take(i as int)).push(
                if c == '\n' || c == '\r' { ' ' } else { c },
            ));
        }
        i = i + 1;
    }
    proof {
        assert(text@.take(i as int) =~= text@);
    }
    r
}

/// Replaces line breaks in `text` by spaces, keeping it on one line.
pub fn normalize_single_line(text: &str) -> (r: String)
    ensures
        r@ == single_line(text@),
{
    let chars = chars_of(text);
    let normalized = normalize_chars(chars.as_slice());
    string_from_chars(normalized.as_slice())
}

/// Appends `s[from..to]` to `out`.
fn extend_from(out: &mut Vec<char>, s: &[char], from: usize, to: usize)
    requires
        from <= to <= s@.len(),
    ensures
        final(out)@ == old(out)@ + s@.subrange(from as int, to as int),
{
    let mut i = from;
    while i < to
        invariant
            from <= i <= to <= s@.len(),
            out@ =~= old(out)@ + s@.subrange(from as int, i as int),
        decreases to - i,
    {
        out.push(s[i]);
        proof {
            assert(s@.subrange(from as int, i as int + 1) =~= s@.subrange(from as int, i as int).push(
                s@[i as int],
            ));
        }
        i = i + 1;
    }
}

pub open spec fn min_nat(a: nat, b: nat) -> nat {
    if a <= b {
        a
    } else {
        b
    }
}

pub open spec fn max_nat(a: nat, b: nat) -> nat {
    if a <= b {
        b
    } else {
        a
    }
}

impl EditorModel {
    /// The value after replacing characters `s..e` by `raw` on one line.
    pub open spec fn replaced_value(self, s: nat, e: nat, raw: Seq<char>) -> Seq<char> {
        self.value.take(s as int) + single_line(raw) + self.value.skip(e as int)
    }

    /// Whether a new single-grapheme insertion continues the previous one.
    pub open spec fn continues_insertion(self, s: nat, e: nat, now: u64) -> bool {
        s == e && (self.last_insertion matches Some((t, end)) && end == s && elapsed(now, t)
            < COALESCE_NANOS)
    }

    /// Whether an edit is recorded in the history.
    pub open spec fn records(self, next: Seq<char>, mark: Option<Option<std::ops::Range<usize>>>) -> bool {
        self.marked is None && (next != self.value || mark is Some)
    }

    /// The undo history, redo history and pending insertion after an edit.
    pub open spec fn edited_history(
        self,
        s: nat,
        e: nat,
        raw: Seq<char>,
        mark: Option<Option<std::ops::Range<usize>>>,
        now: u64,
    ) -> (Seq<SnapshotModel>, Seq<SnapshotModel>, Option<(u64, nat)>) {
        let new = single_line(raw);
        let insertion = mark is None && grapheme_starts(new).len() == 1;
        if self.records(self.replaced_value(s, e, raw), mark) {
            (
                if insertion && self.continues_insertion(s, e, now) {
                    self.undo
                } else {
                    pushed(self.undo, self.snapshot())
                },
                Seq::empty(),
                if insertion {
                    Some((now, s + new.len()))
                } else {
                    None
                },
            )
        } else if mark is Some {
            (self.undo, self.redo, None)
        } else {
            (self.undo, self.redo, self.last_insertion)
        }
    }

    /// The composition and selection after inserting `new` at character `s`.
    pub open spec fn edited_selection(
        s: nat,
        new: Seq<char>,
        mark: Option<Option<std::ops::Range<usize>>>,
    ) -> (Option<(nat, nat)>, nat, nat) {
        let after = s + new.len();
        match mark {
            Some(selection) => if new.len() == 0 {
                (None, s, s)
            } else {
                match selection {
                    Some(r) => {
                        let a = char_index_at_utf16(new, r.start as int);
                        let b = char_index_at_utf16(new, r.end as int);
                        (Some((s, after)), s + min_nat(a, b), s + max_nat(a, b))
                    },
                    None => (Some((s, after)), after, after),
                }
            },
            None => (None, after, after),
        }
    }

    /// Replaces characters `s..e` by `raw`, recording history and setting the
    /// composition (`mark`) or collapsing the selection after the new text.
    pub open spec fn edited(
        self,
        s: nat,
        e: nat,
        raw: Seq<char>,
        mark: Option<Option<std::ops::Range<usize>>>,
        now: u64,
    ) -> Self {
        let (undo, redo, last) = self.edited_history(s, e, raw, mark, now);
        let (marked, start, end) = Self::edited_selection(s, single_line(raw), mark);
        EditorModel {
            value: self.replaced_value(s, e, raw),
            undo,
            redo,
            last_insertion: last,
            marked,
            start,
            end,
            reversed: false,
            ..self
        }
    }

    /// The characters an IME range refers to: the UTF-16 range when given,
    /// else the composition, else the selection.
    pub open spec fn replacement_range(self, range_utf16: Option<std::ops::Range<usize>>) -> (nat, nat) {
        match range_utf16 {
            Some(r) => {
                let a = char_index_at_utf16(self.value, r.start as int);
                let b = char_index_at_utf16(self.value, r.end as int);
                (min_nat(a, b), max_nat(a, b))
            },
            None => match self.marked {
                Some(m) => m,
                None => (self.start, self.end),
            },
        }
    }

    /// Committed text input.
    pub open spec fn text_replaced(
        self,
        range_utf16: Option<std::ops::Range<usize>>,
        text: Seq<char>,
        now: u64,
    ) -> (Self, EditEffect) {
        if !self.can_edit() {
            (self, EditEffect::Nothing)
        } else {
            let (s, e) = self.replacement_range(range_utf16);
            (self.edited(s, e, text, None, now), EditEffect::ValueChanged)
        }
    }

    /// Composition (marked) text input.
    pub open spec fn text_marked(
        self,
        range_utf16: Option<std::ops::Range<usize>>,
        text: Seq<char>,
        selection_utf16: Option<std::ops::Range<usize>>,
    ) -> (Self, EditEffect) {
        if !self.can_edit() {
            (self, EditEffect::Nothing)
        } else {
            let (s, e) = self.replacement_range(range_utf16);
            (self.edited(s, e, text, Some(selection_utf16), 0), EditEffect::ValueChanged)
        }
    }

    /// Whether committing `text` over `range_utf16` keeps the value representable.
    pub open spec fn replacement_fits(
        self,
        range_utf16: Option<std::ops::Range<usize>>,
        text: Seq<char>,
    ) -> bool {
        let (s, e) = self.replacement_range(range_utf16);
        fits(self.replaced_value(s, e, text))
    }

    /// Deletes the selection, or from the caret to byte `b` when nothing is selected.
    pub open spec fn deleted_to(self, b: int) -> (Self, EditEffect) {
        if !self.can_edit() {
            (self, EditEffect::Nothing)
        } else {
            let m = if self.start == self.end {
                self.selected_to(b)
            } else {
                self
            };
            m.text_replaced(None, Seq::empty(), 0)
        }
    }

    /// Backspace: deletes the selection or the grapheme before the caret.
    pub open spec fn backspaced(self) -> (Self, EditEffect) {
        if !self.can_edit() {
            (self, EditEffect::Nothing)
        } else if self.start == self.end {
            let previous = self.previous_boundary(self.cursor_byte() as int);
            if previous == self.cursor_byte() {
                (self, EditEffect::Bell)
            } else {
                self.selected_to(previous).text_replaced(None, Seq::empty(), 0)
            }
        } else {
            self.text_replaced(None, Seq::empty(), 0)
        }
    }

    /// Delete: deletes the selection or the grapheme after the caret.
    pub open spec fn forward_deleted(self) -> (Self, EditEffect) {
        if !self.can_edit() {
            (self, EditEffect::Nothing)
        } else if self.start == self.end {
            let next = self.next_boundary(self.cursor_byte() as int);
            if next == self.cursor_byte() {
                (self, EditEffect::Bell)
            } else {
                self.selected_to(next).text_replaced(None, Seq::empty(), 0)
            }
        } else {
            self.text_replaced(None, Seq::empty(), 0)
        }
    }

    /// The selected characters.
    pub open spec fn selected_text(self) -> Seq<char> {
        self.value.subrange(self.start as int, self.end as int)
    }

    /// Cut: the selection goes to the clipboard and, when editable, is deleted.
    pub open spec fn cut_out(self) -> (Self, Option<Seq<char>>, EditEffect) {
        if self.start == self.end {
            (self, None, EditEffect::Nothing)
        } else if self.can_edit() {
            let (m, effect) = self.text_replaced(None, Seq::empty(), 0);
            (m, Some(self.selected_text()), effect)
        } else {
            (self, Some(self.selected_text()), EditEffect::Nothing)
        }
    }

    /// Paste: clipboard text replaces the selection as its own undo step.
    pub open spec fn pasted(self, clipboard: Option<Seq<char>>, now: u64) -> (Self, EditEffect) {
        if !self.can_edit() || clipboard is None {
            (self, EditEffect::Nothing)
        } else {
            let m = EditorModel { last_insertion: None, ..self };
            let (m2, effect) = m.text_replaced(None, single_line(clipboard.unwrap()), now);
            (EditorModel { last_insertion: None, ..m2 }, effect)
        }
    }
}

proof fn lemma_deletion_fits(v: Seq<char>, s: int, e: int)
    requires
        0 <= s <= e <= v.len(),
        fits(v),
    ensures
        fits(v.take(s) + single_line(Seq::<char>::empty()) + v.skip(e)),
{
    assert(single_line(Seq::<char>::empty()) =~= Seq::<char>::empty());
    assert(v.take(s) + Seq::<char>::empty() =~= v.take(s));
    assert(v =~= v.take(s) + v.subrange(s, e) + v.skip(e));
    crate::text::lemma_utf8_len_concat(v.take(s) + v.subrange(s, e), v.skip(e));
    crate::text::lemma_utf8_len_concat(v.take(s), v.subrange(s, e));
    crate::text::lemma_utf8_len_concat(v.take(s), v.skip(e));
}

fn selection_after(s: usize, new: &[char], mark: &Option<Option<std::ops::Range<usize>>>) -> (r: (
    Option<(usize, usize)>,
    usize,
    usize,
))
    requires
        s + new@.len() <= usize::MAX,
    ensures
        (pair_view(r.0), r.1 as nat, r.2 as nat) == EditorModel::edited_selection(s as nat, new@, *mark),
        r.1 <= r.2 <= s + new@.len(),
        r.0 matches Some((a, b)) ==> a <= b <= s + new@.len(),
        r.0 is Some ==> mark is Some,
{
    let after = s + new.len();
    match mark {
        Some(selection) => {
            if new.len() == 0 {
                (None, s, s)
            } else {
                match selection {
                    Some(r) => {
                        let a = char_index_for_utf16(new, r.start);
                        let b = char_index_for_utf16(new, r.end);
                        if a <= b {
                            (Some((s, after)), s + a, s + b)
                        } else {
                            (Some((s, after)), s + b, s + a)
                        }
                    },
                    None => (Some((s, after)), after, after),
                }
            }
        },
        None => (None, after, after),
    }
}

impl Editing {
    /// Records an edit of characters `s..e` into `new`, giving `next`.
    #[verifier::rlimit(40)]
    fn record_edit(
        &mut self,
        s: usize,
        e: usize,
        new: &Vec<char>,
        next: &Vec<char>,
        mark: &Option<Option<std::ops::Range<usize>>>,
        now: u64,
        Ghost(raw): Ghost<Seq<char>>,
    )
        requires
            old(self)@.wf(),
            s <= e <= old(self)@.value.len(),
            new@ == single_line(raw),
            next@ == old(self)@.replaced_value(s as nat, e as nat, raw),
            fits(next@),
            s + new@.len() <= next@.len(),
            s + new@.len() <= usize::MAX,
        ensures
            (final(self)@.undo, final(self)@.redo, final(self)@.last_insertion) == old(self)@.edited_history(
                s as nat,
                e as nat,
                raw,
                *mark,
                now,
            ),
            final(self).value == old(self).value,
            final(self).start == old(self).start,
            final(self).end == old(self).end,
            final(self).reversed == old(self).reversed,
            final(self).marked == old(self).marked,
            final(self).initial_value == old(self).initial_value,
            final(self).composite == old(self).composite,
            final(self).selecting == old(self).selecting,
            final(self).disabled == old(self).disabled,
            final(self).read_only == old(self).read_only,
            final(self).required == old(self).required,
            final(self).controlled == old(self).controlled,

            history_fits(final(self)@.undo),
            history_fits(final(self)@.redo),
            forall|i: int| 0 <= i < final(self)@.undo.len() ==> (#[trigger] final(self)@.undo[i]).wf(),
            forall|i: int| 0 <= i < final(self)@.redo.len() ==> (#[trigger] final(self)@.redo[i]).wf(),
    {
        let ghost before = self@;
        let changed = !chars_equal(next.as_slice(), self.value.as_slice());
        if self.marked.is_none() && (changed || mark.is_some()) {
            let new_text = string_from_chars(new.as_slice());
            let insertion = mark.is_none() && grapheme_indices(new_text.as_str()).len() == 1;
            let continues = match self.last_insertion {
                Some((t, end)) => s == e && end == s && (if now >= t {
                    now - t
                } else {
                    0
                }) < COALESCE_NANOS,
                None => false,
            };
            if !(insertion && continues) {
                proof {
                    lemma_history_elements_wf(self.undo@);
                }
                let snapshot = self.snapshot();
                push_history(&mut self.undo, snapshot);
            }
            self.redo.clear();
            self.last_insertion = if insertion {
                Some((now, s + new.len()))
            } else {
                None
            };
            proof {
                assert(self@.redo =~= Seq::<SnapshotModel>::empty());
            }
        } else if mark.is_some() {
            self.last_insertion = None;
        }
    }

    fn replace_selected_text(
        &mut self,
        s: usize,
        e: usize,
        raw: &[char],
        mark: Option<Option<std::ops::Range<usize>>>,
        now: u64,
    )
        requires
            old(self)@.wf(),
            s <= e <= old(self)@.value.len(),
            fits(old(self)@.replaced_value(s as nat, e as nat, raw@)),
        ensures
            final(self)@.wf(),
            final(self)@ == old(self)@.edited(s as nat, e as nat, raw@, mark, now),
    {
        let ghost before = self@;
        let new = normalize_chars(raw);
        let mut next: Vec<char> = Vec::new();
        extend_from(&mut next, self.value.as_slice(), 0, s);
        extend_from(&mut next, new.as_slice(), 0, new.len());
        extend_from(&mut next, self.value.as_slice(), e, self.value.len());
        let next_len = next.len();
        proof {
            assert(new@.subrange(0, new@.len() as int) =~= new@);
            assert(self.value@.subrange(0, s as int) =~= self.value@.take(s as int));
            assert(self.value@.subrange(e as int, self.value@.len() as int) =~= self.value@.skip(
                e as int,
            ));
            assert(next@ =~= before.replaced_value(s as nat, e as nat, raw@));
        }
        let after = s + new.len();
        self.record_edit(s, e, &new, &next, &mark, now, Ghost(raw@));
        self.value = next;
        self.place_selection(s, &new, &mark);
        proof {
            assert(self@ =~= before.edited(s as nat, e as nat, raw@, mark, now));
            let next_v = before.replaced_value(s as nat, e as nat, raw@);
            if before.records(next_v, mark) {
                assert(self@.last_insertion is Some ==> mark is None);
            } else if mark is None {
                if before.last_insertion is Some {
                    assert(before.marked is None);
                    assert(next_v == before.value);
                }
            }
            assert(self@.marked is Some ==> mark is Some);
        }
    }

    fn place_selection(&mut self, s: usize, new: &Vec<char>, mark: &Option<Option<std::ops::Range<usize>>>)
        requires
            s + new@.len() <= usize::MAX,
        ensures
            (pair_view(final(self).marked), final(self)@.start, final(self)@.end) == EditorModel::edited_selection(
                s as nat,
                new@,
                *mark,
            ),
            !final(self).reversed,
            final(self).start <= final(self).end <= s + new@.len(),
            final(self).marked matches Some((a, b)) ==> a <= b <= s + new@.len(),
            final(self).marked is Some ==> mark is Some,
            final(self).value == old(self).value,
            final(self).undo == old(self).undo,
            final(self).redo == old(self).redo,
            final(self).last_insertion == old(self).last_insertion,
            final(self).initial_value == old(self).initial_value,
            final(self).composite == old(self).composite,
            final(self).selecting == old(self).selecting,
            final(self).disabled == old(self).disabled,
            final(self).read_only == old(self).read_only,
            final(self).required == old(self).required,
            final(self).controlled == old(self).controlled,
    {
        let (marked, start, end) = selection_after(s, new.as_slice(), mark);
        self.marked = marked;
        self.start = start;
        self.end = end;
        self.reversed = false;
    }

    fn replacement_range(&self, range_utf16: &Option<std::ops::Range<usize>>) -> (r: (usize, usize))
        requires
            self@.wf(),
        ensures
            (r.0 as nat, r.1 as nat) == self@.replacement_range(*range_utf16),
            r.0 <= r.1 <= self@.value.len(),
    {
        match range_utf16 {
            Some(r) => {
                let a = char_index_for_utf16(self.value.as_slice(), r.start);
                let b = char_index_for_utf16(self.value.as_slice(), r.end);
                if a <= b {
                    (a, b)
                } else {
                    (b, a)
                }
            },
            None => match self.marked {
                Some(m) => m,
                None => (self.start, self.end),
            },
        }
    }

    /// Commits `text` over an IME range (UTF-16), the composition or the selection.
    pub fn replace_text_in_range_at(
        &mut self,
        range_utf16: Option<std::ops::Range<usize>>,
        text: &str,
        now: u64,
    ) -> (effect: EditEffect)
        requires
            old(self)@.wf(),
            old(self)@.replacement_fits(range_utf16, text@),
        ensures
            final(self)@.wf(),
            (final(self)@, effect) == old(self)@.text_replaced(range_utf16, text@, now),
    {
        if !self.can_edit() {
            return EditEffect::Nothing;
        }
        let (s, e) = self.replacement_range(&range_utf16);
        let chars = chars_of(text);
        self.replace_selected_text(s, e, chars.as_slice(), None, now);
        EditEffect::ValueChanged
    }

    /// Sets composition text over an IME range, selecting `selection_utf16` within it.
    pub fn replace_and_mark_text_in_range(
        &mut self,
        range_utf16: Option<std::ops::Range<usize>>,
        text: &str,
        selection_utf16: Option<std::ops::Range<usize>>,
    ) -> (effect: EditEffect)
        requires
            old(self)@.wf(),
            old(self)@.replacement_fits(range_utf16, text@),
        ensures
            final(self)@.wf(),
            (final(self)@, effect) == old(self)@.text_marked(range_utf16, text@, selection_utf16),
    {
        if !self.can_edit() {
            return EditEffect::Nothing;
        }
        let (s, e) = self.replacement_range(&range_utf16);
        let chars = chars_of(text);
        self.replace_selected_text(s, e, chars.as_slice(), Some(selection_utf16), 0);
        EditEffect::ValueChanged
    }

    /// Deletes the selected characters (no text inserted).
    fn delete_selection(&mut self) -> (effect: EditEffect)
        requires
            old(self)@.wf(),
        ensures
            final(self)@.wf(),
            (final(self)@, effect) == old(self)@.text_replaced(None, Seq::empty(), 0),
    {
        proof {
            let (s, e) = self@.replacement_range(None);
            lemma_deletion_fits(self@.value, s as int, e as int);
            assert("".view() =~= Seq::<char>::empty()) by {
                reveal_strlit("");
            }
        }
        self.replace_text_in_range_at(None, "", 0)
    }

    fn delete_to(&mut self, b: usize) -> (effect: EditEffect)
        requires
            old(self)@.wf(),
        ensures
            final(self)@.wf(),
            (final(self)@, effect) == old(self)@.deleted_to(b as int),
    {
        if !self.can_edit() {
            return EditEffect::Nothing;
        }
        if self.start == self.end {
            self.select_to(b);
        }
        self.delete_selection()
    }

    /// Deletes back to the previous word start.
    pub fn delete_word_left(&mut self) -> (effect: EditEffect)
        requires
            old(self)@.wf(),
        ensures
            final(self)@.wf(),
            (final(self)@, effect) == old(self)@.deleted_to(old(self)@.word_boundary(false)),
    {
        let t = self.word_boundary(false);
        self.delete_to(t)
    }

    /// Deletes forward to the next word end.
    pub fn delete_word_right(&mut self) -> (effect: EditEffect)
        requires
            old(self)@.wf(),
        ensures
            final(self)@.wf(),
            (final(self)@, effect) == old(self)@.deleted_to(old(self)@.word_boundary(true)),
    {
        let t = self.word_boundary(true);
        proof {
            assert(self@.selected_to(t as int) == self@.selected_to(self@.word_boundary(true)));
        }
        self.delete_to(t)
    }

    /// Deletes back to the start of the text.
    pub fn delete_to_start(&mut self) -> (effect: EditEffect)
        requires
            old(self)@.wf(),
        ensures
            final(self)@.wf(),
            (final(self)@, effect) == old(self)@.deleted_to(0),
    {
        self.delete_to(0)
    }

    /// Deletes forward to the end of the text.
    pub fn delete_to_end(&mut self) -> (effect: EditEffect)
        requires
            old(self)@.wf(),
        ensures
            final(self)@.wf(),
            (final(self)@, effect) == old(self)@.deleted_to(old(self)@.len_bytes() as int),
    {
        let n = self.len_bytes();
        self.delete_to(n)
    }

    /// Deletes the selection or the grapheme before the caret; rings at the start.
    pub fn backspace(&mut self) -> (effect: EditEffect)
        requires
            old(self)@.wf(),
        ensures
            final(self)@.wf(),
            (final(self)@, effect) == old(self)@.backspaced(),
    {
        if !self.can_edit() {
            return EditEffect::Nothing;
        }
        if self.start == self.end {
            let cursor = self.cursor_offset();
            let previous = self.previous_boundary(cursor);
            if previous == cursor {
                return EditEffect::Bell;
            }
            self.select_to(previous);
        }
        self.delete_selection()
    }

    /// Deletes the selection or the grapheme after the caret; rings at the end.
    pub fn delete(&mut self) -> (effect: EditEffect)
        requires
            old(self)@.wf(),
        ensures
            final(self)@.wf(),
            (final(self)@, effect) == old(self)@.forward_deleted(),
    {
        if !self.can_edit() {
            return EditEffect::Nothing;
        }
        if self.start == self.end {
            let cursor = self.cursor_offset();
            let next = self.next_boundary(cursor);
            if next == cursor {
                return EditEffect::Bell;
            }
            self.select_to(next);
        }
        self.delete_selection()
    }

    fn selected_chars(&self) -> (s: String)
        requires
            self@.wf(),
        ensures
            s@ == self@.selected_text(),
    {
        let mut out: Vec<char> = Vec::new();
        extend_from(&mut out, self.value.as_slice(), self.start, self.end);
        proof {
            assert(out@ =~= self@.selected_text());
        }
        string_from_chars(out.as_slice())
    }

    /// The text to put on the clipboard, when something is selected.
    pub fn copy(&self) -> (clipboard: Option<String>)
        requires
            self@.wf(),
        ensures
            self@.start == self@.end ==> clipboard is None,
            self@.start != self@.end ==> (clipboard matches Some(t) && t@ == self@.selected_text()),
    {
        if self.start == self.end {
            None
        } else {
            Some(self.selected_chars())
        }
    }

    /// Puts the selection on the clipboard and deletes it when editable.
    pub fn cut(&mut self) -> (r: (Option<String>, EditEffect))
        requires
            old(self)@.wf(),
        ensures
            final(self)@.wf(),
            final(self)@ == old(self)@.cut_out().0,
            r.1 == old(self)@.cut_out().2,
            match old(self)@.cut_out().1 {
                Some(t) => r.0 matches Some(s) && s@ == t,
                None => r.0 is None,
            },
    {
        if self.start == self.end {
            return (None, EditEffect::Nothing);
        }
        let text = self.selected_chars();
        if self.can_edit() {
            let effect = self.delete_selection();
            (Some(text), effect)
        } else {
            (Some(text), EditEffect::Nothing)
        }
    }

    /// Replaces the selection by clipboard text (line breaks become spaces).
    pub fn paste_at(&mut self, clipboard: Option<&str>, now: u64) -> (effect: EditEffect)
        requires
            old(self)@.wf(),
            clipboard matches Some(t) ==> old(self)@.replacement_fits(None, single_line(t@)),
        ensures
            final(self)@.wf(),
            (final(self)@, effect) == old(self)@.pasted(
                match clipboard {
                    Some(t) => Some(t@),
                    None => None,
                },
                now,
            ),
    {
        if !self.can_edit() {
            return EditEffect::Nothing;
        }
        match clipboard {
            Some(text) => {
                self.last_insertion = None;
                let normalized = normalize_single_line(text);
                let effect = self.replace_text_in_range_at(None, normalized.as_str(), now);
                self.last_insertion = None;
                effect
            },
            None => EditEffect::Nothing,
        }
    }
}

impl EditorModel {
    /// Adopts caller-owned properties; a different controlled value replaces the
    /// text, clears history and clamps the selection to the new text.
    pub open spec fn synced(
        self,
        controlled: Option<Seq<char>>,
        disabled: bool,
        read_only: bool,
        required: bool,
    ) -> (Self, bool) {
        let replace = controlled matches Some(v) && v != self.value;
        let m = if replace {
            self.adopted(controlled.unwrap())
        } else {
            self
        };
        let changed = replace || self.disabled != disabled || self.read_only != read_only
            || self.required != required;
        (
            EditorModel {
                controlled: controlled is Some,
                disabled,
                read_only,
                required,
                ..m
            },
            changed,
        )
    }

    /// A new controlled value: history cleared, selection clamped to the new text.
    pub open spec fn adopted(self, v: Seq<char>) -> Self {
        let a = char_index_at_byte(v, byte_offset(self.value, self.start as int) as int);
        let b = char_index_at_byte(v, byte_offset(self.value, self.end as int) as int);
        EditorModel {
            undo: Seq::empty(),
            redo: Seq::empty(),
            last_insertion: None,
            value: v,
            start: min_nat(a, b),
            end: max_nat(a, b),
            marked: None,
            ..self
        }
    }

    /// The word-bound piece double-clicking at `b` selects.
    pub open spec fn double_clicked(self, word_hit: Option<usize>) -> Self {
        let hit = match word_hit {
            Some(h) => h as int,
            None => self.previous_boundary(self.len_bytes() as int),
        };
        let range = piece_at(word_bound_pieces(self.value), hit);
        self.moved_to(range.0).selected_to(range.1)
    }

    /// A primary press at byte `b` with the given click count.
    pub open spec fn pressed(self, b: int, click_count: usize, word_hit: Option<usize>, shift: bool) -> Self {
        if self.disabled {
            self
        } else {
            let m = EditorModel { selecting: true, ..self };
            if click_count >= 3 {
                m.all_selected()
            } else if click_count == 2 {
                m.double_clicked(word_hit)
            } else if shift {
                m.selected_to(b)
            } else {
                m.moved_to(b)
            }
        }
    }

    pub open spec fn focused(self) -> Self {
        if self.composite.select_all_on_focus && !self.disabled {
            self.all_selected()
        } else {
            self
        }
    }

    pub open spec fn blurred(self) -> Self {
        EditorModel { last_insertion: None, selecting: false, ..self }
    }
}

impl Editing {
    fn adopt_value(&mut self, chars: Vec<char>)
        requires
            old(self)@.wf(),
            fits(chars@),
        ensures
            final(self)@.wf(),
            final(self)@ == old(self)@.adopted(chars@),
    {
        let ghost before = self@;
        let start_byte = byte_offset_of(self.value.as_slice(), self.start);
        let end_byte = byte_offset_of(self.value.as_slice(), self.end);
        self.undo.clear();
        self.redo.clear();
        self.last_insertion = None;
        let a = char_index_for_byte(chars.as_slice(), start_byte);
        let b = char_index_for_byte(chars.as_slice(), end_byte);
        self.value = chars;
        if a <= b {
            self.start = a;
            self.end = b;
        } else {
            self.start = b;
            self.end = a;
        }
        self.marked = None;
        proof {
            assert(self@.undo =~= Seq::<SnapshotModel>::empty());
            assert(self@.redo =~= Seq::<SnapshotModel>::empty());
            assert(self@ =~= before.adopted(chars@));
        }
    }

    /// Adopts caller-owned properties and reports whether anything visible changed.
    pub fn sync_props(
        &mut self,
        controlled_value: Option<&str>,
        disabled: bool,
        read_only: bool,
        required: bool,
    ) -> (changed: bool)
        requires
            old(self)@.wf(),
            controlled_value matches Some(v) ==> fits(v@),
        ensures
            final(self)@.wf(),
            (final(self)@, changed) == old(self)@.synced(
                match controlled_value {
                    Some(v) => Some(v@),
                    None => None,
                },
                disabled,
                read_only,
                required,
            ),
    {
        let ghost before = self@;
        let mut changed = false;
        if let Some(value) = controlled_value {
            let chars = chars_of(value);
            if !chars_equal(chars.as_slice(), self.value.as_slice()) {
                self.adopt_value(chars);
                changed = true;
            }
        }
        let ghost middle = self@;
        changed = changed || self.disabled != disabled;
        changed = changed || self.read_only != read_only;
        changed = changed || self.required != required;
        self.controlled = controlled_value.is_some();
        self.disabled = disabled;
        self.read_only = read_only;
        self.required = required;
        proof {
            assert(self@ =~= (EditorModel {
                controlled: controlled_value is Some,
                disabled,
                read_only,
                required,
                ..middle
            }));
        }
        changed
    }

    /// Whether Enter runs the enter callback: enabled and not composing.
    pub fn enter(&self) -> (submit: bool)
        ensures
            submit == (!self@.disabled && self@.marked is None),
    {
        !self.disabled && self.marked.is_none()
    }

    fn piece_range(&self, hit: usize) -> (r: (usize, usize))
        requires
            self@.wf(),
        ensures
            self@.clamp(r.0 as int) == self@.clamp(piece_at(word_bound_pieces(self@.value), hit as int).0),
            self@.clamp(r.1 as int) == self@.clamp(piece_at(word_bound_pieces(self@.value), hit as int).1),
    {
        let text = self.text();
        let pieces = word_bound_indices(text.as_str());
        let ghost ps = word_bound_pieces(self@.value);
        let len = self.len_bytes();
        let mut i: usize = 0;
        proof {
            assert(ps.skip(0) =~= ps);
        }
        while i < pieces.len()
            invariant
                i <= pieces@.len(),
                pieces@.len() == ps.len(),
                forall|j: int|
                    0 <= j < pieces@.len() ==> {
                        &&& (#[trigger] pieces@[j]).0 == ps[j].0
                        &&& pieces@[j].1@ == ps[j].1
                    },
                piece_at(ps, hit as int) == piece_at(ps.skip(i as int), hit as int),
                ps == word_bound_pieces(self@.value),
                len == self@.len_bytes(),
                self@.wf(),
            decreases pieces@.len() - i,
        {
            let piece_chars = chars_of(pieces[i].1.as_str());
            let start = pieces[i].0;
            let end = start as u128 + utf8_len_wide(piece_chars.as_slice());
            proof {
                assert(ps.skip(i as int).drop_first() =~= ps.skip(i as int + 1));
                assert(ps.skip(i as int)[0] == ps[i as int]);
                assert(pieces@[i as int].0 == ps[i as int].0);
                assert(piece_chars@ == ps[i as int].1);
            }
            if start <= hit && (hit as u128) < end {
                if end > len as u128 {
                    proof {
                        lemma_char_index_at_end(self@.value, end as int);
                        lemma_char_index_at_end(self@.value, len as int);
                    }
                    return (start, len);
                }
                return (start, end as usize);
            }
            i = i + 1;
        }
        (hit, hit)
    }

    /// Handles a primary press at byte `offset`; reports whether focus is requested.
    /// `word_hit` is the byte under the pointer when the layout knows it.
    pub fn on_mouse_down(
        &mut self,
        offset: usize,
        click_count: usize,
        word_hit: Option<usize>,
        shift: bool,
    ) -> (focus: bool)
        requires
            old(self)@.wf(),
        ensures
            final(self)@.wf(),
            final(self)@ == old(self)@.pressed(offset as int, click_count, word_hit, shift),
            focus == !old(self)@.disabled,
    {
        if self.disabled {
            return false;
        }
        self.selecting = true;
        if click_count >= 3 {
            self.select_all();
        } else if click_count == 2 {
            let hit = match word_hit {
                Some(h) => h,
                None => {
                    let n = self.len_bytes();
                    self.previous_boundary(n)
                },
            };
            let (a, b) = self.piece_range(hit);
            self.move_to(a);
            self.select_to(b);
        } else if shift {
            self.select_to(offset);
        } else {
            self.move_to(offset);
        }
        true
    }

    /// Ends a pointer selection.
    pub fn on_mouse_up(&mut self)
        ensures
            final(self)@ == (EditorModel { selecting: false, ..old(self)@ }),
    {
        self.selecting = false;
    }

    /// Extends a pointer selection to byte `offset`.
    pub fn on_mouse_move(&mut self, offset: usize)
        requires
            old(self)@.wf(),
        ensures
            final(self)@.wf(),
            final(self)@ == if old(self)@.selecting {
                old(self)@.selected_to(offset as int)
            } else {
                old(self)@
            },
    {
        if self.selecting {
            self.select_to(offset);
        }
    }

    /// Focus gained; reports whether the focus-change hook runs.
    pub fn on_focus(&mut self) -> (notify: bool)
        requires
            old(self)@.wf(),
        ensures
            final(self)@.wf(),
            final(self)@ == old(self)@.focused(),
            notify == old(self)@.composite.on_focus_change,
    {
        if self.composite.select_all_on_focus && !self.disabled {
            self.select_all();
        }
        self.composite.on_focus_change
    }

    /// Focus lost; reports whether the focus-change hook runs.
    pub fn on_blur(&mut self) -> (notify: bool)
        requires
            old(self)@.wf(),
        ensures
            final(self)@.wf(),
            final(self)@ == old(self)@.blurred(),
            notify == old(self)@.composite.on_focus_change,
    {
        self.last_insertion = None;
        self.selecting = false;
        self.composite.on_focus_change
    }

    /// Whether the editor accepts text input.
    pub fn accepts_text_input(&self) -> (b: bool)
        ensures
            b == self@.can_edit(),
    {
        self.can_edit()
    }

    /// Converts a UTF-16 range to a byte range over the value, ordered.
    pub fn range_from_utf16(&self, range: std::ops::Range<usize>) -> (r: std::ops::Range<usize>)
        requires
            self@.wf(),
        ensures
            r.start == byte_offset(self@.value, self@.replacement_range(Some(range)).0 as int),
            r.end == byte_offset(self@.value, self@.replacement_range(Some(range)).1 as int),
    {
        let (a, b) = self.replacement_range(&Some(range));
        byte_offset_of(self.value.as_slice(), a)..byte_offset_of(self.value.as_slice(), b)
    }

    /// The UTF-16 offset of byte `offset` (counting every character that starts before it).
    pub fn offset_to_utf16(&self, offset: usize) -> (u: usize)
        requires
            self@.wf(),
        ensures
            u == utf16_at_byte(self@.value, offset as int),
    {
        utf16_for_byte(self.value.as_slice(), offset)
    }

    /// The text of a UTF-16 range and that range adjusted to character boundaries.
    pub fn text_for_range(&self, range_utf16: std::ops::Range<usize>) -> (r: (String, std::ops::Range<usize>))
        requires
            self@.wf(),
        ensures
            ({
                let (a, b) = self@.replacement_range(Some(range_utf16));
                &&& r.0@ == self@.value.subrange(a as int, b as int)
                &&& r.1.start == utf16_offset(self@.value, a as int)
                &&& r.1.end == utf16_offset(self@.value, b as int)
            }),
    {
        let (a, b) = self.replacement_range(&Some(range_utf16));
        let mut out: Vec<char> = Vec::new();
        extend_from(&mut out, self.value.as_slice(), a, b);
        let text = string_from_chars(out.as_slice());
        let adjusted = utf16_offset_of(self.value.as_slice(), a)..utf16_offset_of(self.value.as_slice(), b);
        (text, adjusted)
    }

    /// The selection in UTF-16 and whether it is reversed; `None` while disabled
    /// unless disabled input is ignored.
    pub fn selected_text_range(&self, ignore_disabled_input: bool) -> (r: Option<(std::ops::Range<usize>, bool)>)
        requires
            self@.wf(),
        ensures
            (!ignore_disabled_input && self@.disabled) ==> r is None,
            !(!ignore_disabled_input && self@.disabled) ==> (r matches Some((range, reversed))
                && range.start == utf16_offset(self@.value, self@.start as int)
                && range.end == utf16_offset(self@.value, self@.end as int)
                && reversed == self@.reversed),
    {
        if !ignore_disabled_input && self.disabled {
            return None;
        }
        let range = utf16_offset_of(self.value.as_slice(), self.start)..utf16_offset_of(self.value.as_slice(), self.end);
        Some((range, self.reversed))
    }

    /// The composition in UTF-16.
    pub fn marked_text_range(&self) -> (r: Option<std::ops::Range<usize>>)
        requires
            self@.wf(),
        ensures
            match self@.marked {
                Some((s, e)) => r matches Some(r) && r.start == utf16_offset(self@.value, s as int)
                    && r.end == utf16_offset(self@.value, e as int),
                None => r is None,
            },
    {
        match self.marked {
            Some((s, e)) => Some(
                utf16_offset_of(self.value.as_slice(), s)..utf16_offset_of(self.value.as_slice(), e),
            ),
            None => None,
        }
    }

    /// Ends composition, keeping its text.
    pub fn unmark_text(&mut self)
        requires
            old(self)@.wf(),
        ensures
            final(self)@.wf(),
            final(self)@ == (EditorModel { marked: None, ..old(self)@ }),
    {
        self.marked = None;
    }
}

/// A history whose newest snapshot alone is within the byte limit keeps that
/// snapshot newest when trimmed.
proof fn lemma_trim_keeps_newest(h: Seq<SnapshotModel>)
    requires
        h.len() > 0,
        utf8_len(h.last().value) <= HISTORY_BYTES,
    ensures
        trim_history(h).len() > 0,
        trim_history(h).last() == h.last(),
    decreases h.len(),
{
    if !history_fits(h) {
        if h.len() == 1 {
            assert(h.drop_first() =~= Seq::<SnapshotModel>::empty());
            assert(history_bytes(h.drop_first()) == 0);
            assert(history_bytes(h) == utf8_len(h[0].value));
        } else {
            assert(h.drop_first().last() == h.last());
            lemma_trim_keeps_newest(h.drop_first());
        }
    }
}

/// Pushing a snapshot within the byte limit makes it the newest entry.
pub proof fn lemma_pushed_newest(h: Seq<SnapshotModel>, s: SnapshotModel)
    requires
        utf8_len(s.value) <= HISTORY_BYTES,
    ensures
        pushed(h, s).len() > 0,
        pushed(h, s).last() == s,
{
    assert(h.push(s).last() == s);
    lemma_trim_keeps_newest(h.push(s));
}

/// A read-only or disabled editor never changes its text: undo, redo, typing,
/// composition, deletion and paste leave the whole state as it was.
pub proof fn lemma_locked_editor_is_unchanged(
    m: EditorModel,
    range_utf16: Option<std::ops::Range<usize>>,
    text: Seq<char>,
    selection_utf16: Option<std::ops::Range<usize>>,
    clipboard: Option<Seq<char>>,
    b: int,
    now: u64,
)
    requires
        !m.can_edit(),
    ensures
        m.undone().0 == m,
        m.redone().0 == m,
        m.text_replaced(range_utf16, text, now).0 == m,
        m.text_marked(range_utf16, text, selection_utf16).0 == m,
        m.backspaced().0 == m,
        m.forward_deleted().0 == m,
        m.deleted_to(b).0 == m,
        m.pasted(clipboard, now).0 == m,
        m.cut_out().0 == m,
{
}

/// Caret movement and selection never change the text or the history.
pub proof fn lemma_navigation_keeps_text(m: EditorModel, b: int)
    ensures
        m.moved_to(b).value == m.value && m.moved_to(b).undo == m.undo,
        m.selected_to(b).value == m.value && m.selected_to(b).undo == m.undo,
        m.all_selected().value == m.value,
        m.moved_left().0.value == m.value,
        m.moved_right().0.value == m.value,
        m.moved_home().0.value == m.value,
        m.moved_end().0.value == m.value,
{
}

/// An edit that is not merged into a running insertion is one undo step:
/// undoing it restores the text and selection from before the edit, and
/// redoing it brings the edited text back.
pub proof fn lemma_edit_is_undoable(
    m: EditorModel,
    range_utf16: Option<std::ops::Range<usize>>,
    text: Seq<char>,
    now: u64,
)
    requires
        m.wf(),
        m.can_edit(),
        m.marked is None,
        ({
            let (s, e) = m.replacement_range(range_utf16);
            &&& m.replaced_value(s, e, text) != m.value
            &&& !(grapheme_starts(single_line(text)).len() == 1 && m.continues_insertion(s, e, now))
            &&& utf8_len(m.replaced_value(s, e, text)) <= HISTORY_BYTES
        }),
        utf8_len(m.value) <= HISTORY_BYTES,
    ensures
        ({
            let edited = m.text_replaced(range_utf16, text, now).0;
            let undone = edited.undone().0;
            &&& undone.value == m.value
            &&& undone.start == m.start
            &&& undone.end == m.end
            &&& undone.reversed == m.reversed
            &&& undone.redone().0.value == edited.value
        }),
{
    let (s, e) = m.replacement_range(range_utf16);
    let edited = m.text_replaced(range_utf16, text, now).0;
    lemma_pushed_newest(m.undo, m.snapshot());
    assert(edited.undo == pushed(m.undo, m.snapshot()));
    let undone = edited.undone().0;
    lemma_pushed_newest(edited.redo, edited.snapshot());
    assert(undone.redo == pushed(edited.redo, edited.snapshot()));
}

/// A composition session — marking text, revising it and committing it — is a
/// single undo step back to the text before the composition started.
pub proof fn lemma_composition_is_one_undo_step(
    m: EditorModel,
    first: Seq<char>,
    first_selection: Option<std::ops::Range<usize>>,
    revised: Seq<char>,
    revised_selection: Option<std::ops::Range<usize>>,
    committed: Seq<char>,
    now: u64,
)
    requires
        m.wf(),
        m.can_edit(),
        m.marked is None,
        single_line(first).len() > 0,
        single_line(revised).len() > 0,
        utf8_len(m.value) <= HISTORY_BYTES,
    ensures
        ({
            let a = m.text_marked(None, first, first_selection).0;
            let b = a.text_marked(None, revised, revised_selection).0;
            let c = b.text_replaced(None, committed, now).0;
            &&& c.marked is None
            &&& c.undone().0.value == m.value
            &&& c.undone().0.start == m.start
            &&& c.undone().0.end == m.end
        }),
{
    let a = m.text_marked(None, first, first_selection).0;
    lemma_pushed_newest(m.undo, m.snapshot());
    assert(a.undo == pushed(m.undo, m.snapshot()));
    assert(a.marked is Some);
    let b = a.text_marked(None, revised, revised_selection).0;
    assert(b.undo == a.undo);
    assert(b.marked is Some);
    let c = b.text_replaced(None, committed, now).0;
    assert(c.undo == b.undo);
}


/// Optional text as plain values.
pub open spec fn text_option(text: Option<&str>) -> Option<Seq<char>> {
    match text {
        Some(t) => Some(t@),
        None => None,
    }
}

impl Editing {
    /// Replaces text over an IME range (or the selection) as typed input,
    /// reading the editor's clock for coalescing (see `replace_text_in_range_at`).
    pub fn replace_text_in_range(&mut self, range_utf16: Option<std::ops::Range<usize>>, text: &str) -> (effect: EditEffect)
        requires
            old(self)@.wf(),
            old(self)@.replacement_fits(range_utf16, text@),
        ensures
            final(self)@.wf(),
            exists|now: u64| (final(self)@, effect) == #[trigger] old(self)@.text_replaced(range_utf16, text@, now),
    {
        let now = self.clock.nanos();
        self.replace_text_in_range_at(range_utf16, text, now)
    }

    /// Replaces the selection by clipboard text, reading the editor's clock
    /// (see `paste_at`).
    pub fn paste(&mut self, clipboard: Option<&str>) -> (effect: EditEffect)
        requires
            old(self)@.wf(),
            clipboard matches Some(t) ==> old(self)@.replacement_fits(None, single_line(t@)),
        ensures
            final(self)@.wf(),
            exists|now: u64| (final(self)@, effect) == #[trigger] old(self)@.pasted(text_option(clipboard), now),
    {
        let now = self.clock.nanos();
        self.paste_at(clipboard, now)
    }
}

/// The byte offset at which a word (given with its start) ends.
pub open spec fn word_end(w: (usize, Seq<char>)) -> int {
    w.0 + utf8_len(w.1)
}

/// The first word end after `b` is the end of the first word, in order, that
/// ends after `b`; when no word does, it is `default`.
proof fn lemma_first_end_after(words: Seq<(usize, Seq<char>)>, b: int, default: int)
    ensures
        (forall|j: int| 0 <= j < words.len() ==> word_end(#[trigger] words[j]) <= b) ==> first_end_after(
            words,
            b,
            default,
        ) == default,
        (exists|j: int| 0 <= j < words.len() && word_end(#[trigger] words[j]) > b) ==> exists|j: int|
            0 <= j < words.len() && first_end_after(words, b, default) == word_end(#[trigger] words[j])
                && word_end(words[j]) > b && forall|k: int| 0 <= k < j ==> word_end(#[trigger] words[k]) <= b,
    decreases words.len(),
{
    if words.len() > 0 {
        let rest = words.drop_first();
        lemma_first_end_after(rest, b, default);
        if word_end(words[0]) > b {
            assert(word_end(words[0]) > b);
        } else {
            if forall|j: int| 0 <= j < words.len() ==> word_end(#[trigger] words[j]) <= b {
                assert forall|j: int| 0 <= j < rest.len() implies word_end(#[trigger] rest[j]) <= b by {
                    assert(rest[j] == words[j + 1]);
                }
            }
            if exists|j: int| 0 <= j < words.len() && word_end(#[trigger] words[j]) > b {
                let j0 = choose|j: int| 0 <= j < words.len() && word_end(#[trigger] words[j]) > b;
                assert(rest[j0 - 1] == words[j0]);
                let j1 = choose|j: int|
                    0 <= j < rest.len() && first_end_after(rest, b, default) == word_end(#[trigger] rest[j])
                        && word_end(rest[j]) > b && forall|k: int| 0 <= k < j ==> word_end(#[trigger] rest[k]) <= b;
                assert(rest[j1] == words[j1 + 1]);
                assert forall|k: int| 0 <= k < j1 + 1 implies word_end(#[trigger] words[k]) <= b by {
                    if k > 0 {
                        assert(rest[k - 1] == words[k]);
                    }
                }
            }
        }
    }
}

/// Word-right aims at the end of the first word, in text order, that ends
/// after the caret: the target lies after the caret and every earlier word
/// ends at or before it. When no word ends after the caret, it aims at the
/// end of the text.
pub proof fn lemma_word_right_target(m: EditorModel)
    ensures
        ({
            let ws = unicode_words(m.value);
            let b = m.cursor_byte() as int;
            let t = m.word_boundary(true);
            &&& (forall|j: int| 0 <= j < ws.len() ==> word_end(#[trigger] ws[j]) <= b) ==> t == m.len_bytes()
            &&& (exists|j: int| 0 <= j < ws.len() && word_end(#[trigger] ws[j]) > b) ==> {
                &&& t > b
                &&& exists|j: int|
                    0 <= j < ws.len() && t == word_end(#[trigger] ws[j]) && forall|k: int|
                        0 <= k < j ==> word_end(#[trigger] ws[k]) <= b
            }
        }),
{
    lemma_first_end_after(unicode_words(m.value), m.cursor_byte() as int, m.len_bytes() as int);
}

/// Later byte offsets never clamp to earlier characters.
proof fn lemma_clamp_monotone(s: Seq<char>, a: int, b: int)
    requires
        a <= b,
    ensures
        char_index_at_byte(s, a) <= char_index_at_byte(s, b),
    decreases s.len(),
{
    if s.len() > 0 && a >= utf8_width(s[0]) {
        lemma_clamp_monotone(s.drop_first(), a - utf8_width(s[0]), b - utf8_width(s[0]));
    }
}

/// Word-right never moves the caret backwards. It moves the caret forward
/// whenever its target reaches the character after the caret, and when the
/// target is a character boundary of the text the caret lands exactly on it.
pub proof fn lemma_word_right_advances(m: EditorModel)
    requires
        m.wf(),
    ensures
        ({
            let t = m.word_boundary(true);
            let m2 = m.moved_to(t);
            &&& t >= m.cursor_byte()
            &&& m2.cursor() >= m.cursor()
            &&& m.cursor() < m.value.len() && t >= byte_offset(m.value, m.cursor() + 1int) ==> m2.cursor() > m.cursor()
            &&& forall|k: int| 0 <= k <= m.value.len() && #[trigger] byte_offset(m.value, k) == t ==> m2.cursor_byte() == t
        }),
{
    let t = m.word_boundary(true);
    let c = m.cursor() as int;
    lemma_word_right_target(m);
    lemma_offset_bounded(m.value, c);
    lemma_char_index_of_offset(m.value, c);
    lemma_clamp_monotone(m.value, byte_offset(m.value, c) as int, t);
    if c < m.value.len() {
        lemma_char_index_of_offset(m.value, c + 1);
        if t >= byte_offset(m.value, c + 1) {
            lemma_clamp_monotone(m.value, byte_offset(m.value, c + 1) as int, t);
        }
    }
    assert forall|k: int| 0 <= k <= m.value.len() && #[trigger] byte_offset(m.value, k) == t implies m.moved_to(
        t,
    ).cursor_byte() == t by {
        lemma_char_index_of_offset(m.value, k);
    }
}

} // verus!
