//! Modal focus: entering a modal surface, returning focus when it closes,
//! and keeping Tab traversal between the surface's start and end boundaries.
//! The host performs each focus command and reports what is focused after it.
use vstd::prelude::*;

verus! {

/// Focus bookkeeping of one modal surface; `H` is the host's focus handle.
pub struct ModalFocusState<H> {
    open: bool,
    return_to: Option<H>,
}

/// What the host does with focus when a modal surface is prepared.
pub enum PrepareAction<H> {
    /// Focus stays where it is.
    Nothing,
    /// Focus moves into the surface.
    FocusPopup,
    /// Focus returns to the handle focused before the surface opened.
    Restore(H),
}

impl<H> ModalFocusState<H> {
    /// Whether the surface was open at the last preparation.
    pub closed spec fn is_open_spec(&self) -> bool {
        self.open
    }

    /// The handle focused when the surface opened, while it stays open.
    pub closed spec fn return_to_spec(&self) -> Option<H> {
        self.return_to
    }

    /// A closed surface with nothing to return to.
    pub fn new() -> (state: Self)
        ensures
            !state.is_open_spec(),
            state.return_to_spec() is None,
    {
        ModalFocusState { open: false, return_to: None }
    }

    /// Whether the surface was open at the last preparation.
    pub fn is_open(&self) -> (open: bool)
        ensures
            open == self.is_open_spec(),
    {
        self.open
    }

    /// Records that the surface renders `open`. Opening remembers `focused`
    /// and moves focus into the surface. Closing forgets it, and returns focus
    /// to it when focus was inside the surface (`popup_has_focus`) or nowhere.
    pub fn prepare(&mut self, open: bool, focused: Option<H>, popup_has_focus: bool) -> (action: PrepareAction<H>)
        ensures
            final(self).is_open_spec() == open,
            open && !old(self).is_open_spec() ==> action is FocusPopup && final(self).return_to_spec()
                == focused,
            !open && old(self).is_open_spec() ==> final(self).return_to_spec() is None && match old(
                self,
            ).return_to_spec() {
                Some(h) => if popup_has_focus || focused is None {
                    action == PrepareAction::Restore(h)
                } else {
                    action is Nothing
                },
                None => action is Nothing,
            },
            open == old(self).is_open_spec() ==> action is Nothing && final(self).return_to_spec() == old(
                self,
            ).return_to_spec(),
    {
        if open && !self.open {
            self.return_to = focused;
            self.open = true;
            PrepareAction::FocusPopup
        } else if !open && self.open {
            let nothing_focused = focused.is_none();
            let previous = self.return_to.take();
            self.open = false;
            match previous {
                Some(h) => if popup_has_focus || nothing_focused {
                    PrepareAction::Restore(h)
                } else {
                    PrepareAction::Nothing
                },
                None => PrepareAction::Nothing,
            }
        } else {
            PrepareAction::Nothing
        }
    }
}

/// A focus command of Tab traversal inside a modal surface.
#[derive(Clone, Copy, Debug, PartialEq, Eq, Structural)]
pub enum FocusCommand {
    /// Move focus to the next tab stop.
    Next,
    /// Move focus to the previous tab stop.
    Previous,
    /// Focus the start boundary.
    FocusStart,
    /// Focus the end boundary.
    FocusEnd,
    /// Focus what was focused when the traversal began, if anything was.
    RestoreStarting,
}

/// Which boundary holds focus after a command.
#[derive(Clone, Copy, Debug, PartialEq, Eq, Structural)]
pub enum Boundary {
    Start,
    End,
    /// Neither boundary.
    Inside,
}

/// How far a traversal has got.
#[derive(Clone, Copy, Debug, PartialEq, Eq, Structural)]
pub enum Phase {
    /// Forward: after the first move.
    ForwardMoved,
    /// Forward: after moving past the start boundary.
    ForwardPastStart,
    /// Forward: after wrapping from the end boundary to the start.
    ForwardWrapped,
    /// Backward: after the first move.
    BackwardMoved,
    /// Backward: after wrapping from the start boundary to the end.
    BackwardWrapped,
    /// Finished.
    Done,
}

/// The commands of one traversal step and whether the traversal is finished.
pub struct TraversalStep {
    pub commands: Vec<FocusCommand>,
    pub done: bool,
}

/// The last step of a traversal: landing on a boundary restores the starting focus.
pub open spec fn finish_commands(focused: Boundary) -> Seq<FocusCommand> {
    if focused == Boundary::Inside {
        Seq::empty()
    } else {
        seq![FocusCommand::RestoreStarting]
    }
}

/// The commands that start a traversal and the phase they lead to. Backward
/// traversal from the surface itself enters from the end boundary.
pub open spec fn begin_spec(reverse: bool, start_within_focused: bool) -> (Seq<FocusCommand>, Phase) {
    if !reverse {
        (seq![FocusCommand::Next], Phase::ForwardMoved)
    } else if start_within_focused {
        (seq![FocusCommand::FocusEnd, FocusCommand::Previous], Phase::BackwardMoved)
    } else {
        (seq![FocusCommand::Previous], Phase::BackwardMoved)
    }
}

/// After a move forward: the end boundary wraps to the start and moves on; anything else finishes.
pub open spec fn after_forward_move(focused: Boundary) -> (Seq<FocusCommand>, Phase) {
    if focused == Boundary::End {
        (seq![FocusCommand::FocusStart, FocusCommand::Next], Phase::ForwardWrapped)
    } else {
        (finish_commands(focused), Phase::Done)
    }
}

/// The commands that follow when `focused` is reported in `phase`, and the next phase:
/// a forward move that lands on the start boundary moves once more, one that lands
/// on the end boundary wraps to the start; a backward move that lands on the start
/// boundary wraps to the end; a traversal that still ends on a boundary restores
/// the starting focus.
pub open spec fn observe_spec(phase: Phase, focused: Boundary) -> (Seq<FocusCommand>, Phase) {
    match phase {
        Phase::ForwardMoved => if focused == Boundary::Start {
            (seq![FocusCommand::Next], Phase::ForwardPastStart)
        } else {
            after_forward_move(focused)
        },
        Phase::ForwardPastStart => after_forward_move(focused),
        Phase::BackwardMoved => if focused == Boundary::Start {
            (seq![FocusCommand::FocusEnd, FocusCommand::Previous], Phase::BackwardWrapped)
        } else {
            (finish_commands(focused), Phase::Done)
        },
        Phase::ForwardWrapped | Phase::BackwardWrapped => (finish_commands(focused), Phase::Done),
        Phase::Done => (Seq::empty(), Phase::Done),
    }
}

/// One Tab or Shift-Tab traversal inside a modal surface.
pub struct Traversal {
    phase: Phase,
}

impl Traversal {
    pub closed spec fn phase_spec(&self) -> Phase {
        self.phase
    }

    /// Starts a traversal (`reverse` for Shift-Tab). `start_within_focused`
    /// says whether the focused element contains the start boundary, as the
    /// surface itself does.
    pub fn begin(reverse: bool, start_within_focused: bool) -> (r: (Traversal, Vec<FocusCommand>))
        ensures
            (r.1@, r.0.phase_spec()) == begin_spec(reverse, start_within_focused),
    {
        if !reverse {
            (Traversal { phase: Phase::ForwardMoved }, vec![FocusCommand::Next])
        } else if start_within_focused {
            (Traversal { phase: Phase::BackwardMoved }, vec![FocusCommand::FocusEnd, FocusCommand::Previous])
        } else {
            (Traversal { phase: Phase::BackwardMoved }, vec![FocusCommand::Previous])
        }
    }

    /// Reports which boundary holds focus after the last commands.
    pub fn observe(&mut self, focused: Boundary) -> (step: TraversalStep)
        ensures
            (step.commands@, final(self).phase_spec()) == observe_spec(old(self).phase_spec(), focused),
            step.done == (final(self).phase_spec() == Phase::Done),
    {
        let finish = if focused == Boundary::Inside {
            Vec::new()
        } else {
            vec![FocusCommand::RestoreStarting]
        };
        proof {
            if focused == Boundary::Inside {
                assert(finish@ =~= finish_commands(focused));
            } else {
                assert(finish@ =~= finish_commands(focused));
            }
        }
        let (commands, phase) = match self.phase {
            Phase::ForwardMoved => if focused == Boundary::Start {
                (vec![FocusCommand::Next], Phase::ForwardPastStart)
            } else if focused == Boundary::End {
                (vec![FocusCommand::FocusStart, FocusCommand::Next], Phase::ForwardWrapped)
            } else {
                (finish, Phase::Done)
            },
            Phase::ForwardPastStart => if focused == Boundary::End {
                (vec![FocusCommand::FocusStart, FocusCommand::Next], Phase::ForwardWrapped)
            } else {
                (finish, Phase::Done)
            },
            Phase::BackwardMoved => if focused == Boundary::Start {
                (vec![FocusCommand::FocusEnd, FocusCommand::Previous], Phase::BackwardWrapped)
            } else {
                (finish, Phase::Done)
            },
            Phase::ForwardWrapped | Phase::BackwardWrapped => (finish, Phase::Done),
            Phase::Done => (Vec::new(), Phase::Done),
        };
        self.phase = phase;
        TraversalStep { commands, done: phase == Phase::Done }
    }
}

/// A traversal finishes after at most three reports.
pub proof fn lemma_traversal_finishes(reverse: bool, within: bool, a: Boundary, b: Boundary, c: Boundary)
    ensures
        ({
            let p0 = begin_spec(reverse, within).1;
            let p1 = observe_spec(p0, a).1;
            let p2 = observe_spec(p1, b).1;
            observe_spec(p2, c).1 == Phase::Done
        }),
{
}

} // verus!
