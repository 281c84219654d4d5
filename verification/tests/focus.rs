use gpuicn::focus::{Boundary, FocusCommand, ModalFocusState, PrepareAction, Traversal};

#[test]
fn modal_focus_enters_and_returns() {
    let mut state: ModalFocusState<u32> = ModalFocusState::new();
    assert!(matches!(state.prepare(true, Some(7), false), PrepareAction::FocusPopup));
    assert!(state.is_open());
    assert!(matches!(state.prepare(true, Some(9), true), PrepareAction::Nothing));
    assert!(matches!(state.prepare(false, Some(9), true), PrepareAction::Restore(7)));
    assert!(!state.is_open());
    // Focus moved elsewhere while open: closing leaves it there.
    state.prepare(true, Some(7), false);
    assert!(matches!(state.prepare(false, Some(3), false), PrepareAction::Nothing));
    // Nothing focused at close: focus returns.
    state.prepare(true, Some(7), false);
    assert!(matches!(state.prepare(false, None, false), PrepareAction::Restore(7)));
}

#[test]
fn forward_traversal_wraps_past_the_end_boundary() {
    let (mut traversal, first) = Traversal::begin(false, false);
    assert_eq!(first, vec![FocusCommand::Next]);
    let step = traversal.observe(Boundary::End);
    assert_eq!(step.commands, vec![FocusCommand::FocusStart, FocusCommand::Next]);
    assert!(!step.done);
    let step = traversal.observe(Boundary::Inside);
    assert!(step.commands.is_empty());
    assert!(step.done);
}

#[test]
fn forward_traversal_skips_the_start_boundary() {
    let (mut traversal, _) = Traversal::begin(false, false);
    let step = traversal.observe(Boundary::Start);
    assert_eq!(step.commands, vec![FocusCommand::Next]);
    let step = traversal.observe(Boundary::Inside);
    assert!(step.done);
}

#[test]
fn backward_traversal_enters_from_the_end_and_restores_when_stuck() {
    let (mut traversal, first) = Traversal::begin(true, true);
    assert_eq!(first, vec![FocusCommand::FocusEnd, FocusCommand::Previous]);
    let step = traversal.observe(Boundary::Start);
    assert_eq!(step.commands, vec![FocusCommand::FocusEnd, FocusCommand::Previous]);
    let step = traversal.observe(Boundary::End);
    assert_eq!(step.commands, vec![FocusCommand::RestoreStarting]);
    assert!(step.done);
}

/// The window's focus order while the modal is open: the control behind the
/// modal, the surface itself (not a tab stop), its start boundary, two inputs
/// and its end boundary.
const STOPS: [&str; 6] = ["outside", "popup", "start", "first", "last", "end"];

fn stop_after(at: usize, reverse: bool) -> usize {
    let n = STOPS.len();
    let mut i = at;
    loop {
        i = if reverse { (i + n - 1) % n } else { (i + 1) % n };
        if STOPS[i] != "popup" {
            return i;
        }
    }
}

fn boundary_of(at: usize) -> Boundary {
    match STOPS[at] {
        "start" => Boundary::Start,
        "end" => Boundary::End,
        _ => Boundary::Inside,
    }
}

/// Runs one Tab (or Shift-Tab) traversal as the host does, returning the new focus.
fn press_tab(focused: usize, reverse: bool) -> usize {
    let starting = focused;
    let mut at = focused;
    let (mut traversal, mut commands) = Traversal::begin(reverse, STOPS[at] == "popup");
    loop {
        for command in commands {
            at = match command {
                FocusCommand::Next => stop_after(at, false),
                FocusCommand::Previous => stop_after(at, true),
                FocusCommand::FocusStart => 2,
                FocusCommand::FocusEnd => 5,
                FocusCommand::RestoreStarting => starting,
            };
        }
        let step = traversal.observe(boundary_of(at));
        let finished = step.done;
        commands = step.commands;
        if finished {
            for command in commands {
                if command == FocusCommand::RestoreStarting {
                    at = starting;
                }
            }
            return at;
        }
    }
}

#[test]
fn modal_traps_tab_and_restores_focus() {
    let mut modal: ModalFocusState<usize> = ModalFocusState::new();
    let mut focused = 0;
    if let PrepareAction::FocusPopup = modal.prepare(true, Some(focused), false) {
        focused = 1;
    }
    for (reverse, first) in [(false, true), (false, false), (false, true), (true, false)] {
        focused = press_tab(focused, reverse);
        let expected = if first { "first" } else { "last" };
        assert_eq!(STOPS[focused], expected, "reverse={reverse}");
    }
    match modal.prepare(false, Some(focused), true) {
        PrepareAction::Restore(previous) => focused = previous,
        _ => panic!("closing with focus inside restores the opener"),
    }
    assert!(!modal.is_open());
    assert_eq!(STOPS[focused], "outside");
}
