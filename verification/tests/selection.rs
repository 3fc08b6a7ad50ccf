//! Selections: what the host does with them, and the data that goes to it.

use emskin::selection::{
    ClipboardEvent, OutgoingPipe, PipeRead, PipeStep, SelectionCall, SelectionOrigin,
    SelectionState, SelectionTarget,
};

fn offer(types: &[&str]) -> ClipboardEvent {
    ClipboardEvent::HostSelectionChanged {
        target: SelectionTarget::Clipboard,
        mime_types: types.iter().map(|t| t.to_string()).collect(),
    }
}

#[test]
fn what_the_host_copies_is_offered_to_both_kinds_of_clients() {
    let mut state = SelectionState::new();
    let response = state.handle_clipboard_event(offer(&["text/plain"]), true);
    let types = vec!["text/plain".to_string()];
    assert_eq!(
        response.calls,
        [
            SelectionCall::SetX11(SelectionTarget::Clipboard, Some(types.clone())),
            SelectionCall::SetWayland(SelectionTarget::Clipboard, types.clone()),
        ]
    );
    assert!(!response.flush && response.read_pipe.is_none());
    assert_eq!(state.host_clipboard_mimes, types);
    assert_eq!(state.clipboard_origin, SelectionOrigin::Host);
    assert_eq!(state.primary_origin, SelectionOrigin::Wayland);

    let response = state.handle_clipboard_event(offer(&[]), true);
    assert_eq!(
        response.calls,
        [
            SelectionCall::ClearWayland(SelectionTarget::Clipboard),
            SelectionCall::SetX11(SelectionTarget::Clipboard, None),
        ]
    );
    assert_eq!(state.clipboard_origin, SelectionOrigin::Host);
    let response = state.handle_clipboard_event(offer(&[]), false);
    assert_eq!(response.calls, [SelectionCall::ClearWayland(SelectionTarget::Clipboard)]);
}

#[test]
fn a_paste_on_the_host_asks_the_owner() {
    let mut state = SelectionState::new();
    let target = SelectionTarget::Primary;
    let request = |piped| ClipboardEvent::HostSendRequest { id: 9, target, piped };
    let response = state.handle_clipboard_event(request(true), false);
    assert_eq!(response.calls, [SelectionCall::RequestWayland(target)]);
    assert!(response.flush);
    assert_eq!(response.read_pipe, Some(9));

    state.x11_new_selection(target, vec!["text/plain".to_string()], false, false);
    let response = state.handle_clipboard_event(request(false), true);
    assert_eq!(response.calls, [SelectionCall::RequestX11(target)]);
    assert_eq!(response.read_pipe, None);
    let response = state.handle_clipboard_event(request(false), false);
    assert_eq!(response.calls, [SelectionCall::Close]);

    let response = state.handle_clipboard_event(ClipboardEvent::SourceCancelled { target }, true);
    assert!(response.calls.is_empty() && !response.flush);
    assert_eq!(state.primary_origin, SelectionOrigin::Wayland);
}

#[test]
fn a_pipe_answers_its_request_with_all_that_was_read() {
    let mut pipe = OutgoingPipe::new(4);
    assert_eq!(pipe.read(PipeRead::Data(b"ab")), PipeStep::ReadOn);
    assert_eq!(pipe.read(PipeRead::NotReady), PipeStep::Wait);
    assert_eq!(pipe.read(PipeRead::Data(b"c")), PipeStep::ReadOn);
    assert_eq!(pipe.read(PipeRead::End), PipeStep::Complete { id: 4, data: b"abc".to_vec() });
    assert!(pipe.data.is_empty());
}

#[test]
fn a_pipe_that_fails_gives_nothing() {
    let mut pipe = OutgoingPipe::new(4);
    pipe.read(PipeRead::Data(b"ab"));
    assert_eq!(pipe.read(PipeRead::Failed), PipeStep::Drop);
    assert_eq!(OutgoingPipe::new(5).refused(), PipeStep::Complete { id: 5, data: Vec::new() });
}

#[test]
fn pastes_ask_the_host_until_a_client_copies() {
    let mut state = SelectionState::new();
    let target = SelectionTarget::Clipboard;
    state.handle_clipboard_event(offer(&[]), true);
    assert_eq!(state.clipboard_origin, SelectionOrigin::Wayland);
    state.handle_clipboard_event(offer(&["text/plain"]), true);
    assert_eq!(state.x11_send_selection(target, true), SelectionCall::RequestHost(target));
    assert_eq!(state.host_send_request(target, true), SelectionCall::Close);
    state.wayland_new_selection(target);
    assert_eq!(state.x11_send_selection(target, true), SelectionCall::RequestWayland(target));
    assert_eq!(state.host_send_request(target, true), SelectionCall::RequestWayland(target));
}
