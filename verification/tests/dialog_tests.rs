use nanai_multifall::game::dialog::{exit_dialog_decision, DialogAction};

#[test]
fn escape_toggles_the_dialog() {
    assert_eq!(
        exit_dialog_decision(false, true, false, false, false, false),
        DialogAction::Open
    );
    assert_eq!(
        exit_dialog_decision(true, true, false, false, false, false),
        DialogAction::Close
    );
}

#[test]
fn quit_key_opens_but_never_closes() {
    assert_eq!(
        exit_dialog_decision(false, false, true, false, false, false),
        DialogAction::Open
    );
    assert_eq!(
        exit_dialog_decision(true, false, true, false, false, false),
        DialogAction::Stay
    );
}

#[test]
fn buttons_open_close_and_confirm() {
    assert_eq!(
        exit_dialog_decision(false, false, false, true, false, false),
        DialogAction::Open
    );
    assert_eq!(
        exit_dialog_decision(true, false, false, false, false, true),
        DialogAction::Close
    );
    assert_eq!(
        exit_dialog_decision(false, false, false, false, false, true),
        DialogAction::Stay
    );
    assert_eq!(
        exit_dialog_decision(true, true, false, false, true, false),
        DialogAction::Exit
    );
}

#[test]
fn open_request_wins_over_cancel_while_closed() {
    assert_eq!(
        exit_dialog_decision(false, false, true, false, false, true),
        DialogAction::Open
    );
    assert_eq!(
        exit_dialog_decision(false, false, false, false, false, false),
        DialogAction::Stay
    );
}
