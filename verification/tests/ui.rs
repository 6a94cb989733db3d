use rustibia::ui::{
    modal_keyboard, step_selection, ContextMenuEntry, DialogButton, DialogButtonId,
    ModalDialogRoot, ModalOrder,
};

#[test]
fn steps_down() {
    assert_eq!(step_selection(0, 1, 3), 1);
}

#[test]
fn clamps_at_top() {
    assert_eq!(step_selection(0, -1, 3), 0);
}

#[test]
fn clamps_at_bottom() {
    assert_eq!(step_selection(2, 1, 3), 2);
}

#[test]
fn empty_list_stays_zero() {
    assert_eq!(step_selection(0, 1, 0), 0);
}

#[test]
fn clamps_out_of_range_selection() {
    assert_eq!(step_selection(5, 1, 3), 2);
}

fn ok_cancel(order: u64) -> ModalDialogRoot {
    ModalDialogRoot::for_buttons(order, &vec![DialogButton::ok(), DialogButton::cancel()])
}

fn ok_only(order: u64) -> ModalDialogRoot {
    ModalDialogRoot::for_buttons(order, &vec![DialogButton::ok()])
}

#[test]
fn a_dialog_opened_later_stacks_above() {
    let mut order = ModalOrder::default();
    let first = order.next();
    let second = order.next();
    assert!(first < second);
    assert_eq!((first, second), (1, 2));
}

#[test]
fn escape_cancels_the_topmost_dialog() {
    let dialogs = vec![(10, ok_cancel(2)), (11, ok_cancel(5)), (12, ok_cancel(3))];

    assert_eq!(
        modal_keyboard(&dialogs, true, false, false),
        Some((11, DialogButtonId::Cancel))
    );
}

#[test]
fn escape_on_a_dialog_without_cancel_presses_its_ok() {
    let dialogs = vec![(7, ok_only(1))];

    assert_eq!(
        modal_keyboard(&dialogs, true, false, false),
        Some((7, DialogButtonId::Okay))
    );
}

#[test]
fn escape_on_a_dialog_with_only_a_custom_button_does_nothing() {
    let root = ModalDialogRoot::for_buttons(1, &vec![DialogButton::custom("clear", "Clear")]);

    assert_eq!(modal_keyboard(&vec![(7, root)], true, false, false), None);
    assert_eq!(
        modal_keyboard(&vec![(7, root)], false, true, false),
        Some((7, DialogButtonId::Custom("clear")))
    );
}

#[test]
fn enter_presses_the_default_button_unless_typing() {
    let dialogs = vec![(3, ok_cancel(1))];

    assert_eq!(
        modal_keyboard(&dialogs, false, true, false),
        Some((3, DialogButtonId::Okay))
    );
    assert_eq!(modal_keyboard(&dialogs, false, true, true), None);
    assert_eq!(modal_keyboard(&dialogs, false, false, false), None);
}

#[test]
fn no_dialog_takes_no_key() {
    assert_eq!(modal_keyboard(&Vec::new(), true, true, false), None);
}

#[test]
fn of_two_dialogs_on_one_level_the_later_is_on_top() {
    let dialogs = vec![(1, ok_cancel(4)), (2, ok_cancel(4))];

    assert_eq!(
        modal_keyboard(&dialogs, true, false, false),
        Some((2, DialogButtonId::Cancel))
    );
}

#[test]
fn a_menu_entry_keeps_its_label_and_state() {
    let entry = ContextMenuEntry::new("Look", false);
    assert_eq!(entry.label, "Look");
    assert!(!entry.enabled);
}
