//! Dialog and menu rules shared by the game's windows.

use vstd::prelude::*;

use crate::text::{decimal, push_decimal};

verus! {

/// One line of a context menu.
#[derive(Debug, Clone, Copy)]
pub struct ContextMenuEntry {
    pub label: &'static str,
    pub enabled: bool,
}

impl ContextMenuEntry {
    pub fn new(label: &'static str, enabled: bool) -> (e: ContextMenuEntry)
        ensures
            e.label == label,
            e.enabled == enabled,
    {
        ContextMenuEntry { label, enabled }
    }
}

/// Which button of a dialog was pressed.
#[derive(Debug, Clone, Copy, PartialEq, Eq)]
pub enum DialogButtonId {
    /// The OK button.
    Okay,
    Cancel,
    Custom(&'static str),
}

/// A button of a dialog: what it reports and what it reads.
#[derive(Debug, Clone, Copy)]
pub struct DialogButton {
    pub id: DialogButtonId,
    pub label: &'static str,
}

impl DialogButton {
    pub fn ok() -> (b: DialogButton)
        ensures
            b.id == DialogButtonId::Okay,
            b.label@ == "Ok"@,
    {
        proof {
            reveal_strlit("Ok");
        }
        DialogButton { id: DialogButtonId::Okay, label: "Ok" }
    }

    pub fn cancel() -> (b: DialogButton)
        ensures
            b.id == DialogButtonId::Cancel,
            b.label@ == "Cancel"@,
    {
        proof {
            reveal_strlit("Cancel");
        }
        DialogButton { id: DialogButtonId::Cancel, label: "Cancel" }
    }

    pub fn custom(id: &'static str, label: &'static str) -> (b: DialogButton)
        ensures
            b.id == DialogButtonId::Custom(id),
            b.label == label,
    {
        DialogButton { id: DialogButtonId::Custom(id), label }
    }
}

/// What the keyboard needs to know of an open dialog: where it stands in the
/// stack, the button Enter presses (the first), and whether it has a Cancel.
#[derive(Debug, Clone, Copy)]
pub struct ModalDialogRoot {
    pub order: u64,
    pub default_button: Option<DialogButtonId>,
    pub has_cancel: bool,
}

impl ModalDialogRoot {
    /// The root of a dialog opened `order`-th with `buttons`.
    pub fn for_buttons(order: u64, buttons: &Vec<DialogButton>) -> (r: ModalDialogRoot)
        ensures
            r.order == order,
            r.default_button == if buttons@.len() > 0 {
                Some(buttons@[0].id)
            } else {
                None
            },
            r.has_cancel == exists|i: int| 0 <= i < buttons@.len() && #[trigger] buttons@[i].id == DialogButtonId::Cancel,
    {
        let default_button = if buttons.len() > 0 {
            Some(buttons[0].id)
        } else {
            None
        };
        let mut has_cancel = false;
        let mut i: usize = 0;
        while i < buttons.len()
            invariant
                i <= buttons@.len(),
                has_cancel == exists|j: int| 0 <= j < i && #[trigger] buttons@[j].id == DialogButtonId::Cancel,
            decreases buttons@.len() - i,
        {
            let is_cancel = match buttons[i].id {
                DialogButtonId::Cancel => true,
                _ => false,
            };
            if is_cancel {
                has_cancel = true;
            }
            proof {
                if is_cancel {
                    assert(buttons@[i as int].id == DialogButtonId::Cancel);
                }
            }
            i = i + 1;
        }
        ModalDialogRoot { order, default_button, has_cancel }
    }

    pub fn order(&self) -> (o: u64)
        ensures
            o == self.order,
    {
        self.order
    }
}

/// Hands out the stacking order of dialogs as they open, each above the last.
#[derive(Debug, Default)]
pub struct ModalOrder(pub u64);

impl ModalOrder {
    /// The next dialog's order.
    pub fn next(&mut self) -> (o: u64)
        requires
            old(self).0 < u64::MAX,
        ensures
            o == old(self).0 + 1,
            final(self).0 == o,
    {
        self.0 = self.0 + 1;
        self.0
    }
}

/// Whether `dialogs[i]` is the dialog on top: none stands higher, and of those
/// as high it comes last.
pub open spec fn top_dialog(dialogs: Seq<(u64, ModalDialogRoot)>, i: int) -> bool {
    &&& 0 <= i < dialogs.len()
    &&& forall|j: int| 0 <= j < dialogs.len() ==> (#[trigger] dialogs[j]).1.order <= dialogs[i].1.order
    &&& forall|j: int| i < j < dialogs.len() ==> (#[trigger] dialogs[j]).1.order < dialogs[i].1.order
}

/// The button Escape presses on a dialog: Cancel when it has one, else an Ok
/// that is its default, else none.
pub open spec fn escape_button(root: ModalDialogRoot) -> Option<DialogButtonId> {
    if root.has_cancel {
        Some(DialogButtonId::Cancel)
    } else if root.default_button == Some(DialogButtonId::Okay) {
        Some(DialogButtonId::Okay)
    } else {
        None
    }
}

/// What a key press does to the open dialogs: Escape presses the top dialog's
/// escape button; Enter, unless a text field has the focus, presses its default
/// button. Returns the dialog and the button pressed, if any.
pub fn modal_keyboard(dialogs: &Vec<(u64, ModalDialogRoot)>, escape: bool, enter: bool, text_focused: bool) -> (pressed:
    Option<(u64, DialogButtonId)>)
    ensures
        dialogs@.len() == 0 ==> pressed is None,
        dialogs@.len() > 0 ==> exists|i: int| #[trigger] top_dialog(dialogs@, i) && pressed == if escape {
            match escape_button(dialogs@[i].1) {
                Some(b) => Some((dialogs@[i].0, b)),
                None => None,
            }
        } else if enter && !text_focused {
            match dialogs@[i].1.default_button {
                Some(b) => Some((dialogs@[i].0, b)),
                None => None,
            }
        } else {
            None
        },
{
    if dialogs.len() == 0 {
        return None;
    }
    let mut top: usize = 0;
    let mut k: usize = 1;
    while k < dialogs.len()
        invariant
            dialogs@.len() > 0,
            top < k <= dialogs@.len(),
            forall|j: int| 0 <= j < k ==> (#[trigger] dialogs@[j]).1.order <= dialogs@[top as int].1.order,
            forall|j: int| top < j < k ==> (#[trigger] dialogs@[j]).1.order < dialogs@[top as int].1.order,
        decreases dialogs@.len() - k,
    {
        if dialogs[k].1.order >= dialogs[top].1.order {
            top = k;
        }
        k = k + 1;
    }
    let (entity, root) = dialogs[top];
    proof {
        assert(top_dialog(dialogs@, top as int));
    }
    if escape {
        let button = if root.has_cancel {
            Some(DialogButtonId::Cancel)
        } else {
            match root.default_button {
                Some(DialogButtonId::Okay) => Some(DialogButtonId::Okay),
                _ => None,
            }
        };
        match button {
            Some(b) => Some((entity, b)),
            None => None,
        }
    } else if enter && !text_focused {
        match root.default_button {
            Some(b) => Some((entity, b)),
            None => None,
        }
    } else {
        None
    }
}

/// The character row the arrow keys move the selection to: `delta` rows on,
/// held to the list; an empty list keeps row zero.
pub fn step_selection(selected: usize, delta: i32, len: usize) -> (next: usize)
    requires
        selected <= i32::MAX,
        len <= i32::MAX,
        i32::MIN <= selected + delta <= i32::MAX,
    ensures
        len == 0 ==> next == 0,
        len > 0 ==> next == if selected + delta < 0 {
            0
        } else if selected + delta > len - 1 {
            (len - 1) as int
        } else {
            selected + delta
        },
{
    if len == 0 {
        return 0;
    }
    let target: i64 = selected as i64 + delta as i64;
    if target < 0 {
        0
    } else if target > (len - 1) as i64 {
        len - 1
    } else {
        target as usize
    }
}


/// A character's row in the character list: its name, a dash, its level.
pub fn character_row_label(name: &str, level: u64) -> (s: String)
    ensures
        s@ == name@ + seq![' ', '\u{2014}', ' '] + decimal(level as nat),
{
    let mut s = String::new();
    s.append(name);
    s.append(" \u{2014} ");
    push_decimal(&mut s, level);
    proof {
        reveal_strlit(" \u{2014} ");
        assert(s@ =~= name@ + seq![' ', '\u{2014}', ' '] + decimal(level as nat));
    }
    s
}
} // verus!
