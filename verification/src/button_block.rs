//! Button blocks: a labelled button that invokes one action of the notification.
use vstd::prelude::*;
use crate::maths_utility::{
    count_times, format_action_notification_string, format_pieces, format_string_safe, render,
    MinMax,
};
use crate::notification::{default_key, first_key_at, has_key, other_entries, ActionEntry, Notification};

verus! {

/// The smallest and largest width and height of a button, in pixels.
#[derive(Debug, Clone, Copy, PartialEq, Eq, Structural)]
pub struct Dimensions {
    pub width: MinMax,
    pub height: MinMax,
}

/// The action a button invokes: the default action, or the `n`-th other action (from 0).
#[derive(Debug, Clone, Copy, PartialEq, Eq, Structural)]
pub enum Action {
    DefaultAction,
    OtherAction(usize),
}

/// The action entry (key, label) that button action `action` names in entries `m`, if
/// there is one.
pub open spec fn button_entry(m: Seq<ActionEntry>, action: Action) -> Option<ActionEntry> {
    match action {
        Action::DefaultAction => if has_key(m, default_key()) {
            Some(m[choose|j: int| first_key_at(m, default_key(), j)])
        } else {
            None
        },
        Action::OtherAction(i) => if i < other_entries(m).len() {
            Some(other_entries(m)[i as int])
        } else {
            None
        },
    }
}

/// The action (key, label) that `action` names in `notification`, if there is one.
pub fn action_of(action: &Action, notification: &Notification) -> (r: Option<(String, String)>)
    ensures
        r matches Some(p) ==> button_entry(notification.action_entries(), *action) == Some(
            (p.0@, p.1@),
        ),
        r is None ==> button_entry(notification.action_entries(), *action) is None,
{
    let ghost m = notification.action_entries();
    match action {
        Action::DefaultAction => {
            let r = notification.get_default_action();
            proof {
                if r is Some {
                    let j = choose|j: int| first_key_at(m, default_key(), j);
                    let p = r->0;
                    let j2 = choose|j2: int|
                        first_key_at(m, default_key(), j2) && (p.0@, p.1@) == m[j2];
                    assert(j == j2) by {
                        if j < j2 {
                            assert(m[j].0 != default_key());
                        } else if j2 < j {
                            assert(m[j2].0 != default_key());
                        }
                    }
                }
            }
            r
        },
        Action::OtherAction(i) => notification.get_other_action(*i),
    }
}

/// The key a button remembers and the text it shows: the key and the label of the action
/// that `action` names (both empty without one), and `template` filled in for
/// `notification` with that label as the action name (see [`render`]). The arrival time is
/// written in the machine's local time zone; for each `%t` part the text holds some text.
pub fn button_key_and_text(action: &Action, template: &str, notification: &Notification) -> (r: (
    String,
    String,
))
    requires
        format_string_safe(template@),
    ensures
        r.0@ == (match button_entry(notification.action_entries(), *action) {
            Some(e) => e.0,
            None => Seq::empty(),
        }),
        exists|times: Seq<Seq<char>>|
            times.len() == count_times(format_pieces(template@)) && r.1@ == render(
                format_pieces(template@),
                match button_entry(notification.action_entries(), *action) {
                    Some(e) => e.1,
                    None => Seq::<char>::empty(),
                },
                *notification,
                times,
            ),
{
    let (key, label) = match action_of(action, notification) {
        Some(p) => p,
        None => (String::new(), String::new()),
    };
    let text = format_action_notification_string(template, label.as_str(), notification);
    (key, text)
}

/// The hovered variant when the block is hovered and has one, and otherwise the plain one.
pub fn pick_hovered<'a, T>(hover: bool, plain: &'a T, hovered: &'a Option<T>) -> (r: &'a T)
    ensures
        r == (if hover && hovered is Some {
            hovered->0
        } else {
            *plain
        }),
{
    if hover {
        match hovered {
            Some(h) => h,
            None => plain,
        }
    } else {
        plain
    }
}

} // verus!
