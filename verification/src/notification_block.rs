//! The notification block: the window's background and border, whose colour shows whether
//! the notification is paused and how urgent it is.
use vstd::prelude::*;
use crate::manager::UpdateModes;
use crate::notification::Urgency;

verus! {

/// The border colour: the paused one (when given) while the window does not update
/// everything, and otherwise the one for the urgency (low and critical when given).
pub open spec fn border_choice<T>(
    update_mode: UpdateModes,
    urgency: Urgency,
    border: T,
    border_low: Option<T>,
    border_critical: Option<T>,
    border_paused: Option<T>,
) -> T {
    let pick = |o: Option<T>|
        match o {
            Some(c) => c,
            None => border,
        };
    if !(update_mode.draw && update_mode.fuse) {
        pick(border_paused)
    } else {
        match urgency {
            Urgency::Low => pick(border_low),
            Urgency::Normal => border,
            Urgency::Critical => pick(border_critical),
        }
    }
}

fn or_plain<'a, T>(o: &'a Option<T>, plain: &'a T) -> (r: &'a T)
    ensures
        *r == (match *o {
            Some(c) => c,
            None => *plain,
        }),
{
    match o {
        Some(c) => c,
        None => plain,
    }
}

/// The border colour of a window; see [`border_choice`].
pub fn border_color<'a, T>(
    update_mode: UpdateModes,
    urgency: Urgency,
    border: &'a T,
    border_low: &'a Option<T>,
    border_critical: &'a Option<T>,
    border_paused: &'a Option<T>,
) -> (r: &'a T)
    ensures
        *r == border_choice(update_mode, urgency, *border, *border_low, *border_critical, *border_paused),
{
    if !(update_mode.draw && update_mode.fuse) {
        or_plain(border_paused, border)
    } else {
        match urgency {
            Urgency::Low => or_plain(border_low, border),
            Urgency::Normal => border,
            Urgency::Critical => or_plain(border_critical, border),
        }
    }
}

/// Records the window's update modes; returns whether they changed since last recorded,
/// in which case the block must be drawn again.
pub fn track_update_mode(current: &mut UpdateModes, window_mode: UpdateModes) -> (changed: bool)
    ensures
        changed == (*old(current) != window_mode),
        *final(current) == window_mode,
{
    if current.draw != window_mode.draw || current.fuse != window_mode.fuse {
        *current = window_mode;
        true
    } else {
        false
    }
}

} // verus!
