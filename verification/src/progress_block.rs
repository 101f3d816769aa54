//! Progress blocks: a bar filled to the notification's `value` hint.
use vstd::prelude::*;

verus! {

/// The fill colour of a progress bar: the hovered one when the bar is hovered and a hovered
/// background colour is configured, and the plain one otherwise. The hovered fill colour
/// must then be configured too.
pub fn fill_color<'a, T>(hover: bool, fill: &'a T, fill_hovered: &'a Option<T>, background_hovered_set: bool) -> (r:
    &'a T)
    requires
        hover && background_hovered_set ==> fill_hovered is Some,
    ensures
        *r == (if hover && background_hovered_set {
            fill_hovered->0
        } else {
            *fill
        }),
{
    if hover && background_hovered_set {
        match fill_hovered {
            Some(c) => c,
            None => fill,
        }
    } else {
        fill
    }
}

} // verus!
