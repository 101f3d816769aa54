//! Scrolling text blocks: one line of text that scrolls when it is wider than its block.
use vstd::prelude::*;
use crate::maths_utility::MinMax;
use crate::notification::Notification;
use crate::text_block::{image_variant, variant_for_images};

verus! {

/// The width bounds a scrolling text block takes for `notification`; see
/// [`image_variant`].
pub fn get_width<'a>(
    width: &'a MinMax,
    width_image_hint: &'a Option<MinMax>,
    width_image_app: &'a Option<MinMax>,
    width_image_both: &'a Option<MinMax>,
    notification: &Notification,
) -> (r: &'a MinMax)
    ensures
        *r == image_variant(
            *width,
            *width_image_hint,
            *width_image_app,
            *width_image_both,
            notification.has_app_image,
            notification.has_hint_image,
        ),
{
    variant_for_images(width, width_image_hint, width_image_app, width_image_both, notification)
}

} // verus!
