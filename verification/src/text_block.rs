//! Text blocks: text from a format string, sized by the images the notification has.
use vstd::prelude::*;
use crate::maths_utility::MinMax;
use crate::notification::Notification;

verus! {

/// The smallest and largest width and height of a text block, in pixels.
#[derive(Debug, Clone, Copy, PartialEq, Eq, Structural)]
pub struct Dimensions {
    pub width: MinMax,
    pub height: MinMax,
}

/// Which of four variants of a setting applies to a notification: the one for both images,
/// for an application image only, or for a hint image only, when given; otherwise `plain`.
pub open spec fn image_variant<T>(
    plain: T,
    image_hint: Option<T>,
    image_app: Option<T>,
    image_both: Option<T>,
    has_app_image: bool,
    has_hint_image: bool,
) -> T {
    let v = if has_app_image && has_hint_image {
        image_both
    } else if has_app_image {
        image_app
    } else if has_hint_image {
        image_hint
    } else {
        None
    };
    match v {
        Some(x) => x,
        None => plain,
    }
}

/// The variant of a setting that applies to `notification`; see [`image_variant`].
pub fn variant_for_images<'a, T>(
    plain: &'a T,
    image_hint: &'a Option<T>,
    image_app: &'a Option<T>,
    image_both: &'a Option<T>,
    notification: &Notification,
) -> (r: &'a T)
    ensures
        *r == image_variant(
            *plain,
            *image_hint,
            *image_app,
            *image_both,
            notification.has_app_image,
            notification.has_hint_image,
        ),
{
    let v = if notification.has_app_image && notification.has_hint_image {
        image_both
    } else if notification.has_app_image {
        image_app
    } else if notification.has_hint_image {
        image_hint
    } else {
        return plain;
    };
    match v {
        Some(x) => x,
        None => plain,
    }
}

/// The dimensions a text block takes for `notification`; see [`image_variant`].
pub fn get_dimensions<'a>(
    dimensions: &'a Dimensions,
    dimensions_image_hint: &'a Option<Dimensions>,
    dimensions_image_app: &'a Option<Dimensions>,
    dimensions_image_both: &'a Option<Dimensions>,
    notification: &Notification,
) -> (r: &'a Dimensions)
    ensures
        *r == image_variant(
            *dimensions,
            *dimensions_image_hint,
            *dimensions_image_app,
            *dimensions_image_both,
            notification.has_app_image,
            notification.has_hint_image,
        ),
{
    variant_for_images(
        dimensions,
        dimensions_image_hint,
        dimensions_image_app,
        dimensions_image_both,
        notification,
    )
}

} // verus!
