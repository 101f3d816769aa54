//! Image blocks: the application's icon or the image that came with the notification.
use vstd::prelude::*;

verus! {

/// Which image an image block shows: the application's, the hint's, or one and, without
/// it, the other.
#[derive(Debug, Clone, Copy, PartialEq, Eq, Structural)]
pub enum ImageType {
    App,
    Hint,
    AppThenHint,
    HintThenApp,
}

/// How an image is scaled.
#[derive(Debug, Clone, Copy, PartialEq, Eq, Structural)]
pub enum FilterMode {
    Nearest,
    Triangle,
    CatmullRom,
    Gaussian,
    Lanczos3,
}

/// One of the two images a notification may have.
#[derive(Debug, Clone, Copy, PartialEq, Eq, Structural)]
pub enum ImageSource {
    App,
    Hint,
}

/// The image that an image block of type `image_type` shows, given which images the
/// notification has.
pub open spec fn image_choice(image_type: ImageType, has_app: bool, has_hint: bool) -> Option<
    ImageSource,
> {
    match image_type {
        ImageType::App => if has_app {
            Some(ImageSource::App)
        } else {
            None
        },
        ImageType::Hint => if has_hint {
            Some(ImageSource::Hint)
        } else {
            None
        },
        ImageType::AppThenHint => if has_app {
            Some(ImageSource::App)
        } else if has_hint {
            Some(ImageSource::Hint)
        } else {
            None
        },
        ImageType::HintThenApp => if has_hint {
            Some(ImageSource::Hint)
        } else if has_app {
            Some(ImageSource::App)
        } else {
            None
        },
    }
}

/// The image that an image block of type `image_type` shows; see [`image_choice`].
pub fn pick_image(image_type: ImageType, has_app: bool, has_hint: bool) -> (r: Option<ImageSource>)
    ensures
        r == image_choice(image_type, has_app, has_hint),
{
    match image_type {
        ImageType::App => if has_app {
            Some(ImageSource::App)
        } else {
            None
        },
        ImageType::Hint => if has_hint {
            Some(ImageSource::Hint)
        } else {
            None
        },
        ImageType::AppThenHint => if has_app {
            Some(ImageSource::App)
        } else if has_hint {
            Some(ImageSource::Hint)
        } else {
            None
        },
        ImageType::HintThenApp => if has_hint {
            Some(ImageSource::Hint)
        } else if has_app {
            Some(ImageSource::App)
        } else {
            None
        },
    }
}

} // verus!
