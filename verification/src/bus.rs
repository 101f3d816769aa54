//! What the daemon answers on the notification bus about itself, and how it numbers the
//! notifications it receives.
use vstd::prelude::*;
use crate::chars::{chars_of, string_from_chars};
use crate::notification::{fetch_id, IdCounter};

verus! {

/// The notification server as the bus sees it.
#[derive(Copy, Clone, Default, Debug)]
pub struct BusNotification;

/// The optional features of the notification specification that the daemon supports.
pub open spec fn capabilities() -> Seq<Seq<char>> {
    seq![
        seq!['a', 'c', 't', 'i', 'o', 'n', 's'],
        seq!['b', 'o', 'd', 'y'],
        seq!['b', 'o', 'd', 'y', '-', 'h', 'y', 'p', 'e', 'r', 'l', 'i', 'n', 'k', 's'],
        seq!['b', 'o', 'd', 'y', '-', 'm', 'a', 'r', 'k', 'u', 'p'],
        seq!['i', 'c', 'o', 'n', '-', 's', 't', 'a', 't', 'i', 'c'],
    ]
}

/// The version of the notification specification that the daemon follows.
pub open spec fn spec_version() -> Seq<char> {
    seq!['1', '.', '2']
}

impl BusNotification {
    /// The optional features the daemon supports; see [`capabilities`].
    pub fn get_capabilities(&self) -> (r: Vec<String>)
        ensures
            r@.map_values(|s: String| s@) == capabilities(),
    {
        let mut r: Vec<String> = Vec::new();
        r.push(string_from_chars(&vec!['a', 'c', 't', 'i', 'o', 'n', 's']));
        r.push(string_from_chars(&vec!['b', 'o', 'd', 'y']));
        r.push(
            string_from_chars(
                &vec!['b', 'o', 'd', 'y', '-', 'h', 'y', 'p', 'e', 'r', 'l', 'i', 'n', 'k', 's'],
            ),
        );
        r.push(string_from_chars(&vec!['b', 'o', 'd', 'y', '-', 'm', 'a', 'r', 'k', 'u', 'p']));
        r.push(string_from_chars(&vec!['i', 'c', 'o', 'n', '-', 's', 't', 'a', 't', 'i', 'c']));
        assert(r@.map_values(|s: String| s@) =~= capabilities());
        r
    }

    /// The server's name, vendor, version and the version of the specification it follows.
    pub fn get_server_information(&self, name: &str, vendor: &str, version: &str) -> (r: (
        String,
        String,
        String,
        String,
    ))
        ensures
            r.0@ == name@,
            r.1@ == vendor@,
            r.2@ == version@,
            r.3@ == spec_version(),
    {
        (
            string_from_chars(&chars_of(name)),
            string_from_chars(&chars_of(vendor)),
            string_from_chars(&chars_of(version)),
            string_from_chars(&vec!['1', '.', '2']),
        )
    }
}

/// The identifier a notification that arrives with `replaces_id` gets: a fresh one from
/// `counter` when `replaces_id` is 0, and `replaces_id` otherwise.
pub fn notification_id(counter: &mut IdCounter, replaces_id: u32) -> (id: u32)
    ensures
        replaces_id == 0 ==> id == old(counter).next_id() && final(counter).next_id() == (if id
            == u32::MAX {
            0
        } else {
            (id + 1) as u32
        }),
        replaces_id != 0 ==> id == replaces_id && final(counter).next_id() == old(counter).next_id(),
{
    if replaces_id == 0 {
        fetch_id(counter)
    } else {
        replaces_id
    }
}

/// The hint that a notification's hint image is taken from.
#[derive(Debug, Clone, Copy, PartialEq, Eq, Structural)]
pub enum HintImageSource {
    /// `image-data`: raw pixel data.
    ImageData,
    /// `image_data`: the same, under its older name.
    ImageDataOld,
    /// `image-path`: a file path or an icon name.
    ImagePath,
    /// `image_path`: the same, under its older name.
    ImagePathOld,
    /// `icon_data`: raw pixel data, under the oldest name.
    IconData,
}

/// The source of the hint image, the notification protocol's ranking being `image-data`,
/// `image_data`, `image-path`, `image_path`, `icon_data`: the first of them that is present.
/// Only that one is used, even if it turns out to hold no usable image.
pub open spec fn hint_source_of(
    image_data: bool,
    image_data_old: bool,
    image_path: bool,
    image_path_old: bool,
    icon_data: bool,
) -> Option<HintImageSource> {
    if image_data {
        Some(HintImageSource::ImageData)
    } else if image_data_old {
        Some(HintImageSource::ImageDataOld)
    } else if image_path {
        Some(HintImageSource::ImagePath)
    } else if image_path_old {
        Some(HintImageSource::ImagePathOld)
    } else if icon_data {
        Some(HintImageSource::IconData)
    } else {
        None
    }
}

/// Which hint the hint image comes from, given which of the five are present; see
/// [`hint_source_of`].
pub fn hint_image_source(
    image_data: bool,
    image_data_old: bool,
    image_path: bool,
    image_path_old: bool,
    icon_data: bool,
) -> (r: Option<HintImageSource>)
    ensures
        r == hint_source_of(image_data, image_data_old, image_path, image_path_old, icon_data),
{
    if image_data {
        Some(HintImageSource::ImageData)
    } else if image_data_old {
        Some(HintImageSource::ImageDataOld)
    } else if image_path {
        Some(HintImageSource::ImagePath)
    } else if image_path_old {
        Some(HintImageSource::ImagePathOld)
    } else if icon_data {
        Some(HintImageSource::IconData)
    } else {
        None
    }
}

} // verus!
