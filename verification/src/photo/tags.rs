//! The GPS tags of an image file, as the `exif` crate reads them.

use vstd::prelude::*;
use crate::photo::option_text;

verus! {

/// Why the `exif` crate gave no Exif data for a file.
#[derive(Clone, Copy, Debug, PartialEq, Eq, Structural)]
pub enum TagsFault {
    /// The file is an image that holds no Exif data.
    NoExif,
    /// The file could not be read as an image with Exif data.
    Unreadable,
}

/// What the `exif` crate finds in the image file `content`: what it shows of
/// the longitude tag and of the latitude tag of the primary image, each only
/// if the tag is there; or, where it gives no Exif data, whether its error is
/// `NotFound` or another.
pub uninterp spec fn exif_gps_tags(content: Seq<u8>) -> Result<
    (Option<Seq<char>>, Option<Seq<char>>),
    TagsFault,
>;

/// Reads the Exif data of an image file with `exif::Reader::read_from_container`,
/// looks up the tags `GPSLongitude` and `GPSLatitude` of the primary image with
/// `Exif::get_field`, and shows each with `Value::display_as`. Of the crate's
/// errors it tells `NotFound` from the others. The contract gives the outcome
/// its name, [`exif_gps_tags`], and claims no more of it.
#[verifier::external_body]
pub(crate) fn read_gps_tags(content: &[u8]) -> (tags: Result<
    (Option<String>, Option<String>),
    TagsFault,
>)
    ensures
        match tags {
            Ok(found) => exif_gps_tags(content@) == Ok::<
                (Option<Seq<char>>, Option<Seq<char>>),
                TagsFault,
            >((option_text(found.0), option_text(found.1))),
            Err(fault) => exif_gps_tags(content@) == Err::<
                (Option<Seq<char>>, Option<Seq<char>>),
                TagsFault,
            >(fault),
        },
{
    let data = match exif::Reader::new().read_from_container(&mut std::io::Cursor::new(content)) {
        Ok(data) => data,
        Err(exif::Error::NotFound(_)) => return Err(TagsFault::NoExif),
        Err(_) => return Err(TagsFault::Unreadable),
    };
    let longitude = data.get_field(exif::Tag::GPSLongitude, exif::In::PRIMARY);
    let latitude = data.get_field(exif::Tag::GPSLatitude, exif::In::PRIMARY);
    Ok(
        (
            longitude.map(|f| f.value.display_as(exif::Tag::GPSLongitude).to_string()),
            latitude.map(|f| f.value.display_as(exif::Tag::GPSLatitude).to_string()),
        ),
    )
}

} // verus!
