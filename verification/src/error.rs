//! What can go wrong, by kind and by cause.

use vstd::prelude::*;

verus! {

/// The four kinds of failure.
#[derive(Clone, Copy, Debug, PartialEq, Eq, Structural)]
pub enum ErrorKind {
    /// Malformed text where a number or a list of coordinates was expected.
    ParseError,
    /// A required sheet, cell, tag or record is missing.
    NotFoundError,
    /// The file's extension does not fit the operation.
    FormatError,
    /// The content of a file could not be read.
    IoError,
}

/// The cause of a failure.
#[derive(Clone, Copy, Debug, PartialEq, Eq, Structural)]
pub enum Failure {
    /// The radius is not decimal text.
    MalformedRadius,
    /// A numeric cell or coordinate is not decimal text.
    MalformedNumber,
    /// A `coordinates` element holds fewer than three values.
    MalformedCoordinates,
    /// A GPS tag does not read as degrees, minutes and seconds.
    MalformedGps,
    /// The workbook has no sheet.
    MissingSheet,
    /// A row has no name.
    MissingName,
    /// A row has no longitude.
    MissingLongitude,
    /// A row has no latitude.
    MissingLatitude,
    /// A row has no height.
    MissingHeight,
    /// The image file holds no Exif data.
    MissingExif,
    /// The photograph has no longitude tag.
    MissingGpsLongitude,
    /// The photograph has no latitude tag.
    MissingGpsLatitude,
    /// A placemark ends that never began.
    MissingStation,
    /// The file is not a KML file.
    NotKmlFile,
    /// The file is not an Excel file.
    NotExcelFile,
    /// The content could not be read as what it should be.
    Unreadable,
}

impl Failure {
    /// The kind of each cause.
    pub open spec fn spec_kind(self) -> ErrorKind {
        match self {
            Failure::MalformedRadius => ErrorKind::ParseError,
            Failure::MalformedNumber => ErrorKind::ParseError,
            Failure::MalformedCoordinates => ErrorKind::ParseError,
            Failure::MalformedGps => ErrorKind::ParseError,
            Failure::MissingSheet => ErrorKind::NotFoundError,
            Failure::MissingName => ErrorKind::NotFoundError,
            Failure::MissingLongitude => ErrorKind::NotFoundError,
            Failure::MissingLatitude => ErrorKind::NotFoundError,
            Failure::MissingHeight => ErrorKind::NotFoundError,
            Failure::MissingExif => ErrorKind::NotFoundError,
            Failure::MissingGpsLongitude => ErrorKind::NotFoundError,
            Failure::MissingGpsLatitude => ErrorKind::NotFoundError,
            Failure::MissingStation => ErrorKind::NotFoundError,
            Failure::NotKmlFile => ErrorKind::FormatError,
            Failure::NotExcelFile => ErrorKind::FormatError,
            Failure::Unreadable => ErrorKind::IoError,
        }
    }

    /// The message shown to the user for each cause.
    pub open spec fn spec_message(self) -> Seq<char> {
        match self {
            Failure::MalformedRadius => "invalid radius"@,
            Failure::MalformedNumber => "invalid number"@,
            Failure::MalformedCoordinates => "invalid coordinates"@,
            Failure::MalformedGps => "split len not eq 6"@,
            Failure::MissingSheet => "sheet1 not exist"@,
            Failure::MissingName => "name is null"@,
            Failure::MissingLongitude => "longitude is null"@,
            Failure::MissingLatitude => "latitude is null"@,
            Failure::MissingHeight => "height is null"@,
            Failure::MissingExif => "exif is null"@,
            Failure::MissingGpsLongitude => "get field [GPSLongitude] is null"@,
            Failure::MissingGpsLatitude => "get field [GPSLatitude] is null"@,
            Failure::MissingStation => "station is null"@,
            Failure::NotKmlFile => "not kml file"@,
            Failure::NotExcelFile => "not excel file"@,
            Failure::Unreadable => "unreadable content"@,
        }
    }

    /// The kind of this failure.
    pub fn kind(&self) -> (kind: ErrorKind)
        ensures
            kind == self.spec_kind(),
    {
        match self {
            Failure::MalformedRadius | Failure::MalformedNumber | Failure::MalformedCoordinates
            | Failure::MalformedGps => ErrorKind::ParseError,
            Failure::MissingSheet | Failure::MissingName | Failure::MissingLongitude
            | Failure::MissingLatitude | Failure::MissingHeight | Failure::MissingExif
            | Failure::MissingGpsLongitude
            | Failure::MissingGpsLatitude | Failure::MissingStation => ErrorKind::NotFoundError,
            Failure::NotKmlFile | Failure::NotExcelFile => ErrorKind::FormatError,
            Failure::Unreadable => ErrorKind::IoError,
        }
    }

    /// The message shown to the user.
    pub fn message(&self) -> (text: String)
        ensures
            text@ == self.spec_message(),
    {
        let text = match self {
            Failure::MalformedRadius => "invalid radius",
            Failure::MalformedNumber => "invalid number",
            Failure::MalformedCoordinates => "invalid coordinates",
            Failure::MalformedGps => "split len not eq 6",
            Failure::MissingSheet => "sheet1 not exist",
            Failure::MissingName => "name is null",
            Failure::MissingLongitude => "longitude is null",
            Failure::MissingLatitude => "latitude is null",
            Failure::MissingHeight => "height is null",
            Failure::MissingExif => "exif is null",
            Failure::MissingGpsLongitude => "get field [GPSLongitude] is null",
            Failure::MissingGpsLatitude => "get field [GPSLatitude] is null",
            Failure::MissingStation => "station is null",
            Failure::NotKmlFile => "not kml file",
            Failure::NotExcelFile => "not excel file",
            Failure::Unreadable => "unreadable content",
        };
        String::from_str(text)
    }
}

} // verus!
