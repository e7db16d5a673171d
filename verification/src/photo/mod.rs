//! Photographs and the catalog of a scanned folder.

use vstd::prelude::*;
use crate::decimal::{parse_decimal, Decimal};
use crate::error::Failure;
use crate::session::{Session, SessionView};
use crate::text::{
    chars_eq_ignoring_ascii_case, chars_of, eq_ignoring_ascii_case, lemma_split_nonempty,
    pieces_view, split, split_chars,
};
use crate::utils::{extension_is, file_name_with, path_extension, path_has_extension, stem};
use self::tags::{exif_gps_tags, read_gps_tags, TagsFault};

pub mod tags;

verus! {

/// The two classes of photograph.
#[derive(Clone, Copy, Debug, PartialEq, Eq, Structural)]
pub enum PhotoType {
    /// Taken in visible light.
    Normal,
    /// Taken in infrared.
    Infrared,
}

impl Default for PhotoType {
    fn default() -> (class: Self)
        ensures
            class == PhotoType::Normal,
    {
        PhotoType::Normal
    }
}

/// A geotagged photograph: where it was taken, in degrees, its class, the
/// path of its file and the name under which the file is copied.
#[derive(Debug)]
pub struct Photo {
    pub longitude: Decimal,
    pub latitude: Decimal,
    pub photo_type: PhotoType,
    pub path: String,
    pub file_name: String,
}

/// What a photograph is, with its coordinates in billionths of a degree.
pub ghost struct PhotoView {
    pub longitude: int,
    pub latitude: int,
    pub photo_type: PhotoType,
    pub path: Seq<char>,
    pub file_name: Seq<char>,
}

/// What tells one photograph from another: class and position, not the file.
pub ghost struct PhotoKey {
    pub photo_type: PhotoType,
    pub longitude: int,
    pub latitude: int,
}

impl PhotoView {
    /// The key of a photograph.
    pub open spec fn key(self) -> PhotoKey {
        PhotoKey {
            photo_type: self.photo_type,
            longitude: self.longitude,
            latitude: self.latitude,
        }
    }
}

impl View for Photo {
    type V = PhotoView;

    open spec fn view(&self) -> PhotoView {
        PhotoView {
            longitude: self.longitude.nanos as int,
            latitude: self.latitude.nanos as int,
            photo_type: self.photo_type,
            path: self.path@,
            file_name: self.file_name@,
        }
    }
}

impl Clone for Photo {
    fn clone(&self) -> (copy: Self)
        ensures
            copy@ == self@,
    {
        Photo {
            longitude: self.longitude,
            latitude: self.latitude,
            photo_type: self.photo_type,
            path: self.path.clone(),
            file_name: self.file_name.clone(),
        }
    }
}

impl PartialEq for Photo {
    /// Two photographs are the same when class and position are, whatever
    /// their files.
    fn eq(&self, other: &Self) -> (same: bool) {
        self.photo_type == other.photo_type && self.longitude.nanos == other.longitude.nanos
            && self.latitude.nanos == other.latitude.nanos
    }
}

impl vstd::std_specs::cmp::PartialEqSpecImpl for Photo {
    open spec fn obeys_eq_spec() -> bool {
        true
    }

    open spec fn eq_spec(&self, other: &Self) -> bool {
        self@.key() == other@.key()
    }
}

impl Eq for Photo {

}

/// No two entries have the same key.
pub open spec fn distinct_keys(entries: Seq<PhotoView>) -> bool {
    forall|i: int, j: int|
        0 <= i < j < entries.len() ==> (#[trigger] entries[i]).key() != (#[trigger] entries[j]).key()
}

/// Whether some entry has the key.
pub open spec fn holds_key(entries: Seq<PhotoView>, key: PhotoKey) -> bool {
    exists|i: int| 0 <= i < entries.len() && (#[trigger] entries[i]).key() == key
}

/// The place of an entry that has the key.
pub open spec fn slot(entries: Seq<PhotoView>, key: PhotoKey) -> int {
    choose|i: int| 0 <= i < entries.len() && (#[trigger] entries[i]).key() == key
}

/// The entries after `photo` is put in: it takes the place of the entry with
/// its key, or stands last where there is none.
pub open spec fn inserted(entries: Seq<PhotoView>, photo: PhotoView) -> Seq<PhotoView> {
    if holds_key(entries, photo.key()) {
        entries.update(slot(entries, photo.key()), photo)
    } else {
        entries.push(photo)
    }
}

/// Putting a photograph in keeps the keys distinct.
pub proof fn lemma_inserted_distinct(entries: Seq<PhotoView>, photo: PhotoView)
    requires
        distinct_keys(entries),
    ensures
        distinct_keys(inserted(entries, photo)),
        holds_key(inserted(entries, photo), photo.key()),
        inserted(entries, photo).len() == if holds_key(entries, photo.key()) {
            entries.len()
        } else {
            entries.len() + 1
        },
{
    let after = inserted(entries, photo);
    if holds_key(entries, photo.key()) {
        let at = slot(entries, photo.key());
        assert forall|i: int, j: int| 0 <= i < j < after.len() implies (#[trigger] after[i]).key()
            != (#[trigger] after[j]).key() by {
            assert(after[i].key() == entries[i].key());
            assert(after[j].key() == entries[j].key());
        }
        assert(after[at].key() == photo.key());
    } else {
        assert forall|i: int, j: int| 0 <= i < j < after.len() implies (#[trigger] after[i]).key()
            != (#[trigger] after[j]).key() by {
            if j < entries.len() {
                assert(after[i] == entries[i] && after[j] == entries[j]);
            } else {
                assert(after[i] == entries[i]);
            }
        }
        assert(after[entries.len() as int].key() == photo.key());
    }
}

/// Of two photographs of one class and position, put in one after the
/// other, only the later one is there, in the place where the earlier one
/// was: the entries are what putting in the later one alone gives.
pub proof fn lemma_later_takes_the_place(
    entries: Seq<PhotoView>,
    earlier: PhotoView,
    later: PhotoView,
)
    requires
        distinct_keys(entries),
        earlier.key() == later.key(),
    ensures
        inserted(inserted(entries, earlier), later) == inserted(entries, later),
        inserted(inserted(entries, earlier), later).len() == inserted(entries, earlier).len(),
{
    let once = inserted(entries, earlier);
    let key = later.key();
    lemma_inserted_distinct(entries, earlier);
    let at = slot(once, key);
    assert(0 <= at < once.len() && once[at].key() == key);
    if holds_key(entries, key) {
        let first = slot(entries, key);
        assert(once[first].key() == key);
        if at < first {
            assert(once[at].key() != once[first].key());
        } else if first < at {
            assert(once[first].key() != once[at].key());
        }
        assert(once.update(at, later) =~= entries.update(first, later));
    } else {
        let last = entries.len() as int;
        assert(once[last].key() == key);
        if at < last {
            assert(once[at].key() != once[last].key());
        }
        assert(once.update(at, later) =~= entries.push(later));
    }
}

/// The photographs found in a folder, in the order in which they were first
/// met. No two entries have the same class and position: of two such
/// photographs the catalog keeps the one put in later, in the place of the
/// earlier one.
#[derive(Debug)]
pub struct Catalog {
    entries: Vec<Photo>,
}

impl View for Catalog {
    type V = Seq<PhotoView>;

    closed spec fn view(&self) -> Seq<PhotoView> {
        Seq::new(self.entries@.len(), |i: int| self.entries@[i]@)
    }
}

impl Catalog {
    #[verifier::type_invariant]
    spec fn valid(self) -> bool {
        distinct_keys(self@)
    }

    /// A catalog without entries.
    pub fn new() -> (catalog: Catalog)
        ensures
            catalog@ == Seq::<PhotoView>::empty(),
    {
        let catalog = Catalog { entries: Vec::new() };
        assert(catalog@ =~= Seq::<PhotoView>::empty());
        catalog
    }

    /// The keys of a catalog are distinct.
    pub fn keys_distinct(&self)
        ensures
            distinct_keys(self@),
    {
        proof {
            use_type_invariant(self);
        }
    }

    /// The number of entries.
    pub fn len(&self) -> (n: usize)
        ensures
            n == self@.len(),
    {
        self.entries.len()
    }

    /// Whether the catalog has no entry.
    pub fn is_empty(&self) -> (empty: bool)
        ensures
            empty == (self@.len() == 0),
    {
        self.entries.len() == 0
    }

    /// The entry at place `i`.
    pub fn get(&self, i: usize) -> (photo: &Photo)
        requires
            i < self@.len(),
        ensures
            photo@ == self@[i as int],
    {
        &self.entries[i]
    }

    /// The place of the entry with the key of `photo`, if there is one.
    pub fn find(&self, photo: &Photo) -> (place: Option<usize>)
        ensures
            place is Some == holds_key(self@, photo@.key()),
            place is Some ==> place->0 == slot(self@, photo@.key()) && place->0 < self@.len(),
    {
        proof {
            use_type_invariant(self);
        }
        let mut i: usize = 0;
        while i < self.entries.len()
            invariant
                i <= self.entries.len(),
                distinct_keys(self@),
                forall|j: int| 0 <= j < i ==> (#[trigger] self@[j]).key() != photo@.key(),
            decreases self.entries.len() - i,
        {
            if self.entries[i] == *photo {
                proof {
                    assert(self@[i as int].key() == photo@.key());
                    let at = slot(self@, photo@.key());
                    assert(0 <= at < self@.len() && self@[at].key() == photo@.key());
                    if at < i {
                        assert(self@[at].key() != self@[i as int].key());
                    } else if i < at {
                        assert(self@[i as int].key() != self@[at].key());
                    }
                }
                return Some(i);
            }
            i += 1;
        }
        None
    }

    /// Puts `photo` in: in the place of the entry with its class and
    /// position, or last where there is none.
    pub fn insert(&mut self, photo: Photo)
        ensures
            final(self)@ == inserted(old(self)@, photo@),
    {
        proof {
            use_type_invariant(&*self);
            lemma_inserted_distinct(self@, photo@);
        }
        match self.find(&photo) {
            Some(at) => {
                let mut entries: Vec<Photo> = Vec::new();
                std::mem::swap(&mut entries, &mut self.entries);
                assert(self@ =~= Seq::<PhotoView>::empty());
                let ghost before = Seq::new(entries@.len(), |i: int| entries@[i]@);
                entries.set(at, photo);
                assert(Seq::new(entries@.len(), |i: int| entries@[i]@) =~= before.update(
                    at as int,
                    photo@,
                ));
                self.entries = entries;
                assert(self@ =~= inserted(old(self)@, photo@));
            },
            None => {
                let mut entries: Vec<Photo> = Vec::new();
                std::mem::swap(&mut entries, &mut self.entries);
                assert(self@ =~= Seq::<PhotoView>::empty());
                let ghost before = Seq::new(entries@.len(), |i: int| entries@[i]@);
                entries.push(photo);
                assert(Seq::new(entries@.len(), |i: int| entries@[i]@) =~= before.push(photo@));
                self.entries = entries;
                assert(self@ =~= inserted(old(self)@, photo@));
            },
        }
    }
}

impl Clone for Catalog {
    fn clone(&self) -> (copy: Self)
        ensures
            copy@ == self@,
    {
        proof {
            use_type_invariant(self);
        }
        let mut entries: Vec<Photo> = Vec::new();
        let mut i: usize = 0;
        while i < self.entries.len()
            invariant
                i <= self.entries.len(),
                entries@.len() == i,
                forall|j: int| 0 <= j < i ==> entries@[j]@ == self.entries@[j]@,
            decreases self.entries.len() - i,
        {
            entries.push(self.entries[i].clone());
            i += 1;
        }
        assert(Seq::new(entries@.len(), |i: int| entries@[i]@) =~= self@);
        Catalog { entries }
    }
}

/// Whether `path` names a photograph: its extension is `jpg` in any case.
pub open spec fn is_photo_path(path: Seq<char>) -> bool {
    extension_is(path_extension(path), "jpg"@)
}

/// Whether `path` names a photograph: its extension is `jpg` in any case.
pub fn is_photo(path: &str) -> (fits: bool)
    ensures
        fits == is_photo_path(path@),
{
    path_has_extension(path, "jpg")
}

/// The class that a file name without directory and extension tells: the
/// part after its last underscore, or the whole name where it has none, is
/// `V` in either case for a normal photograph; anything else is infrared.
pub open spec fn class_of_name(name: Seq<char>) -> PhotoType {
    if eq_ignoring_ascii_case(split(name, '_').last(), "V"@) {
        PhotoType::Normal
    } else {
        PhotoType::Infrared
    }
}

/// The class of the photograph at `path`, on a platform whose paths are
/// separated by `separator`.
pub open spec fn photo_type_of(path: Seq<char>, separator: char) -> PhotoType {
    class_of_name(stem(path, separator))
}

/// The class that a file name without directory and extension tells.
pub fn class_of_file_name(name: &str) -> (class: PhotoType)
    ensures
        class == class_of_name(name@),
{
    let name = chars_of(name);
    let parts = split_chars(&name, '_');
    proof {
        lemma_split_nonempty(name@, '_');
    }
    let last = &parts[parts.len() - 1];
    assert(pieces_view(parts@).last() == last@);
    let wanted = chars_of("V");
    if chars_eq_ignoring_ascii_case(last, &wanted) {
        PhotoType::Normal
    } else {
        PhotoType::Infrared
    }
}

/// The class of the photograph at `path`, on a platform whose paths are
/// separated by `separator`.
pub fn get_photo_type(path: &str, separator: char) -> (class: PhotoType)
    ensures
        class == photo_type_of(path@, separator),
{
    let name = file_name_with(path, separator);
    class_of_file_name(name.as_str())
}

/// The two coordinates of a position.
#[derive(Clone, Copy, Debug, PartialEq, Eq, Structural)]
pub enum GpsAxis {
    Longitude,
    Latitude,
}

/// `n / d` rounded towards zero.
pub open spec fn quotient_towards_zero(n: int, d: int) -> int {
    if n >= 0 {
        n / d
    } else {
        -((-n) / d)
    }
}

/// The degrees, in billionths, that a GPS tag shows. The tag reads as six
/// words separated by single spaces, of which the first, third and fifth are
/// degrees, minutes and seconds in decimal text; a minute is a sixtieth of a
/// degree and a second a sixtieth of a minute. What is less than a billionth
/// of a degree is cut off.
pub open spec fn gps_degrees(display: Seq<char>) -> Result<int, Failure> {
    let words = split(display, ' ');
    if words.len() != 6 {
        Err(Failure::MalformedGps)
    } else if parse_decimal(words[0]) is None || parse_decimal(words[2]) is None
        || parse_decimal(words[4]) is None {
        Err(Failure::MalformedNumber)
    } else {
        let degrees = parse_decimal(words[0])->0;
        let minutes = parse_decimal(words[2])->0;
        let seconds = parse_decimal(words[4])->0;
        let value = quotient_towards_zero(degrees * 3600 + minutes * 60 + seconds, 3600);
        if i64::MIN <= value <= i64::MAX {
            Ok(value)
        } else {
            Err(Failure::MalformedNumber)
        }
    }
}

/// The degrees that a GPS tag shows.
pub fn convert_gps_field(display: &str) -> (r: Result<Decimal, Failure>)
    ensures
        match r {
            Ok(degrees) => gps_degrees(display@) == Ok::<int, Failure>(degrees.nanos as int),
            Err(error) => gps_degrees(display@) == Err::<int, Failure>(error),
        },
{
    let display = chars_of(display);
    let words = split_chars(&display, ' ');
    if words.len() != 6 {
        return Err(Failure::MalformedGps);
    }
    assert(pieces_view(words@)[0] == words@[0]@);
    assert(pieces_view(words@)[2] == words@[2]@);
    assert(pieces_view(words@)[4] == words@[4]@);
    let degrees = Decimal::parse_chars(&words[0]);
    let minutes = Decimal::parse_chars(&words[2]);
    let seconds = Decimal::parse_chars(&words[4]);
    match (degrees, minutes, seconds) {
        (Some(degrees), Some(minutes), Some(seconds)) => {
            let total: i128 = degrees.nanos as i128 * 3600 + minutes.nanos as i128 * 60
                + seconds.nanos as i128;
            let value: i128 = if total >= 0 {
                total / 3600
            } else {
                -((-total) / 3600)
            };
            if value < i64::MIN as i128 || value > i64::MAX as i128 {
                Err(Failure::MalformedNumber)
            } else {
                Ok(Decimal { nanos: value as i64 })
            }
        },
        _ => Err(Failure::MalformedNumber),
    }
}

/// The error for a tag that is not there.
pub open spec fn missing_tag(axis: GpsAxis) -> Failure {
    match axis {
        GpsAxis::Longitude => Failure::MissingGpsLongitude,
        GpsAxis::Latitude => Failure::MissingGpsLatitude,
    }
}

/// The degrees of one coordinate, from what its GPS tag shows, if the
/// photograph has the tag.
pub open spec fn gps_info(field: Option<Seq<char>>, axis: GpsAxis) -> Result<int, Failure> {
    match field {
        None => Err(missing_tag(axis)),
        Some(display) => gps_degrees(display),
    }
}

/// The view of a string that may be missing.
pub open spec fn option_text(text: Option<String>) -> Option<Seq<char>> {
    match text {
        Some(text) => Some(text@),
        None => None,
    }
}

/// The degrees of one coordinate, from what its GPS tag shows, if the
/// photograph has the tag.
pub fn get_gps_info(field: &Option<String>, axis: GpsAxis) -> (r: Result<Decimal, Failure>)
    ensures
        match r {
            Ok(degrees) => gps_info(option_text(*field), axis) == Ok::<int, Failure>(
                degrees.nanos as int,
            ),
            Err(error) => gps_info(option_text(*field), axis) == Err::<int, Failure>(error),
        },
{
    match field {
        Some(display) => convert_gps_field(display.as_str()),
        None => match axis {
            GpsAxis::Longitude => Err(Failure::MissingGpsLongitude),
            GpsAxis::Latitude => Err(Failure::MissingGpsLatitude),
        },
    }
}

/// The photograph at `path` whose GPS tags show `longitude` and `latitude`.
/// The longitude is read first, so where both are wrong the error is that of
/// the longitude. The file is copied under its name without directory and
/// extension, followed by `.JPG`.
pub open spec fn photo_of_tags(
    path: Seq<char>,
    longitude: Option<Seq<char>>,
    latitude: Option<Seq<char>>,
    separator: char,
) -> Result<PhotoView, Failure> {
    match gps_info(longitude, GpsAxis::Longitude) {
        Err(error) => Err(error),
        Ok(longitude) => match gps_info(latitude, GpsAxis::Latitude) {
            Err(error) => Err(error),
            Ok(latitude) => Ok(
                PhotoView {
                    longitude,
                    latitude,
                    photo_type: photo_type_of(path, separator),
                    path,
                    file_name: stem(path, separator) + ".JPG"@,
                },
            ),
        },
    }
}

/// The photograph at `path` whose GPS tags show `longitude` and `latitude`.
pub fn photo_from_tags(
    path: &str,
    longitude: &Option<String>,
    latitude: &Option<String>,
    separator: char,
) -> (r: Result<Photo, Failure>)
    ensures
        match r {
            Ok(photo) => photo_of_tags(
                path@,
                option_text(*longitude),
                option_text(*latitude),
                separator,
            ) == Ok::<PhotoView, Failure>(photo@),
            Err(error) => photo_of_tags(
                path@,
                option_text(*longitude),
                option_text(*latitude),
                separator,
            ) == Err::<PhotoView, Failure>(error),
        },
{
    let longitude = match get_gps_info(longitude, GpsAxis::Longitude) {
        Ok(longitude) => longitude,
        Err(error) => {
            return Err(error);
        },
    };
    let latitude = match get_gps_info(latitude, GpsAxis::Latitude) {
        Ok(latitude) => latitude,
        Err(error) => {
            return Err(error);
        },
    };
    let photo_type = get_photo_type(path, separator);
    let file_name = file_name_with(path, separator).concat(".JPG");
    Ok(Photo { longitude, latitude, photo_type, path: String::from_str(path), file_name })
}

/// The photograph in the image file `content` at `path`: what its GPS tags
/// give; an error where the file holds no Exif data, and another where it
/// cannot be read.
pub open spec fn photo_of_file(path: Seq<char>, content: Seq<u8>, separator: char) -> Result<
    PhotoView,
    Failure,
> {
    match exif_gps_tags(content) {
        Err(TagsFault::NoExif) => Err(Failure::MissingExif),
        Err(TagsFault::Unreadable) => Err(Failure::Unreadable),
        Ok((longitude, latitude)) => photo_of_tags(path, longitude, latitude, separator),
    }
}

/// The photograph in the image file `content` at `path`.
pub fn get_photo(path: &str, content: &[u8], separator: char) -> (r: Result<Photo, Failure>)
    ensures
        match r {
            Ok(photo) => photo_of_file(path@, content@, separator) == Ok::<PhotoView, Failure>(
                photo@,
            ),
            Err(error) => photo_of_file(path@, content@, separator) == Err::<PhotoView, Failure>(
                error,
            ),
        },
{
    match read_gps_tags(content) {
        Err(TagsFault::NoExif) => Err(Failure::MissingExif),
        Err(TagsFault::Unreadable) => Err(Failure::Unreadable),
        Ok((longitude, latitude)) => photo_from_tags(path, &longitude, &latitude, separator),
    }
}

/// An entry of a folder: its path, whether it is a regular file, and, for a
/// file that may be a photograph, what the file holds.
#[derive(Debug)]
pub struct FileEntry {
    pub path: String,
    pub is_file: bool,
    pub content: Vec<u8>,
}

/// What an entry of a folder is.
pub ghost struct FileEntryView {
    pub path: Seq<char>,
    pub is_file: bool,
    pub content: Seq<u8>,
}

impl View for FileEntry {
    type V = FileEntryView;

    open spec fn view(&self) -> FileEntryView {
        FileEntryView { path: self.path@, is_file: self.is_file, content: self.content@ }
    }
}

/// The views of a list of entries.
pub open spec fn entries_view(entries: Seq<FileEntry>) -> Seq<FileEntryView> {
    Seq::new(entries.len(), |i: int| entries[i]@)
}

/// A file that looked like a photograph and could not be taken as one.
#[derive(Debug)]
pub struct Skipped {
    pub path: String,
    pub error: Failure,
}

/// What a skipped file is.
pub ghost struct SkippedView {
    pub path: Seq<char>,
    pub error: Failure,
}

impl View for Skipped {
    type V = SkippedView;

    open spec fn view(&self) -> SkippedView {
        SkippedView { path: self.path@, error: self.error }
    }
}

/// The views of a list of failures.
pub open spec fn failures_view(failures: Seq<Skipped>) -> Seq<SkippedView> {
    Seq::new(failures.len(), |i: int| failures[i]@)
}

/// The outcome of scanning a folder: the photographs found and the files
/// skipped.
#[derive(Debug)]
pub struct ScanReport {
    pub photos: Catalog,
    pub failures: Vec<Skipped>,
}

/// What a scan gives.
pub ghost struct ScanView {
    pub photos: Seq<PhotoView>,
    pub failures: Seq<SkippedView>,
}

impl View for ScanReport {
    type V = ScanView;

    open spec fn view(&self) -> ScanView {
        ScanView { photos: self.photos@, failures: failures_view(self.failures@) }
    }
}

/// Whether an entry is looked at: it is a regular file whose extension is
/// `jpg`.
pub open spec fn is_candidate(entry: FileEntryView) -> bool {
    entry.is_file && is_photo_path(entry.path)
}

/// What scanning `entries` in their order gives. Every regular file with the
/// extension `jpg` is read. One that gives a photograph is put in the
/// catalog; one that does not is skipped and listed with its error, and the
/// scan goes on.
pub open spec fn scan(entries: Seq<FileEntryView>, separator: char) -> ScanView
    decreases entries.len(),
{
    if entries.len() == 0 {
        ScanView { photos: Seq::empty(), failures: Seq::empty() }
    } else {
        let before = scan(entries.drop_last(), separator);
        let entry = entries.last();
        if is_candidate(entry) {
            match photo_of_file(entry.path, entry.content, separator) {
                Ok(photo) => ScanView { photos: inserted(before.photos, photo), ..before },
                Err(error) => ScanView {
                    failures: before.failures.push(SkippedView { path: entry.path, error }),
                    ..before
                },
            }
        } else {
            before
        }
    }
}

/// Whether the entry at `path` is looked at by a scan, so that its content
/// is needed.
pub fn wants_content(path: &str, is_file: bool) -> (wanted: bool)
    ensures
        wanted == (is_file && is_photo_path(path@)),
{
    is_file && is_photo(path)
}

/// Scans the entries of a folder.
pub fn scan_entries(entries: &Vec<FileEntry>, separator: char) -> (report: ScanReport)
    ensures
        report@ == scan(entries_view(entries@), separator),
{
    let ghost all = entries_view(entries@);
    let mut photos = Catalog::new();
    let mut failures: Vec<Skipped> = Vec::new();
    let mut i: usize = 0;
    assert(all.take(0) =~= Seq::<FileEntryView>::empty());
    assert(failures_view(failures@) =~= Seq::<SkippedView>::empty());
    while i < entries.len()
        invariant
            i <= entries.len(),
            all == entries_view(entries@),
            photos@ == scan(all.take(i as int), separator).photos,
            failures_view(failures@) == scan(all.take(i as int), separator).failures,
        decreases entries.len() - i,
    {
        let entry = &entries[i];
        proof {
            let longer = all.take(i + 1);
            assert(longer.drop_last() =~= all.take(i as int));
            assert(longer.last() == entry@);
        }
        if entry.is_file && is_photo(entry.path.as_str()) {
            match get_photo(entry.path.as_str(), entry.content.as_slice(), separator) {
                Ok(photo) => {
                    photos.insert(photo);
                },
                Err(error) => {
                    let ghost before = failures_view(failures@);
                    let failure = Skipped { path: entry.path.clone(), error };
                    failures.push(failure);
                    assert(failures_view(failures@) =~= before.push(failure@));
                },
            }
        }
        i += 1;
    }
    assert(all.take(i as int) =~= all);
    ScanReport { photos, failures }
}

/// The session after the folder `path` with `entries` was scanned: catalog
/// and folder are new, the rest is as before.
pub open spec fn scanned(before: SessionView, path: Seq<char>, entries: Seq<FileEntryView>) -> SessionView {
    SessionView { photos: scan(entries, before.separator).photos, photos_path: path, ..before }
}

/// Scans the folder `path`, whose entries are `entries`: the catalog of the
/// session becomes that of the folder, whatever it held. Gives the
/// photographs found and the files skipped.
pub fn photo_list(session: &mut Session, path: &str, entries: &Vec<FileEntry>) -> (report:
    ScanReport)
    ensures
        report@ == scan(entries_view(entries@), old(session)@.separator),
        final(session)@ == scanned(old(session)@, path@, entries_view(entries@)),
{
    let report = scan_entries(entries, session.separator);
    session.photos = report.photos.clone();
    session.photos_path = String::from_str(path);
    report
}

/// Scans the folder `path`, whose entries are `entries`, into the session.
pub fn input_photos(session: &mut Session, path: &str, entries: &Vec<FileEntry>)
    ensures
        final(session)@ == scanned(old(session)@, path@, entries_view(entries@)),
{
    let _ = photo_list(session, path, entries);
}

} // verus!
