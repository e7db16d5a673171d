use station_photos::error::{ErrorKind, Failure};
use station_photos::session::Session;
use station_photos::utils::{
    file_name, file_name_with, has_extension, is_excel_file, is_kml_file, platform_separator,
};

#[test]
fn kml_files_are_known_by_their_extension() {
    assert!(is_kml_file("line.kml"));
    assert!(is_kml_file("line.KML"));
    assert!(is_kml_file("some/dir/line.Kml"));
    assert!(!is_kml_file("line.kml.txt"));
    assert!(!is_kml_file("line.xlsx"));
    assert!(!is_kml_file("kml"));
    assert!(!is_kml_file(".kml"));
    assert!(!is_kml_file(""));
}

#[test]
fn excel_files_are_known_by_their_extension() {
    assert!(is_excel_file("line.xlsx"));
    assert!(is_excel_file("line.XLSX"));
    assert!(!is_excel_file("line.xls"));
    assert!(!is_excel_file("line.kml"));
    assert!(!is_excel_file("xlsx"));
}

#[test]
fn an_extension_fits_in_any_case() {
    assert!(has_extension(&Some("JpG".to_string()), "jpg"));
    assert!(!has_extension(&Some("jpeg".to_string()), "jpg"));
    assert!(!has_extension(&Some("jp".to_string()), "jpg"));
    assert!(!has_extension(&None, "jpg"));
    assert!(has_extension(&Some(String::new()), ""));
}

#[test]
fn the_name_of_a_file_has_no_directory_and_no_extension() {
    assert_eq!(file_name_with("a/b/line.kml", '/'), "line");
    assert_eq!(file_name_with("line.kml", '/'), "line");
    assert_eq!(file_name_with("a/b/line.tar.gz", '/'), "line");
    assert_eq!(file_name_with("a/b/line", '/'), "line");
    assert_eq!(file_name_with("a/b/", '/'), "");
    assert_eq!(file_name_with("a.b/line", '/'), "line");
    assert_eq!(file_name_with("C:\\Users\\me\\line.kml", '\\'), "line");
    assert_eq!(file_name_with("C:\\Users\\me\\line.kml", '/'), "C:\\Users\\me\\line");
    assert_eq!(file_name_with("", '/'), "");
}

#[test]
fn the_name_of_a_file_goes_by_the_separator_of_the_platform() {
    let path = format!("a{}b{}line.kml", std::path::MAIN_SEPARATOR, std::path::MAIN_SEPARATOR);
    assert_eq!(file_name(&path), "line");
    assert_eq!(file_name("line.kml"), "line");
}

#[test]
fn the_separator_is_that_of_the_platform() {
    assert_eq!(platform_separator(), std::path::MAIN_SEPARATOR);
    assert!(platform_separator() == '/' || platform_separator() == '\\');
    let session = Session::new();
    assert_eq!(session.separator, std::path::MAIN_SEPARATOR);
    assert!(session.stations.is_empty());
    assert!(session.photos.is_empty());
    assert_eq!(session.photos_path, "");
    assert_eq!(session.belong_map.len(), 0);
}

#[test]
fn every_failure_has_its_kind() {
    assert_eq!(Failure::MalformedRadius.kind(), ErrorKind::ParseError);
    assert_eq!(Failure::MalformedNumber.kind(), ErrorKind::ParseError);
    assert_eq!(Failure::MalformedCoordinates.kind(), ErrorKind::ParseError);
    assert_eq!(Failure::MalformedGps.kind(), ErrorKind::ParseError);
    assert_eq!(Failure::MissingSheet.kind(), ErrorKind::NotFoundError);
    assert_eq!(Failure::MissingName.kind(), ErrorKind::NotFoundError);
    assert_eq!(Failure::MissingLongitude.kind(), ErrorKind::NotFoundError);
    assert_eq!(Failure::MissingLatitude.kind(), ErrorKind::NotFoundError);
    assert_eq!(Failure::MissingHeight.kind(), ErrorKind::NotFoundError);
    assert_eq!(Failure::MissingExif.kind(), ErrorKind::NotFoundError);
    assert_eq!(Failure::MissingGpsLongitude.kind(), ErrorKind::NotFoundError);
    assert_eq!(Failure::MissingGpsLatitude.kind(), ErrorKind::NotFoundError);
    assert_eq!(Failure::MissingStation.kind(), ErrorKind::NotFoundError);
    assert_eq!(Failure::NotKmlFile.kind(), ErrorKind::FormatError);
    assert_eq!(Failure::NotExcelFile.kind(), ErrorKind::FormatError);
    assert_eq!(Failure::Unreadable.kind(), ErrorKind::IoError);
}

#[test]
fn every_failure_has_its_message() {
    assert_eq!(Failure::NotKmlFile.message(), "not kml file");
    assert_eq!(Failure::NotExcelFile.message(), "not excel file");
    assert_eq!(Failure::MissingSheet.message(), "sheet1 not exist");
    assert_eq!(Failure::MissingName.message(), "name is null");
    assert_eq!(Failure::MissingLongitude.message(), "longitude is null");
    assert_eq!(Failure::MissingLatitude.message(), "latitude is null");
    assert_eq!(Failure::MissingHeight.message(), "height is null");
    assert_eq!(Failure::MalformedGps.message(), "split len not eq 6");
    assert_eq!(Failure::MissingStation.message(), "station is null");
    assert_eq!(Failure::MissingExif.message(), "exif is null");
    assert_eq!(Failure::MissingGpsLongitude.message(), "get field [GPSLongitude] is null");
    assert_eq!(Failure::MissingGpsLatitude.message(), "get field [GPSLatitude] is null");
    assert_eq!(Failure::MalformedRadius.message(), "invalid radius");
    assert_eq!(Failure::MalformedNumber.message(), "invalid number");
    assert_eq!(Failure::MalformedCoordinates.message(), "invalid coordinates");
    assert_eq!(Failure::Unreadable.message(), "unreadable content");
}
