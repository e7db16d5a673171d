use station_photos::decimal::Decimal;
use station_photos::error::{ErrorKind, Failure};
use station_photos::session::Session;
use station_photos::station::excel::{excel_to_json, station_from_row, stations_from_rows};
use station_photos::station::kml::{
    kml_to_excel, kml_to_json, kml_to_station_list, read_coordinates, sheet_of_stations,
    stations_from_markup, MarkupEvent,
};
use station_photos::station::{import_stations, Station, TreeNode};

fn station(name: &str, longitude: i64, latitude: i64, height: i64) -> Station {
    Station {
        name: name.to_string(),
        longitude: Decimal { nanos: longitude },
        latitude: Decimal { nanos: latitude },
        height: Decimal { nanos: height },
    }
}

fn row(cells: [&str; 4]) -> Vec<Option<String>> {
    cells.iter().map(|cell| Some(cell.to_string())).collect()
}

fn open(name: &str) -> MarkupEvent {
    MarkupEvent::Open(name.to_string())
}

fn close(name: &str) -> MarkupEvent {
    MarkupEvent::Close(name.to_string())
}

fn text(text: &str) -> MarkupEvent {
    MarkupEvent::Text(text.to_string())
}

fn placemark(name: &str, coordinates: &str) -> String {
    format!(
        "<Placemark><name>{}</name><Point><coordinates>{}</coordinates></Point></Placemark>",
        name, coordinates
    )
}

fn document(body: &str) -> Vec<u8> {
    format!(
        "<?xml version=\"1.0\" encoding=\"UTF-8\"?>\n<kml><Document>\n<name>line</name>\n{}\n</Document></kml>",
        body
    )
    .into_bytes()
}

fn labels(node: &TreeNode) -> Vec<(&str, &str)> {
    node.children
        .as_ref()
        .unwrap()
        .iter()
        .map(|leaf| {
            assert!(leaf.children.is_none());
            (leaf.key.as_str(), leaf.label.as_str())
        })
        .collect()
}

#[test]
fn every_placemark_of_a_document_gives_a_station() {
    let content = document(&format!(
        "{}\n<Folder>{}</Folder>",
        placemark("N1", "120.5,30.25,12.5"),
        placemark("N2", "-1,-2,-3")
    ));
    let stations = kml_to_station_list(&content).unwrap();
    assert_eq!(
        stations,
        vec![
            station("N1", 120_500_000_000, 30_250_000_000, 12_500_000_000),
            station("N2", -1_000_000_000, -2_000_000_000, -3_000_000_000),
        ]
    );
}

#[test]
fn a_document_without_placemarks_gives_no_station() {
    assert_eq!(kml_to_station_list(&document("")).unwrap(), Vec::new());
}

#[test]
fn a_placemark_without_a_point_stands_at_the_origin() {
    let content = document("<Placemark><name>bare</name></Placemark>");
    assert_eq!(kml_to_station_list(&content).unwrap(), vec![station("bare", 0, 0, 0)]);
}

#[test]
fn a_height_that_is_no_number_gives_up_the_document() {
    let content = document(&placemark("N1", "120,30,high"));
    assert_eq!(kml_to_station_list(&content).unwrap_err(), Failure::MalformedNumber);
    let content = document(&placemark("T1", "120.5,30.25,abc"));
    assert_eq!(kml_to_station_list(&content).unwrap_err(), Failure::MalformedNumber);
    assert_eq!(Failure::MalformedNumber.kind(), ErrorKind::ParseError);
    let content = document(&placemark("N1", "120,30,"));
    assert_eq!(kml_to_station_list(&content).unwrap_err(), Failure::MalformedNumber);
}

#[test]
fn a_longitude_or_latitude_that_is_no_number_gives_up_the_document() {
    let content = document(&format!("{}{}", placemark("N1", "1,2,3"), placemark("N2", "east,30,0")));
    assert_eq!(kml_to_station_list(&content).unwrap_err(), Failure::MalformedNumber);
    let content = document(&placemark("N1", "120,,0"));
    assert_eq!(kml_to_station_list(&content).unwrap_err(), Failure::MalformedNumber);
    let content = document(&placemark("N1", "\n120,30,0\n"));
    assert_eq!(kml_to_station_list(&content).unwrap_err(), Failure::MalformedNumber);
}

#[test]
fn coordinates_of_fewer_than_three_values_give_up_the_document() {
    let content = document(&placemark("N1", "120,30"));
    assert_eq!(kml_to_station_list(&content).unwrap_err(), Failure::MalformedCoordinates);
    let content = document(&placemark("N1", "120"));
    assert_eq!(kml_to_station_list(&content).unwrap_err(), Failure::MalformedCoordinates);
}

#[test]
fn coordinates_are_three_values_between_commas() {
    assert_eq!(
        read_coordinates("120.5,30.25,12.5"),
        Ok((
            Decimal { nanos: 120_500_000_000 },
            Decimal { nanos: 30_250_000_000 },
            Decimal { nanos: 12_500_000_000 }
        ))
    );
    assert_eq!(
        read_coordinates("1,2,3,4"),
        Ok((
            Decimal { nanos: 1_000_000_000 },
            Decimal { nanos: 2_000_000_000 },
            Decimal { nanos: 3_000_000_000 }
        ))
    );
    assert_eq!(read_coordinates("1,2,"), Err(Failure::MalformedNumber));
    assert_eq!(read_coordinates("1,2,up"), Err(Failure::MalformedNumber));
    assert_eq!(read_coordinates("1,2"), Err(Failure::MalformedCoordinates));
    assert_eq!(read_coordinates(""), Err(Failure::MalformedCoordinates));
    assert_eq!(read_coordinates("1,x,3"), Err(Failure::MalformedNumber));
    assert_eq!(read_coordinates("1 ,2,3"), Err(Failure::MalformedNumber));
}

#[test]
fn a_document_that_breaks_off_gives_the_stations_before_the_break() {
    let mut content = document(&placemark("N1", "1,2,3"));
    content.truncate(content.len() - "</Document></kml>".len());
    content.extend_from_slice(b"<Placemark><name>N2</name><Point><coordinates>4,5,6</coordinates></Poin");
    assert_eq!(
        kml_to_station_list(&content).unwrap(),
        vec![station("N1", 1_000_000_000, 2_000_000_000, 3_000_000_000)]
    );
    assert_eq!(kml_to_station_list(b"this is no markup").unwrap(), Vec::new());
    assert_eq!(kml_to_station_list(b"").unwrap(), Vec::new());
}

#[test]
fn names_outside_placemarks_are_passed_over() {
    let events = vec![
        MarkupEvent::Other,
        open("Document"),
        open("name"),
        text("the line"),
        close("name"),
        open("Point"),
        open("coordinates"),
        text("not even numbers"),
        close("coordinates"),
        close("Point"),
        open("Placemark"),
        open("name"),
        text("N1"),
        close("name"),
        open("description"),
        text("a tower"),
        close("description"),
        open("Point"),
        open("coordinates"),
        text("1,2,3"),
        close("coordinates"),
        close("Point"),
        close("Placemark"),
        close("Document"),
        MarkupEvent::Other,
    ];
    assert_eq!(
        stations_from_markup(&events).unwrap(),
        vec![station("N1", 1_000_000_000, 2_000_000_000, 3_000_000_000)]
    );
}

#[test]
fn reading_stops_at_a_fault() {
    let events = vec![
        open("Placemark"),
        open("name"),
        text("N1"),
        close("name"),
        close("Placemark"),
        MarkupEvent::Fault,
        open("Placemark"),
        close("Placemark"),
    ];
    assert_eq!(stations_from_markup(&events).unwrap(), vec![station("N1", 0, 0, 0)]);
}

#[test]
fn a_placemark_that_ends_and_never_began_is_an_error() {
    assert_eq!(stations_from_markup(&vec![close("Placemark")]).unwrap_err(), Failure::MissingStation);
    assert_eq!(stations_from_markup(&Vec::new()).unwrap(), Vec::new());
}

#[test]
fn a_station_that_is_not_begun_anew_keeps_what_it_had() {
    let events = vec![
        open("Placemark"),
        open("name"),
        text("N1"),
        close("name"),
        close("Placemark"),
        close("Placemark"),
    ];
    assert_eq!(
        stations_from_markup(&events).unwrap(),
        vec![station("N1", 0, 0, 0), station("N1", 0, 0, 0)]
    );
}

#[test]
fn a_kml_import_replaces_the_stations_and_shows_them() {
    let mut session = Session::with_separator('/');
    session.stations = vec![station("old", 0, 0, 0)];
    let content = document(&format!(
        "{}{}",
        placemark("N1", "120.5,30.25,12.5"),
        placemark("N2", "121,31,0")
    ));
    let nodes = kml_to_json(&mut session, "lines/east.kml", &content).unwrap();
    assert_eq!(
        session.stations,
        vec![
            station("N1", 120_500_000_000, 30_250_000_000, 12_500_000_000),
            station("N2", 121_000_000_000, 31_000_000_000, 0),
        ]
    );
    assert_eq!(nodes.len(), 1);
    assert_eq!(nodes[0].key, "east");
    assert_eq!(nodes[0].label, "east");
    let below = nodes[0].children.as_ref().unwrap();
    assert_eq!(below.len(), 2);
    assert_eq!(below[0].key, "N1");
    assert_eq!(below[0].label, "N1");
    assert_eq!(
        labels(&below[0]),
        vec![("longitude", "经度: 120.5"), ("latitude", "纬度: 30.25"), ("height", "高度: 12.5")]
    );
    assert_eq!(
        labels(&below[1]),
        vec![("longitude", "经度: 121"), ("latitude", "纬度: 31"), ("height", "高度: 0")]
    );
}

#[test]
fn an_import_that_fails_leaves_the_stations_as_they_were() {
    let mut session = Session::with_separator('/');
    session.stations = vec![station("old", 1, 2, 3)];
    let content = document(&placemark("N1", "1,2,3"));
    assert_eq!(kml_to_json(&mut session, "east.xlsx", &content).unwrap_err(), Failure::NotKmlFile);
    assert_eq!(kml_to_json(&mut session, "east", &content).unwrap_err(), Failure::NotKmlFile);
    let broken = document(&placemark("N1", "1,2"));
    assert_eq!(
        kml_to_json(&mut session, "east.kml", &broken).unwrap_err(),
        Failure::MalformedCoordinates
    );
    let rows = Some(vec![row(["name", "x", "y", "z"]), row(["N1", "1", "2", "3"])]);
    assert_eq!(excel_to_json(&mut session, "east.kml", &rows).unwrap_err(), Failure::NotExcelFile);
    assert_eq!(excel_to_json(&mut session, "east.xlsx", &None).unwrap_err(), Failure::MissingSheet);
    let bad = Some(vec![row(["name", "x", "y", "z"]), row(["N1", "one", "2", "3"])]);
    assert_eq!(excel_to_json(&mut session, "east.xlsx", &bad).unwrap_err(), Failure::MalformedNumber);
    assert_eq!(session.stations, vec![station("old", 1, 2, 3)]);
}

#[test]
fn a_sheet_gives_one_station_for_every_row_after_the_header() {
    let rows = vec![
        row(["杆塔编号", "经度", "纬度", "高度"]),
        row(["N1", "120.5", "30.25", "12.5"]),
        row(["N2", "121", "31", "0"]),
        row(["N3", "-0.000000001", "+5", ".5"]),
    ];
    assert_eq!(
        stations_from_rows(&rows).unwrap(),
        vec![
            station("N1", 120_500_000_000, 30_250_000_000, 12_500_000_000),
            station("N2", 121_000_000_000, 31_000_000_000, 0),
            station("N3", -1, 5_000_000_000, 500_000_000),
        ]
    );
    assert_eq!(stations_from_rows(&rows[..1].to_vec()).unwrap(), Vec::new());
    assert_eq!(stations_from_rows(&Vec::new()).unwrap(), Vec::new());
}

#[test]
fn the_header_is_never_read() {
    let rows = vec![vec![None], row(["N1", "1", "2", "3"])];
    assert_eq!(stations_from_rows(&rows).unwrap().len(), 1);
}

#[test]
fn a_row_with_a_missing_cell_is_refused() {
    let full = row(["N1", "1", "2", "3"]);
    for (cell, failure) in [
        (0, Failure::MissingName),
        (1, Failure::MissingLongitude),
        (2, Failure::MissingLatitude),
        (3, Failure::MissingHeight),
    ] {
        let mut holed = full.clone();
        holed[cell] = None;
        assert_eq!(station_from_row(&holed).unwrap_err(), failure);
        assert_eq!(station_from_row(&full[..cell].to_vec()).unwrap_err(), failure);
    }
    assert_eq!(station_from_row(&vec![None, None, None, None]).unwrap_err(), Failure::MissingName);
    assert_eq!(
        station_from_row(&vec![Some("N1".to_string()), Some("x".to_string()), None, None])
            .unwrap_err(),
        Failure::MissingLatitude
    );
}

#[test]
fn a_row_with_a_cell_that_is_no_number_is_refused() {
    assert_eq!(station_from_row(&row(["N1", "x", "2", "3"])).unwrap_err(), Failure::MalformedNumber);
    assert_eq!(station_from_row(&row(["N1", "1", "", "3"])).unwrap_err(), Failure::MalformedNumber);
    assert_eq!(station_from_row(&row(["N1", "1", "2", "3m"])).unwrap_err(), Failure::MalformedNumber);
    assert_eq!(station_from_row(&row(["", "1", "2", "3"])).unwrap(), station("", 1_000_000_000, 2_000_000_000, 3_000_000_000));
}

#[test]
fn the_first_row_that_is_refused_gives_the_error() {
    let rows = vec![
        row(["name", "x", "y", "z"]),
        row(["N1", "1", "2", "3"]),
        vec![Some("N2".to_string()), None, None, None],
        row(["N3", "x", "2", "3"]),
    ];
    assert_eq!(stations_from_rows(&rows).unwrap_err(), Failure::MissingLongitude);
}

#[test]
fn an_excel_import_replaces_the_stations_and_shows_them() {
    let mut session = Session::with_separator('/');
    let rows = Some(vec![row(["name", "x", "y", "z"]), row(["N1", "120.5", "30.25", "12.5"])]);
    let nodes = excel_to_json(&mut session, "lines/east.XLSX", &rows).unwrap();
    assert_eq!(session.stations, vec![station("N1", 120_500_000_000, 30_250_000_000, 12_500_000_000)]);
    assert_eq!(nodes.len(), 1);
    assert_eq!(nodes[0].key, "east");
    let below = nodes[0].children.as_ref().unwrap();
    assert_eq!(below.len(), 1);
    assert_eq!(
        labels(&below[0]),
        vec![("longitude", "经度: 120.5"), ("latitude", "纬度: 30.25"), ("height", "高度: 12.5")]
    );
}

#[test]
fn the_sheet_of_a_kml_file_has_a_header_and_a_row_for_every_station() {
    let session = Session::with_separator('/');
    let content = document(&format!(
        "{}{}",
        placemark("N1", "120.5,30.25,12.5"),
        placemark("N2", "-121,31,0")
    ));
    let sheet = kml_to_excel(&session, "lines/east.kml", &content).unwrap();
    assert_eq!(sheet.file_name, "east.xlsx");
    assert_eq!(
        sheet.rows,
        vec![
            vec!["杆塔编号", "经度", "纬度", "高度"],
            vec!["N1", "120.5", "30.25", "12.5"],
            vec!["N2", "-121", "31", "0"],
        ]
    );
    assert_eq!(kml_to_excel(&session, "east.txt", &content).unwrap_err(), Failure::NotKmlFile);
    let broken = document(&placemark("N1", "x,2,3"));
    assert_eq!(kml_to_excel(&session, "east.kml", &broken).unwrap_err(), Failure::MalformedNumber);
}

#[test]
fn a_sheet_that_was_written_reads_back_as_the_same_stations() {
    let stations = vec![
        station("N1", 120_000_000_500, -30_250_000_000, 12_500_000_000),
        station("", i64::MAX, i64::MIN, 0),
        station("N3", 1, -1, 999_999_999),
    ];
    let sheet = sheet_of_stations("east.kml", '/', &stations);
    assert_eq!(sheet.rows.len(), stations.len() + 1);
    let rows: Vec<Vec<Option<String>>> =
        sheet.rows.iter().map(|row| row.iter().map(|cell| Some(cell.clone())).collect()).collect();
    assert_eq!(stations_from_rows(&rows).unwrap(), stations);
}

#[test]
fn stations_are_shown_under_the_name_of_their_file() {
    let mut session = Session::with_separator('\\');
    let nodes = import_stations(&mut session, "C:\\lines\\east.kml", vec![station("N1", 1, 2, 3)]);
    assert_eq!(nodes[0].key, "east");
    assert_eq!(session.stations.len(), 1);
    let shown = TreeNode::from_station(&station("N1", -500_000_000, 0, 1));
    assert_eq!(shown.key, "N1");
    assert_eq!(
        labels(&shown),
        vec![("longitude", "经度: -0.5"), ("latitude", "纬度: 0"), ("height", "高度: 0.000000001")]
    );
    let turned = TreeNode::from(station("N2", 1_500_000_000, -2_000_000_000, 0));
    assert_eq!(turned.key, "N2");
    assert_eq!(turned.label, "N2");
    assert_eq!(
        labels(&turned),
        vec![("longitude", "经度: 1.5"), ("latitude", "纬度: -2"), ("height", "高度: 0")]
    );
    let nodes = import_stations(&mut session, "none.kml", Vec::new());
    assert_eq!(nodes[0].key, "none");
    assert_eq!(nodes[0].children.as_ref().unwrap().len(), 0);
    assert!(session.stations.is_empty());
}

#[test]
fn stations_are_the_same_when_all_four_fields_are() {
    assert!(station("N1", 1, 2, 3) == station("N1", 1, 2, 3));
    assert!(station("N1", 1, 2, 3) != station("N2", 1, 2, 3));
    assert!(station("N1", 1, 2, 3) != station("N1", 0, 2, 3));
    assert!(station("N1", 1, 2, 3) != station("N1", 1, 0, 3));
    assert!(station("N1", 1, 2, 3) != station("N1", 1, 2, 0));
    assert!(Station::default() == station("", 0, 0, 0));
    assert!(station("N1", 1, 2, 3).clone() == station("N1", 1, 2, 3));
}
