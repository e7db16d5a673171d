//! Stations from a KML document.
//!
//! A document is read as a run of markup events. Every `Placemark` element
//! gives one station: its `name` element holds the name, and the
//! `coordinates` element inside its `Point` holds longitude, latitude and
//! height, separated by commas.

use vstd::prelude::*;
use crate::decimal::{parse_decimal, Decimal};
use crate::error::Failure;
use crate::decimal::decimal_text;
use crate::session::{Session, SessionView};
use crate::station::{
    forest_outcome, import_stations, imported, stations_view, Station, StationView, TreeNode,
};
use crate::text::{chars_of, pieces_view, same_text, split, split_chars};
use crate::utils::{extension_is, file_name_with, is_kml_file, path_extension, stem};

verus! {

/// One event met while reading markup: an element opens or closes, text
/// stands between tags, something else goes by, or the reading fails.
#[derive(Debug)]
pub enum MarkupEvent {
    /// An element with this local name opens.
    Open(String),
    /// An element with this local name closes.
    Close(String),
    /// Character data that is not only white space.
    Text(String),
    /// Anything else: declarations, comments, white space, the end.
    Other,
    /// The document is malformed from here on.
    Fault,
}

/// What a markup event is.
pub ghost enum MarkupView {
    Open(Seq<char>),
    Close(Seq<char>),
    Text(Seq<char>),
    Other,
    Fault,
}

impl View for MarkupEvent {
    type V = MarkupView;

    open spec fn view(&self) -> MarkupView {
        match self {
            MarkupEvent::Open(name) => MarkupView::Open(name@),
            MarkupEvent::Close(name) => MarkupView::Close(name@),
            MarkupEvent::Text(text) => MarkupView::Text(text@),
            MarkupEvent::Other => MarkupView::Other,
            MarkupEvent::Fault => MarkupView::Fault,
        }
    }
}

/// The views of a list of events.
pub open spec fn events_view(events: Seq<MarkupEvent>) -> Seq<MarkupView> {
    Seq::new(events.len(), |i: int| events[i]@)
}

/// The state of reading a KML document: the stations finished so far, the
/// station last begun, and which of the four elements the reader is inside.
pub ghost struct KmlState {
    pub stations: Seq<StationView>,
    pub station: Option<StationView>,
    pub in_placemark: bool,
    pub in_name: bool,
    pub in_point: bool,
    pub in_coordinates: bool,
}

/// The state before the first event.
pub open spec fn kml_start() -> KmlState {
    KmlState {
        stations: Seq::empty(),
        station: None,
        in_placemark: false,
        in_name: false,
        in_point: false,
        in_coordinates: false,
    }
}

/// A station without a name, at the origin.
pub open spec fn blank_station() -> StationView {
    StationView { name: Seq::empty(), longitude: 0, latitude: 0, height: 0 }
}

/// The station with the position that `text` gives: longitude, latitude and
/// height, separated by commas. All three must be decimal text. What follows
/// a third comma is ignored.
pub open spec fn with_coordinates(station: StationView, text: Seq<char>) -> Result<
    StationView,
    Failure,
> {
    let parts = split(text, ',');
    if parts.len() < 3 {
        Err(Failure::MalformedCoordinates)
    } else if parse_decimal(parts[0]) is None || parse_decimal(parts[1]) is None
        || parse_decimal(parts[2]) is None {
        Err(Failure::MalformedNumber)
    } else {
        Ok(
            StationView {
                name: station.name,
                longitude: parse_decimal(parts[0])->0,
                latitude: parse_decimal(parts[1])->0,
                height: parse_decimal(parts[2])->0,
            },
        )
    }
}

/// The state after an element opens. A placemark begins a blank station;
/// `name` and `Point` count inside a placemark, `coordinates` inside a point.
pub open spec fn kml_open(state: KmlState, name: Seq<char>) -> KmlState {
    if name == "Placemark"@ {
        KmlState { in_placemark: true, station: Some(blank_station()), ..state }
    } else if name == "name"@ && state.in_placemark {
        KmlState { in_name: true, ..state }
    } else if name == "Point"@ && state.in_placemark {
        KmlState { in_point: true, ..state }
    } else if name == "coordinates"@ && state.in_point {
        KmlState { in_coordinates: true, ..state }
    } else {
        state
    }
}

/// The state after text. Inside a name it becomes the station's name;
/// otherwise, inside coordinates, it gives the station's position.
pub open spec fn kml_text(state: KmlState, text: Seq<char>) -> Result<KmlState, Failure> {
    match state.station {
        None => Ok(state),
        Some(station) => if state.in_name {
            Ok(KmlState { station: Some(StationView { name: text, ..station }), ..state })
        } else if state.in_coordinates {
            match with_coordinates(station, text) {
                Ok(placed) => Ok(KmlState { station: Some(placed), ..state }),
                Err(error) => Err(error),
            }
        } else {
            Ok(state)
        },
    }
}

/// The state after an element closes. The end of a placemark adds the station
/// to those finished; it is an error where no placemark ever began.
pub open spec fn kml_close(state: KmlState, name: Seq<char>) -> Result<KmlState, Failure> {
    if name == "Placemark"@ {
        match state.station {
            None => Err(Failure::MissingStation),
            Some(station) => Ok(
                KmlState {
                    in_placemark: false,
                    stations: state.stations.push(station),
                    ..state
                },
            ),
        }
    } else if name == "name"@ && state.in_placemark {
        Ok(KmlState { in_name: false, ..state })
    } else if name == "Point"@ && state.in_placemark {
        Ok(KmlState { in_point: false, ..state })
    } else if name == "coordinates"@ && state.in_point {
        Ok(KmlState { in_coordinates: false, ..state })
    } else {
        Ok(state)
    }
}

/// The state after one event that is not a fault.
pub open spec fn kml_step(state: KmlState, event: MarkupView) -> Result<KmlState, Failure> {
    match event {
        MarkupView::Open(name) => Ok(kml_open(state, name)),
        MarkupView::Text(text) => kml_text(state, text),
        MarkupView::Close(name) => kml_close(state, name),
        MarkupView::Other => Ok(state),
        MarkupView::Fault => Ok(state),
    }
}

/// The stations that reading `events` from `state` gives. Reading ends with
/// the events or at the first fault, and what was finished until then
/// stands; an error in a placemark gives up the whole document.
pub open spec fn kml_run(state: KmlState, events: Seq<MarkupView>) -> Result<
    Seq<StationView>,
    Failure,
>
    decreases events.len(),
{
    if events.len() == 0 || events[0] is Fault {
        Ok(state.stations)
    } else {
        match kml_step(state, events[0]) {
            Err(error) => Err(error),
            Ok(next) => kml_run(next, events.skip(1)),
        }
    }
}

/// The stations of a document read as `events`.
pub open spec fn kml_stations(events: Seq<MarkupView>) -> Result<Seq<StationView>, Failure> {
    kml_run(kml_start(), events)
}

/// A reader of KML events.
struct KmlReader {
    stations: Vec<Station>,
    station: Station,
    begun: bool,
    in_placemark: bool,
    in_name: bool,
    in_point: bool,
    in_coordinates: bool,
}

impl KmlReader {
    spec fn state(&self) -> KmlState {
        KmlState {
            stations: stations_view(self.stations@),
            station: if self.begun {
                Some(self.station@)
            } else {
                None
            },
            in_placemark: self.in_placemark,
            in_name: self.in_name,
            in_point: self.in_point,
            in_coordinates: self.in_coordinates,
        }
    }

    fn open(&mut self, name: &str)
        ensures
            final(self).state() == kml_open(old(self).state(), name@),
    {
        if same_text(name, "Placemark") {
            self.in_placemark = true;
            self.station = Station::default();
            self.begun = true;
        } else if same_text(name, "name") && self.in_placemark {
            self.in_name = true;
        } else if same_text(name, "Point") && self.in_placemark {
            self.in_point = true;
        } else if same_text(name, "coordinates") && self.in_point {
            self.in_coordinates = true;
        }
    }

    fn text(&mut self, text: &str) -> (r: Result<(), Failure>)
        ensures
            match r {
                Ok(_) => kml_text(old(self).state(), text@) == Ok::<KmlState, Failure>(
                    final(self).state(),
                ),
                Err(error) => kml_text(old(self).state(), text@) == Err::<KmlState, Failure>(error),
            },
    {
        if !self.begun {
            return Ok(());
        }
        if self.in_name {
            self.station.name = String::from_str(text);
        } else if self.in_coordinates {
            let (longitude, latitude, height) = read_coordinates(text)?;
            self.station.longitude = longitude;
            self.station.latitude = latitude;
            self.station.height = height;
        }
        Ok(())
    }

    fn close(&mut self, name: &str) -> (r: Result<(), Failure>)
        ensures
            match r {
                Ok(_) => kml_close(old(self).state(), name@) == Ok::<KmlState, Failure>(
                    final(self).state(),
                ),
                Err(error) => kml_close(old(self).state(), name@) == Err::<KmlState, Failure>(
                    error,
                ),
            },
    {
        if same_text(name, "Placemark") {
            if !self.begun {
                return Err(Failure::MissingStation);
            }
            self.in_placemark = false;
            let ghost before = stations_view(self.stations@);
            self.stations.push(self.station.clone());
            assert(stations_view(self.stations@) =~= before.push(self.station@));
        } else if same_text(name, "name") && self.in_placemark {
            self.in_name = false;
        } else if same_text(name, "Point") && self.in_placemark {
            self.in_point = false;
        } else if same_text(name, "coordinates") && self.in_point {
            self.in_coordinates = false;
        }
        Ok(())
    }
}

/// Longitude, latitude and height from the text of a `coordinates` element.
pub fn read_coordinates(text: &str) -> (r: Result<(Decimal, Decimal, Decimal), Failure>)
    ensures
        match r {
            Ok((longitude, latitude, height)) => with_coordinates(blank_station(), text@) == Ok::<
                StationView,
                Failure,
            >(
                StationView {
                    name: Seq::empty(),
                    longitude: longitude.nanos as int,
                    latitude: latitude.nanos as int,
                    height: height.nanos as int,
                },
            ),
            Err(error) => with_coordinates(blank_station(), text@) == Err::<StationView, Failure>(
                error,
            ),
        },
{
    let text = chars_of(text);
    let parts = split_chars(&text, ',');
    if parts.len() < 3 {
        return Err(Failure::MalformedCoordinates);
    }
    assert(pieces_view(parts@)[0] == parts@[0]@);
    assert(pieces_view(parts@)[1] == parts@[1]@);
    assert(pieces_view(parts@)[2] == parts@[2]@);
    let longitude = Decimal::parse_chars(&parts[0]);
    let latitude = Decimal::parse_chars(&parts[1]);
    let height = Decimal::parse_chars(&parts[2]);
    match (longitude, latitude, height) {
        (Some(longitude), Some(latitude), Some(height)) => Ok((longitude, latitude, height)),
        _ => Err(Failure::MalformedNumber),
    }
}

/// The events that `xml::EventReader` gives for the document `content`, up to
/// and including the end of the document or the first error: each start tag
/// as `Open` and each end tag as `Close`, with the element's local name,
/// character data as `Text`, an error as `Fault`, and every other event as
/// `Other`.
pub uninterp spec fn markup_events(content: Seq<u8>) -> Seq<MarkupView>;

/// Runs `xml::EventReader::new` over `content` and collects the events of its
/// iterator, which ends after the end of the document or the first error.
/// The contract gives the events their name, [`markup_events`], and claims no
/// more of them.
#[verifier::external_body]
fn read_markup(content: &[u8]) -> (events: Vec<MarkupEvent>)
    ensures
        events_view(events@) == markup_events(content@),
{
    xml::EventReader::new(content).into_iter().map(|event| match event {
        Ok(xml::reader::XmlEvent::StartElement { name, .. }) => MarkupEvent::Open(name.local_name),
        Ok(xml::reader::XmlEvent::EndElement { name }) => MarkupEvent::Close(name.local_name),
        Ok(xml::reader::XmlEvent::Characters(text)) => MarkupEvent::Text(text),
        Ok(_) => MarkupEvent::Other,
        Err(_) => MarkupEvent::Fault,
    }).collect()
}

/// The stations of the KML document `content`.
pub fn kml_to_station_list(content: &[u8]) -> (r: Result<Vec<Station>, Failure>)
    ensures
        match r {
            Ok(stations) => kml_stations(markup_events(content@)) == Ok::<
                Seq<StationView>,
                Failure,
            >(stations_view(stations@)),
            Err(error) => kml_stations(markup_events(content@)) == Err::<Seq<StationView>, Failure>(
                error,
            ),
        },
{
    let events = read_markup(content);
    stations_from_markup(&events)
}

/// The stations of a document read as `events`.
pub fn stations_from_markup(events: &Vec<MarkupEvent>) -> (r: Result<Vec<Station>, Failure>)
    ensures
        match r {
            Ok(stations) => kml_stations(events_view(events@)) == Ok::<Seq<StationView>, Failure>(
                stations_view(stations@),
            ),
            Err(error) => kml_stations(events_view(events@)) == Err::<Seq<StationView>, Failure>(
                error,
            ),
        },
{
    let ghost all = events_view(events@);
    let mut reader = KmlReader {
        stations: Vec::new(),
        station: Station::default(),
        begun: false,
        in_placemark: false,
        in_name: false,
        in_point: false,
        in_coordinates: false,
    };
    assert(reader.state().stations =~= kml_start().stations);
    assert(all.skip(0) =~= all);
    let mut i: usize = 0;
    while i < events.len()
        invariant
            i <= events.len(),
            all == events_view(events@),
            kml_stations(all) == kml_run(reader.state(), all.skip(i as int)),
        decreases events.len() - i,
    {
        let ghost before = reader.state();
        let ghost rest = all.skip(i as int);
        assert(rest[0] == events@[i as int]@);
        assert(rest.skip(1) =~= all.skip(i + 1));
        match &events[i] {
            MarkupEvent::Open(name) => {
                reader.open(name.as_str());
            },
            MarkupEvent::Text(text) => {
                match reader.text(text.as_str()) {
                    Ok(_) => {},
                    Err(error) => {
                        return Err(error);
                    },
                }
            },
            MarkupEvent::Close(name) => {
                match reader.close(name.as_str()) {
                    Ok(_) => {},
                    Err(error) => {
                        return Err(error);
                    },
                }
            },
            MarkupEvent::Other => {},
            MarkupEvent::Fault => {
                return Ok(reader.stations);
            },
        }
        i += 1;
    }
    Ok(reader.stations)
}

/// Whether `path` names a KML file.
pub open spec fn is_kml_path(path: Seq<char>) -> bool {
    extension_is(path_extension(path), "kml"@)
}

/// Imports the stations of the KML file `kml_file`, which holds `content`,
/// and shows them as a tree.
pub fn kml_to_json(session: &mut Session, kml_file: &str, content: &[u8]) -> (r: Result<
    Vec<TreeNode>,
    Failure,
>)
    ensures
        (forest_outcome(r), final(session)@) == imported(
            old(session)@,
            kml_file@,
            is_kml_path(kml_file@),
            Failure::NotKmlFile,
            kml_stations(markup_events(content@)),
        ),
{
    if !is_kml_file(kml_file) {
        return Err(Failure::NotKmlFile);
    }
    match kml_to_station_list(content) {
        Err(failure) => Err(failure),
        Ok(stations) => Ok(import_stations(session, kml_file, stations)),
    }
}

/// A sheet to be written as a workbook: the name of the file and the rows of
/// cells.
#[derive(Debug)]
pub struct Sheet {
    pub file_name: String,
    pub rows: Vec<Vec<String>>,
}

/// What a sheet is.
pub ghost struct SheetView {
    pub file_name: Seq<char>,
    pub rows: Seq<Seq<Seq<char>>>,
}

/// The view of a row of cells.
pub open spec fn row_view(row: Vec<String>) -> Seq<Seq<char>> {
    Seq::new(row@.len(), |i: int| row@[i]@)
}

/// The views of rows of cells.
pub open spec fn rows_view(rows: Seq<Vec<String>>) -> Seq<Seq<Seq<char>>> {
    Seq::new(rows.len(), |i: int| row_view(rows[i]))
}

impl View for Sheet {
    type V = SheetView;

    open spec fn view(&self) -> SheetView {
        SheetView { file_name: self.file_name@, rows: rows_view(self.rows@) }
    }
}

/// The row above the stations.
pub open spec fn header_row() -> Seq<Seq<char>> {
    seq!["杆塔编号"@, "经度"@, "纬度"@, "高度"@]
}

/// The row of a station: its name and its three numbers as decimal text.
pub open spec fn station_row(station: StationView) -> Seq<Seq<char>> {
    seq![
        station.name,
        decimal_text(station.longitude),
        decimal_text(station.latitude),
        decimal_text(station.height),
    ]
}

/// The sheet of a list of stations from the file `file`: the header, then
/// one row for every station; the workbook is named after the file, with the
/// extension `xlsx`.
pub open spec fn station_sheet(file: Seq<char>, separator: char, stations: Seq<StationView>) -> SheetView {
    SheetView {
        file_name: stem(file, separator) + ".xlsx"@,
        rows: seq![header_row()] + Seq::new(stations.len(), |i: int| station_row(stations[i])),
    }
}

fn four_cells(a: String, b: String, c: String, d: String) -> (row: Vec<String>)
    ensures
        row_view(row) == seq![a@, b@, c@, d@],
{
    let mut row: Vec<String> = Vec::new();
    row.push(a);
    row.push(b);
    row.push(c);
    row.push(d);
    assert(row_view(row) =~= seq![a@, b@, c@, d@]);
    row
}

/// The sheet of a list of stations from the file `file`.
pub fn sheet_of_stations(file: &str, separator: char, stations: &Vec<Station>) -> (sheet: Sheet)
    ensures
        sheet@ == station_sheet(file@, separator, stations_view(stations@)),
{
    let mut rows: Vec<Vec<String>> = Vec::new();
    rows.push(
        four_cells(
            String::from_str("杆塔编号"),
            String::from_str("经度"),
            String::from_str("纬度"),
            String::from_str("高度"),
        ),
    );
    assert(rows_view(rows@) =~= seq![header_row()]);
    let mut i: usize = 0;
    while i < stations.len()
        invariant
            i <= stations.len(),
            rows_view(rows@) == seq![header_row()] + Seq::new(
                i as nat,
                |k: int| station_row(stations@[k]@),
            ),
        decreases stations.len() - i,
    {
        let ghost before = rows_view(rows@);
        let station = &stations[i];
        let row = four_cells(
            station.name.clone(),
            station.longitude.to_text(),
            station.latitude.to_text(),
            station.height.to_text(),
        );
        rows.push(row);
        assert(rows_view(rows@) =~= before.push(station_row(station@)));
        i += 1;
        assert(rows_view(rows@) =~= seq![header_row()] + Seq::new(
            i as nat,
            |k: int| station_row(stations@[k]@),
        ));
    }
    let sheet = Sheet { file_name: file_name_with(file, separator).concat(".xlsx"), rows };
    assert(sheet@.rows =~= station_sheet(file@, separator, stations_view(stations@)).rows);
    sheet
}

/// The outcome of an operation that gives a sheet, by its view.
pub open spec fn sheet_outcome(r: Result<Sheet, Failure>) -> Result<SheetView, Failure> {
    match r {
        Ok(sheet) => Ok(sheet@),
        Err(failure) => Err(failure),
    }
}

/// The sheet for the KML file `file`, whose document was read as `read`.
pub open spec fn exported(
    file: Seq<char>,
    separator: char,
    read: Result<Seq<StationView>, Failure>,
) -> Result<SheetView, Failure> {
    if !is_kml_path(file) {
        Err(Failure::NotKmlFile)
    } else {
        match read {
            Err(failure) => Err(failure),
            Ok(stations) => Ok(station_sheet(file, separator, stations)),
        }
    }
}

/// The sheet that holds the stations of the KML file `kml_file`, which holds
/// `content`, to be written as a workbook. The session is not touched.
pub fn kml_to_excel(session: &Session, kml_file: &str, content: &[u8]) -> (r: Result<Sheet, Failure>)
    ensures
        sheet_outcome(r) == exported(
            kml_file@,
            session@.separator,
            kml_stations(markup_events(content@)),
        ),
{
    if !is_kml_file(kml_file) {
        return Err(Failure::NotKmlFile);
    }
    match kml_to_station_list(content) {
        Err(failure) => Err(failure),
        Ok(stations) => Ok(sheet_of_stations(kml_file, session.separator, &stations)),
    }
}

} // verus!
