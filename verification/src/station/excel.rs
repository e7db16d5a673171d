//! Stations from the first sheet of an Excel workbook.
//!
//! The sheet has a header row and then one row for every station, with four
//! cells: name, longitude, latitude and height.

use vstd::prelude::*;
use crate::decimal::{lemma_text_reads_back, parse_decimal, Decimal};
use crate::error::Failure;
use crate::session::Session;
use crate::station::kml::{station_row, station_sheet};
use crate::station::{
    forest_outcome, import_stations, imported, stations_view, Station, StationView, TreeNode,
};
use crate::utils::{extension_is, is_excel_file, path_extension};

verus! {

/// The view of a cell: its text, if it has any.
pub open spec fn cell_view(cell: Option<String>) -> Option<Seq<char>> {
    match cell {
        Some(text) => Some(text@),
        None => None,
    }
}

/// The view of a row of cells.
pub open spec fn cells_view(row: Vec<Option<String>>) -> Seq<Option<Seq<char>>> {
    Seq::new(row@.len(), |i: int| cell_view(row@[i]))
}

/// The views of the rows of a sheet.
pub open spec fn sheet_view(rows: Seq<Vec<Option<String>>>) -> Seq<Seq<Option<Seq<char>>>> {
    Seq::new(rows.len(), |i: int| cells_view(rows[i]))
}

/// The text of cell `i` of a row; nothing where the row is shorter or the
/// cell is empty.
pub open spec fn cell_text(row: Seq<Option<Seq<char>>>, i: int) -> Option<Seq<char>> {
    if 0 <= i < row.len() {
        row[i]
    } else {
        None
    }
}

/// The station that a row gives. All four cells must have text; the error
/// names the first that has none. Longitude, latitude and height must be
/// decimal text.
pub open spec fn station_of_row(row: Seq<Option<Seq<char>>>) -> Result<StationView, Failure> {
    if cell_text(row, 0) is None {
        Err(Failure::MissingName)
    } else if cell_text(row, 1) is None {
        Err(Failure::MissingLongitude)
    } else if cell_text(row, 2) is None {
        Err(Failure::MissingLatitude)
    } else if cell_text(row, 3) is None {
        Err(Failure::MissingHeight)
    } else if parse_decimal(cell_text(row, 1)->0) is None || parse_decimal(cell_text(row, 2)->0)
        is None || parse_decimal(cell_text(row, 3)->0) is None {
        Err(Failure::MalformedNumber)
    } else {
        Ok(
            StationView {
                name: cell_text(row, 0)->0,
                longitude: parse_decimal(cell_text(row, 1)->0)->0,
                latitude: parse_decimal(cell_text(row, 2)->0)->0,
                height: parse_decimal(cell_text(row, 3)->0)->0,
            },
        )
    }
}

/// The stations that rows give, one for each, or the error of the first row
/// that gives none.
pub open spec fn stations_of_rows(rows: Seq<Seq<Option<Seq<char>>>>) -> Result<
    Seq<StationView>,
    Failure,
>
    decreases rows.len(),
{
    if rows.len() == 0 {
        Ok(Seq::empty())
    } else {
        match stations_of_rows(rows.drop_last()) {
            Err(failure) => Err(failure),
            Ok(before) => match station_of_row(rows.last()) {
                Err(failure) => Err(failure),
                Ok(station) => Ok(before.push(station)),
            },
        }
    }
}

/// The stations of a sheet: those of its rows after the header. A sheet
/// without rows gives no station.
pub open spec fn stations_of_sheet(rows: Seq<Seq<Option<Seq<char>>>>) -> Result<
    Seq<StationView>,
    Failure,
> {
    if rows.len() == 0 {
        Ok(Seq::empty())
    } else {
        stations_of_rows(rows.skip(1))
    }
}

/// Rows that all give a station give exactly these stations, in their order:
/// as many as there are rows.
pub proof fn lemma_rows_give_their_stations(rows: Seq<Seq<Option<Seq<char>>>>)
    ensures
        stations_of_rows(rows) is Ok <==> forall|i: int|
            0 <= i < rows.len() ==> (#[trigger] station_of_row(rows[i])) is Ok,
        stations_of_rows(rows) matches Ok(stations) ==> stations.len() == rows.len() && forall|
            i: int,
        |
            0 <= i < rows.len() ==> Ok::<StationView, Failure>(#[trigger] stations[i])
                == station_of_row(rows[i]),
    decreases rows.len(),
{
    if rows.len() > 0 {
        let shorter = rows.drop_last();
        lemma_rows_give_their_stations(shorter);
        assert(rows[rows.len() - 1] == rows.last());
        assert forall|i: int| 0 <= i < shorter.len() implies shorter[i] == rows[i] by {}
        if stations_of_rows(rows) is Ok {
            assert forall|i: int| 0 <= i < rows.len() implies (#[trigger] station_of_row(
                rows[i],
            )) is Ok by {
                if i < shorter.len() {
                    assert(station_of_row(shorter[i]) is Ok);
                }
            }
        }
        if forall|i: int| 0 <= i < rows.len() ==> (#[trigger] station_of_row(rows[i])) is Ok {
            assert forall|i: int| 0 <= i < shorter.len() implies (#[trigger] station_of_row(
                shorter[i],
            )) is Ok by {
                assert(station_of_row(rows[i]) is Ok);
            }
            assert(station_of_row(rows[rows.len() - 1]) is Ok);
        }
        if stations_of_rows(rows) is Ok {
            let stations = stations_of_rows(rows)->Ok_0;
            let before = stations_of_rows(shorter)->Ok_0;
            assert forall|i: int| 0 <= i < rows.len() implies Ok::<StationView, Failure>(
                #[trigger] stations[i],
            ) == station_of_row(rows[i]) by {
                if i < shorter.len() {
                    assert(stations[i] == before[i]);
                    assert(shorter[i] == rows[i]);
                }
            }
        }
    }
}

/// A sheet of a header and `n` rows that all give a station gives `n`
/// stations, those of its rows in their order.
pub proof fn lemma_sheet_gives_its_rows(rows: Seq<Seq<Option<Seq<char>>>>)
    requires
        rows.len() >= 1,
        forall|i: int| 1 <= i < rows.len() ==> (#[trigger] station_of_row(rows[i])) is Ok,
    ensures
        stations_of_sheet(rows) is Ok,
        stations_of_sheet(rows)->Ok_0.len() == rows.len() - 1,
        forall|i: int|
            1 <= i < rows.len() ==> Ok::<StationView, Failure>(
                #[trigger] stations_of_sheet(rows)->Ok_0[i - 1],
            ) == station_of_row(rows[i]),
{
    let body = rows.skip(1);
    lemma_rows_give_their_stations(body);
    assert forall|i: int| 0 <= i < body.len() implies (#[trigger] station_of_row(body[i])) is Ok by {
        assert(body[i] == rows[i + 1]);
        assert(station_of_row(rows[i + 1]) is Ok);
    }
    let stations = stations_of_sheet(rows)->Ok_0;
    assert forall|i: int| 1 <= i < rows.len() implies Ok::<StationView, Failure>(
        #[trigger] stations[i - 1],
    ) == station_of_row(rows[i]) by {
        assert(body[i - 1] == rows[i]);
    }
}

/// Whether the three numbers of a station are such as a decimal can hold.
pub open spec fn in_range(station: StationView) -> bool {
    &&& i64::MIN <= station.longitude <= i64::MAX
    &&& i64::MIN <= station.latitude <= i64::MAX
    &&& i64::MIN <= station.height <= i64::MAX
}

/// Rows of text as the rows of a sheet in which every cell has its text.
pub open spec fn filled(rows: Seq<Seq<Seq<char>>>) -> Seq<Seq<Option<Seq<char>>>> {
    Seq::new(rows.len(), |i: int| Seq::new(rows[i].len(), |k: int| Some(rows[i][k])))
}

/// The sheet that is written for a list of stations reads back as the same
/// stations.
pub proof fn lemma_written_sheet_reads_back(
    file: Seq<char>,
    separator: char,
    stations: Seq<StationView>,
)
    requires
        forall|i: int| 0 <= i < stations.len() ==> in_range(#[trigger] stations[i]),
    ensures
        stations_of_sheet(filled(station_sheet(file, separator, stations).rows)) == Ok::<
            Seq<StationView>,
            Failure,
        >(stations),
{
    let rows = filled(station_sheet(file, separator, stations).rows);
    let body = rows.skip(1);
    assert(body.len() == stations.len());
    assert forall|i: int| 0 <= i < body.len() implies #[trigger] station_of_row(body[i]) == Ok::<
        StationView,
        Failure,
    >(stations[i]) by {
        let station = stations[i];
        assert(in_range(station));
        assert(body[i] == rows[i + 1]);
        assert(body[i] =~= seq![
            Some(station_row(station)[0]),
            Some(station_row(station)[1]),
            Some(station_row(station)[2]),
            Some(station_row(station)[3]),
        ]);
        lemma_text_reads_back(station.longitude);
        lemma_text_reads_back(station.latitude);
        lemma_text_reads_back(station.height);
    }
    lemma_rows_give_their_stations(body);
    assert(stations_of_rows(body) is Ok);
    let read = stations_of_rows(body)->Ok_0;
    assert forall|i: int| 0 <= i < read.len() implies read[i] == stations[i] by {
        assert(Ok::<StationView, Failure>(read[i]) == station_of_row(body[i]));
    }
    assert(read =~= stations);
}

fn cell<'a>(row: &'a Vec<Option<String>>, i: usize) -> (text: Option<&'a String>)
    ensures
        match text {
            Some(text) => cell_text(cells_view(*row), i as int) == Some(text@),
            None => cell_text(cells_view(*row), i as int) is None,
        },
{
    if i < row.len() {
        match &row[i] {
            Some(text) => Some(text),
            None => None,
        }
    } else {
        None
    }
}

/// The station that a row gives.
pub fn station_from_row(row: &Vec<Option<String>>) -> (r: Result<Station, Failure>)
    ensures
        match r {
            Ok(station) => station_of_row(cells_view(*row)) == Ok::<StationView, Failure>(
                station@,
            ),
            Err(failure) => station_of_row(cells_view(*row)) == Err::<StationView, Failure>(
                failure,
            ),
        },
{
    let name = match cell(row, 0) {
        Some(text) => text,
        None => {
            return Err(Failure::MissingName);
        },
    };
    let longitude = match cell(row, 1) {
        Some(text) => text,
        None => {
            return Err(Failure::MissingLongitude);
        },
    };
    let latitude = match cell(row, 2) {
        Some(text) => text,
        None => {
            return Err(Failure::MissingLatitude);
        },
    };
    let height = match cell(row, 3) {
        Some(text) => text,
        None => {
            return Err(Failure::MissingHeight);
        },
    };
    let longitude = Decimal::parse(longitude.as_str());
    let latitude = Decimal::parse(latitude.as_str());
    let height = Decimal::parse(height.as_str());
    match (longitude, latitude, height) {
        (Some(longitude), Some(latitude), Some(height)) => Ok(
            Station { name: name.clone(), longitude, latitude, height },
        ),
        _ => Err(Failure::MalformedNumber),
    }
}

/// The stations of a sheet: those of its rows after the header.
pub fn stations_from_rows(rows: &Vec<Vec<Option<String>>>) -> (r: Result<Vec<Station>, Failure>)
    ensures
        match r {
            Ok(stations) => stations_of_sheet(sheet_view(rows@)) == Ok::<
                Seq<StationView>,
                Failure,
            >(stations_view(stations@)),
            Err(failure) => stations_of_sheet(sheet_view(rows@)) == Err::<
                Seq<StationView>,
                Failure,
            >(failure),
        },
{
    let ghost body = sheet_view(rows@).skip(1);
    let mut stations: Vec<Station> = Vec::new();
    if rows.len() == 0 {
        assert(stations_view(stations@) =~= Seq::<StationView>::empty());
        return Ok(stations);
    }
    let mut i: usize = 1;
    assert(body.take(0) =~= Seq::empty());
    assert(stations_view(stations@) =~= Seq::<StationView>::empty());
    while i < rows.len()
        invariant
            1 <= i <= rows.len(),
            body == sheet_view(rows@).skip(1),
            stations_of_rows(body.take(i - 1)) == Ok::<Seq<StationView>, Failure>(
                stations_view(stations@),
            ),
        decreases rows.len() - i,
    {
        let ghost before = stations_view(stations@);
        proof {
            let longer = body.take(i as int);
            assert(longer.drop_last() =~= body.take(i - 1));
            assert(longer.last() == cells_view(rows@[i as int]));
            lemma_error_stays(body, i as int);
        }
        match station_from_row(&rows[i]) {
            Err(failure) => {
                return Err(failure);
            },
            Ok(station) => {
                stations.push(station);
                assert(stations_view(stations@) =~= before.push(station@));
            },
        }
        i += 1;
    }
    assert(body.take(i - 1) =~= body);
    Ok(stations)
}

/// An error among the first rows is the error of all the rows.
pub proof fn lemma_error_stays(rows: Seq<Seq<Option<Seq<char>>>>, n: int)
    requires
        0 <= n <= rows.len(),
    ensures
        stations_of_rows(rows.take(n)) matches Err(failure) ==> stations_of_rows(rows) == Err::<
            Seq<StationView>,
            Failure,
        >(failure),
    decreases rows.len() - n,
{
    if n < rows.len() {
        lemma_error_stays(rows, n + 1);
        assert(rows.take(n + 1).drop_last() =~= rows.take(n));
    } else {
        assert(rows.take(n) =~= rows);
    }
}

/// Whether `path` names an Excel workbook.
pub open spec fn is_excel_path(path: Seq<char>) -> bool {
    extension_is(path_extension(path), "xlsx"@)
}

/// The stations of a workbook, from the rows of its first sheet if it has
/// one.
pub open spec fn stations_of_workbook(sheet: Option<Seq<Seq<Option<Seq<char>>>>>) -> Result<
    Seq<StationView>,
    Failure,
> {
    match sheet {
        None => Err(Failure::MissingSheet),
        Some(rows) => stations_of_sheet(rows),
    }
}

/// The view of the first sheet of a workbook, if it has one.
pub open spec fn workbook_view(sheet: Option<Vec<Vec<Option<String>>>>) -> Option<
    Seq<Seq<Option<Seq<char>>>>,
> {
    match sheet {
        Some(rows) => Some(sheet_view(rows@)),
        None => None,
    }
}

/// Imports the stations of the workbook `excel_file`, whose first sheet, if
/// it has one, holds the rows `sheet`, and shows them as a tree.
pub fn excel_to_json(
    session: &mut Session,
    excel_file: &str,
    sheet: &Option<Vec<Vec<Option<String>>>>,
) -> (r: Result<Vec<TreeNode>, Failure>)
    ensures
        (forest_outcome(r), final(session)@) == imported(
            old(session)@,
            excel_file@,
            is_excel_path(excel_file@),
            Failure::NotExcelFile,
            stations_of_workbook(workbook_view(*sheet)),
        ),
{
    if !is_excel_file(excel_file) {
        return Err(Failure::NotExcelFile);
    }
    let rows = match sheet {
        None => {
            return Err(Failure::MissingSheet);
        },
        Some(rows) => rows,
    };
    match stations_from_rows(rows) {
        Err(failure) => Err(failure),
        Ok(stations) => Ok(import_stations(session, excel_file, stations)),
    }
}

} // verus!
