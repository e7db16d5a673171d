//! The state that the operations share: the stations last imported, the
//! photographs last scanned, and the result of the last matching.

use vstd::prelude::*;
use crate::handle::{GroupView, MembershipMap};
use crate::photo::{Catalog, PhotoView};
use crate::station::{stations_view, Station, StationView};
use crate::utils::platform_separator;

verus! {

/// What one run of the program works on. Every operation replaces a part of
/// it as a whole or leaves it as it was.
#[derive(Debug)]
pub struct Session {
    /// The character that separates the components of a path.
    pub separator: char,
    /// The stations of the last import.
    pub stations: Vec<Station>,
    /// The photographs of the last scan.
    pub photos: Catalog,
    /// The folder of the last scan.
    pub photos_path: String,
    /// The result of the last matching.
    pub belong_map: MembershipMap,
}

/// What a session holds.
pub ghost struct SessionView {
    pub separator: char,
    pub stations: Seq<StationView>,
    pub photos: Seq<PhotoView>,
    pub photos_path: Seq<char>,
    pub belong_map: Seq<GroupView>,
}

impl View for Session {
    type V = SessionView;

    open spec fn view(&self) -> SessionView {
        SessionView {
            separator: self.separator,
            stations: stations_view(self.stations@),
            photos: self.photos@,
            photos_path: self.photos_path@,
            belong_map: self.belong_map@,
        }
    }
}

/// A session in which nothing was imported, scanned or matched yet.
pub open spec fn fresh(separator: char) -> SessionView {
    SessionView {
        separator,
        stations: Seq::empty(),
        photos: Seq::empty(),
        photos_path: Seq::empty(),
        belong_map: Seq::empty(),
    }
}

impl Session {
    /// A new session for paths separated by `separator`.
    pub fn with_separator(separator: char) -> (session: Session)
        ensures
            session@ == fresh(separator),
    {
        let session = Session {
            separator,
            stations: Vec::new(),
            photos: Catalog::new(),
            photos_path: String::new(),
            belong_map: MembershipMap::new(),
        };
        assert(session@.stations =~= Seq::<StationView>::empty());
        session
    }

    /// A new session for the paths of the platform the library is built for:
    /// separated by a backslash where that is the platform's own separator,
    /// by a slash elsewhere.
    pub fn new() -> (session: Session)
        ensures
            session@ == fresh('/') || session@ == fresh('\\'),
    {
        Session::with_separator(platform_separator())
    }
}

} // verus!
