//! Survey stations, and the tree in which results are reported.

use vstd::prelude::*;
use crate::decimal::{decimal_text, Decimal};
use crate::error::Failure;
use crate::session::{Session, SessionView};
use crate::utils::{file_name_with, stem};

pub mod excel;
pub mod kml;

verus! {

/// The views of a list of stations.
pub open spec fn stations_view(stations: Seq<Station>) -> Seq<StationView> {
    Seq::new(stations.len(), |i: int| stations[i]@)
}

/// A named survey point. Longitude and latitude are in degrees, the height is
/// in metres.
#[derive(Debug)]
pub struct Station {
    pub name: String,
    pub longitude: Decimal,
    pub latitude: Decimal,
    pub height: Decimal,
}

/// What a station is: its name and its three numbers in billionths.
pub ghost struct StationView {
    pub name: Seq<char>,
    pub longitude: int,
    pub latitude: int,
    pub height: int,
}

impl View for Station {
    type V = StationView;

    open spec fn view(&self) -> StationView {
        StationView {
            name: self.name@,
            longitude: self.longitude.nanos as int,
            latitude: self.latitude.nanos as int,
            height: self.height.nanos as int,
        }
    }
}

impl Clone for Station {
    fn clone(&self) -> (copy: Self)
        ensures
            copy@ == self@,
    {
        Station {
            name: self.name.clone(),
            longitude: self.longitude,
            latitude: self.latitude,
            height: self.height,
        }
    }
}

impl Default for Station {
    /// A station without a name, at the origin.
    fn default() -> (station: Self)
        ensures
            station@ == (StationView {
                name: Seq::<char>::empty(),
                longitude: 0,
                latitude: 0,
                height: 0,
            }),
    {
        Station {
            name: String::new(),
            longitude: Decimal { nanos: 0 },
            latitude: Decimal { nanos: 0 },
            height: Decimal { nanos: 0 },
        }
    }
}

impl PartialEq for Station {
    /// Two stations are the same when all four fields are.
    fn eq(&self, other: &Self) -> (same: bool) {
        self.name == other.name && self.longitude.nanos == other.longitude.nanos
            && self.latitude.nanos == other.latitude.nanos && self.height.nanos
            == other.height.nanos
    }
}

impl vstd::std_specs::cmp::PartialEqSpecImpl for Station {
    open spec fn obeys_eq_spec() -> bool {
        true
    }

    open spec fn eq_spec(&self, other: &Self) -> bool {
        self@ == other@
    }
}

impl Eq for Station {

}

/// A node of a report: a key, a label to show, and the nodes below it.
#[derive(Debug)]
pub struct TreeNode {
    pub key: String,
    pub label: String,
    pub children: Option<Vec<TreeNode>>,
}

/// What a node is: its key, its label and the nodes below it.
pub ghost struct TreeView {
    pub key: Seq<char>,
    pub label: Seq<char>,
    pub children: Option<Seq<TreeView>>,
}

impl TreeNode {
    /// The tree that this node stands at the top of.
    pub open spec fn tree(&self) -> TreeView
        decreases self,
    {
        TreeView {
            key: self.key@,
            label: self.label@,
            children: match self.children {
                None => None,
                Some(nodes) => Some(
                    Seq::new(
                        nodes@.len(),
                        |i: int|
                            if 0 <= i < nodes@.len() {
                                nodes@[i].tree()
                            } else {
                                arbitrary()
                            },
                    ),
                ),
            },
        }
    }
}

impl View for TreeNode {
    type V = TreeView;

    open spec fn view(&self) -> TreeView {
        self.tree()
    }
}

/// The views of a list of nodes.
pub open spec fn forest_view(nodes: Seq<TreeNode>) -> Seq<TreeView> {
    Seq::new(nodes.len(), |i: int| nodes[i]@)
}

/// A node without nodes below it.
pub open spec fn leaf(key: Seq<char>, label: Seq<char>) -> TreeView {
    TreeView { key, label, children: None }
}

/// The node of a station: key and label are its name, and below it stand its
/// longitude, latitude and height, each as a labelled leaf.
pub open spec fn station_tree(station: StationView) -> TreeView {
    TreeView {
        key: station.name,
        label: station.name,
        children: Some(
            seq![
                leaf("longitude"@, "经度: "@ + decimal_text(station.longitude)),
                leaf("latitude"@, "纬度: "@ + decimal_text(station.latitude)),
                leaf("height"@, "高度: "@ + decimal_text(station.height)),
            ],
        ),
    }
}

impl TreeNode {
    /// A node without nodes below it.
    pub fn new_leaf(key: &str, label: String) -> (node: TreeNode)
        ensures
            node@ == leaf(key@, label@),
    {
        TreeNode { key: String::from_str(key), label, children: None }
    }

    /// A node with the given nodes below it.
    pub fn new_branch(key: String, label: String, children: Vec<TreeNode>) -> (node: TreeNode)
        ensures
            node@ == (TreeView {
                key: key@,
                label: label@,
                children: Some(forest_view(children@)),
            }),
    {
        let node = TreeNode { key, label, children: Some(children) };
        proof {
            let below = node@.children->0;
            assert(node.children == Some(children));
            assert(node@.children is Some);
            assert(below.len() == children@.len());
            assert forall|i: int| 0 <= i < below.len() implies below[i] == forest_view(
                children@,
            )[i] by {}
            assert(below =~= forest_view(children@));
        }
        node
    }

    /// The node of a station.
    pub fn from_station(station: &Station) -> (node: TreeNode)
        ensures
            node@ == station_tree(station@),
    {
        let mut children: Vec<TreeNode> = Vec::new();
        children.push(
            TreeNode::new_leaf(
                "longitude",
                String::from_str("经度: ").concat(station.longitude.to_text().as_str()),
            ),
        );
        children.push(
            TreeNode::new_leaf(
                "latitude",
                String::from_str("纬度: ").concat(station.latitude.to_text().as_str()),
            ),
        );
        children.push(
            TreeNode::new_leaf(
                "height",
                String::from_str("高度: ").concat(station.height.to_text().as_str()),
            ),
        );
        let node = TreeNode::new_branch(station.name.clone(), station.name.clone(), children);
        assert(node@.children->0 =~= station_tree(station@).children->0);
        node
    }
}

impl From<Station> for TreeNode {
    /// The node of a station.
    fn from(station: Station) -> (node: TreeNode)
        ensures
            node@ == station_tree(station@),
    {
        TreeNode::from_station(&station)
    }
}

impl vstd::std_specs::convert::FromSpecImpl<Station> for TreeNode {
    open spec fn obeys_from_spec() -> bool {
        false
    }

    open spec fn from_spec(station: Station) -> TreeNode {
        arbitrary()
    }
}

/// The node of a survey line: key and label are the line's name, and below
/// it stand its stations.
pub open spec fn line_tree(name: Seq<char>, stations: Seq<StationView>) -> TreeView {
    TreeView {
        key: name,
        label: name,
        children: Some(Seq::new(stations.len(), |i: int| station_tree(stations[i]))),
    }
}

/// What an import gives and leaves. A file of the wrong kind and a file that
/// cannot be read give their error and leave the session as it was. Stations
/// that were read replace those of the session, and the tree shows them under
/// the name of the file without directory and extension.
pub open spec fn imported(
    before: SessionView,
    file: Seq<char>,
    right_kind: bool,
    wrong_kind: Failure,
    read: Result<Seq<StationView>, Failure>,
) -> (Result<Seq<TreeView>, Failure>, SessionView) {
    if !right_kind {
        (Err(wrong_kind), before)
    } else {
        match read {
            Err(failure) => (Err(failure), before),
            Ok(stations) => (
                Ok(seq![line_tree(stem(file, before.separator), stations)]),
                SessionView { stations, ..before },
            ),
        }
    }
}

/// The outcome of an operation that gives a tree, by its view.
pub open spec fn forest_outcome(r: Result<Vec<TreeNode>, Failure>) -> Result<
    Seq<TreeView>,
    Failure,
> {
    match r {
        Ok(nodes) => Ok(forest_view(nodes@)),
        Err(failure) => Err(failure),
    }
}

/// Puts the stations that were read into the session and shows them as a
/// tree under the name of `file`.
pub fn import_stations(session: &mut Session, file: &str, stations: Vec<Station>) -> (nodes: Vec<
    TreeNode,
>)
    ensures
        forest_view(nodes@) == seq![
            line_tree(stem(file@, old(session)@.separator), stations_view(stations@)),
        ],
        final(session)@ == (SessionView { stations: stations_view(stations@), ..old(session)@ }),
{
    let mut below: Vec<TreeNode> = Vec::new();
    let mut i: usize = 0;
    while i < stations.len()
        invariant
            i <= stations.len(),
            forest_view(below@) == Seq::new(i as nat, |k: int| station_tree(stations@[k]@)),
        decreases stations.len() - i,
    {
        let ghost before = forest_view(below@);
        let node = TreeNode::from_station(&stations[i]);
        below.push(node);
        assert(forest_view(below@) =~= before.push(station_tree(stations@[i as int]@)));
        i += 1;
        assert(forest_view(below@) =~= Seq::new(i as nat, |k: int| station_tree(stations@[k]@)));
    }
    let name = file_name_with(file, session.separator);
    let node = TreeNode::new_branch(name.clone(), name, below);
    assert(node@.children->0 =~= line_tree(
        stem(file@, session@.separator),
        stations_view(stations@),
    ).children->0);
    session.stations = stations;
    let mut nodes: Vec<TreeNode> = Vec::new();
    nodes.push(node);
    assert(forest_view(nodes@) =~= seq![node@]);
    nodes
}

} // verus!
