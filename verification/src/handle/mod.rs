//! Which photographs belong to which stations, the report of the counts, and
//! the plan for copying every matched photograph to its station's folder.

use vstd::prelude::*;
use crate::decimal::{digits_of, parse_decimal, u128_text, Decimal};
use crate::error::Failure;
use crate::photo::{
    distinct_keys, entries_view, holds_key, scan, scan_entries, Catalog, FileEntry,
    FileEntryView, PhotoType, PhotoView,
};
use crate::session::{Session, SessionView};
use crate::proximity::{is_within, within};
use crate::station::{forest_view, leaf, Station, StationView, TreeNode, TreeView};

verus! {

/// How many photographs of each class.
#[derive(Clone, Copy, Debug, PartialEq, Eq, Structural)]
pub struct CalcPhotoResult {
    pub normal: u64,
    pub infrared: u64,
}

impl Default for CalcPhotoResult {
    fn default() -> (counts: Self)
        ensures
            counts.normal == 0,
            counts.infrared == 0,
    {
        CalcPhotoResult { normal: 0, infrared: 0 }
    }
}

/// The two leaves that show a pair of counts.
pub open spec fn counts_forest(normal: nat, infrared: nat) -> Seq<TreeView> {
    seq![
        leaf("normal"@, "普通: "@ + digits_of(normal)),
        leaf("infrared"@, "红外: "@ + digits_of(infrared)),
    ]
}

/// The two leaves that show a pair of counts.
pub fn counts_nodes(normal: u128, infrared: u128) -> (nodes: Vec<TreeNode>)
    ensures
        forest_view(nodes@) == counts_forest(normal as nat, infrared as nat),
{
    let mut nodes: Vec<TreeNode> = Vec::new();
    nodes.push(
        TreeNode::new_leaf("normal", String::from_str("普通: ").concat(u128_text(normal).as_str())),
    );
    nodes.push(
        TreeNode::new_leaf(
            "infrared",
            String::from_str("红外: ").concat(u128_text(infrared).as_str()),
        ),
    );
    assert(forest_view(nodes@) =~= counts_forest(normal as nat, infrared as nat));
    nodes
}

impl CalcPhotoResult {
    /// The two leaves that show the counts.
    pub fn to_tree_node(&self) -> (nodes: Vec<TreeNode>)
        ensures
            forest_view(nodes@) == counts_forest(self.normal as nat, self.infrared as nat),
    {
        counts_nodes(self.normal as u128, self.infrared as u128)
    }
}

/// How many photographs of each class over all stations, a photograph counted
/// once for every station it belongs to. The counts are wide enough for
/// every map that a machine can hold.
#[derive(Clone, Copy, Debug, PartialEq, Eq, Structural)]
pub struct TotalCounts {
    pub normal: u128,
    pub infrared: u128,
}

/// Whether the photograph lies within `radius` billionths of a metre of the
/// station.
pub open spec fn within_radius(station: StationView, photo: PhotoView, radius: int) -> bool {
    within(station.longitude, station.latitude, photo.longitude, photo.latitude, radius)
}

/// The photographs among `photos` that lie within the radius of the station,
/// in their order.
pub open spec fn matched(station: StationView, photos: Seq<PhotoView>, radius: int) -> Seq<
    PhotoView,
>
    decreases photos.len(),
{
    if photos.len() == 0 {
        Seq::empty()
    } else {
        let before = matched(station, photos.drop_last(), radius);
        if within_radius(station, photos.last(), radius) {
            before.push(photos.last())
        } else {
            before
        }
    }
}

/// A photograph is among the matched ones exactly when it is among the
/// photographs and within the radius.
pub proof fn lemma_matched_contains(
    station: StationView,
    photos: Seq<PhotoView>,
    radius: int,
    photo: PhotoView,
)
    ensures
        matched(station, photos, radius).contains(photo) <==> photos.contains(photo)
            && within_radius(station, photo, radius),
    decreases photos.len(),
{
    if photos.len() > 0 {
        let shorter = photos.drop_last();
        let before = matched(station, shorter, radius);
        lemma_matched_contains(station, shorter, radius, photo);
        if photos.contains(photo) {
            let at = choose|i: int| 0 <= i < photos.len() && photos[i] == photo;
            if at < shorter.len() {
                assert(shorter[at] == photo);
            }
        }
        if shorter.contains(photo) {
            let at = choose|i: int| 0 <= i < shorter.len() && shorter[i] == photo;
            assert(photos[at] == photo);
        }
        assert(photos[photos.len() - 1] == photos.last());
        if within_radius(station, photos.last(), radius) {
            let all = before.push(photos.last());
            if before.contains(photo) {
                let at = choose|i: int| 0 <= i < before.len() && before[i] == photo;
                assert(all[at] == photo);
            }
            assert(all[before.len() as int] == photos.last());
            if all.contains(photo) {
                let at = choose|i: int| 0 <= i < all.len() && all[i] == photo;
                if at < before.len() {
                    assert(before[at] == photo);
                }
            }
        }
    }
}

/// A station with the photographs that belong to it.
pub ghost struct GroupView {
    pub station: StationView,
    pub photos: Seq<PhotoView>,
}

/// Whether some group is that of the station.
pub open spec fn holds_station(groups: Seq<GroupView>, station: StationView) -> bool {
    exists|i: int| 0 <= i < groups.len() && (#[trigger] groups[i]).station == station
}

/// Every group has a photograph, no group has two photographs of one class
/// and position, and no two groups are of the same station.
pub open spec fn valid_groups(groups: Seq<GroupView>) -> bool {
    &&& forall|i: int|
        0 <= i < groups.len() ==> (#[trigger] groups[i]).photos.len() > 0 && distinct_keys(
            groups[i].photos,
        )
    &&& forall|i: int, j: int|
        0 <= i < j < groups.len() ==> (#[trigger] groups[i]).station != (#[trigger] groups[j]).station
}

/// The groups that matching gives: one for every station that has a
/// photograph within the radius, in the order of the stations, a station
/// that stands twice in the list counted once; in each group the photographs
/// within the radius of its station, in their order.
pub open spec fn membership(stations: Seq<StationView>, photos: Seq<PhotoView>, radius: int) -> Seq<
    GroupView,
>
    decreases stations.len(),
{
    if stations.len() == 0 {
        Seq::empty()
    } else {
        let before = membership(stations.drop_last(), photos, radius);
        let station = stations.last();
        let near = matched(station, photos, radius);
        if near.len() == 0 || stations.drop_last().contains(station) {
            before
        } else {
            before.push(GroupView { station, photos: near })
        }
    }
}

/// Whether the photograph belongs to the station in `groups`.
pub open spec fn belongs(groups: Seq<GroupView>, station: StationView, photo: PhotoView) -> bool {
    exists|i: int|
        0 <= i < groups.len() && (#[trigger] groups[i]).station == station
            && groups[i].photos.contains(photo)
}

/// Every group of a matching is that of a station of the list, and holds the
/// photographs within the radius of it, of which there is at least one; and
/// every station of the list with such a photograph has a group.
pub proof fn lemma_membership_groups(
    stations: Seq<StationView>,
    photos: Seq<PhotoView>,
    radius: int,
)
    ensures
        forall|i: int|
            0 <= i < membership(stations, photos, radius).len() ==> {
                let group = #[trigger] membership(stations, photos, radius)[i];
                &&& stations.contains(group.station)
                &&& group.photos == matched(group.station, photos, radius)
                &&& group.photos.len() > 0
            },
        forall|i: int, j: int|
            0 <= i < j < membership(stations, photos, radius).len() ==> (#[trigger] membership(
                stations,
                photos,
                radius,
            )[i]).station != (#[trigger] membership(stations, photos, radius)[j]).station,
        forall|station: StationView|
            stations.contains(station) && matched(station, photos, radius).len() > 0
                ==> #[trigger] holds_station(membership(stations, photos, radius), station),
    decreases stations.len(),
{
    let all = membership(stations, photos, radius);
    if stations.len() > 0 {
        let shorter = stations.drop_last();
        let before = membership(shorter, photos, radius);
        let last = stations.last();
        let near = matched(last, photos, radius);
        lemma_membership_groups(shorter, photos, radius);
        assert(stations[stations.len() - 1] == last);
        assert forall|i: int| 0 <= i < all.len() implies {
            let group = #[trigger] all[i];
            &&& stations.contains(group.station)
            &&& group.photos == matched(group.station, photos, radius)
            &&& group.photos.len() > 0
        } by {
            if i < before.len() {
                let group = before[i];
                assert(all[i] == group);
                assert(shorter.contains(group.station));
                let at = choose|k: int| 0 <= k < shorter.len() && shorter[k] == group.station;
                assert(stations[at] == group.station);
            }
        }
        assert forall|i: int, j: int| 0 <= i < j < all.len() implies (#[trigger] all[i]).station
            != (#[trigger] all[j]).station by {
            if j < before.len() {
                assert(all[i] == before[i] && all[j] == before[j]);
            } else {
                assert(all[i] == before[i]);
                assert(shorter.contains(before[i].station));
            }
        }
        assert forall|station: StationView|
            stations.contains(station) && matched(station, photos, radius).len()
                > 0 implies #[trigger] holds_station(all, station) by {
            let at = choose|k: int| 0 <= k < stations.len() && stations[k] == station;
            if shorter.contains(station) {
                assert(holds_station(before, station));
                let g = choose|i: int| 0 <= i < before.len() && (#[trigger] before[i]).station
                    == station;
                assert(all[g].station == station);
            } else {
                if at < shorter.len() {
                    assert(shorter[at] == station);
                }
                assert(station == last);
                assert(all[before.len() as int].station == station);
            }
        }
    }
}

/// A photograph belongs to a station after matching exactly when the station
/// is in the list, the photograph is among the photographs, and the
/// photograph lies within the radius of the station: the squared distance is
/// at most the squared radius.
pub proof fn lemma_belongs_iff_within(
    stations: Seq<StationView>,
    photos: Seq<PhotoView>,
    radius: int,
    station: StationView,
    photo: PhotoView,
)
    ensures
        belongs(membership(stations, photos, radius), station, photo) <==> stations.contains(
            station,
        ) && photos.contains(photo) && within_radius(station, photo, radius),
{
    let groups = membership(stations, photos, radius);
    lemma_membership_groups(stations, photos, radius);
    lemma_matched_contains(station, photos, radius, photo);
    if belongs(groups, station, photo) {
        let i = choose|i: int|
            0 <= i < groups.len() && (#[trigger] groups[i]).station == station
                && groups[i].photos.contains(photo);
        assert(groups[i].photos == matched(station, photos, radius));
    }
    if stations.contains(station) && photos.contains(photo) && within_radius(
        station,
        photo,
        radius,
    ) {
        let near = matched(station, photos, radius);
        assert(near.contains(photo));
        assert(near.len() > 0);
        assert(holds_station(groups, station));
        let i = choose|i: int| 0 <= i < groups.len() && (#[trigger] groups[i]).station == station;
        assert(groups[i].photos == near);
    }
}

/// A station has a group after matching exactly when it is in the list and
/// some photograph lies within the radius of it: a station without a matched
/// photograph has none.
pub proof fn lemma_group_iff_matched(
    stations: Seq<StationView>,
    photos: Seq<PhotoView>,
    radius: int,
    station: StationView,
)
    ensures
        holds_station(membership(stations, photos, radius), station) <==> stations.contains(
            station,
        ) && matched(station, photos, radius).len() > 0,
{
    let groups = membership(stations, photos, radius);
    lemma_membership_groups(stations, photos, radius);
    if holds_station(groups, station) {
        let i = choose|i: int| 0 <= i < groups.len() && (#[trigger] groups[i]).station == station;
        assert(groups[i].photos == matched(station, photos, radius));
    }
}

/// One station with the photographs that belong to it.
#[derive(Debug)]
struct Membership {
    station: Station,
    photos: Catalog,
}

/// For every station that has one, the photographs within the radius of it.
/// The stations stand in the order in which matching met them.
#[derive(Debug)]
pub struct MembershipMap {
    groups: Vec<Membership>,
}

impl View for MembershipMap {
    type V = Seq<GroupView>;

    closed spec fn view(&self) -> Seq<GroupView> {
        Seq::new(
            self.groups@.len(),
            |i: int| GroupView { station: self.groups@[i].station@, photos: self.groups@[i].photos@ },
        )
    }
}

impl MembershipMap {
    #[verifier::type_invariant]
    spec fn valid(self) -> bool {
        valid_groups(self@)
    }

    /// A map without groups.
    pub fn new() -> (map: MembershipMap)
        ensures
            map@ == Seq::<GroupView>::empty(),
    {
        let map = MembershipMap { groups: Vec::new() };
        assert(map@ =~= Seq::<GroupView>::empty());
        map
    }

    /// The number of groups.
    pub fn len(&self) -> (n: usize)
        ensures
            n == self@.len(),
    {
        self.groups.len()
    }

    /// The station of group `i`.
    pub fn station(&self, i: usize) -> (station: &Station)
        requires
            i < self@.len(),
        ensures
            station@ == self@[i as int].station,
    {
        &self.groups[i].station
    }

    /// The photographs of group `i`.
    pub fn photos(&self, i: usize) -> (photos: &Catalog)
        requires
            i < self@.len(),
        ensures
            photos@ == self@[i as int].photos,
    {
        &self.groups[i].photos
    }

    /// The place of the group of `station`, if it has one.
    pub fn find(&self, station: &Station) -> (place: Option<usize>)
        ensures
            place is Some == holds_station(self@, station@),
            place is Some ==> place->0 < self@.len() && self@[place->0 as int].station
                == station@,
    {
        let mut i: usize = 0;
        while i < self.groups.len()
            invariant
                i <= self.groups.len(),
                forall|j: int| 0 <= j < i ==> (#[trigger] self@[j]).station != station@,
            decreases self.groups.len() - i,
        {
            if self.groups[i].station == *station {
                assert(self@[i as int].station == station@);
                return Some(i);
            }
            i += 1;
        }
        None
    }

    /// Adds the group of a station that has none yet.
    fn push(&mut self, station: Station, photos: Catalog)
        requires
            !holds_station(old(self)@, station@),
            photos@.len() > 0,
        ensures
            final(self)@ == old(self)@.push(GroupView { station: station@, photos: photos@ }),
    {
        proof {
            use_type_invariant(&*self);
        }
        photos.keys_distinct();
        let ghost before = self@;
        let ghost added = GroupView { station: station@, photos: photos@ };
        let ghost after = before.push(added);
        let mut groups: Vec<Membership> = Vec::new();
        std::mem::swap(&mut groups, &mut self.groups);
        assert(self@ =~= Seq::<GroupView>::empty());
        groups.push(Membership { station, photos });
        proof {
            let shown = Seq::new(
                groups@.len(),
                |i: int| GroupView { station: groups@[i].station@, photos: groups@[i].photos@ },
            );
            assert(shown =~= after);
            assert forall|i: int, j: int| 0 <= i < j < after.len() implies (
            #[trigger] after[i]).station != (#[trigger] after[j]).station by {
                if j < before.len() {
                    assert(after[i] == before[i] && after[j] == before[j]);
                } else {
                    assert(after[i] == before[i]);
                }
            }
            assert forall|i: int| 0 <= i < after.len() implies (#[trigger] after[i]).photos.len()
                > 0 && distinct_keys(after[i].photos) by {
                if i < before.len() {
                    assert(after[i] == before[i]);
                }
            }
        }
        self.groups = groups;
        assert(self@ =~= after);
    }
}

/// The photographs of the catalog within `radius` metres of the station.
pub fn matched_photos(station: &Station, photos: &Catalog, radius: Decimal) -> (near: Catalog)
    ensures
        near@ == matched(station@, photos@, radius.nanos as int),
{
    let mut near = Catalog::new();
    let mut i: usize = 0;
    photos.keys_distinct();
    assert(photos@.take(0) =~= Seq::<PhotoView>::empty());
    while i < photos.len()
        invariant
            i <= photos@.len(),
            distinct_keys(photos@),
            near@ == matched(station@, photos@.take(i as int), radius.nanos as int),
            forall|k: int|
                0 <= k < near@.len() ==> exists|j: int|
                    0 <= j < i && #[trigger] near@[k] == photos@[j],
        decreases photos@.len() - i,
    {
        let photo = photos.get(i);
        let ghost before = near@;
        proof {
            let longer = photos@.take(i + 1);
            assert(longer.drop_last() =~= photos@.take(i as int));
            assert(longer.last() == photos@[i as int]);
        }
        if is_within(
            station.longitude,
            station.latitude,
            photo.longitude,
            photo.latitude,
            radius,
        ) {
            proof {
                if holds_key(near@, photo@.key()) {
                    let k = choose|k: int|
                        0 <= k < near@.len() && (#[trigger] near@[k]).key() == photo@.key();
                    let j = choose|j: int| 0 <= j < i && near@[k] == photos@[j];
                    assert(photos@[j].key() != photos@[i as int].key());
                }
            }
            near.insert(photo.clone());
            assert forall|k: int| 0 <= k < near@.len() implies exists|j: int|
                0 <= j < i + 1 && #[trigger] near@[k] == photos@[j] by {
                if k < before.len() {
                    let j = choose|j: int| 0 <= j < i && before[k] == photos@[j];
                    assert(near@[k] == photos@[j]);
                } else {
                    assert(near@[k] == photos@[i as int]);
                }
            }
        } else {
            assert forall|k: int| 0 <= k < near@.len() implies exists|j: int|
                0 <= j < i + 1 && #[trigger] near@[k] == photos@[j] by {
                let j = choose|j: int| 0 <= j < i && before[k] == photos@[j];
                assert(near@[k] == photos@[j]);
            }
        }
        i += 1;
    }
    assert(photos@.take(i as int) =~= photos@);
    near
}

/// Matches photographs to stations: for every station, the photographs of the
/// catalog within `radius` metres of it.
pub fn match_photos(stations: &Vec<Station>, photos: &Catalog, radius: Decimal) -> (map:
    MembershipMap)
    ensures
        map@ == membership(crate::station::stations_view(stations@), photos@, radius.nanos as int),
{
    let ghost all = crate::station::stations_view(stations@);
    let ghost r = radius.nanos as int;
    let mut map = MembershipMap::new();
    let mut i: usize = 0;
    assert(all.take(0) =~= Seq::<StationView>::empty());
    while i < stations.len()
        invariant
            i <= stations.len(),
            all == crate::station::stations_view(stations@),
            r == radius.nanos as int,
            map@ == membership(all.take(i as int), photos@, r),
        decreases stations.len() - i,
    {
        let station = &stations[i];
        let near = matched_photos(station, photos, radius);
        proof {
            let longer = all.take(i + 1);
            assert(longer.drop_last() =~= all.take(i as int));
            assert(longer.last() == station@);
            lemma_group_iff_matched(all.take(i as int), photos@, r, station@);
        }
        if !near.is_empty() && map.find(station).is_none() {
            map.push(station.clone(), near);
        }
        i += 1;
    }
    assert(all.take(i as int) =~= all);
    map
}

/// How many of the photographs are of the class.
pub open spec fn count_of(photos: Seq<PhotoView>, class: PhotoType) -> nat
    decreases photos.len(),
{
    if photos.len() == 0 {
        0
    } else {
        count_of(photos.drop_last(), class) + if photos.last().photo_type == class {
            1nat
        } else {
            0nat
        }
    }
}

/// The photographs of all groups, one after another: a photograph that
/// belongs to several stations stands once for each.
pub open spec fn all_photos(groups: Seq<GroupView>) -> Seq<PhotoView>
    decreases groups.len(),
{
    if groups.len() == 0 {
        Seq::empty()
    } else {
        all_photos(groups.drop_last()) + groups.last().photos
    }
}

/// How many photographs of the class there are over all groups, a photograph
/// counted once for every station it belongs to.
pub open spec fn total_of(groups: Seq<GroupView>, class: PhotoType) -> nat {
    count_of(all_photos(groups), class)
}

/// The sum over the groups of the number of photographs of the class in each.
pub open spec fn sum_of_counts(groups: Seq<GroupView>, class: PhotoType) -> nat
    decreases groups.len(),
{
    if groups.len() == 0 {
        0
    } else {
        sum_of_counts(groups.drop_last(), class) + count_of(groups.last().photos, class)
    }
}

/// Every photograph is of one class or the other.
pub proof fn lemma_counts_cover(photos: Seq<PhotoView>)
    ensures
        count_of(photos, PhotoType::Normal) + count_of(photos, PhotoType::Infrared)
            == photos.len(),
    decreases photos.len(),
{
    if photos.len() > 0 {
        lemma_counts_cover(photos.drop_last());
    }
}

/// Counting in two lists one after the other is counting in each and adding.
pub proof fn lemma_count_of_concat(a: Seq<PhotoView>, b: Seq<PhotoView>, class: PhotoType)
    ensures
        count_of(a + b, class) == count_of(a, class) + count_of(b, class),
    decreases b.len(),
{
    if b.len() == 0 {
        assert(a + b =~= a);
    } else {
        lemma_count_of_concat(a, b.drop_last(), class);
        assert((a + b).drop_last() =~= a + b.drop_last());
        assert((a + b).last() == b.last());
    }
}

/// The total of a class is the sum of the counts of the stations.
pub proof fn lemma_total_is_sum_of_stations(groups: Seq<GroupView>, class: PhotoType)
    ensures
        total_of(groups, class) == sum_of_counts(groups, class),
    decreases groups.len(),
{
    if groups.len() > 0 {
        lemma_total_is_sum_of_stations(groups.drop_last(), class);
        lemma_count_of_concat(all_photos(groups.drop_last()), groups.last().photos, class);
    }
}

/// The node of a group: key and label are the station's name, and below it
/// stand the counts of its photographs.
pub open spec fn station_report(group: GroupView) -> TreeView {
    TreeView {
        key: group.station.name,
        label: group.station.name,
        children: Some(
            counts_forest(
                count_of(group.photos, PhotoType::Normal),
                count_of(group.photos, PhotoType::Infrared),
            ),
        ),
    }
}

/// The node of the totals.
pub open spec fn total_report(groups: Seq<GroupView>) -> TreeView {
    TreeView {
        key: "total"@,
        label: "总数"@,
        children: Some(
            counts_forest(
                total_of(groups, PhotoType::Normal),
                total_of(groups, PhotoType::Infrared),
            ),
        ),
    }
}

/// The report: the node of the totals, then one node for every group, in
/// the order of the groups.
pub open spec fn report(groups: Seq<GroupView>) -> Seq<TreeView> {
    seq![total_report(groups)] + Seq::new(groups.len(), |i: int| station_report(groups[i]))
}

/// The report of a matching shows, after the totals, exactly the stations
/// that have a photograph within the radius: every node is that of a station
/// of the list with at least one matched photograph, and shows its counts.
pub proof fn lemma_report_shows_matched_stations(
    stations: Seq<StationView>,
    photos: Seq<PhotoView>,
    radius: int,
)
    ensures
        report(membership(stations, photos, radius)).len() == membership(
            stations,
            photos,
            radius,
        ).len() + 1,
        forall|i: int|
            0 <= i < membership(stations, photos, radius).len() ==> {
                let group = #[trigger] membership(stations, photos, radius)[i];
                &&& report(membership(stations, photos, radius))[i + 1] == station_report(group)
                &&& stations.contains(group.station)
                &&& group.photos == matched(group.station, photos, radius)
                &&& count_of(group.photos, PhotoType::Normal) + count_of(
                    group.photos,
                    PhotoType::Infrared,
                ) > 0
            },
{
    let groups = membership(stations, photos, radius);
    lemma_membership_groups(stations, photos, radius);
    assert forall|i: int| 0 <= i < groups.len() implies count_of(
        (#[trigger] groups[i]).photos,
        PhotoType::Normal,
    ) + count_of(groups[i].photos, PhotoType::Infrared) > 0 by {
        lemma_counts_cover(groups[i].photos);
    }
}

/// The report shows as the total of each class the sum of the counts that it
/// shows for the stations: a photograph that belongs to several stations adds
/// one for each.
pub proof fn lemma_report_total_is_sum(groups: Seq<GroupView>)
    ensures
        report(groups)[0].children == Some(
            counts_forest(
                sum_of_counts(groups, PhotoType::Normal),
                sum_of_counts(groups, PhotoType::Infrared),
            ),
        ),
        forall|i: int|
            0 <= i < groups.len() ==> (#[trigger] report(groups)[i + 1]).children == Some(
                counts_forest(
                    count_of(groups[i].photos, PhotoType::Normal),
                    count_of(groups[i].photos, PhotoType::Infrared),
                ),
            ),
{
    lemma_total_is_sum_of_stations(groups, PhotoType::Normal);
    lemma_total_is_sum_of_stations(groups, PhotoType::Infrared);
}

/// The counts of the photographs of a catalog, by class.
pub fn count_photos(photos: &Catalog) -> (counts: CalcPhotoResult)
    ensures
        counts.normal == count_of(photos@, PhotoType::Normal),
        counts.infrared == count_of(photos@, PhotoType::Infrared),
{
    let mut counts = CalcPhotoResult::default();
    let mut i: usize = 0;
    assert(photos@.take(0) =~= Seq::<PhotoView>::empty());
    while i < photos.len()
        invariant
            i <= photos@.len(),
            counts.normal == count_of(photos@.take(i as int), PhotoType::Normal),
            counts.infrared == count_of(photos@.take(i as int), PhotoType::Infrared),
            counts.normal + counts.infrared == i,
        decreases photos@.len() - i,
    {
        proof {
            let longer = photos@.take(i + 1);
            assert(longer.drop_last() =~= photos@.take(i as int));
            assert(longer.last() == photos@[i as int]);
        }
        match photos.get(i).photo_type {
            PhotoType::Normal => {
                counts.normal += 1;
            },
            PhotoType::Infrared => {
                counts.infrared += 1;
            },
        }
        i += 1;
    }
    assert(photos@.take(i as int) =~= photos@);
    counts
}

/// The totals over all groups, by class.
pub fn total_counts(map: &MembershipMap) -> (counts: TotalCounts)
    ensures
        counts.normal == total_of(map@, PhotoType::Normal),
        counts.infrared == total_of(map@, PhotoType::Infrared),
{
    let mut counts = TotalCounts { normal: 0, infrared: 0 };
    let mut i: usize = 0;
    assert(map@.take(0) =~= Seq::<GroupView>::empty());
    while i < map.len()
        invariant
            i <= map@.len(),
            counts.normal == sum_of_counts(map@.take(i as int), PhotoType::Normal),
            counts.infrared == sum_of_counts(map@.take(i as int), PhotoType::Infrared),
            counts.normal <= i * 0xffff_ffff_ffff_ffff,
            counts.infrared <= i * 0xffff_ffff_ffff_ffff,
        decreases map@.len() - i,
    {
        proof {
            let longer = map@.take(i + 1);
            assert(longer.drop_last() =~= map@.take(i as int));
            assert(longer.last() == map@[i as int]);
        }
        let group = count_photos(map.photos(i));
        counts.normal = counts.normal + group.normal as u128;
        counts.infrared = counts.infrared + group.infrared as u128;
        i += 1;
    }
    proof {
        assert(map@.take(i as int) =~= map@);
        lemma_total_is_sum_of_stations(map@, PhotoType::Normal);
        lemma_total_is_sum_of_stations(map@, PhotoType::Infrared);
    }
    counts
}

fn total_nodes(map: &MembershipMap) -> (nodes: Vec<TreeNode>)
    ensures
        forest_view(nodes@) == counts_forest(
            total_of(map@, PhotoType::Normal),
            total_of(map@, PhotoType::Infrared),
        ),
{
    let totals = total_counts(map);
    counts_nodes(totals.normal, totals.infrared)
}

/// The report of a matching: the totals, then every station with its counts.
pub fn aggregate(map: &MembershipMap) -> (nodes: Vec<TreeNode>)
    ensures
        forest_view(nodes@) == report(map@),
{
    let mut nodes: Vec<TreeNode> = Vec::new();
    nodes.push(
        TreeNode::new_branch(
            String::from_str("total"),
            String::from_str("总数"),
            total_nodes(map),
        ),
    );
    assert(forest_view(nodes@) =~= seq![total_report(map@)]);
    let mut i: usize = 0;
    while i < map.len()
        invariant
            i <= map@.len(),
            forest_view(nodes@) == seq![total_report(map@)] + Seq::new(
                i as nat,
                |k: int| station_report(map@[k]),
            ),
        decreases map@.len() - i,
    {
        let ghost before = forest_view(nodes@);
        let station = map.station(i);
        let node = TreeNode::new_branch(
            station.name.clone(),
            station.name.clone(),
            count_photos(map.photos(i)).to_tree_node(),
        );
        assert(node@ == station_report(map@[i as int]));
        nodes.push(node);
        assert(forest_view(nodes@) =~= before.push(station_report(map@[i as int])));
        i += 1;
        assert(forest_view(nodes@) =~= seq![total_report(map@)] + Seq::new(
            i as nat,
            |k: int| station_report(map@[k]),
        ));
    }
    assert(forest_view(nodes@) =~= report(map@));
    nodes
}

/// The radius that `radius` writes, in metres.
pub fn parse_radius(radius: &str) -> (r: Result<Decimal, Failure>)
    ensures
        match r {
            Ok(metres) => parse_decimal(radius@) == Some(metres.nanos as int),
            Err(failure) => failure == Failure::MalformedRadius && parse_decimal(radius@) is None,
        },
{
    match Decimal::parse(radius) {
        Some(metres) => Ok(metres),
        None => Err(Failure::MalformedRadius),
    }
}

/// The session after the folder `photo_path` with `entries` was scanned and
/// its photographs were matched to the stations with `radius`: catalog, folder
/// and result are new, the stations are as before.
pub open spec fn judged(
    before: SessionView,
    radius: int,
    photo_path: Seq<char>,
    entries: Seq<FileEntryView>,
) -> SessionView {
    let photos = scan(entries, before.separator).photos;
    SessionView {
        photos,
        photos_path: photo_path,
        belong_map: membership(before.stations, photos, radius),
        ..before
    }
}

/// Scans the folder `photo_path`, whose entries are `entries`, and matches its
/// photographs to the stations of the session with the radius that `radius`
/// writes in metres. Where `radius` is not decimal text the session stays as
/// it was.
pub fn judge_photo_belong(
    session: &mut Session,
    radius: &str,
    photo_path: &str,
    entries: &Vec<FileEntry>,
) -> (r: Result<(), Failure>)
    ensures
        match r {
            Ok(_) => parse_decimal(radius@) is Some && final(session)@ == judged(
                old(session)@,
                parse_decimal(radius@)->0,
                photo_path@,
                entries_view(entries@),
            ),
            Err(failure) => failure == Failure::MalformedRadius && parse_decimal(radius@) is None
                && final(session)@ == old(session)@,
        },
{
    let metres = match parse_radius(radius) {
        Ok(metres) => metres,
        Err(failure) => {
            return Err(failure);
        },
    };
    let report = scan_entries(entries, session.separator);
    let map = match_photos(&session.stations, &report.photos, metres);
    session.photos = report.photos;
    session.photos_path = String::from_str(photo_path);
    session.belong_map = map;
    Ok(())
}

/// Scans, matches and reports: [`judge_photo_belong`], then the report of the
/// result.
pub fn calc_photo(
    session: &mut Session,
    radius: &str,
    photo_path: &str,
    entries: &Vec<FileEntry>,
) -> (r: Result<Vec<TreeNode>, Failure>)
    ensures
        match r {
            Ok(nodes) => parse_decimal(radius@) is Some && final(session)@ == judged(
                old(session)@,
                parse_decimal(radius@)->0,
                photo_path@,
                entries_view(entries@),
            ) && forest_view(nodes@) == report(final(session)@.belong_map),
            Err(failure) => failure == Failure::MalformedRadius && parse_decimal(radius@) is None
                && final(session)@ == old(session)@,
        },
{
    match judge_photo_belong(session, radius, photo_path, entries) {
        Ok(_) => Ok(aggregate(&session.belong_map)),
        Err(failure) => Err(failure),
    }
}

/// One step of copying the matched photographs out.
#[derive(Debug)]
pub enum ExportStep {
    /// Make sure that the folder of this name exists under the output folder.
    MakeFolder { name: String },
    /// Copy the file at `source` into the folder `folder` under the output
    /// folder, as `file_name`.
    CopyFile { folder: String, source: String, file_name: String },
}

/// What a step is.
pub ghost enum ExportStepView {
    MakeFolder { name: Seq<char> },
    CopyFile { folder: Seq<char>, source: Seq<char>, file_name: Seq<char> },
}

impl View for ExportStep {
    type V = ExportStepView;

    open spec fn view(&self) -> ExportStepView {
        match self {
            ExportStep::MakeFolder { name } => ExportStepView::MakeFolder { name: name@ },
            ExportStep::CopyFile { folder, source, file_name } => ExportStepView::CopyFile {
                folder: folder@,
                source: source@,
                file_name: file_name@,
            },
        }
    }
}

/// The views of a list of steps.
pub open spec fn steps_view(steps: Seq<ExportStep>) -> Seq<ExportStepView> {
    Seq::new(steps.len(), |i: int| steps[i]@)
}

/// The steps for one group: the folder named after the station, then every
/// photograph of the group into it.
pub open spec fn group_steps(group: GroupView) -> Seq<ExportStepView> {
    seq![ExportStepView::MakeFolder { name: group.station.name }] + Seq::new(
        group.photos.len(),
        |i: int|
            ExportStepView::CopyFile {
                folder: group.station.name,
                source: group.photos[i].path,
                file_name: group.photos[i].file_name,
            },
    )
}

/// The steps for all groups, group after group.
pub open spec fn export_plan(groups: Seq<GroupView>) -> Seq<ExportStepView>
    decreases groups.len(),
{
    if groups.len() == 0 {
        Seq::empty()
    } else {
        export_plan(groups.drop_last()) + group_steps(groups.last())
    }
}

/// The steps that copy every matched photograph of the session into the
/// folder of its station, in the order in which they are to be taken. The
/// first step that fails ends the export; what was copied until then stays.
pub fn move_to_output(session: &Session) -> (steps: Vec<ExportStep>)
    ensures
        steps_view(steps@) == export_plan(session@.belong_map),
{
    let map = &session.belong_map;
    let mut steps: Vec<ExportStep> = Vec::new();
    let mut i: usize = 0;
    assert(map@.take(0) =~= Seq::<GroupView>::empty());
    assert(steps_view(steps@) =~= Seq::<ExportStepView>::empty());
    while i < map.len()
        invariant
            i <= map@.len(),
            steps_view(steps@) == export_plan(map@.take(i as int)),
        decreases map@.len() - i,
    {
        let station = map.station(i);
        let photos = map.photos(i);
        let ghost group = map@[i as int];
        let ghost before = steps_view(steps@);
        proof {
            let longer = map@.take(i + 1);
            assert(longer.drop_last() =~= map@.take(i as int));
            assert(longer.last() == group);
        }
        steps.push(ExportStep::MakeFolder { name: station.name.clone() });
        assert(steps_view(steps@) =~= before + group_steps(group).take(1));
        let mut k: usize = 0;
        while k < photos.len()
            invariant
                k <= photos@.len(),
                photos@ == group.photos,
                station@ == group.station,
                steps_view(steps@) == before + group_steps(group).take(k + 1),
            decreases photos@.len() - k,
        {
            let photo = photos.get(k);
            let ghost so_far = steps_view(steps@);
            let step = ExportStep::CopyFile {
                folder: station.name.clone(),
                source: photo.path.clone(),
                file_name: photo.file_name.clone(),
            };
            assert(step@ == group_steps(group)[k + 1]);
            steps.push(step);
            assert(steps_view(steps@) =~= so_far.push(step@));
            k += 1;
            assert(steps_view(steps@) =~= before + group_steps(group).take(k + 1));
        }
        assert(group_steps(group).take(k + 1) =~= group_steps(group));
        i += 1;
    }
    assert(map@.take(i as int) =~= map@);
    steps
}

} // verus!
