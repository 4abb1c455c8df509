//! Airports and the lookup of the airport at a position.
//!
//! An airport covers a box between two meridians and two parallels. The
//! lookup is a test of the position against the boxes; it measures no
//! distance.

use crate::geo::LatLon;
use vstd::prelude::*;

verus! {

/// The ground of an airport: the box between the meridians `left_lonx` and
/// `right_lonx` and the parallels `bottom_laty` and `top_laty`, in
/// coordinate units, its edges included.
#[derive(Clone, Copy, Debug, PartialEq, Eq, Structural)]
pub struct BoundingBox {
    pub left_lonx: i64,
    pub right_lonx: i64,
    pub bottom_laty: i64,
    pub top_laty: i64,
}

impl BoundingBox {
    /// Whether `position` lies in the box.
    pub open spec fn spec_contains(self, position: LatLon) -> bool {
        &&& self.left_lonx <= position.lon <= self.right_lonx
        &&& self.bottom_laty <= position.lat <= self.top_laty
    }

    /// Whether the two boxes have a point in common.
    pub open spec fn overlaps(self, other: BoundingBox) -> bool {
        &&& self.left_lonx <= other.right_lonx
        &&& other.left_lonx <= self.right_lonx
        &&& self.bottom_laty <= other.top_laty
        &&& other.bottom_laty <= self.top_laty
    }

    /// Decides `spec_contains`.
    #[verifier::when_used_as_spec(spec_contains)]
    pub fn contains(self, position: LatLon) -> (inside: bool)
        ensures
            inside == self.spec_contains(position),
    {
        self.left_lonx <= position.lon && position.lon <= self.right_lonx && self.bottom_laty
            <= position.lat && position.lat <= self.top_laty
    }
}

/// An airport of the navigation database, with its box where the database
/// gave one.
#[derive(Debug)]
pub struct Airport {
    pub id: i64,
    pub ident: String,
    pub position: LatLon,
    pub bounds: Option<BoundingBox>,
}

/// An `Airport` with its identifier as a sequence of characters.
pub struct AirportView {
    pub id: i64,
    pub ident: Seq<char>,
    pub position: LatLon,
    pub bounds: Option<BoundingBox>,
}

impl AirportView {
    /// Whether `position` lies on the airport's ground. An airport without a
    /// box has no ground.
    pub open spec fn covers(self, position: LatLon) -> bool {
        self.bounds matches Some(bounds) && bounds.contains(position)
    }
}

impl View for Airport {
    type V = AirportView;

    open spec fn view(&self) -> AirportView {
        AirportView {
            id: self.id,
            ident: self.ident@,
            position: self.position,
            bounds: self.bounds,
        }
    }
}

impl Clone for Airport {
    fn clone(&self) -> (copy: Airport)
        ensures
            copy == *self,
    {
        Airport {
            id: self.id,
            ident: self.ident.clone(),
            position: self.position,
            bounds: self.bounds,
        }
    }
}

impl Airport {
    /// Decides `AirportView::covers`.
    pub fn covers(&self, position: LatLon) -> (inside: bool)
        ensures
            inside == self@.covers(position),
    {
        match self.bounds {
            Some(bounds) => bounds.contains(position),
            None => false,
        }
    }
}

/// Airports as the contracts see them.
pub open spec fn airports_view(airports: Seq<Airport>) -> Seq<AirportView> {
    airports.map_values(|airport: Airport| airport@)
}

/// The airport at `position`: the first in `airports` that covers it.
pub open spec fn containing(airports: Seq<AirportView>, position: LatLon) -> Option<AirportView>
    decreases airports.len(),
{
    if airports.len() == 0 {
        None
    } else if airports[0].covers(position) {
        Some(airports[0])
    } else {
        containing(airports.skip(1), position)
    }
}

/// No two airports share ground.
pub open spec fn disjoint(airports: Seq<AirportView>) -> bool {
    forall|i: int, j: int|
        0 <= i < j < airports.len() && (#[trigger] airports[i]).bounds is Some && (
        #[trigger] airports[j]).bounds is Some ==> !airports[i].bounds->Some_0.overlaps(
            airports[j].bounds->Some_0,
        )
}

/// Finds the airport at `position`, as `containing` says. Where several
/// airports cover the position, the one that stands first in `airports` is
/// found; the order of `airports` is the caller's.
pub fn find_containing(airports: &Vec<Airport>, position: LatLon) -> (found: Option<Airport>)
    ensures
        match containing(airports_view(airports@), position) {
            Some(airport) => found matches Some(at) && at@ == airport,
            None => found is None,
        },
{
    let ghost all = airports_view(airports@);
    let mut i: usize = 0;
    assert(all.skip(0) =~= all);
    while i < airports.len()
        invariant
            i <= airports@.len(),
            all == airports_view(airports@),
            containing(all, position) == containing(all.skip(i as int), position),
        decreases airports@.len() - i,
    {
        proof {
            let rest = all.skip(i as int);
            assert(rest[0] == airports@[i as int]@);
            assert(rest.skip(1) =~= all.skip(i + 1));
        }
        if airports[i].covers(position) {
            return Some(airports[i].clone());
        }
        i += 1;
    }
    proof {
        assert(all.skip(i as int).len() == 0);
    }
    None
}

/// What the lookup finds covers the position, and it finds nothing only
/// where no airport covers it.
pub proof fn lemma_containing(airports: Seq<AirportView>, position: LatLon)
    ensures
        containing(airports, position) matches Some(found) ==> found.covers(position)
            && airports.contains(found),
        containing(airports, position) is None <==> forall|i: int|
            0 <= i < airports.len() ==> !(#[trigger] airports[i]).covers(position),
    decreases airports.len(),
{
    if airports.len() == 0 {
    } else if airports[0].covers(position) {
    } else {
        let rest = airports.skip(1);
        lemma_containing(rest, position);
        if containing(rest, position) is None {
            assert forall|i: int| 0 <= i < airports.len() implies !(
            #[trigger] airports[i]).covers(position) by {
                if i > 0 {
                    assert(rest[i - 1] == airports[i]);
                }
            }
        } else {
            let found = containing(rest, position)->Some_0;
            let at = choose|i: int| 0 <= i < rest.len() && rest[i] == found;
            assert(airports[at + 1] == found);
        }
    }
}

/// Where no two airports share ground, the airport at a position is the
/// only one that covers it: whichever airport covers the position is the
/// one found.
pub proof fn lemma_containing_unique(airports: Seq<AirportView>, position: LatLon, at: int)
    requires
        disjoint(airports),
        0 <= at < airports.len(),
        airports[at].covers(position),
    ensures
        containing(airports, position) == Some(airports[at]),
    decreases airports.len(),
{
    if at == 0 {
    } else {
        if airports[0].covers(position) {
            assert(airports[0].bounds->Some_0.overlaps(airports[at].bounds->Some_0));
            assert(false);
        }
        let rest = airports.skip(1);
        assert(disjoint(rest)) by {
            assert forall|i: int, j: int|
                0 <= i < j < rest.len() && (#[trigger] rest[i]).bounds is Some && (
                #[trigger] rest[j]).bounds is Some implies !rest[i].bounds->Some_0.overlaps(
                rest[j].bounds->Some_0,
            ) by {
                assert(rest[i] == airports[i + 1]);
                assert(rest[j] == airports[j + 1]);
            }
        }
        assert(rest[at - 1] == airports[at]);
        lemma_containing_unique(rest, position, at - 1);
    }
}

} // verus!
