//! The points for which each office publishes temperature forecasts.

use crate::area::{Area, AreaView};
use crate::table::CodeTable;
use vstd::prelude::*;

verus! {

/// One place for which an office publishes temperature forecasts.
#[derive(Debug, PartialEq, Eq)]
pub struct ForecastPoint {
    pub area: Area,
}

/// What a [`ForecastPoint`] holds, as mathematical values.
pub struct ForecastPointView {
    pub area: AreaView,
}

impl View for ForecastPoint {
    type V = ForecastPointView;

    open spec fn view(&self) -> ForecastPointView {
        ForecastPointView { area: self.area@ }
    }
}

impl Clone for ForecastPoint {
    fn clone(&self) -> (point: ForecastPoint)
        ensures
            point@ == self@,
    {
        ForecastPoint { area: self.area.clone() }
    }
}

/// The views of a list of points.
pub open spec fn point_views(points: Seq<ForecastPoint>) -> Seq<ForecastPointView> {
    points.map_values(|p: ForecastPoint| p@)
}

/// The views of a list of borrowed points.
pub open spec fn point_views_of(points: Seq<&ForecastPoint>) -> Seq<ForecastPointView> {
    points.map_values(|p: &ForecastPoint| p@)
}

/// For each office code the points of that office, in the order in which
/// the office lists them.
pub struct ForecastPointSet {
    table: CodeTable<Vec<ForecastPoint>>,
}

impl View for ForecastPointSet {
    type V = Map<Seq<char>, Seq<ForecastPointView>>;

    closed spec fn view(&self) -> Map<Seq<char>, Seq<ForecastPointView>> {
        self.table@.map_values(|points: Vec<ForecastPoint>| point_views(points@))
    }
}

/// The points of `office_code`, in the office's order; none where the
/// office has no entry.
pub open spec fn points_of(
    forecasts: Map<Seq<char>, Seq<ForecastPointView>>,
    office_code: Seq<char>,
) -> Seq<ForecastPointView> {
    if forecasts.contains_key(office_code) {
        forecasts[office_code]
    } else {
        Seq::empty()
    }
}

impl ForecastPointSet {
    /// The set without offices.
    pub fn new() -> (forecasts: ForecastPointSet)
        ensures
            forecasts@ == Map::<Seq<char>, Seq<ForecastPointView>>::empty(),
    {
        let forecasts = ForecastPointSet { table: CodeTable::new() };
        assert(forecasts@ =~= Map::<Seq<char>, Seq<ForecastPointView>>::empty());
        forecasts
    }

    /// Records `points` as the points of `office_code`, in place of an
    /// earlier entry for that office.
    pub fn insert(&mut self, office_code: &str, points: Vec<ForecastPoint>)
        ensures
            final(self)@ == old(self)@.insert(office_code@, point_views(points@)),
    {
        self.table.insert(office_code.to_owned(), points);
        assert(self@ =~= old(self)@.insert(office_code@, point_views(points@)));
    }

    /// The points of `office_code`, in the office's order; none where the
    /// office has no entry.
    pub fn points_for(&self, office_code: &str) -> (points: Vec<&ForecastPoint>)
        ensures
            point_views_of(points@) == points_of(self@, office_code@),
    {
        let code: String = office_code.to_owned();
        let mut points: Vec<&ForecastPoint> = Vec::new();
        match self.table.get(&code) {
            Some(list) => {
                let mut i: usize = 0;
                while i < list.len()
                    invariant
                        i <= list.len(),
                        points@.len() == i,
                        forall|k: int| 0 <= k < i ==> points@[k]@ == list@[k]@,
                    decreases list.len() - i,
                {
                    points.push(&list[i]);
                    i += 1;
                }
                assert(point_views_of(points@) =~= point_views(list@));
            },
            None => {
                assert(point_views_of(points@) =~= Seq::empty());
            },
        }
        points
    }
}

} // verus!
