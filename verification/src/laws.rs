//! What holds of every resolution, proved from its definition.

use crate::area::{AreaClass, AreaView};
use crate::catalog::{
    ancestor_of, ancestor_within, chain_sound, find_area, leaf_matches, links_avoid,
    name_matches, reaches_root, reaches_root_within, search_areas, search_leaves, MAX_HOPS,
};
use crate::forecast::{points_of, ForecastPointView};
use crate::resolver::{
    after_candidate, distinct_points, emit, forecast_offices_of, has_point, notes_of,
    office_read, offices_read, outcome_of, record_of, resolution_of, resolve_candidates,
    station_matches, Datasets, DiagnosticView, Outcome, Resolution, ResolutionView,
    ResultRecordView,
};
use crate::station::stations_of;
use crate::text::is_substring;
use vstd::prelude::*;

verus! {

/// What a filter keeps: the members of the sequence that pass the test.
proof fn lemma_filter_keeps<A>(s: Seq<A>, pred: spec_fn(A) -> bool, a: A)
    ensures
        s.filter(pred).contains(a) <==> s.contains(a) && pred(a),
{
    if s.filter(pred).contains(a) {
        s.lemma_filter_contains_rev(pred, a);
        let i = choose|i: int| 0 <= i < s.filter(pred).len() && s.filter(pred)[i] == a;
        s.lemma_filter_pred(pred, i);
    }
    if s.contains(a) && pred(a) {
        let i = choose|i: int| 0 <= i < s.len() && s[i] == a;
        s.lemma_filter_contains(pred, i);
    }
}

/// The plain search finds the areas whose name contains the query, and no
/// others; the search for candidates finds those of them that are `Class20`.
pub proof fn lemma_search_finds_exactly(areas: Seq<AreaView>, query: Seq<char>, area: AreaView)
    ensures
        search_areas(areas, query).contains(area) <==> areas.contains(area) && is_substring(
            area.name,
            query,
        ),
        search_leaves(areas, query).contains(area) <==> areas.contains(area) && area.class
            == AreaClass::Class20 && is_substring(area.name, query),
{
    lemma_filter_keeps(areas, name_matches(query), area);
    lemma_filter_keeps(areas, leaf_matches(query), area);
}

/// A node that a walk of at most `hops` links finds is of the level that
/// was asked for.
pub proof fn lemma_walk_finds_level(
    areas: Seq<AreaView>,
    start: AreaView,
    target: AreaClass,
    hops: nat,
)
    ensures
        ancestor_within(areas, start, target, hops) matches Some(found) ==> found.class == target,
    decreases hops,
{
    if hops > 0 {
        if let Some(code) = start.parent {
            if let Some(up) = find_area(areas, code) {
                lemma_walk_finds_level(areas, up, target, (hops - 1) as nat);
            }
        }
    }
}

/// A walk that finds a node finds the same node when it may follow one
/// link more: the limit only ends walks that have found nothing.
pub proof fn lemma_walk_stable(areas: Seq<AreaView>, start: AreaView, target: AreaClass, hops: nat)
    requires
        ancestor_within(areas, start, target, hops) is Some,
    ensures
        ancestor_within(areas, start, target, hops + 1) == ancestor_within(
            areas,
            start,
            target,
            hops,
        ),
    decreases hops,
{
    let up = find_area(areas, start.parent.unwrap()).unwrap();
    if up.class != target {
        lemma_walk_stable(areas, up, target, (hops - 1) as nat);
    }
}

/// An ancestor that is found is of the level that was asked for, whatever
/// the catalog holds.
pub proof fn lemma_ancestor_has_level(areas: Seq<AreaView>, start: AreaView, target: AreaClass)
    ensures
        ancestor_of(areas, start, target) matches Some(found) ==> found.class == target,
{
    lemma_walk_finds_level(areas, start, target, MAX_HOPS as nat);
}

/// Where the hierarchy is sound along its parent links, a node reaches a
/// root within as many links as its level lies below `Center`.
pub proof fn lemma_sound_chain_reaches_root(areas: Seq<AreaView>, start: AreaView, hops: nat)
    requires
        chain_sound(areas, start),
        start.class.depth() <= hops,
    ensures
        reaches_root_within(areas, start, hops),
    decreases hops,
{
    if let Some(code) = start.parent {
        let up = find_area(areas, code).unwrap();
        lemma_sound_chain_reaches_root(areas, up, (hops - 1) as nat);
    }
}

/// Where the hierarchy is sound along its parent links, a node has an
/// ancestor at each level above its own, within as many links as lie
/// between the two.
pub proof fn lemma_sound_chain_has_ancestor(
    areas: Seq<AreaView>,
    start: AreaView,
    target: AreaClass,
    hops: nat,
)
    requires
        chain_sound(areas, start),
        target.depth() < start.class.depth(),
        start.class.depth() - target.depth() <= hops,
    ensures
        ancestor_within(areas, start, target, hops) is Some,
    decreases hops,
{
    let up = find_area(areas, start.parent.unwrap()).unwrap();
    if up.class != target {
        lemma_sound_chain_has_ancestor(areas, up, target, (hops - 1) as nat);
    }
}

/// Where the hierarchy is sound along the parent links of a `Class20`
/// area, the area has its `Class10` and its `Office` ancestor and reaches a
/// root: a candidate fails for want of an ancestor only over a broken
/// hierarchy.
pub proof fn lemma_sound_candidate_has_ancestors(areas: Seq<AreaView>, candidate: AreaView)
    requires
        candidate.class == AreaClass::Class20,
        chain_sound(areas, candidate),
    ensures
        ancestor_of(areas, candidate, AreaClass::Class10) is Some,
        ancestor_of(areas, candidate, AreaClass::Office) is Some,
        reaches_root(areas, candidate),
{
    lemma_sound_chain_has_ancestor(areas, candidate, AreaClass::Class10, MAX_HOPS as nat);
    lemma_sound_chain_has_ancestor(areas, candidate, AreaClass::Office, MAX_HOPS as nat);
    lemma_sound_chain_reaches_root(areas, candidate, MAX_HOPS as nat);
}

/// Two resolutions of one query over the same datasets hold the same
/// records and the same diagnostics, in the same order.
pub proof fn lemma_same_inputs_same_resolution(
    first: Resolution,
    second: Resolution,
    data: Datasets,
    query: Seq<char>,
    verbose: bool,
)
    requires
        first@ == resolution_of(data, query, verbose),
        second@ == resolution_of(data, query, verbose),
    ensures
        first@.records == second@.records,
        first@.diagnostics == second@.diagnostics,
{
}

/// Emitting keeps the records that were there, in their places.
pub proof fn lemma_emit_keeps(
    records: Seq<ResultRecordView>,
    office: AreaView,
    matches: Seq<ForecastPointView>,
)
    ensures
        records.len() <= emit(records, office, matches).len(),
        forall|i: int|
            0 <= i < records.len() ==> (#[trigger] emit(records, office, matches)[i]) == records[i],
    decreases matches.len(),
{
    if matches.len() > 0 {
        lemma_emit_keeps(records, office, matches.drop_last());
    }
}

/// Emitting into records of distinct points gives records of distinct points.
pub proof fn lemma_emit_distinct(
    records: Seq<ResultRecordView>,
    office: AreaView,
    matches: Seq<ForecastPointView>,
)
    requires
        distinct_points(records),
    ensures
        distinct_points(emit(records, office, matches)),
    decreases matches.len(),
{
    if matches.len() > 0 {
        lemma_emit_distinct(records, office, matches.drop_last());
        let before = emit(records, office, matches.drop_last());
        let code = matches.last().area.code;
        if !has_point(before, code) {
            let after = before.push(record_of(office, matches.last()));
            assert forall|i: int, j: int| 0 <= i < j < after.len() implies (#[trigger] after[i]).point_code
                != (#[trigger] after[j]).point_code by {
                if j == before.len() {
                    assert(before[i].point_code != code);
                } else {
                    assert(before[i].point_code != before[j].point_code);
                }
            }
        }
    }
}

/// Whether `record` is the record of one of `matches`, published by `office`.
pub open spec fn from_matches(
    office: AreaView,
    matches: Seq<ForecastPointView>,
    record: ResultRecordView,
) -> bool {
    exists|k: int| 0 <= k < matches.len() && record == record_of(office, #[trigger] matches[k])
}

/// Each record that emitting adds is the record of one of the matches.
pub proof fn lemma_emit_adds_matches(
    records: Seq<ResultRecordView>,
    office: AreaView,
    matches: Seq<ForecastPointView>,
)
    ensures
        forall|i: int|
            records.len() <= i < emit(records, office, matches).len() ==> from_matches(
                office,
                matches,
                #[trigger] emit(records, office, matches)[i],
            ),
    decreases matches.len(),
{
    if matches.len() > 0 {
        let front = matches.drop_last();
        lemma_emit_adds_matches(records, office, front);
        lemma_emit_keeps(records, office, front);
        let before = emit(records, office, front);
        let after = emit(records, office, matches);
        assert forall|i: int| records.len() <= i < after.len() implies from_matches(
            office,
            matches,
            #[trigger] after[i],
        ) by {
            if i < before.len() {
                assert(after[i] == before[i]);
                assert(from_matches(office, front, before[i]));
                let k = choose|k: int|
                    0 <= k < front.len() && before[i] == record_of(office, #[trigger] front[k]);
                assert(matches[k] == front[k]);
            } else {
                assert(after[i] == record_of(office, matches[matches.len() - 1]));
            }
        }
    }
}

/// After emitting, each of the matches has a record.
pub proof fn lemma_emit_covers(
    records: Seq<ResultRecordView>,
    office: AreaView,
    matches: Seq<ForecastPointView>,
    k: int,
)
    requires
        0 <= k < matches.len(),
    ensures
        has_point(emit(records, office, matches), matches[k].area.code),
    decreases matches.len(),
{
    let front = matches.drop_last();
    let before = emit(records, office, front);
    let after = emit(records, office, matches);
    if k < matches.len() - 1 {
        lemma_emit_covers(records, office, front, k);
        let i = choose|i: int|
            0 <= i < before.len() && (#[trigger] before[i]).point_code == front[k].area.code;
        if !has_point(before, matches.last().area.code) {
            assert(after[i] == before[i]);
        }
        assert(after[i].point_code == matches[k].area.code);
    } else {
        if !has_point(before, matches.last().area.code) {
            assert(after[before.len() as int].point_code == matches[k].area.code);
        }
    }
}

/// A point that has a record keeps it when more is emitted.
pub proof fn lemma_emit_keeps_points(
    records: Seq<ResultRecordView>,
    office: AreaView,
    matches: Seq<ForecastPointView>,
    code: Seq<char>,
)
    requires
        has_point(records, code),
    ensures
        has_point(emit(records, office, matches), code),
{
    lemma_emit_keeps(records, office, matches);
    let i = choose|i: int| 0 <= i < records.len() && (#[trigger] records[i]).point_code == code;
    assert(emit(records, office, matches)[i].point_code == code);
}

/// Taking one more candidate keeps the records that were there, and keeps
/// their points distinct.
pub proof fn lemma_after_candidate_keeps(data: Datasets, before: ResolutionView, candidate: AreaView, verbose: bool)
    ensures
        before.records.len() <= after_candidate(data, before, candidate, verbose).records.len(),
        forall|i: int|
            0 <= i < before.records.len() ==> (#[trigger] after_candidate(
                data,
                before,
                candidate,
                verbose,
            ).records[i]) == before.records[i],
        distinct_points(before.records) ==> distinct_points(
            after_candidate(data, before, candidate, verbose).records,
        ),
{
    match outcome_of(data, candidate) {
        Outcome::Skipped { .. } => {},
        Outcome::Matched { office, matches } => {
            lemma_emit_keeps(before.records, office, matches);
            if distinct_points(before.records) {
                lemma_emit_distinct(before.records, office, matches);
            }
        },
    }
}

/// The records of the first `k` candidates open the records of all of
/// them: a later candidate adds records behind those that are there and
/// moves none.
pub proof fn lemma_records_grow(data: Datasets, candidates: Seq<AreaView>, k: int, verbose: bool)
    requires
        0 <= k <= candidates.len(),
    ensures
        resolve_candidates(data, candidates.take(k), verbose).records.is_prefix_of(
            resolve_candidates(data, candidates, verbose).records,
        ),
    decreases candidates.len() - k,
{
    if k == candidates.len() {
        assert(candidates.take(k) =~= candidates);
    } else {
        lemma_records_grow(data, candidates, k + 1, verbose);
        assert(candidates.take(k + 1).drop_last() =~= candidates.take(k));
        lemma_after_candidate_keeps(
            data,
            resolve_candidates(data, candidates.take(k), verbose),
            candidates.take(k + 1).last(),
            verbose,
        );
    }
}

/// Within the resolution of any candidates, no two records are for the same point.
pub proof fn lemma_candidates_points_distinct(data: Datasets, candidates: Seq<AreaView>, verbose: bool)
    ensures
        distinct_points(resolve_candidates(data, candidates, verbose).records),
    decreases candidates.len(),
{
    if candidates.len() > 0 {
        lemma_candidates_points_distinct(data, candidates.drop_last(), verbose);
        lemma_after_candidate_keeps(
            data,
            resolve_candidates(data, candidates.drop_last(), verbose),
            candidates.last(),
            verbose,
        );
    }
}

/// Within the resolution of one query no two records are for the same
/// point, also where the stations of two candidates overlap.
pub proof fn lemma_points_distinct(data: Datasets, query: Seq<char>, verbose: bool)
    ensures
        distinct_points(resolution_of(data, query, verbose).records),
{
    lemma_candidates_points_distinct(data, search_leaves(data.areas, query), verbose);
}

/// A query that no `Class20` area matches gives no record and the one
/// diagnostic `QueryNotFound`.
pub proof fn lemma_no_candidate(data: Datasets, query: Seq<char>, verbose: bool)
    requires
        search_leaves(data.areas, query).len() == 0,
    ensures
        resolution_of(data, query, verbose).records == Seq::<ResultRecordView>::empty(),
        resolution_of(data, query, verbose).diagnostics == seq![DiagnosticView::QueryNotFound { query }],
{
}

/// The `Class10` ancestor of `candidate` has no entry in the station index,
/// or an entry without stations.
pub open spec fn without_stations(data: Datasets, candidate: AreaView) -> bool {
    ancestor_of(data.areas, candidate, AreaClass::Class10) matches Some(class10) && (stations_of(
        data.stations,
        class10.code,
    ) matches Some(stations) ==> stations == Set::<Seq<char>>::empty())
}

/// A candidate whose `Class10` ancestor has no stations adds no record.
pub proof fn lemma_without_stations_adds_nothing(
    data: Datasets,
    before: ResolutionView,
    candidate: AreaView,
    verbose: bool,
)
    requires
        without_stations(data, candidate),
    ensures
        after_candidate(data, before, candidate, verbose).records == before.records,
{
    let class10 = ancestor_of(data.areas, candidate, AreaClass::Class10).unwrap();
    if let Some(office) = ancestor_of(data.areas, candidate, AreaClass::Office) {
        if let Some(stations) = stations_of(data.stations, class10.code) {
            let points = points_of(data.forecasts, office.code);
            let matches = points.filter(station_matches(stations));
            if matches.len() > 0 {
                points.lemma_filter_pred(station_matches(stations), 0);
                assert(stations.contains(matches[0].area.code));
            }
        }
    }
}

/// A candidate whose `Class10` ancestor has no stations leaves the records
/// of the other candidates as they are without it.
pub proof fn lemma_without_stations_leaves_others(
    data: Datasets,
    candidates: Seq<AreaView>,
    i: int,
    verbose: bool,
)
    requires
        0 <= i < candidates.len(),
        without_stations(data, candidates[i]),
    ensures
        resolve_candidates(data, candidates, verbose).records == resolve_candidates(
            data,
            candidates.remove(i),
            verbose,
        ).records,
    decreases candidates.len(),
{
    let front = candidates.drop_last();
    if i == candidates.len() - 1 {
        assert(candidates.remove(i) =~= front);
        lemma_without_stations_adds_nothing(
            data,
            resolve_candidates(data, front, verbose),
            candidates.last(),
            verbose,
        );
    } else {
        lemma_without_stations_leaves_others(data, front, i, verbose);
        assert(candidates.remove(i).drop_last() =~= front.remove(i));
        assert(candidates.remove(i).last() == candidates.last());
    }
}

/// Whether `record` is the record of a match of one of `candidates`.
pub open spec fn backed(data: Datasets, candidates: Seq<AreaView>, record: ResultRecordView) -> bool {
    exists|c: int|
        0 <= c < candidates.len() && (outcome_of(data, #[trigger] candidates[c]) matches Outcome::Matched {
            office,
            matches,
        } && from_matches(office, matches, record))
}

/// Each record of a resolution is the record of a point that matched for
/// one of the candidates: nothing is made up.
pub proof fn lemma_records_backed(data: Datasets, candidates: Seq<AreaView>, verbose: bool)
    ensures
        forall|i: int|
            0 <= i < resolve_candidates(data, candidates, verbose).records.len() ==> backed(
                data,
                candidates,
                #[trigger] resolve_candidates(data, candidates, verbose).records[i],
            ),
    decreases candidates.len(),
{
    if candidates.len() > 0 {
        let front = candidates.drop_last();
        let last = candidates.last();
        let before = resolve_candidates(data, front, verbose);
        let after = resolve_candidates(data, candidates, verbose);
        lemma_records_backed(data, front, verbose);
        lemma_after_candidate_keeps(data, before, last, verbose);
        assert forall|i: int| 0 <= i < after.records.len() implies backed(
            data,
            candidates,
            #[trigger] after.records[i],
        ) by {
            if i < before.records.len() {
                assert(after.records[i] == before.records[i]);
                assert(backed(data, front, before.records[i]));
                let c = choose|c: int|
                    0 <= c < front.len() && (outcome_of(data, #[trigger] front[c]) matches Outcome::Matched {
                        office,
                        matches,
                    } && from_matches(office, matches, before.records[i]));
                assert(candidates[c] == front[c]);
            } else {
                match outcome_of(data, last) {
                    Outcome::Skipped { .. } => {},
                    Outcome::Matched { office, matches } => {
                        lemma_emit_adds_matches(before.records, office, matches);
                        assert(candidates[candidates.len() - 1] == last);
                    },
                }
            }
        }
    }
}

/// Each point that matched for one of the candidates has a record: nothing
/// is lost, though the record may come from an earlier candidate.
pub proof fn lemma_matches_recorded(data: Datasets, candidates: Seq<AreaView>, c: int, k: int, verbose: bool)
    requires
        0 <= c < candidates.len(),
        outcome_of(data, candidates[c]) matches Outcome::Matched { office, matches } && 0 <= k
            < matches.len(),
    ensures
        outcome_of(data, candidates[c]) matches Outcome::Matched { office, matches } && has_point(
            resolve_candidates(data, candidates, verbose).records,
            matches[k].area.code,
        ),
    decreases candidates.len(),
{
    let front = candidates.drop_last();
    let last = candidates.last();
    let before = resolve_candidates(data, front, verbose);
    if c == candidates.len() - 1 {
        match outcome_of(data, last) {
            Outcome::Skipped { .. } => {},
            Outcome::Matched { office, matches } => {
                lemma_emit_covers(before.records, office, matches, k);
            },
        }
    } else {
        lemma_matches_recorded(data, front, c, k, verbose);
        let code = outcome_of(data, candidates[c])->matches[k].area.code;
        match outcome_of(data, last) {
            Outcome::Skipped { .. } => {},
            Outcome::Matched { office, matches } => {
                lemma_emit_keeps_points(before.records, office, matches, code);
            },
        }
    }
}

/// Each office that one of the candidates reads is among the offices read.
pub proof fn lemma_office_listed(
    areas: Seq<AreaView>,
    stations: Map<Seq<char>, Set<Seq<char>>>,
    candidates: Seq<AreaView>,
    c: int,
)
    requires
        0 <= c < candidates.len(),
        office_read(areas, stations, candidates[c]) is Some,
    ensures
        offices_read(areas, stations, candidates).contains(
            office_read(areas, stations, candidates[c]).unwrap(),
        ),
    decreases candidates.len(),
{
    let front = candidates.drop_last();
    let before = offices_read(areas, stations, front);
    let after = offices_read(areas, stations, candidates);
    let code = office_read(areas, stations, candidates[c]).unwrap();
    if c < candidates.len() - 1 {
        lemma_office_listed(areas, stations, front, c);
        let i = choose|i: int| 0 <= i < before.len() && before[i] == code;
        assert(after[i] == code);
    } else {
        if before.contains(code) {
        } else {
            assert(after[before.len() as int] == code);
        }
    }
}

/// The two datasets hold the same areas and stations, and the same points
/// for each of `offices`.
pub open spec fn agree_on(first: Datasets, second: Datasets, offices: Seq<Seq<char>>) -> bool {
    &&& first.areas == second.areas
    &&& first.stations == second.stations
    &&& forall|code: Seq<char>| #[trigger]
        offices.contains(code) ==> points_of(first.forecasts, code) == points_of(
            second.forecasts,
            code,
        )
}

/// Candidates resolve alike over datasets that agree on the offices that
/// they read.
pub proof fn lemma_candidates_read_listed_offices(
    first: Datasets,
    second: Datasets,
    candidates: Seq<AreaView>,
    offices: Seq<Seq<char>>,
    verbose: bool,
)
    requires
        agree_on(first, second, offices),
        forall|code: Seq<char>| #[trigger]
            offices_read(first.areas, first.stations, candidates).contains(code)
                ==> offices.contains(code),
    ensures
        resolve_candidates(first, candidates, verbose) == resolve_candidates(second, candidates, verbose),
    decreases candidates.len(),
{
    if candidates.len() > 0 {
        let front = candidates.drop_last();
        let last = candidates.last();
        let before = offices_read(first.areas, first.stations, front);
        let after = offices_read(first.areas, first.stations, candidates);
        assert forall|code: Seq<char>| #[trigger] before.contains(code) implies offices.contains(
            code,
        ) by {
            let i = choose|i: int| 0 <= i < before.len() && before[i] == code;
            assert(after[i] == code);
            assert(after.contains(code));
        }
        lemma_candidates_read_listed_offices(first, second, front, offices, verbose);
        if let Some(code) = office_read(first.areas, first.stations, last) {
            lemma_office_listed(first.areas, first.stations, candidates, candidates.len() - 1);
            assert(offices.contains(code));
        }
        assert(outcome_of(first, last) == outcome_of(second, last));
    }
}

/// The resolution of a query reads the points of no office but those that
/// `forecast_offices` lists: over datasets that agree on these it is the same.
pub proof fn lemma_resolution_reads_listed_offices(
    first: Datasets,
    second: Datasets,
    query: Seq<char>,
    verbose: bool,
)
    requires
        agree_on(first, second, forecast_offices_of(first.areas, first.stations, query)),
    ensures
        resolution_of(first, query, verbose) == resolution_of(second, query, verbose),
{
    lemma_candidates_read_listed_offices(
        first,
        second,
        search_leaves(first.areas, query),
        forecast_offices_of(first.areas, first.stations, query),
        verbose,
    );
}

/// The records of a resolution do not depend on whether verbose output is
/// asked for.
pub proof fn lemma_records_whatever_verbosity(data: Datasets, candidates: Seq<AreaView>)
    ensures
        resolve_candidates(data, candidates, true).records == resolve_candidates(
            data,
            candidates,
            false,
        ).records,
    decreases candidates.len(),
{
    if candidates.len() > 0 {
        lemma_records_whatever_verbosity(data, candidates.drop_last());
    }
}

/// Without verbose output a candidate leaves at most one diagnostic: none
/// where it gives records or where its area has no entry in the station
/// index, else the one that says why it gives none.
pub proof fn lemma_quiet_notes(data: Datasets, candidate: AreaView)
    ensures
        notes_of(data, candidate, false) == match outcome_of(data, candidate) {
            Outcome::Matched { .. } => Seq::<DiagnosticView>::empty(),
            Outcome::Skipped { why } => if why is NoStationsForArea {
                Seq::<DiagnosticView>::empty()
            } else {
                seq![why]
            },
        },
{
    match outcome_of(data, candidate) {
        Outcome::Matched { .. } => {},
        Outcome::Skipped { why } => {
            assert(!(why is CandidateFound) && !(why is TemperaturePoint));
            assert(Seq::<DiagnosticView>::empty().push(why) =~= seq![why]);
        },
    }
}

/// Taking away an area of another code changes no lookup.
pub proof fn lemma_find_area_remove(areas: Seq<AreaView>, i: int, code: Seq<char>)
    requires
        0 <= i < areas.len(),
        areas[i].code != code,
    ensures
        find_area(areas.remove(i), code) == find_area(areas, code),
    decreases areas.len(),
{
    let front = areas.drop_last();
    if i == areas.len() - 1 {
        assert(areas.remove(i) =~= front);
    } else {
        lemma_find_area_remove(front, i, code);
        assert(areas.remove(i).drop_last() =~= front.remove(i));
        assert(areas.remove(i).last() == areas.last());
    }
}

/// A walk that does not pass through an area of the code of `areas[i]` is
/// the same walk when that area is taken away.
pub proof fn lemma_walk_without_area(
    areas: Seq<AreaView>,
    i: int,
    start: AreaView,
    target: AreaClass,
    hops: nat,
)
    requires
        0 <= i < areas.len(),
        links_avoid(areas, start, areas[i].code, hops),
    ensures
        ancestor_within(areas.remove(i), start, target, hops) == ancestor_within(
            areas,
            start,
            target,
            hops,
        ),
        reaches_root_within(areas.remove(i), start, hops) == reaches_root_within(
            areas,
            start,
            hops,
        ),
    decreases hops,
{
    if hops > 0 {
        if let Some(link) = start.parent {
            lemma_find_area_remove(areas, i, link);
            if let Some(up) = find_area(areas, link) {
                lemma_walk_without_area(areas, i, up, target, (hops - 1) as nat);
            }
        }
    }
}

/// The datasets without the area at position `i` of the catalog.
pub open spec fn without_area(data: Datasets, i: int) -> Datasets {
    Datasets { areas: data.areas.remove(i), stations: data.stations, forecasts: data.forecasts }
}

/// A candidate whose parent links do not pass through an area of the code
/// of `areas[i]` comes to the same when that area is taken away.
pub proof fn lemma_outcome_without_area(data: Datasets, i: int, candidate: AreaView)
    requires
        0 <= i < data.areas.len(),
        links_avoid(data.areas, candidate, data.areas[i].code, MAX_HOPS as nat),
    ensures
        outcome_of(without_area(data, i), candidate) == outcome_of(data, candidate),
{
    lemma_walk_without_area(data.areas, i, candidate, AreaClass::Class10, MAX_HOPS as nat);
    lemma_walk_without_area(data.areas, i, candidate, AreaClass::Office, MAX_HOPS as nat);
}

/// Candidates that come to the same over two datasets resolve alike over them.
pub proof fn lemma_same_outcomes_same_resolution(
    first: Datasets,
    second: Datasets,
    candidates: Seq<AreaView>,
    verbose: bool,
)
    requires
        forall|k: int|
            0 <= k < candidates.len() ==> outcome_of(first, #[trigger] candidates[k]) == outcome_of(
                second,
                candidates[k],
            ),
    ensures
        resolve_candidates(first, candidates, verbose) == resolve_candidates(
            second,
            candidates,
            verbose,
        ),
    decreases candidates.len(),
{
    if candidates.len() > 0 {
        let front = candidates.drop_last();
        assert forall|k: int| 0 <= k < front.len() implies outcome_of(first, #[trigger] front[k])
            == outcome_of(second, front[k]) by {
            assert(front[k] == candidates[k]);
        }
        lemma_same_outcomes_same_resolution(first, second, front, verbose);
        assert(candidates.last() == candidates[candidates.len() - 1]);
    }
}

/// What a filter keeps of a sequence without its member at `i`: what it
/// keeps of the whole sequence, without that member where it was kept.
pub proof fn lemma_filter_remove<A>(s: Seq<A>, pred: spec_fn(A) -> bool, i: int)
    requires
        0 <= i < s.len(),
    ensures
        !pred(s[i]) ==> s.remove(i).filter(pred) == s.filter(pred),
        pred(s[i]) ==> {
            let at = s.take(i).filter(pred).len() as int;
            &&& at < s.filter(pred).len()
            &&& s.filter(pred)[at] == s[i]
            &&& s.remove(i).filter(pred) == s.filter(pred).remove(at)
        },
{
    let head = s.take(i);
    let tail = s.skip(i + 1);
    let kept_head = head.filter(pred);
    let kept_tail = tail.filter(pred);
    assert(s =~= head.push(s[i]) + tail);
    assert(s.remove(i) =~= head + tail);
    head.lemma_filter_push(s[i], pred);
    Seq::filter_distributes_over_add(head.push(s[i]), tail, pred);
    Seq::filter_distributes_over_add(head, tail, pred);
    if pred(s[i]) {
        assert((kept_head.push(s[i]) + kept_tail).remove(kept_head.len() as int) =~= kept_head
            + kept_tail);
    }
}

/// Taking a `Class20` area whose `Class10` ancestor has no stations out of
/// the catalog leaves the records of the query as they are, wherever the
/// area stands in the load order. This is stated of catalogs in which the
/// parent links of no other candidate pass through an area of its code; in
/// a catalog where another area has that code, or hangs below it, taking
/// it away changes what that other candidate's links lead to.
pub proof fn lemma_without_stations_area_removed(
    data: Datasets,
    query: Seq<char>,
    i: int,
    verbose: bool,
)
    requires
        0 <= i < data.areas.len(),
        leaf_matches(query)(data.areas[i]),
        without_stations(data, data.areas[i]),
        forall|j: int|
            0 <= j < data.areas.len() && j != i && leaf_matches(query)(#[trigger] data.areas[j])
                ==> links_avoid(data.areas, data.areas[j], data.areas[i].code, MAX_HOPS as nat),
    ensures
        resolution_of(without_area(data, i), query, verbose).records == resolution_of(
            data,
            query,
            verbose,
        ).records,
{
    let areas = data.areas;
    let rest = areas.remove(i);
    let smaller = without_area(data, i);
    let all = search_leaves(areas, query);
    let others = search_leaves(rest, query);
    lemma_filter_remove(areas, leaf_matches(query), i);
    let at = areas.take(i).filter(leaf_matches(query)).len() as int;
    assert(others == all.remove(at));
    assert(all[at] == areas[i]);
    lemma_without_stations_leaves_others(data, all, at, verbose);
    assert forall|k: int| 0 <= k < others.len() implies outcome_of(smaller, #[trigger] others[k])
        == outcome_of(data, others[k]) by {
        lemma_filter_keeps(rest, leaf_matches(query), others[k]);
        assert(others.contains(others[k]));
        let m = choose|m: int| 0 <= m < rest.len() && rest[m] == others[k];
        let j = if m < i {
            m
        } else {
            m + 1
        };
        assert(areas[j] == others[k]);
        lemma_outcome_without_area(data, i, others[k]);
    }
    lemma_same_outcomes_same_resolution(smaller, data, others, verbose);
}

} // verus!
