//! The two queries: the plain search by name, and the resolution of a city
//! name to the temperature points of its office.

use crate::area::{views_of, Area, AreaClass, AreaView};
use crate::catalog::{ancestor_of, reaches_root, search_areas, search_leaves, AreaCatalog};
use crate::forecast::{point_views_of, points_of, ForecastPoint, ForecastPointSet, ForecastPointView};
use crate::laws::{lemma_no_candidate, lemma_points_distinct};
use crate::station::{stations_of, StationIndex, StationSet};
use vstd::prelude::*;
use vstd::string::StringExecFns;

verus! {

/// One answer of the resolution: a temperature point and the office that
/// publishes its forecast.
#[derive(Debug, PartialEq, Eq)]
pub struct ResultRecord {
    pub office_code: String,
    pub office_name: String,
    pub point_code: String,
    pub point_name: String,
}

/// What a [`ResultRecord`] holds, as mathematical values.
pub struct ResultRecordView {
    pub office_code: Seq<char>,
    pub office_name: Seq<char>,
    pub point_code: Seq<char>,
    pub point_name: Seq<char>,
}

impl View for ResultRecord {
    type V = ResultRecordView;

    open spec fn view(&self) -> ResultRecordView {
        ResultRecordView {
            office_code: self.office_code@,
            office_name: self.office_name@,
            point_code: self.point_code@,
            point_name: self.point_name@,
        }
    }
}

/// The text block that stands for `record` in a configuration file.
pub open spec fn config_block(record: ResultRecordView) -> Seq<char> {
    "[area]\n    jma_offices = \""@ + record.office_code + "\"     # "@ + record.office_name
        + "\n    jma_area_code = \""@ + record.point_code + "\"    # "@ + record.point_name
        + "\n    reference_time = 5\n"@
}

impl ResultRecord {
    /// The record as a block of a configuration file: a heading, the
    /// office and the point, each code in quotes with its name as a
    /// comment, and the reference time.
    pub fn to_config_block(&self) -> (text: String)
        ensures
            text@ == config_block(self@),
    {
        let mut text = String::from_str("[area]\n    jma_offices = \"");
        text.append(self.office_code.as_str());
        text.append("\"     # ");
        text.append(self.office_name.as_str());
        text.append("\n    jma_area_code = \"");
        text.append(self.point_code.as_str());
        text.append("\"    # ");
        text.append(self.point_name.as_str());
        text.append("\n    reference_time = 5\n");
        text
    }
}

/// One entry of the diagnostic stream of a query. `code` and `name` are
/// those of the candidate, but for `TemperaturePoint`, where they are those
/// of the point.
#[derive(Debug, PartialEq, Eq)]
pub enum Diagnostic {
    /// No area matched the query.
    QueryNotFound { query: String },
    /// A candidate was found. Shown only where verbose output is asked for.
    CandidateFound { code: String, name: String },
    /// A point of the candidate's office is a station of its `Class10`
    /// ancestor. Shown only where verbose output is asked for.
    TemperaturePoint { code: String, name: String },
    /// The parent links of the candidate end at a root, and no node of
    /// `level` is among them.
    AncestorMissing { code: String, name: String, level: AreaClass },
    /// The `Class10` ancestor of the candidate has no entry in the station
    /// index. Shown only where verbose output is asked for.
    NoStationsForArea { code: String, name: String },
    /// No point of the candidate's office is a station of its `Class10` ancestor.
    NoMatchingPoints { code: String, name: String },
    /// The candidate has no ancestor of `level` because the hierarchy is
    /// broken above it: the candidate has no parent at all, a parent link
    /// names no area, or the links do not end within the depth of the
    /// hierarchy.
    DataIntegrityFault { code: String, name: String, level: AreaClass },
}

/// What a [`Diagnostic`] holds, as mathematical values.
pub enum DiagnosticView {
    QueryNotFound { query: Seq<char> },
    CandidateFound { code: Seq<char>, name: Seq<char> },
    TemperaturePoint { code: Seq<char>, name: Seq<char> },
    AncestorMissing { code: Seq<char>, name: Seq<char>, level: AreaClass },
    NoStationsForArea { code: Seq<char>, name: Seq<char> },
    NoMatchingPoints { code: Seq<char>, name: Seq<char> },
    DataIntegrityFault { code: Seq<char>, name: Seq<char>, level: AreaClass },
}

impl View for Diagnostic {
    type V = DiagnosticView;

    open spec fn view(&self) -> DiagnosticView {
        match self {
            Diagnostic::QueryNotFound { query } => DiagnosticView::QueryNotFound { query: query@ },
            Diagnostic::CandidateFound { code, name } => DiagnosticView::CandidateFound {
                code: code@,
                name: name@,
            },
            Diagnostic::TemperaturePoint { code, name } => DiagnosticView::TemperaturePoint {
                code: code@,
                name: name@,
            },
            Diagnostic::AncestorMissing { code, name, level } => DiagnosticView::AncestorMissing {
                code: code@,
                name: name@,
                level: *level,
            },
            Diagnostic::NoStationsForArea { code, name } => DiagnosticView::NoStationsForArea {
                code: code@,
                name: name@,
            },
            Diagnostic::NoMatchingPoints { code, name } => DiagnosticView::NoMatchingPoints {
                code: code@,
                name: name@,
            },
            Diagnostic::DataIntegrityFault { code, name, level } => DiagnosticView::DataIntegrityFault {
                code: code@,
                name: name@,
                level: *level,
            },
        }
    }
}

/// Whether `diagnostic` is shown: the three kinds that only trace the work
/// are shown where verbose output is asked for, every other kind always.
pub open spec fn shown_when(diagnostic: DiagnosticView, verbose: bool) -> bool {
    verbose || !(diagnostic is CandidateFound || diagnostic is TemperaturePoint
        || diagnostic is NoStationsForArea)
}

impl Diagnostic {
    /// Whether the diagnostic is shown, given whether verbose output is
    /// asked for: an area without stations is no fault, and a candidate or
    /// a point that was found is none either.
    pub fn is_shown(&self, verbose: bool) -> (shown: bool)
        ensures
            shown == shown_when(self@, verbose),
            shown == (verbose || !(self@ is CandidateFound || self@ is TemperaturePoint
                || self@ is NoStationsForArea)),
    {
        match self {
            Diagnostic::CandidateFound { .. } => verbose,
            Diagnostic::TemperaturePoint { .. } => verbose,
            Diagnostic::NoStationsForArea { .. } => verbose,
            _ => true,
        }
    }
}

/// The views of a list of records.
pub open spec fn record_views(records: Seq<ResultRecord>) -> Seq<ResultRecordView> {
    records.map_values(|r: ResultRecord| r@)
}

/// The views of a list of diagnostics.
pub open spec fn diagnostic_views(diagnostics: Seq<Diagnostic>) -> Seq<DiagnosticView> {
    diagnostics.map_values(|d: Diagnostic| d@)
}

/// The result of the resolution of one query: the records in the order in
/// which they were found, and apart from them the diagnostics, in the order
/// of the candidates.
#[derive(Debug, PartialEq, Eq)]
pub struct Resolution {
    pub records: Vec<ResultRecord>,
    pub diagnostics: Vec<Diagnostic>,
}

/// What a [`Resolution`] holds, as mathematical values.
pub struct ResolutionView {
    pub records: Seq<ResultRecordView>,
    pub diagnostics: Seq<DiagnosticView>,
}

impl View for Resolution {
    type V = ResolutionView;

    open spec fn view(&self) -> ResolutionView {
        ResolutionView {
            records: record_views(self.records@),
            diagnostics: diagnostic_views(self.diagnostics@),
        }
    }
}

/// The result of a plain search: the areas that matched, in load order, and
/// the diagnostics.
#[derive(Debug, PartialEq, Eq)]
pub struct SearchReport<'a> {
    pub areas: Vec<&'a Area>,
    pub diagnostics: Vec<Diagnostic>,
}

/// What a [`SearchReport`] holds, as mathematical values.
pub struct SearchReportView {
    pub areas: Seq<AreaView>,
    pub diagnostics: Seq<DiagnosticView>,
}

impl<'a> View for SearchReport<'a> {
    type V = SearchReportView;

    open spec fn view(&self) -> SearchReportView {
        SearchReportView {
            areas: views_of(self.areas@),
            diagnostics: diagnostic_views(self.diagnostics@),
        }
    }
}

/// The three datasets that a resolution reads.
pub struct Datasets {
    pub areas: Seq<AreaView>,
    pub stations: Map<Seq<char>, Set<Seq<char>>>,
    pub forecasts: Map<Seq<char>, Seq<ForecastPointView>>,
}

/// The record for `point`, published by `office`.
pub open spec fn record_of(office: AreaView, point: ForecastPointView) -> ResultRecordView {
    ResultRecordView {
        office_code: office.code,
        office_name: office.name,
        point_code: point.area.code,
        point_name: point.area.name,
    }
}

/// Whether one of `records` is for the point `code`.
pub open spec fn has_point(records: Seq<ResultRecordView>, code: Seq<char>) -> bool {
    exists|i: int| 0 <= i < records.len() && (#[trigger] records[i]).point_code == code
}

/// No two of `records` are for the same point.
pub open spec fn distinct_points(records: Seq<ResultRecordView>) -> bool {
    forall|i: int, j: int|
        0 <= i < j < records.len() ==> (#[trigger] records[i]).point_code != (
        #[trigger] records[j]).point_code
}

/// The test for a point to be one of `stations`.
pub open spec fn station_matches(stations: Set<Seq<char>>) -> spec_fn(ForecastPointView) -> bool {
    |p: ForecastPointView| stations.contains(p.area.code)
}

/// `records`, followed by a record for each of `matches` whose point has no
/// record before it, in the order of `matches`.
pub open spec fn emit(
    records: Seq<ResultRecordView>,
    office: AreaView,
    matches: Seq<ForecastPointView>,
) -> Seq<ResultRecordView>
    decreases matches.len(),
{
    if matches.len() == 0 {
        records
    } else {
        let before = emit(records, office, matches.drop_last());
        if has_point(before, matches.last().area.code) {
            before
        } else {
            before.push(record_of(office, matches.last()))
        }
    }
}

/// What one candidate comes to: a diagnostic, or the points to emit.
pub enum Outcome {
    Skipped { why: DiagnosticView },
    Matched { office: AreaView, matches: Seq<ForecastPointView> },
}

/// The hierarchy is broken above `candidate`: it has no parent at all, or
/// its parent links do not end at a root within the depth of the hierarchy
/// (one of them names no area, or they go on).
pub open spec fn hierarchy_broken(areas: Seq<AreaView>, candidate: AreaView) -> bool {
    candidate.parent is None || !reaches_root(areas, candidate)
}

/// The diagnostic for a candidate without an ancestor at `level`: the
/// level is missing where the parent links of the candidate end at a root,
/// and the hierarchy is at fault where they do not.
pub open spec fn missing_ancestor(
    areas: Seq<AreaView>,
    candidate: AreaView,
    level: AreaClass,
) -> DiagnosticView {
    if hierarchy_broken(areas, candidate) {
        DiagnosticView::DataIntegrityFault { code: candidate.code, name: candidate.name, level }
    } else {
        DiagnosticView::AncestorMissing { code: candidate.code, name: candidate.name, level }
    }
}

/// What the candidate comes to, whatever was emitted before it.
pub open spec fn outcome_of(data: Datasets, candidate: AreaView) -> Outcome {
    match ancestor_of(data.areas, candidate, AreaClass::Class10) {
        None => Outcome::Skipped {
            why: missing_ancestor(data.areas, candidate, AreaClass::Class10),
        },
        Some(class10) => match ancestor_of(data.areas, candidate, AreaClass::Office) {
            None => Outcome::Skipped {
                why: missing_ancestor(data.areas, candidate, AreaClass::Office),
            },
            Some(office) => match stations_of(data.stations, class10.code) {
                None => Outcome::Skipped {
                    why: DiagnosticView::NoStationsForArea {
                        code: candidate.code,
                        name: candidate.name,
                    },
                },
                Some(stations) => {
                    let matches = points_of(data.forecasts, office.code).filter(
                        station_matches(stations),
                    );
                    if matches.len() == 0 {
                        Outcome::Skipped {
                            why: DiagnosticView::NoMatchingPoints {
                                code: candidate.code,
                                name: candidate.name,
                            },
                        }
                    } else {
                        Outcome::Matched { office, matches }
                    }
                },
            },
        },
    }
}

/// The trace entry for each of `matches`, in their order.
pub open spec fn point_notes(matches: Seq<ForecastPointView>) -> Seq<DiagnosticView> {
    matches.map_values(
        |p: ForecastPointView|
            DiagnosticView::TemperaturePoint { code: p.area.code, name: p.area.name },
    )
}

/// What the candidate adds to the diagnostic stream. With verbose output:
/// that it was found, then why it gives no record, or else each point that
/// matched. Without: why it gives no record, unless that is only that its
/// area has no stations.
pub open spec fn notes_of(data: Datasets, candidate: AreaView, verbose: bool) -> Seq<
    DiagnosticView,
> {
    let found = if verbose {
        seq![DiagnosticView::CandidateFound { code: candidate.code, name: candidate.name }]
    } else {
        Seq::empty()
    };
    match outcome_of(data, candidate) {
        Outcome::Skipped { why } => if shown_when(why, verbose) {
            found.push(why)
        } else {
            found
        },
        Outcome::Matched { office, matches } => if verbose {
            found + point_notes(matches)
        } else {
            found
        },
    }
}

/// The records after `candidate`, given those before it.
pub open spec fn records_after(
    data: Datasets,
    records: Seq<ResultRecordView>,
    candidate: AreaView,
) -> Seq<ResultRecordView> {
    match outcome_of(data, candidate) {
        Outcome::Skipped { .. } => records,
        Outcome::Matched { office, matches } => emit(records, office, matches),
    }
}

/// The resolution after `candidate`, given the one before it.
pub open spec fn after_candidate(
    data: Datasets,
    before: ResolutionView,
    candidate: AreaView,
    verbose: bool,
) -> ResolutionView {
    ResolutionView {
        records: records_after(data, before.records, candidate),
        diagnostics: before.diagnostics + notes_of(data, candidate, verbose),
    }
}

/// The resolution of the candidates, each taken in turn.
pub open spec fn resolve_candidates(
    data: Datasets,
    candidates: Seq<AreaView>,
    verbose: bool,
) -> ResolutionView
    decreases candidates.len(),
{
    if candidates.len() == 0 {
        ResolutionView { records: Seq::empty(), diagnostics: Seq::empty() }
    } else {
        after_candidate(
            data,
            resolve_candidates(data, candidates.drop_last(), verbose),
            candidates.last(),
            verbose,
        )
    }
}

/// The resolution of `query`: where no `Class20` area matches, the one
/// diagnostic `QueryNotFound` and no record; else the resolution of the
/// matching areas in load order.
pub open spec fn resolution_of(data: Datasets, query: Seq<char>, verbose: bool) -> ResolutionView {
    let candidates = search_leaves(data.areas, query);
    if candidates.len() == 0 {
        ResolutionView {
            records: Seq::empty(),
            diagnostics: seq![DiagnosticView::QueryNotFound { query }],
        }
    } else {
        resolve_candidates(data, candidates, verbose)
    }
}

/// The office whose points the outcome of `candidate` depends on: that of
/// a candidate with both ancestors and an entry in the station index.
pub open spec fn office_read(
    areas: Seq<AreaView>,
    stations: Map<Seq<char>, Set<Seq<char>>>,
    candidate: AreaView,
) -> Option<Seq<char>> {
    match ancestor_of(areas, candidate, AreaClass::Class10) {
        None => None,
        Some(class10) => match ancestor_of(areas, candidate, AreaClass::Office) {
            None => None,
            Some(office) => if stations_of(stations, class10.code) is Some {
                Some(office.code)
            } else {
                None
            },
        },
    }
}

/// The offices that the candidates read, each once, in the order of the
/// candidates.
pub open spec fn offices_read(
    areas: Seq<AreaView>,
    stations: Map<Seq<char>, Set<Seq<char>>>,
    candidates: Seq<AreaView>,
) -> Seq<Seq<char>>
    decreases candidates.len(),
{
    if candidates.len() == 0 {
        Seq::empty()
    } else {
        let before = offices_read(areas, stations, candidates.drop_last());
        match office_read(areas, stations, candidates.last()) {
            Some(code) => if before.contains(code) {
                before
            } else {
                before.push(code)
            },
            None => before,
        }
    }
}

/// The offices whose points the resolution of `query` reads.
pub open spec fn forecast_offices_of(
    areas: Seq<AreaView>,
    stations: Map<Seq<char>, Set<Seq<char>>>,
    query: Seq<char>,
) -> Seq<Seq<char>> {
    offices_read(areas, stations, search_leaves(areas, query))
}

/// The texts of a list of strings.
pub open spec fn texts(list: Seq<String>) -> Seq<Seq<char>> {
    list.map_values(|s: String| s@)
}

/// The result of the plain search for `query`.
pub open spec fn search_report_of(areas: Seq<AreaView>, query: Seq<char>) -> SearchReportView {
    let found = search_areas(areas, query);
    SearchReportView {
        areas: found,
        diagnostics: if found.len() == 0 {
            seq![DiagnosticView::QueryNotFound { query }]
        } else {
            Seq::empty()
        },
    }
}

/// The points of `points` that are stations of `stations`, in the order of `points`.
pub fn matching_points<'a>(points: &Vec<&'a ForecastPoint>, stations: &StationSet) -> (matches:
    Vec<&'a ForecastPoint>)
    ensures
        point_views_of(matches@) == point_views_of(points@).filter(station_matches(stations@)),
{
    let ghost all = point_views_of(points@);
    let mut matches: Vec<&'a ForecastPoint> = Vec::new();
    let mut i: usize = 0;
    assert(all.take(0).filter(station_matches(stations@)) =~= Seq::empty()) by {
        reveal(Seq::filter);
    }
    while i < points.len()
        invariant
            i <= points.len(),
            all == point_views_of(points@),
            point_views_of(matches@) =~= all.take(i as int).filter(station_matches(stations@)),
        decreases points.len() - i,
    {
        let point = points[i];
        proof {
            all.lemma_take_succ_push(i as int);
            all.take(i as int).lemma_filter_push(point@, station_matches(stations@));
        }
        if stations.has(&point.area.code) {
            matches.push(point);
        }
        i += 1;
    }
    assert(all.take(i as int) =~= all);
    matches
}

/// Whether one of `records` is for the point `code`.
pub fn has_point_code(records: &Vec<ResultRecord>, code: &String) -> (found: bool)
    ensures
        found == has_point(record_views(records@), code@),
{
    let mut i: usize = 0;
    while i < records.len()
        invariant
            i <= records.len(),
            forall|k: int| 0 <= k < i ==> (#[trigger] record_views(records@)[k]).point_code != code@,
        decreases records.len() - i,
    {
        if records[i].point_code == *code {
            assert(record_views(records@)[i as int].point_code == code@);
            return true;
        }
        i += 1;
    }
    false
}

/// Appends to `records` a record for each of `matches` whose point has none
/// yet, in the order of `matches`.
pub fn emit_records(records: &mut Vec<ResultRecord>, office: &Area, matches: &Vec<&ForecastPoint>)
    ensures
        record_views(final(records)@) == emit(
            record_views(old(records)@),
            office@,
            point_views_of(matches@),
        ),
{
    let ghost all = point_views_of(matches@);
    let ghost start = record_views(records@);
    let mut i: usize = 0;
    while i < matches.len()
        invariant
            i <= matches.len(),
            all == point_views_of(matches@),
            record_views(records@) == emit(start, office@, all.take(i as int)),
        decreases matches.len() - i,
    {
        let point = matches[i];
        proof {
            assert(all.take(i + 1).drop_last() =~= all.take(i as int));
            assert(all.take(i + 1).last() == point@);
        }
        if !has_point_code(records, &point.area.code) {
            let ghost before = records@;
            records.push(
                ResultRecord {
                    office_code: office.code.clone(),
                    office_name: office.name.clone(),
                    point_code: point.area.code.clone(),
                    point_name: point.area.name.clone(),
                },
            );
            assert(record_views(records@) =~= record_views(before).push(
                record_of(office@, point@),
            ));
        }
        i += 1;
    }
    assert(all.take(i as int) =~= all);
}

/// Appends `why` to `diagnostics` where it is shown for the given verbosity.
fn push_shown(diagnostics: &mut Vec<Diagnostic>, why: Diagnostic, verbose: bool)
    ensures
        diagnostic_views(final(diagnostics)@) == if shown_when(why@, verbose) {
            diagnostic_views(old(diagnostics)@).push(why@)
        } else {
            diagnostic_views(old(diagnostics)@)
        },
{
    if why.is_shown(verbose) {
        let ghost before = diagnostics@;
        diagnostics.push(why);
        assert(diagnostic_views(diagnostics@) =~= diagnostic_views(before).push(why@));
    }
}

/// Appends to `diagnostics` the trace entry for each of `matches`, in their order.
fn push_point_notes(diagnostics: &mut Vec<Diagnostic>, matches: &Vec<&ForecastPoint>)
    ensures
        diagnostic_views(final(diagnostics)@) == diagnostic_views(old(diagnostics)@) + point_notes(
            point_views_of(matches@),
        ),
{
    let ghost start = diagnostic_views(diagnostics@);
    let ghost all = point_views_of(matches@);
    let mut i: usize = 0;
    assert(diagnostic_views(diagnostics@) =~= start + point_notes(all.take(0)));
    while i < matches.len()
        invariant
            i <= matches.len(),
            all == point_views_of(matches@),
            diagnostic_views(diagnostics@) =~= start + point_notes(all.take(i as int)),
        decreases matches.len() - i,
    {
        let point = matches[i];
        let ghost before = diagnostics@;
        diagnostics.push(
            Diagnostic::TemperaturePoint {
                code: point.area.code.clone(),
                name: point.area.name.clone(),
            },
        );
        proof {
            let note = DiagnosticView::TemperaturePoint { code: point@.area.code, name: point@.area.name };
            assert(diagnostic_views(diagnostics@) =~= diagnostic_views(before).push(note));
            assert(all.take(i + 1) =~= all.take(i as int).push(point@));
            assert(point_notes(all.take(i + 1)) =~= point_notes(all.take(i as int)).push(note));
        }
        i += 1;
    }
    assert(all.take(i as int) =~= all);
}

/// Whether `code` is one of `codes`.
fn has_code(codes: &Vec<String>, code: &String) -> (found: bool)
    ensures
        found == texts(codes@).contains(code@),
{
    let mut i: usize = 0;
    while i < codes.len()
        invariant
            i <= codes.len(),
            forall|k: int| 0 <= k < i ==> (#[trigger] texts(codes@)[k]) != code@,
        decreases codes.len() - i,
    {
        if codes[i] == *code {
            assert(texts(codes@)[i as int] == code@);
            return true;
        }
        i += 1;
    }
    false
}

/// The codes of the offices whose forecast points the resolution of
/// `query` reads, each once, in the order of the candidates. The points of
/// no other office bear on that resolution, so they need not be loaded.
pub fn forecast_offices(catalog: &AreaCatalog, stations: &StationIndex, query: &str) -> (offices:
    Vec<String>)
    ensures
        texts(offices@) == forecast_offices_of(catalog@, stations@, query@),
{
    let candidates = catalog.search_leaf(query);
    let ghost all = views_of(candidates@);
    let mut offices: Vec<String> = Vec::new();
    let mut i: usize = 0;
    assert(texts(offices@) =~= Seq::empty());
    while i < candidates.len()
        invariant
            i <= candidates.len(),
            all == views_of(candidates@),
            texts(offices@) == offices_read(catalog@, stations@, all.take(i as int)),
        decreases candidates.len() - i,
    {
        let candidate = candidates[i];
        proof {
            assert(all.take(i + 1).drop_last() =~= all.take(i as int));
            assert(all.take(i + 1).last() == candidate@);
        }
        if let Some(class10) = catalog.ancestor(candidate, AreaClass::Class10) {
            if let Some(office) = catalog.ancestor(candidate, AreaClass::Office) {
                if stations.stations_for(class10.code.as_str()).is_some() {
                    if !has_code(&offices, &office.code) {
                        let ghost before = offices@;
                        offices.push(office.code.clone());
                        assert(texts(offices@) =~= texts(before).push(office@.code));
                    }
                }
            }
        }
        i += 1;
    }
    assert(all.take(i as int) =~= all);
    offices
}

/// The resolver: the two queries over the three datasets, which it reads
/// and never changes.
pub struct Resolver<'a> {
    pub catalog: &'a AreaCatalog,
    pub stations: &'a StationIndex,
    pub forecasts: &'a ForecastPointSet,
}

impl<'a> View for Resolver<'a> {
    type V = Datasets;

    open spec fn view(&self) -> Datasets {
        Datasets {
            areas: self.catalog@,
            stations: self.stations@,
            forecasts: self.forecasts@,
        }
    }
}

impl<'a> Resolver<'a> {
    /// The resolver over the given datasets.
    pub fn new(
        catalog: &'a AreaCatalog,
        stations: &'a StationIndex,
        forecasts: &'a ForecastPointSet,
    ) -> (resolver: Resolver<'a>)
        ensures
            resolver@ == (Datasets {
                areas: catalog@,
                stations: stations@,
                forecasts: forecasts@,
            }),
    {
        Resolver { catalog, stations, forecasts }
    }

    /// The diagnostic for `candidate`, which has no ancestor at `level`.
    fn report_missing(&self, candidate: &Area, level: AreaClass) -> (why: Diagnostic)
        ensures
            why@ == missing_ancestor(self@.areas, candidate@, level),
    {
        if candidate.parent.is_some() && self.catalog.chain_reaches_root(candidate) {
            Diagnostic::AncestorMissing {
                code: candidate.code.clone(),
                name: candidate.name.clone(),
                level,
            }
        } else {
            Diagnostic::DataIntegrityFault {
                code: candidate.code.clone(),
                name: candidate.name.clone(),
                level,
            }
        }
    }

    /// Takes one candidate: its records are appended to those of
    /// `resolution`, and to the diagnostics what it adds to the diagnostic
    /// stream for the given verbosity.
    pub fn resolve_candidate(&self, candidate: &Area, verbose: bool, resolution: &mut Resolution)
        ensures
            final(resolution)@ == after_candidate(self@, old(resolution)@, candidate@, verbose),
    {
        let ghost before = resolution@;
        if verbose {
            resolution.diagnostics.push(
                Diagnostic::CandidateFound {
                    code: candidate.code.clone(),
                    name: candidate.name.clone(),
                },
            );
        }
        let ghost found = if verbose {
            seq![DiagnosticView::CandidateFound { code: candidate@.code, name: candidate@.name }]
        } else {
            Seq::empty()
        };
        assert(resolution@.diagnostics =~= before.diagnostics + found);
        let class10 = match self.catalog.ancestor(candidate, AreaClass::Class10) {
            Some(area) => area,
            None => {
                let why = self.report_missing(candidate, AreaClass::Class10);
                push_shown(&mut resolution.diagnostics, why, verbose);
                assert(resolution@.diagnostics =~= before.diagnostics + notes_of(
                    self@,
                    candidate@,
                    verbose,
                ));
                return ;
            },
        };
        let office = match self.catalog.ancestor(candidate, AreaClass::Office) {
            Some(area) => area,
            None => {
                let why = self.report_missing(candidate, AreaClass::Office);
                push_shown(&mut resolution.diagnostics, why, verbose);
                assert(resolution@.diagnostics =~= before.diagnostics + notes_of(
                    self@,
                    candidate@,
                    verbose,
                ));
                return ;
            },
        };
        let stations = match self.stations.stations_for(class10.code.as_str()) {
            Some(set) => set,
            None => {
                let why = Diagnostic::NoStationsForArea {
                    code: candidate.code.clone(),
                    name: candidate.name.clone(),
                };
                push_shown(&mut resolution.diagnostics, why, verbose);
                assert(resolution@.diagnostics =~= before.diagnostics + notes_of(
                    self@,
                    candidate@,
                    verbose,
                ));
                return ;
            },
        };
        let points = self.forecasts.points_for(office.code.as_str());
        let matches = matching_points(&points, stations);
        if matches.len() == 0 {
            let why = Diagnostic::NoMatchingPoints {
                code: candidate.code.clone(),
                name: candidate.name.clone(),
            };
            push_shown(&mut resolution.diagnostics, why, verbose);
            assert(resolution@.diagnostics =~= before.diagnostics + notes_of(
                self@,
                candidate@,
                verbose,
            ));
            return ;
        }
        if verbose {
            push_point_notes(&mut resolution.diagnostics, &matches);
        }
        assert(resolution@.diagnostics =~= before.diagnostics + notes_of(
            self@,
            candidate@,
            verbose,
        ));
        emit_records(&mut resolution.records, office, &matches);
    }

    /// The temperature points for the city `query`. Each `Class20` area whose
    /// name contains `query` is a candidate, taken in load order and by
    /// itself: the points of its office that are stations of its `Class10`
    /// ancestor give one record each, but for a point that has a record
    /// already; a candidate without records leaves a diagnostic and the
    /// others go on. Without any candidate the one diagnostic is
    /// `QueryNotFound`. The diagnostics are those that are shown for the
    /// given verbosity, in the order in which they arise; the records do
    /// not depend on it.
    pub fn search_temperature_point_code(&self, query: &str, verbose: bool) -> (resolution:
        Resolution)
        ensures
            resolution@ == resolution_of(self@, query@, verbose),
            distinct_points(resolution@.records),
            search_leaves(self@.areas, query@).len() == 0 ==> resolution@.records.len() == 0
                && resolution@.diagnostics == seq![DiagnosticView::QueryNotFound { query: query@ }],
    {
        proof {
            lemma_points_distinct(self@, query@, verbose);
            if search_leaves(self@.areas, query@).len() == 0 {
                lemma_no_candidate(self@, query@, verbose);
            }
        }
        let candidates = self.catalog.search_leaf(query);
        let mut resolution = Resolution { records: Vec::new(), diagnostics: Vec::new() };
        if candidates.len() == 0 {
            let why = Diagnostic::QueryNotFound { query: query.to_owned() };
            resolution.diagnostics.push(why);
            assert(resolution@.records =~= Seq::empty());
            assert(resolution@.diagnostics =~= seq![DiagnosticView::QueryNotFound { query: query@ }]);
            return resolution;
        }
        let ghost all = views_of(candidates@);
        let mut i: usize = 0;
        assert(resolution@.records =~= Seq::empty());
        assert(resolution@.diagnostics =~= Seq::empty());
        while i < candidates.len()
            invariant
                i <= candidates.len(),
                all == views_of(candidates@),
                resolution@ == resolve_candidates(self@, all.take(i as int), verbose),
            decreases candidates.len() - i,
        {
            proof {
                assert(all.take(i + 1).drop_last() =~= all.take(i as int));
                assert(all.take(i + 1).last() == candidates@[i as int]@);
            }
            self.resolve_candidate(candidates[i], verbose, &mut resolution);
            i += 1;
        }
        assert(all.take(i as int) =~= all);
        resolution
    }

    /// The plain search: every area whose name contains `query`, whatever
    /// its level, in load order and as it was loaded. Only the catalog is
    /// read. Without a match the one diagnostic is `QueryNotFound`.
    pub fn search_code(&self, query: &str) -> (report: SearchReport<'a>)
        ensures
            report@ == search_report_of(self@.areas, query@),
    {
        let areas = self.catalog.search(query);
        let mut diagnostics: Vec<Diagnostic> = Vec::new();
        if areas.len() == 0 {
            diagnostics.push(Diagnostic::QueryNotFound { query: query.to_owned() });
            assert(diagnostic_views(diagnostics@) =~= seq![
                DiagnosticView::QueryNotFound { query: query@ },
            ]);
        } else {
            assert(diagnostic_views(diagnostics@) =~= Seq::empty());
        }
        SearchReport { areas, diagnostics }
    }
}

} // verus!
