use area_resolver::area::{Area, AreaClass};
use area_resolver::catalog::AreaCatalog;
use area_resolver::forecast::{ForecastPoint, ForecastPointSet};
use area_resolver::resolver::{
    emit_records, forecast_offices, has_point_code, matching_points, Diagnostic, Resolution,
    Resolver, ResultRecord,
};
use area_resolver::station::{StationIndex, StationSet};

fn point(code: &str, name: &str) -> ForecastPoint {
    ForecastPoint { area: Area::new(code, name, AreaClass::Class20) }
}

fn stations(codes: &[&str]) -> StationSet {
    StationSet::from_codes(codes.iter().map(|c| c.to_string()).collect())
}

fn record(office_code: &str, office_name: &str, point_code: &str, point_name: &str) -> ResultRecord {
    ResultRecord {
        office_code: office_code.to_string(),
        office_name: office_name.to_string(),
        point_code: point_code.to_string(),
        point_name: point_name.to_string(),
    }
}

/// Two offices; Kita-ku exists under both, and the two Tokyo areas share a station.
fn catalog() -> AreaCatalog {
    AreaCatalog::new(vec![
        Area::new("010300", "Kanto-Koshin", AreaClass::Center),
        Area::new("010600", "Kinki", AreaClass::Center),
        Area::new("130000", "Tokyo-to", AreaClass::Office).with_parent("010300"),
        Area::new("270000", "Osaka-fu", AreaClass::Office).with_parent("010600"),
        Area::new("130010", "Tokyo", AreaClass::Class10).with_parent("130000"),
        Area::new("130020", "Izu", AreaClass::Class10).with_parent("130000"),
        Area::new("270010", "Osaka", AreaClass::Class10).with_parent("270000"),
        Area::new("1310100", "Chiyoda-ku", AreaClass::Class20).with_parent("130010"),
        Area::new("1311700", "Kita-ku", AreaClass::Class20).with_parent("130010"),
        Area::new("1336100", "Oshima-machi", AreaClass::Class20).with_parent("130020"),
        Area::new("2712700", "Kita-ku", AreaClass::Class20).with_parent("270010"),
    ])
}

fn station_index() -> StationIndex {
    let mut index = StationIndex::new();
    index.insert("130010", stations(&["44132", "44136"]));
    index.insert("130020", stations(&["44172"]));
    index.insert("270010", stations(&["62078"]));
    index
}

fn forecasts() -> ForecastPointSet {
    let mut f = ForecastPointSet::new();
    f.insert(
        "130000",
        vec![point("44132", "Tokyo"), point("44172", "Oshima"), point("44136", "Nerima")],
    );
    f.insert("270000", vec![point("62078", "Osaka")]);
    f
}

#[test]
fn chiyoda_resolves_to_the_tokyo_point() {
    let catalog = AreaCatalog::new(vec![
        Area::new("1310100", "Chiyoda-ku", AreaClass::Class20).with_parent("130010"),
        Area::new("130010", "Tokyo", AreaClass::Class10).with_parent("130000"),
        Area::new("130000", "Tokyo-to", AreaClass::Office),
    ]);
    let mut index = StationIndex::new();
    index.insert("130010", stations(&["44132"]));
    let mut points = ForecastPointSet::new();
    points.insert("130000", vec![point("44132", "Tokyo")]);
    let out = Resolver::new(&catalog, &index, &points).search_temperature_point_code("Chiyoda", false);
    assert_eq!(out.records, vec![record("130000", "Tokyo-to", "44132", "Tokyo")]);
    assert!(out.diagnostics.is_empty());
}

#[test]
fn plain_search_gives_each_match_as_loaded() {
    let catalog = AreaCatalog::new(vec![
        Area::new("270000", "Osaka-fu", AreaClass::Office)
            .with_parent("010600")
            .with_en_name("Osaka")
            .with_office_name("Osaka Regional Headquarters")
            .with_children(vec!["270010".to_string()]),
        Area::new("130000", "Tokyo-to", AreaClass::Office),
        Area::new("2710000", "Osaka-shi", AreaClass::Class20).with_parent("270010"),
    ]);
    let no_stations = StationIndex::new();
    let no_points = ForecastPointSet::new();
    let resolver = Resolver::new(&catalog, &no_stations, &no_points);
    let report = resolver.search_code("Osaka");
    assert!(report.diagnostics.is_empty());
    assert_eq!(report.areas.len(), 2);
    assert_eq!(report.areas[0].class, AreaClass::Office);
    assert_eq!(report.areas[0].code, "270000");
    assert_eq!(report.areas[1].class, AreaClass::Class20);
    assert_eq!(report.areas[1].code, "2710000");
    assert_eq!(report.areas[0], catalog.get(0).unwrap());
    assert_eq!(report.areas[1], catalog.get(2).unwrap());
    assert_eq!(report.areas[0].children, Some(vec!["270010".to_string()]));
    assert_eq!(report.areas[1].children, None);
    assert_eq!(report.areas[1].office_name, None);
}

#[test]
fn plain_search_is_the_same_whatever_the_other_datasets_hold() {
    let catalog = catalog();
    let empty_index = StationIndex::new();
    let empty_points = ForecastPointSet::new();
    let index = station_index();
    let points = forecasts();
    let bare = Resolver::new(&catalog, &empty_index, &empty_points).search_code("Osaka");
    let full = Resolver::new(&catalog, &index, &points).search_code("Osaka");
    assert_eq!(bare, full);
    assert_eq!(bare.areas.len(), 2);
}

#[test]
fn plain_search_without_match_reports_not_found_once() {
    let catalog = catalog();
    let index = station_index();
    let points = forecasts();
    let report = Resolver::new(&catalog, &index, &points).search_code("Nagoya");
    assert!(report.areas.is_empty());
    assert_eq!(report.diagnostics, vec![Diagnostic::QueryNotFound { query: "Nagoya".to_string() }]);
}

#[test]
fn query_without_class20_match_gives_no_record_and_one_diagnostic() {
    let catalog = catalog();
    let index = station_index();
    let points = forecasts();
    let resolver = Resolver::new(&catalog, &index, &points);
    let out = resolver.search_temperature_point_code("Nagoya", false);
    assert!(out.records.is_empty());
    assert_eq!(out.diagnostics, vec![Diagnostic::QueryNotFound { query: "Nagoya".to_string() }]);
    // "Tokyo" names an office and a Class10 area, but no Class20 area.
    let out = resolver.search_temperature_point_code("Tokyo", false);
    assert!(out.records.is_empty());
    assert_eq!(out.diagnostics, vec![Diagnostic::QueryNotFound { query: "Tokyo".to_string() }]);
}

#[test]
fn records_follow_the_point_order_of_the_office() {
    let catalog = catalog();
    let index = station_index();
    let points = forecasts();
    let out = Resolver::new(&catalog, &index, &points).search_temperature_point_code("Chiyoda", false);
    assert_eq!(
        out.records,
        vec![
            record("130000", "Tokyo-to", "44132", "Tokyo"),
            record("130000", "Tokyo-to", "44136", "Nerima"),
        ]
    );
    assert!(out.diagnostics.is_empty());
}

#[test]
fn every_candidate_is_taken_in_load_order() {
    let catalog = catalog();
    let index = station_index();
    let points = forecasts();
    let out = Resolver::new(&catalog, &index, &points).search_temperature_point_code("Kita-ku", false);
    assert_eq!(
        out.records,
        vec![
            record("130000", "Tokyo-to", "44132", "Tokyo"),
            record("130000", "Tokyo-to", "44136", "Nerima"),
            record("270000", "Osaka-fu", "62078", "Osaka"),
        ]
    );
    assert!(out.diagnostics.is_empty());
}

#[test]
fn point_codes_are_distinct_across_candidates() {
    let catalog = catalog();
    let index = station_index();
    let points = forecasts();
    // "-ku" matches Chiyoda-ku and both Kita-ku; the two Tokyo wards share their stations.
    let out = Resolver::new(&catalog, &index, &points).search_temperature_point_code("-ku", false);
    assert_eq!(
        out.records,
        vec![
            record("130000", "Tokyo-to", "44132", "Tokyo"),
            record("130000", "Tokyo-to", "44136", "Nerima"),
            record("270000", "Osaka-fu", "62078", "Osaka"),
        ]
    );
    for i in 0..out.records.len() {
        for j in 0..i {
            assert_ne!(out.records[i].point_code, out.records[j].point_code);
        }
    }
    assert!(out.diagnostics.is_empty());
}

#[test]
fn repeated_point_within_one_office_list_is_emitted_once() {
    let catalog = catalog();
    let index = station_index();
    let mut points = ForecastPointSet::new();
    points.insert(
        "130000",
        vec![point("44132", "Tokyo"), point("44132", "Tokyo again"), point("44136", "Nerima")],
    );
    let out = Resolver::new(&catalog, &index, &points).search_temperature_point_code("Chiyoda", false);
    assert_eq!(
        out.records,
        vec![
            record("130000", "Tokyo-to", "44132", "Tokyo"),
            record("130000", "Tokyo-to", "44136", "Nerima"),
        ]
    );
}

#[test]
fn duplicate_keeps_the_record_of_the_earlier_candidate() {
    // One station lies in the areas of two offices; the first candidate's office is recorded.
    let catalog = catalog();
    let mut index = StationIndex::new();
    index.insert("130010", stations(&["99999"]));
    index.insert("270010", stations(&["99999", "62078"]));
    let mut points = ForecastPointSet::new();
    points.insert("130000", vec![point("99999", "Border")]);
    points.insert("270000", vec![point("62078", "Osaka"), point("99999", "Border")]);
    let out = Resolver::new(&catalog, &index, &points).search_temperature_point_code("Kita-ku", false);
    assert_eq!(
        out.records,
        vec![
            record("130000", "Tokyo-to", "99999", "Border"),
            record("270000", "Osaka-fu", "62078", "Osaka"),
        ]
    );
}

#[test]
fn resolution_twice_gives_the_same() {
    let catalog = catalog();
    let index = station_index();
    let points = forecasts();
    let resolver = Resolver::new(&catalog, &index, &points);
    for query in ["-ku", "Kita-ku", "Oshima", "Nagoya", ""] {
        let first = resolver.search_temperature_point_code(query, false);
        let second = resolver.search_temperature_point_code(query, false);
        assert_eq!(first, second);
        let again = Resolver::new(&catalog, &index, &points).search_temperature_point_code(query, false);
        assert_eq!(first, again);
        assert_eq!(resolver.search_code(query), resolver.search_code(query));
    }
}

#[test]
fn candidate_without_station_entry_is_skipped_and_others_go_on() {
    let catalog = catalog();
    let mut index = StationIndex::new();
    index.insert("270010", stations(&["62078"]));
    let points = forecasts();
    let out = Resolver::new(&catalog, &index, &points).search_temperature_point_code("Kita-ku", false);
    assert_eq!(out.records, vec![record("270000", "Osaka-fu", "62078", "Osaka")]);
    assert!(out.diagnostics.is_empty());
    let loud = Resolver::new(&catalog, &index, &points).search_temperature_point_code("Kita-ku", true);
    assert_eq!(loud.records, out.records);
    assert_eq!(
        loud.diagnostics,
        vec![
            Diagnostic::CandidateFound { code: "1311700".to_string(), name: "Kita-ku".to_string() },
            Diagnostic::NoStationsForArea { code: "1311700".to_string(), name: "Kita-ku".to_string() },
            Diagnostic::CandidateFound { code: "2712700".to_string(), name: "Kita-ku".to_string() },
            Diagnostic::TemperaturePoint { code: "62078".to_string(), name: "Osaka".to_string() },
        ]
    );
}

#[test]
fn candidate_with_empty_station_set_gives_no_record() {
    let catalog = catalog();
    let mut index = StationIndex::new();
    index.insert("130010", StationSet::new());
    index.insert("270010", stations(&["62078"]));
    let points = forecasts();
    let out = Resolver::new(&catalog, &index, &points).search_temperature_point_code("Kita-ku", false);
    assert_eq!(out.records, vec![record("270000", "Osaka-fu", "62078", "Osaka")]);
    assert_eq!(
        out.diagnostics,
        vec![Diagnostic::NoMatchingPoints {
            code: "1311700".to_string(),
            name: "Kita-ku".to_string(),
        }]
    );
}

#[test]
fn records_of_others_do_not_depend_on_a_candidate_without_stations() {
    let with_both = catalog();
    let without_tokyo_ward = AreaCatalog::new(vec![
        Area::new("010600", "Kinki", AreaClass::Center),
        Area::new("270000", "Osaka-fu", AreaClass::Office).with_parent("010600"),
        Area::new("270010", "Osaka", AreaClass::Class10).with_parent("270000"),
        Area::new("2712700", "Kita-ku", AreaClass::Class20).with_parent("270010"),
    ]);
    let mut index = StationIndex::new();
    index.insert("270010", stations(&["62078"]));
    let points = forecasts();
    let a = Resolver::new(&with_both, &index, &points).search_temperature_point_code("Kita-ku", false);
    let b = Resolver::new(&without_tokyo_ward, &index, &points)
        .search_temperature_point_code("Kita-ku", false);
    assert_eq!(a.records, b.records);
    assert!(b.diagnostics.is_empty());
}

#[test]
fn no_matching_points_is_reported_per_candidate() {
    let catalog = catalog();
    let index = station_index();
    let mut points = ForecastPointSet::new();
    points.insert("130000", vec![point("44263", "Hachijojima")]);
    let out = Resolver::new(&catalog, &index, &points).search_temperature_point_code("Kita-ku", false);
    assert!(out.records.is_empty());
    // The Tokyo office has no point among the stations; the Osaka office has no points at all.
    assert_eq!(
        out.diagnostics,
        vec![
            Diagnostic::NoMatchingPoints { code: "1311700".to_string(), name: "Kita-ku".to_string() },
            Diagnostic::NoMatchingPoints { code: "2712700".to_string(), name: "Kita-ku".to_string() },
        ]
    );
}

#[test]
fn missing_level_is_reported_where_the_chain_ends_at_a_root() {
    let catalog = AreaCatalog::new(vec![
        Area::new("c", "Center", AreaClass::Center),
        Area::new("o", "Office", AreaClass::Office).with_parent("c"),
        Area::new("t", "Ten", AreaClass::Class10).with_parent("c"),
        Area::new("x", "Skips-ten", AreaClass::Class20).with_parent("o"),
        Area::new("y", "Skips-office", AreaClass::Class20).with_parent("t"),
    ]);
    let index = StationIndex::new();
    let points = ForecastPointSet::new();
    let out = Resolver::new(&catalog, &index, &points).search_temperature_point_code("Skips", false);
    assert!(out.records.is_empty());
    assert_eq!(
        out.diagnostics,
        vec![
            Diagnostic::AncestorMissing {
                code: "x".to_string(),
                name: "Skips-ten".to_string(),
                level: AreaClass::Class10,
            },
            Diagnostic::AncestorMissing {
                code: "y".to_string(),
                name: "Skips-office".to_string(),
                level: AreaClass::Office,
            },
        ]
    );
}

#[test]
fn broken_hierarchy_is_reported_as_a_fault() {
    let s = |t: &str| t.to_string();
    let catalog = AreaCatalog::new(vec![
        Area::new("1", "Orphan-cho", AreaClass::Class20),
        Area::new("2", "Dangling-cho", AreaClass::Class20).with_parent("nowhere"),
        Area::new("3", "Loop-cho", AreaClass::Class20).with_parent("3"),
        Area::new("t", "Ten", AreaClass::Class10).with_parent("gone"),
        Area::new("4", "Cut-off-cho", AreaClass::Class20).with_parent("t"),
        Area::new("d", "Deep", AreaClass::Class20).with_parent("c"),
        Area::new("c", "Deeper", AreaClass::Class20).with_parent("b"),
        Area::new("b", "Deepest", AreaClass::Class20).with_parent("a"),
        Area::new("a", "Top", AreaClass::Class20),
        Area::new("5", "Far-cho", AreaClass::Class20).with_parent("d"),
    ]);
    let index = StationIndex::new();
    let points = ForecastPointSet::new();
    let out = Resolver::new(&catalog, &index, &points).search_temperature_point_code("-cho", false);
    assert!(out.records.is_empty());
    let class10 = AreaClass::Class10;
    assert_eq!(
        out.diagnostics,
        vec![
            Diagnostic::DataIntegrityFault { code: s("1"), name: s("Orphan-cho"), level: class10 },
            Diagnostic::DataIntegrityFault { code: s("2"), name: s("Dangling-cho"), level: class10 },
            Diagnostic::DataIntegrityFault { code: s("3"), name: s("Loop-cho"), level: class10 },
            Diagnostic::DataIntegrityFault {
                code: s("4"),
                name: s("Cut-off-cho"),
                level: AreaClass::Office,
            },
            Diagnostic::DataIntegrityFault { code: s("5"), name: s("Far-cho"), level: class10 },
        ]
    );
}

#[test]
fn class20_under_a_parentless_office_misses_its_class10_ancestor() {
    let catalog = AreaCatalog::new(vec![
        Area::new("130000", "Tokyo-to", AreaClass::Office),
        Area::new("1310100", "Chiyoda-ku", AreaClass::Class20).with_parent("130000"),
    ]);
    let mut index = StationIndex::new();
    index.insert("130000", stations(&["44132"]));
    let mut points = ForecastPointSet::new();
    points.insert("130000", vec![point("44132", "Tokyo")]);
    let out = Resolver::new(&catalog, &index, &points).search_temperature_point_code("Chiyoda", false);
    assert!(out.records.is_empty());
    assert_eq!(
        out.diagnostics,
        vec![Diagnostic::AncestorMissing {
            code: "1310100".to_string(),
            name: "Chiyoda-ku".to_string(),
            level: AreaClass::Class10,
        }]
    );
}

#[test]
fn class20_under_a_parentless_class10_misses_its_office_ancestor() {
    let catalog = AreaCatalog::new(vec![
        Area::new("t", "Ten", AreaClass::Class10),
        Area::new("4", "Headless-cho", AreaClass::Class20).with_parent("t"),
    ]);
    let mut index = StationIndex::new();
    index.insert("t", stations(&["1"]));
    let points = ForecastPointSet::new();
    let out = Resolver::new(&catalog, &index, &points).search_temperature_point_code("Headless", false);
    assert!(out.records.is_empty());
    assert_eq!(
        out.diagnostics,
        vec![Diagnostic::AncestorMissing {
            code: "4".to_string(),
            name: "Headless-cho".to_string(),
            level: AreaClass::Office,
        }]
    );
}

#[test]
fn failing_candidate_does_not_stop_the_next() {
    let catalog = AreaCatalog::new(vec![
        Area::new("1", "Orphan-ku", AreaClass::Class20),
        Area::new("130000", "Tokyo-to", AreaClass::Office),
        Area::new("130010", "Tokyo", AreaClass::Class10).with_parent("130000"),
        Area::new("1310100", "Chiyoda-ku", AreaClass::Class20).with_parent("130010"),
        Area::new("2", "Later-ku", AreaClass::Class20).with_parent("gone"),
    ]);
    let index = station_index();
    let points = forecasts();
    let out = Resolver::new(&catalog, &index, &points).search_temperature_point_code("-ku", false);
    assert_eq!(
        out.records,
        vec![
            record("130000", "Tokyo-to", "44132", "Tokyo"),
            record("130000", "Tokyo-to", "44136", "Nerima"),
        ]
    );
    assert_eq!(
        out.diagnostics,
        vec![
            Diagnostic::DataIntegrityFault {
                code: "1".to_string(),
                name: "Orphan-ku".to_string(),
                level: AreaClass::Class10,
            },
            Diagnostic::DataIntegrityFault {
                code: "2".to_string(),
                name: "Later-ku".to_string(),
                level: AreaClass::Class10,
            },
        ]
    );
}

#[test]
fn trace_entries_are_shown_with_verbose_output_only() {
    let level = AreaClass::Class10;
    let s = |t: &str| t.to_string();
    let quiet = [
        Diagnostic::NoStationsForArea { code: s("1"), name: s("a") },
        Diagnostic::CandidateFound { code: s("1"), name: s("a") },
        Diagnostic::TemperaturePoint { code: s("1"), name: s("a") },
    ];
    for d in &quiet {
        assert!(!d.is_shown(false));
        assert!(d.is_shown(true));
    }
    let loud = [
        Diagnostic::QueryNotFound { query: s("q") },
        Diagnostic::AncestorMissing { code: s("1"), name: s("a"), level },
        Diagnostic::NoMatchingPoints { code: s("1"), name: s("a") },
        Diagnostic::DataIntegrityFault { code: s("1"), name: s("a"), level },
    ];
    for d in &loud {
        assert!(d.is_shown(false));
        assert!(d.is_shown(true));
    }
}

#[test]
fn verbose_resolution_traces_each_candidate_in_turn() {
    let s = |t: &str| t.to_string();
    let catalog = AreaCatalog::new(vec![
        Area::new("130000", "Tokyo-to", AreaClass::Office),
        Area::new("130010", "Tokyo", AreaClass::Class10).with_parent("130000"),
        Area::new("130020", "Izu", AreaClass::Class10).with_parent("130000"),
        Area::new("130030", "Ogasawara", AreaClass::Class10).with_parent("130000"),
        Area::new("1", "Orphan-ku", AreaClass::Class20),
        Area::new("1310100", "Chiyoda-ku", AreaClass::Class20).with_parent("130010"),
        Area::new("1336100", "Oshima-ku", AreaClass::Class20).with_parent("130020"),
        Area::new("1342100", "Ogasawara-ku", AreaClass::Class20).with_parent("130030"),
        Area::new("1310200", "Chuo-ku", AreaClass::Class20).with_parent("130010"),
    ]);
    let mut index = StationIndex::new();
    index.insert("130010", stations(&["44132", "44136"]));
    index.insert("130030", stations(&["44301"]));
    let points = forecasts();
    let resolver = Resolver::new(&catalog, &index, &points);
    let loud = resolver.search_temperature_point_code("-ku", true);
    let quiet = resolver.search_temperature_point_code("-ku", false);
    let records = vec![
        record("130000", "Tokyo-to", "44132", "Tokyo"),
        record("130000", "Tokyo-to", "44136", "Nerima"),
    ];
    assert_eq!(loud.records, records);
    assert_eq!(quiet.records, records);
    assert_eq!(
        loud.diagnostics,
        vec![
            Diagnostic::CandidateFound { code: s("1"), name: s("Orphan-ku") },
            Diagnostic::DataIntegrityFault {
                code: s("1"),
                name: s("Orphan-ku"),
                level: AreaClass::Class10,
            },
            Diagnostic::CandidateFound { code: s("1310100"), name: s("Chiyoda-ku") },
            Diagnostic::TemperaturePoint { code: s("44132"), name: s("Tokyo") },
            Diagnostic::TemperaturePoint { code: s("44136"), name: s("Nerima") },
            Diagnostic::CandidateFound { code: s("1336100"), name: s("Oshima-ku") },
            Diagnostic::NoStationsForArea { code: s("1336100"), name: s("Oshima-ku") },
            Diagnostic::CandidateFound { code: s("1342100"), name: s("Ogasawara-ku") },
            Diagnostic::NoMatchingPoints { code: s("1342100"), name: s("Ogasawara-ku") },
            Diagnostic::CandidateFound { code: s("1310200"), name: s("Chuo-ku") },
            Diagnostic::TemperaturePoint { code: s("44132"), name: s("Tokyo") },
            Diagnostic::TemperaturePoint { code: s("44136"), name: s("Nerima") },
        ]
    );
    assert_eq!(
        quiet.diagnostics,
        vec![
            Diagnostic::DataIntegrityFault {
                code: s("1"),
                name: s("Orphan-ku"),
                level: AreaClass::Class10,
            },
            Diagnostic::NoMatchingPoints { code: s("1342100"), name: s("Ogasawara-ku") },
        ]
    );
    let shown: Vec<&Diagnostic> = loud.diagnostics.iter().filter(|d| d.is_shown(false)).collect();
    assert_eq!(shown, quiet.diagnostics.iter().collect::<Vec<&Diagnostic>>());
}

#[test]
fn verbose_query_without_candidate_reports_not_found_only() {
    let catalog = catalog();
    let index = station_index();
    let points = forecasts();
    let out = Resolver::new(&catalog, &index, &points).search_temperature_point_code("Nagoya", true);
    assert!(out.records.is_empty());
    assert_eq!(out.diagnostics, vec![Diagnostic::QueryNotFound { query: "Nagoya".to_string() }]);
}

/// A catalog with three wards named "-ku", without the ward at `skip`.
fn three_wards(skip: Option<usize>) -> AreaCatalog {
    let mut areas = vec![
        Area::new("010300", "Kanto-Koshin", AreaClass::Center),
        Area::new("130000", "Tokyo-to", AreaClass::Office).with_parent("010300"),
        Area::new("130010", "Tokyo", AreaClass::Class10).with_parent("130000"),
        Area::new("130020", "Izu", AreaClass::Class10).with_parent("130000"),
        Area::new("130030", "Ogasawara", AreaClass::Class10).with_parent("130000"),
    ];
    let wards = [
        Area::new("1310100", "Chiyoda-ku", AreaClass::Class20).with_parent("130010"),
        Area::new("1336100", "Oshima-ku", AreaClass::Class20).with_parent("130020"),
        Area::new("1342100", "Ogasawara-ku", AreaClass::Class20).with_parent("130030"),
    ];
    for (i, ward) in wards.into_iter().enumerate() {
        if skip != Some(i) {
            areas.push(ward);
        }
    }
    AreaCatalog::new(areas)
}

#[test]
fn taking_a_candidate_without_stations_out_of_the_catalog_keeps_the_records() {
    let mut points = ForecastPointSet::new();
    points.insert(
        "130000",
        vec![point("44132", "Tokyo"), point("44172", "Oshima"), point("44301", "Chichijima")],
    );
    let codes = ["130010", "130020", "130030"];
    let own = ["44132", "44172", "44301"];
    // The ward at `gone` has no stations: its entry is absent, or present and empty.
    for gone in 0..3 {
        for empty_entry in [false, true] {
            let mut index = StationIndex::new();
            for k in 0..3 {
                if k != gone {
                    // Every other ward shares the station 44132 besides its own.
                    index.insert(codes[k], stations(&[own[k], "44132"]));
                } else if empty_entry {
                    index.insert(codes[k], StationSet::new());
                }
            }
            let with = three_wards(None);
            let without = three_wards(Some(gone));
            let a = Resolver::new(&with, &index, &points).search_temperature_point_code("-ku", false);
            let b = Resolver::new(&without, &index, &points)
                .search_temperature_point_code("-ku", false);
            assert_eq!(a.records, b.records);
            assert_eq!(a.records.len(), if gone == 0 { 3 } else { 2 });
        }
    }
}

#[test]
fn taking_the_only_candidate_out_leaves_no_record_either_way() {
    let with = AreaCatalog::new(vec![
        Area::new("130000", "Tokyo-to", AreaClass::Office),
        Area::new("130010", "Tokyo", AreaClass::Class10).with_parent("130000"),
        Area::new("1310100", "Chiyoda-ku", AreaClass::Class20).with_parent("130010"),
    ]);
    let without = AreaCatalog::new(vec![
        Area::new("130000", "Tokyo-to", AreaClass::Office),
        Area::new("130010", "Tokyo", AreaClass::Class10).with_parent("130000"),
    ]);
    let index = StationIndex::new();
    let points = forecasts();
    let a = Resolver::new(&with, &index, &points).search_temperature_point_code("-ku", false);
    let b = Resolver::new(&without, &index, &points).search_temperature_point_code("-ku", false);
    assert_eq!(a.records, b.records);
    assert!(a.records.is_empty());
    assert!(a.diagnostics.is_empty());
    assert_eq!(b.diagnostics, vec![Diagnostic::QueryNotFound { query: "-ku".to_string() }]);
}

#[test]
fn taking_out_an_area_that_shares_its_code_changes_what_links_lead_to() {
    // "A-ku" has the code of the Class10 area "Tokyo" and stands before it, so the parent
    // link of "B-ku" leads to "A-ku" while that is there, and to "Tokyo" when it is gone.
    let build = |with_a: bool| {
        let mut areas = Vec::new();
        if with_a {
            areas.push(Area::new("130010", "A-ku", AreaClass::Class20).with_parent("K0"));
        }
        areas.push(Area::new("K0", "Kzero", AreaClass::Class10).with_parent("130000"));
        areas.push(Area::new("130000", "Tokyo-to", AreaClass::Office));
        areas.push(Area::new("130010", "Tokyo", AreaClass::Class10).with_parent("130000"));
        areas.push(Area::new("d", "B-ku", AreaClass::Class20).with_parent("130010"));
        AreaCatalog::new(areas)
    };
    let mut index = StationIndex::new();
    index.insert("130010", stations(&["44132"]));
    let points = forecasts();
    let with = build(true);
    let without = build(false);
    let a = Resolver::new(&with, &index, &points).search_temperature_point_code("-ku", false);
    let b = Resolver::new(&without, &index, &points).search_temperature_point_code("-ku", false);
    assert!(a.records.is_empty());
    assert_eq!(b.records, vec![record("130000", "Tokyo-to", "44132", "Tokyo")]);
}

#[test]
fn config_block_text() {
    let r = record("130000", "Tokyo-to", "44132", "Tokyo");
    assert_eq!(
        r.to_config_block(),
        "[area]\n    jma_offices = \"130000\"     # Tokyo-to\n    jma_area_code = \"44132\"    # Tokyo\n    reference_time = 5\n"
    );
    let e = record("", "", "", "");
    assert_eq!(
        e.to_config_block(),
        "[area]\n    jma_offices = \"\"     # \n    jma_area_code = \"\"    # \n    reference_time = 5\n"
    );
}

#[test]
fn forecast_offices_lists_each_office_read_once() {
    let catalog = catalog();
    let index = station_index();
    assert_eq!(forecast_offices(&catalog, &index, "-ku"), vec!["130000", "270000"]);
    assert_eq!(forecast_offices(&catalog, &index, "Chiyoda"), vec!["130000"]);
    assert_eq!(forecast_offices(&catalog, &index, "Kita-ku"), vec!["130000", "270000"]);
    assert!(forecast_offices(&catalog, &index, "Nagoya").is_empty());
    let mut partial = StationIndex::new();
    partial.insert("270010", stations(&["62078"]));
    assert_eq!(forecast_offices(&catalog, &partial, "-ku"), vec!["270000"]);
    assert!(forecast_offices(&catalog, &StationIndex::new(), "-ku").is_empty());
}

#[test]
fn resolution_needs_the_points_of_the_listed_offices_only() {
    let catalog = catalog();
    let index = station_index();
    let all = forecasts();
    let mut listed = ForecastPointSet::new();
    for office in forecast_offices(&catalog, &index, "Chiyoda") {
        let points = all.points_for(&office).into_iter().map(|p| p.clone()).collect();
        listed.insert(&office, points);
    }
    assert!(listed.points_for("270000").is_empty());
    let with_all = Resolver::new(&catalog, &index, &all).search_temperature_point_code("Chiyoda", false);
    let with_listed =
        Resolver::new(&catalog, &index, &listed).search_temperature_point_code("Chiyoda", false);
    assert_eq!(with_all, with_listed);
    assert_eq!(with_all.records.len(), 2);
}

#[test]
fn matching_points_keeps_station_points_in_order() {
    let a = point("1", "one");
    let b = point("2", "two");
    let c = point("3", "three");
    let d = point("1", "uno");
    let points = vec![&a, &b, &c, &d];
    let got = matching_points(&points, &stations(&["3", "1"]));
    assert_eq!(got, vec![&a, &c, &d]);
    assert!(matching_points(&points, &StationSet::new()).is_empty());
    assert!(matching_points(&Vec::new(), &stations(&["1"])).is_empty());
}

#[test]
fn emit_records_skips_points_already_recorded() {
    let office = Area::new("130000", "Tokyo-to", AreaClass::Office);
    let a = point("1", "one");
    let b = point("2", "two");
    let d = point("1", "uno");
    let mut records = vec![record("270000", "Osaka-fu", "2", "earlier")];
    assert!(has_point_code(&records, &"2".to_string()));
    assert!(!has_point_code(&records, &"1".to_string()));
    emit_records(&mut records, &office, &vec![&a, &b, &d]);
    assert_eq!(
        records,
        vec![
            record("270000", "Osaka-fu", "2", "earlier"),
            record("130000", "Tokyo-to", "1", "one"),
        ]
    );
    emit_records(&mut records, &office, &Vec::new());
    assert_eq!(records.len(), 2);
}

#[test]
fn resolve_candidate_appends_to_what_is_there() {
    let catalog = catalog();
    let index = station_index();
    let points = forecasts();
    let resolver = Resolver::new(&catalog, &index, &points);
    let mut resolution = Resolution {
        records: vec![record("x", "X", "44132", "seen")],
        diagnostics: vec![Diagnostic::QueryNotFound { query: "kept".to_string() }],
    };
    resolver.resolve_candidate(catalog.find("1310100").unwrap(), false, &mut resolution);
    assert_eq!(
        resolution.records,
        vec![record("x", "X", "44132", "seen"), record("130000", "Tokyo-to", "44136", "Nerima")]
    );
    assert_eq!(resolution.diagnostics.len(), 1);
    let stray = Area::new("9", "Stray", AreaClass::Class20);
    resolver.resolve_candidate(&stray, false, &mut resolution);
    assert_eq!(resolution.records.len(), 2);
    assert_eq!(
        resolution.diagnostics[1],
        Diagnostic::DataIntegrityFault {
            code: "9".to_string(),
            name: "Stray".to_string(),
            level: AreaClass::Class10,
        }
    );
    resolver.resolve_candidate(catalog.find("1310100").unwrap(), true, &mut resolution);
    assert_eq!(resolution.records.len(), 2);
    assert_eq!(
        resolution.diagnostics[2..],
        [
            Diagnostic::CandidateFound { code: "1310100".to_string(), name: "Chiyoda-ku".to_string() },
            Diagnostic::TemperaturePoint { code: "44132".to_string(), name: "Tokyo".to_string() },
            Diagnostic::TemperaturePoint { code: "44136".to_string(), name: "Nerima".to_string() },
        ]
    );
}

#[test]
fn empty_query_takes_every_class20_area() {
    let catalog = catalog();
    let index = station_index();
    let points = forecasts();
    let out = Resolver::new(&catalog, &index, &points).search_temperature_point_code("", false);
    assert_eq!(
        out.records,
        vec![
            record("130000", "Tokyo-to", "44132", "Tokyo"),
            record("130000", "Tokyo-to", "44136", "Nerima"),
            record("130000", "Tokyo-to", "44172", "Oshima"),
            record("270000", "Osaka-fu", "62078", "Osaka"),
        ]
    );
    assert!(out.diagnostics.is_empty());
}
