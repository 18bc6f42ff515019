use map_dump::bing_maps::{Error, MapItem};
use map_dump::geo_coord::{GeoBounds, GeoCoord};
use map_dump::scrape::{fetch_bounds_subdivided, write_outputs, Aggregator, SubdivisionSearch,
    world_regions};

fn item(id: &str) -> MapItem {
    MapItem {
        id: id.to_owned(),
        name: format!("store {}", id),
        location: GeoCoord(0, 0),
        address: None,
        phone: None,
        chain_id: None,
    }
}

fn items(ids: &[&str]) -> Vec<MapItem> {
    ids.iter().map(|id| item(id)).collect()
}

fn root() -> GeoBounds {
    GeoBounds(GeoCoord(-10_000_000, -10_000_000), GeoCoord(10_000_000, 10_000_000))
}

#[test]
fn depth_zero_issues_exactly_one_query() {
    let responses = vec![Ok(items(&["a", "b"])), Ok(items(&["c"]))];
    let (outcome, queries) = fetch_bounds_subdivided(root(), 0, responses);
    assert_eq!(queries, 1);
    let found = outcome.unwrap();
    assert_eq!(found.len(), 2);
}

#[test]
fn unproductive_root_is_not_split() {
    let mut search = SubdivisionSearch::new(root(), 3);
    assert!(search.next_query().is_some());
    search.step(Vec::new());
    assert!(search.next_query().is_none());
    assert!(search.into_results().is_empty());
}

#[test]
fn productive_root_queues_four_children() {
    let mut search = SubdivisionSearch::new(root(), 3);
    let first = search.next_query().unwrap();
    assert_eq!(first, root());
    search.step(items(&["a"]));
    let mut pending = 0;
    while search.next_query().is_some() {
        search.step(Vec::new());
        pending += 1;
    }
    assert_eq!(pending, 4);
}

#[test]
fn crawl_scenario_deduplicates_to_five() {
    // the root box yields 3 distinct ids; its four children, at depth
    // limit 1, yield 2 new ids in total among repeats
    let responses = vec![
        Ok(items(&["a", "b", "c"])),
        Ok(items(&["a", "d"])),
        Ok(items(&["b"])),
        Ok(items(&["d", "e"])),
        Ok(Vec::new()),
    ];
    let (outcome, queries) = fetch_bounds_subdivided(root(), 1, responses);
    assert_eq!(queries, 5);
    let found = outcome.unwrap();
    assert_eq!(found.len(), 5);
    let batches = vec![Ok(found)];
    let lines = write_outputs(batches).unwrap();
    assert_eq!(lines.len(), 5);
    let mut ids: Vec<String> = lines.iter().map(|m| m.id.clone()).collect();
    ids.sort();
    assert_eq!(ids, vec!["a", "b", "c", "d", "e"]);
}

#[test]
fn failed_query_aborts_search() {
    let responses = vec![
        Ok(items(&["a"])),
        Err(Error::RetryLimitExceeded),
        Ok(items(&["b"])),
    ];
    let (outcome, queries) = fetch_bounds_subdivided(root(), 2, responses);
    assert_eq!(queries, 2);
    assert!(matches!(outcome, Err(Error::RetryLimitExceeded)));
}

#[test]
fn search_keeps_last_seen_record_of_an_id() {
    let mut search = SubdivisionSearch::new(root(), 1);
    search.step(items(&["a", "b"]));
    let replacement = MapItem {
        id: "a".to_owned(),
        name: "renamed".to_owned(),
        location: GeoCoord(1, 1),
        address: None,
        phone: None,
        chain_id: None,
    };
    while search.next_query().is_some() {
        search.step(vec![replacement.clone()]);
    }
    let found = search.into_results();
    assert_eq!(found.len(), 2);
    let a = found.iter().find(|m| m.id == "a").unwrap();
    assert_eq!(a.name, "renamed");
}

#[test]
fn aggregator_reports_repeats() {
    let mut agg = Aggregator::new();
    assert!(agg.insert(&"x".to_owned()));
    assert!(agg.insert(&"y".to_owned()));
    assert!(!agg.insert(&"x".to_owned()));
    assert!(!agg.insert(&"y".to_owned()));
    assert!(agg.insert(&"z".to_owned()));
}

#[test]
fn duplicate_id_yields_one_output_line() {
    // the same id arrives twice, with different incidental fields
    let mut second = item("dup");
    second.name = "other name".to_owned();
    second.phone = Some("555".to_owned());
    let batches = vec![Ok(vec![item("dup")]), Ok(vec![second])];
    let lines = write_outputs(batches).unwrap();
    assert_eq!(lines.len(), 1);
    assert_eq!(lines[0].id, "dup");
    // the first-seen record survives in the output
    assert_eq!(lines[0].name, "store dup");
}

#[test]
fn failed_batch_aborts_output() {
    let batches = vec![
        Ok(vec![item("a")]),
        Err(Error::HTTP("connection reset".to_owned())),
        Ok(vec![item("b")]),
    ];
    let err = write_outputs(batches).unwrap_err();
    assert!(matches!(err, Error::HTTP(_)));
}

#[test]
fn world_regions_counts_tiles() {
    // 45 degrees: 2 latitude rows, 8 longitude columns, both hemispheres
    let regions = world_regions(45_000_000);
    assert_eq!(regions.len(), 2 * 2 * 8);
}
