use map_dump::bing_maps::{backoff_schedule, classify_page, is_overloaded, map_item_from_entity,
    map_search, map_search_attempt, parse_map_items, read_object, Error, MapItem, PageOutcome};
use map_dump::geo_coord::GeoCoord;
use map_dump::json::JsonValue;

fn obj(fields: Vec<(&str, JsonValue)>) -> JsonValue {
    JsonValue::Object(fields.into_iter().map(|(k, v)| (k.to_owned(), v)).collect())
}

fn entity(id: &str, title: &str, x: i64, y: i64) -> JsonValue {
    obj(vec![
        (
            "entity",
            obj(vec![
                ("id", JsonValue::Str(id.to_owned())),
                ("title", JsonValue::Str(title.to_owned())),
            ]),
        ),
        ("geometry", obj(vec![("x", JsonValue::Num(x)), ("y", JsonValue::Num(y))])),
    ])
}

#[test]
fn overload_sentinel_detection() {
    assert!(is_overloaded("Ref A: DC5 Ref B: AMB Ref C: 2022-09-20T00:20:31Z"));
    assert!(is_overloaded("Ref A:"));
    assert!(!is_overloaded("Ref A"));
    assert!(!is_overloaded("<html></html>"));
    assert!(!is_overloaded(""));
}

#[test]
fn backoff_schedule_values() {
    assert_eq!(backoff_schedule(), vec![100, 1000, 2000, 4000, 8000, 10000, 16000, 32000]);
}

#[test]
fn attempt_exhausts_schedule_on_overload() {
    let sentinel = "Ref A: overloaded".to_owned();
    let responses: Vec<String> = (0..8).map(|_| sentinel.clone()).collect();
    let (outcome, requests) = map_search_attempt(&responses);
    assert!(matches!(outcome, Err(Error::RetryLimitExceeded)));
    assert_eq!(requests, 8);
}

#[test]
fn attempt_takes_first_real_page() {
    let mut responses: Vec<String> = (0..8).map(|_| "Ref A: busy".to_owned()).collect();
    responses[2] = "<html>listings</html>".to_owned();
    let (outcome, requests) = map_search_attempt(&responses);
    assert_eq!(outcome.unwrap(), 2);
    assert_eq!(requests, 3);
}

#[test]
fn search_retries_exactly_budget_times() {
    let outcomes = vec![false; 6];
    let (ok, attempts) = map_search(&outcomes, 5);
    assert!(!ok);
    assert_eq!(attempts, 6);
}

#[test]
fn search_stops_at_first_success() {
    let outcomes = vec![false, true, false, false];
    let (ok, attempts) = map_search(&outcomes, 3);
    assert!(ok);
    assert_eq!(attempts, 2);
}

#[test]
fn search_with_negative_budget_tries_once() {
    let outcomes = vec![false];
    let (ok, attempts) = map_search(&outcomes, -1);
    assert!(!ok);
    assert_eq!(attempts, 1);
}

#[test]
fn entity_decodes_to_record() {
    let v = entity("abc", "A Store", 12_345_678, -90_000_000);
    let item = map_item_from_entity(&v).unwrap();
    assert_eq!(item.id, "abc");
    assert_eq!(item.name, "A Store");
    assert_eq!(item.location, GeoCoord(12_345_678, -90_000_000));
    assert_eq!(item.address, None);
    assert_eq!(item.phone, None);
    assert_eq!(item.chain_id, None);
}

#[test]
fn entity_keeps_optional_fields() {
    let v = obj(vec![
        (
            "entity",
            obj(vec![
                ("id", JsonValue::Str("x1".to_owned())),
                ("title", JsonValue::Str("T".to_owned())),
                ("address", JsonValue::Str("1 Main St".to_owned())),
                ("phone", JsonValue::Str("555".to_owned())),
                ("chainId", JsonValue::Str("c9".to_owned())),
            ]),
        ),
        ("geometry", obj(vec![("x", JsonValue::Num(1)), ("y", JsonValue::Num(2))])),
    ]);
    let item = map_item_from_entity(&v).unwrap();
    assert_eq!(item.address.as_deref(), Some("1 Main St"));
    assert_eq!(item.phone.as_deref(), Some("555"));
    assert_eq!(item.chain_id.as_deref(), Some("c9"));
}

#[test]
fn entity_without_id_is_rejected() {
    let v = obj(vec![
        ("entity", obj(vec![("title", JsonValue::Str("T".to_owned()))])),
        ("geometry", obj(vec![("x", JsonValue::Num(1)), ("y", JsonValue::Num(2))])),
    ]);
    let e = map_item_from_entity(&v).unwrap_err();
    assert!(matches!(e, Error::ProcessJSON(_)));
}

#[test]
fn entity_with_wrong_type_is_rejected() {
    let v = obj(vec![
        (
            "entity",
            obj(vec![
                ("id", JsonValue::Num(7)),
                ("title", JsonValue::Str("T".to_owned())),
            ]),
        ),
        ("geometry", obj(vec![("x", JsonValue::Num(1)), ("y", JsonValue::Num(2))])),
    ]);
    assert!(map_item_from_entity(&v).is_err());
}

#[test]
fn page_of_entities_decodes_whole() {
    let vs = vec![entity("a", "A", 1, 2), entity("b", "B", 3, 4)];
    let items = parse_map_items(&vs).unwrap();
    assert_eq!(items.len(), 2);
    assert_eq!(items[0].id, "a");
    assert_eq!(items[1].id, "b");
}

#[test]
fn page_with_bad_entity_fails_whole() {
    let vs = vec![entity("a", "A", 1, 2), JsonValue::Null];
    assert!(parse_map_items(&vs).is_err());
}

#[test]
fn read_object_follows_paths() {
    let v = entity("abc", "A Store", 5, 6);
    let path = vec!["entity".to_owned(), "id".to_owned()];
    let id: String = read_object(&v, &path).unwrap();
    assert_eq!(id, "abc");
    let bad = vec!["entity".to_owned(), "missing".to_owned()];
    let r: Result<String, Error> = read_object(&v, &bad);
    assert!(matches!(r, Err(Error::ProcessJSON(_))));
    let deep = vec!["entity".to_owned(), "id".to_owned(), "deeper".to_owned()];
    let r2: Result<String, Error> = read_object(&v, &deep);
    assert!(matches!(r2, Err(Error::ProcessJSON(_))));
}

#[test]
fn error_messages() {
    assert_eq!(Error::HTTP("boom".to_owned()).message(), "error making request: boom");
    assert_eq!(Error::RetryLimitExceeded.message(), "request retry limit exceeded");
    assert_eq!(Error::ParseJSON("eof".to_owned()).message(), "error parsing JSON: eof");
    assert_eq!(
        Error::ProcessJSON("bad path".to_owned()).message(),
        "error processing JSON structure: bad path"
    );
}

#[test]
fn classify_page_extracts_payloads() {
    let html = r#"<div><a class="listings-item" data-entity="first payload">x</a><a class="other">no</a><a class="listings-item" data-entity="second payload">y</a></div>"#;
    match classify_page(html) {
        PageOutcome::Payloads(ps) => {
            assert_eq!(ps, vec!["first payload".to_owned(), "second payload".to_owned()]);
        }
        PageOutcome::Overloaded => panic!("not an overload"),
    }
}

#[test]
fn classify_page_detects_overload() {
    assert!(matches!(classify_page("Ref A: DC5"), PageOutcome::Overloaded));
}

#[test]
fn records_compare_by_all_fields() {
    let a = MapItem {
        id: "i".to_owned(),
        name: "n".to_owned(),
        location: GeoCoord(1, 2),
        address: None,
        phone: None,
        chain_id: None,
    };
    let b = a.clone();
    assert_eq!(a, b);
}
