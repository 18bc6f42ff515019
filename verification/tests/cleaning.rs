use map_dump::bing_maps::MapItem;
use map_dump::clean::{clean_file, count_chain, most_common_chain};
use map_dump::geo_coord::GeoCoord;

fn item(id: &str, chain: Option<&str>) -> MapItem {
    MapItem {
        id: id.to_owned(),
        name: id.to_owned(),
        location: GeoCoord(0, 0),
        address: None,
        phone: None,
        chain_id: chain.map(|c| c.to_owned()),
    }
}

#[test]
fn chains_are_counted() {
    let items = vec![
        item("1", Some("a")),
        item("2", Some("b")),
        item("3", Some("a")),
        item("4", None),
    ];
    assert_eq!(count_chain(&items, &"a".to_owned()), 2);
    assert_eq!(count_chain(&items, &"b".to_owned()), 1);
    assert_eq!(count_chain(&items, &"c".to_owned()), 0);
}

#[test]
fn dominant_chain_wins() {
    let items = vec![
        item("1", Some("b")),
        item("2", Some("a")),
        item("3", Some("a")),
        item("4", None),
    ];
    assert_eq!(most_common_chain(&items).as_deref(), Some("a"));
}

#[test]
fn no_chains_means_no_winner() {
    let items = vec![item("1", None), item("2", None)];
    assert_eq!(most_common_chain(&items), None);
}

#[test]
fn cleaning_keeps_only_the_dominant_chain() {
    let items = vec![
        item("1", Some("a")),
        item("2", Some("b")),
        item("3", Some("a")),
        item("4", None),
    ];
    let kept = clean_file(items);
    let ids: Vec<&str> = kept.iter().map(|m| m.id.as_str()).collect();
    assert_eq!(ids, vec!["1", "3"]);
}

#[test]
fn cleaning_without_chains_keeps_everything() {
    let items = vec![item("1", None), item("2", None)];
    let kept = clean_file(items);
    assert_eq!(kept.len(), 2);
}
