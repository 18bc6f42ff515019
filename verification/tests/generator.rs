use map_dump::generators::{make_stream, StreamPoll, Yielder, YielderStream};
use map_dump::json::{lookup_path, JsonValue, PathErr};

#[test]
fn put_parks_and_hand_off_completes() {
    let mut slot: Yielder<u32> = Yielder::new();
    let fut = slot.put(7);
    assert!(!fut.poll(&slot));
    let mut stream: YielderStream<u32> = YielderStream { state: slot, future_done: false };
    assert!(matches!(stream.poll_next(false, None), StreamPoll::Ready(Some(7))));
    assert!(fut.poll(&stream.state));
}

#[test]
fn stream_yields_values_then_ends() {
    let mut stream: YielderStream<u32> = make_stream();
    // the producer parks one value per poll, then finishes
    assert!(matches!(stream.poll_next(false, Some(1)), StreamPoll::Ready(Some(1))));
    assert!(matches!(stream.poll_next(false, Some(2)), StreamPoll::Ready(Some(2))));
    assert!(matches!(stream.poll_next(true, None), StreamPoll::Ready(None)));
    // a finished stream stays finished
    assert!(matches!(stream.poll_next(false, None), StreamPoll::Ready(None)));
}

#[test]
fn stream_pends_while_producer_works() {
    let mut stream: YielderStream<u32> = make_stream();
    assert!(matches!(stream.poll_next(false, None), StreamPoll::Pending));
    assert!(matches!(stream.poll_next(false, Some(9)), StreamPoll::Ready(Some(9))));
}

#[test]
fn final_parked_value_comes_before_the_end() {
    let mut stream: YielderStream<u32> = make_stream();
    // the producer finishes and parks a last value in the same poll
    assert!(matches!(stream.poll_next(true, Some(5)), StreamPoll::Ready(Some(5))));
    assert!(matches!(stream.poll_next(false, None), StreamPoll::Ready(None)));
}

#[test]
fn lookup_path_walks_objects() {
    let v = JsonValue::Object(vec![(
        "a".to_owned(),
        JsonValue::Object(vec![("b".to_owned(), JsonValue::Num(3))]),
    )]);
    let path = vec!["a".to_owned(), "b".to_owned()];
    match lookup_path(&v, &path) {
        Ok(JsonValue::Num(x)) => assert_eq!(*x, 3),
        other => panic!("unexpected: {:?}", other),
    }
    let missing = vec!["a".to_owned(), "c".to_owned()];
    assert!(matches!(lookup_path(&v, &missing), Err(PathErr::Missing)));
    let through = vec!["a".to_owned(), "b".to_owned(), "c".to_owned()];
    assert!(matches!(lookup_path(&v, &through), Err(PathErr::NotObject)));
}

#[test]
fn get_returns_first_matching_field() {
    let v = JsonValue::Object(vec![
        ("k".to_owned(), JsonValue::Num(1)),
        ("k".to_owned(), JsonValue::Num(2)),
    ]);
    match v.get(&"k".to_owned()) {
        Some(JsonValue::Num(x)) => assert_eq!(*x, 1),
        other => panic!("unexpected: {:?}", other),
    }
    assert!(v.get(&"missing".to_owned()).is_none());
    assert!(JsonValue::Null.get(&"k".to_owned()).is_none());
}
