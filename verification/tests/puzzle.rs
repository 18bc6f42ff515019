use map_dump::game::{game_data_block, parse_center_letter, parse_expiration, parse_string_vec,
    value_at_path, Error, GameInfo};
use map_dump::json::JsonValue;

fn obj(fields: Vec<(&str, JsonValue)>) -> JsonValue {
    JsonValue::Object(fields.into_iter().map(|(k, v)| (k.to_owned(), v)).collect())
}

fn strings(words: &[&str]) -> JsonValue {
    JsonValue::Array(words.iter().map(|w| JsonValue::Str((*w).to_owned())).collect())
}

fn game_data() -> JsonValue {
    obj(vec![(
        "today",
        obj(vec![
            ("expiration", JsonValue::Num(1_663_632_000)),
            ("centerLetter", JsonValue::Str("o".to_owned())),
            ("outerLetters", strings(&["b", "g", "l", "n", "u", "y"])),
            ("pangrams", strings(&["bungalow"])),
            ("answers", strings(&["bungalow", "balloon", "noble"])),
        ]),
    )])
}

#[test]
fn whole_game_decodes() {
    let g = GameInfo::from_game_data(&game_data()).unwrap();
    assert_eq!(g.expiration, 1_663_632_000);
    assert_eq!(g.center_letter, "o");
    assert_eq!(g.outer_letters, vec!["b", "g", "l", "n", "u", "y"]);
    assert_eq!(g.pangrams, vec!["bungalow"]);
    assert_eq!(g.answers, vec!["bungalow", "balloon", "noble"]);
}

#[test]
fn expiration_must_be_a_number() {
    let v = obj(vec![("today", obj(vec![("expiration", JsonValue::Str("soon".to_owned()))]))]);
    assert!(matches!(parse_expiration(&v), Err(Error::DecodePage(_))));
    let neg = obj(vec![("today", obj(vec![("expiration", JsonValue::Num(-5))]))]);
    assert!(parse_expiration(&neg).is_err());
    assert_eq!(parse_expiration(&game_data()).unwrap(), 1_663_632_000);
}

#[test]
fn center_letter_must_be_a_string() {
    assert_eq!(parse_center_letter(&game_data()).unwrap(), "o");
    let v = obj(vec![("today", obj(vec![("centerLetter", JsonValue::Num(7))]))]);
    assert!(matches!(parse_center_letter(&v), Err(Error::DecodePage(_))));
}

#[test]
fn string_vec_rejects_mixed_lists() {
    let v = obj(vec![(
        "today",
        obj(vec![(
            "answers",
            JsonValue::Array(vec![JsonValue::Str("ok".to_owned()), JsonValue::Num(3)]),
        )]),
    )]);
    let path = vec!["today".to_owned(), "answers".to_owned()];
    assert!(matches!(parse_string_vec(&v, &path), Err(Error::DecodePage(_))));
}

#[test]
fn value_at_path_reports_missing_attributes() {
    let v = game_data();
    let path = vec!["today".to_owned(), "nope".to_owned()];
    assert!(matches!(value_at_path(&v, &path), Err(Error::DecodePage(_))));
    let good = vec!["today".to_owned(), "centerLetter".to_owned()];
    assert!(value_at_path(&v, &good).is_ok());
}

#[test]
fn game_data_block_is_extracted() {
    let page = "<html><script>window.gameData = {\"today\":{\"centerLetter\":\"o\"}}</script><p>rest of page</p></html>";
    let block = game_data_block(page).unwrap();
    assert_eq!(block, "{\"today\":{\"centerLetter\":\"o\"}}");
    assert_eq!(game_data_block("<html>no data</html>"), None);
}

#[test]
fn puzzle_error_messages() {
    assert_eq!(Error::HTTP("down".to_owned()).message(), "error making HTTP request: down");
    assert_eq!(Error::Serde("eof".to_owned()).message(), "error parsing JSON: eof");
    assert_eq!(Error::DecodePage("bad".to_owned()).message(), "error decoding page: bad");
}
