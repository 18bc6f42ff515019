//! The daily puzzle page: its embedded game-data block and the record it
//! denotes.
//!
//! Fetching the page happens outside the library; the block is located
//! here, and its structured content is decoded into [`GameInfo`] with an
//! exact account of when each field parses.

use vstd::prelude::*;
use vstd::string::StringExecFns;
use crate::json::{path_lookup, path_view, JsonValue};

verus! {

/// An error of the puzzle fetcher.
#[derive(Debug)]
pub enum Error {
    /// The transport failed; carries its description.
    HTTP(String),
    /// The game-data block was not valid JSON; carries the parser's
    /// description.
    Serde(String),
    /// The page or the block did not have the expected shape.
    DecodePage(String),
}

impl Error {
    /// A human-readable description of the error.
    pub fn message(&self) -> (r: String)
        ensures
            match self {
                Error::HTTP(e) => r@ == "error making HTTP request: "@ + e@,
                Error::Serde(e) => r@ == "error parsing JSON: "@ + e@,
                Error::DecodePage(e) => r@ == "error decoding page: "@ + e@,
            },
    {
        match self {
            Error::HTTP(e) => {
                let mut s = "error making HTTP request: ".to_owned();
                s.append(e.as_str());
                s
            },
            Error::Serde(e) => {
                let mut s = "error parsing JSON: ".to_owned();
                s.append(e.as_str());
                s
            },
            Error::DecodePage(e) => {
                let mut s = "error decoding page: ".to_owned();
                s.append(e.as_str());
                s
            },
        }
    }
}

/// One day's game: when it expires (epoch seconds) and its letters and
/// word lists.
#[derive(Debug)]
pub struct GameInfo {
    pub expiration: u64,
    pub center_letter: String,
    pub outer_letters: Vec<String>,
    pub pangrams: Vec<String>,
    pub answers: Vec<String>,
}

/// Resolves a field path, or reports the failure as a decoding error.
pub fn value_at_path<'a>(obj: &'a JsonValue, path: &Vec<String>) -> (r: Result<
    &'a JsonValue,
    Error,
>)
    ensures
        match r {
            Ok(x) => path_lookup(*obj, path_view(path@)) == Ok::<JsonValue, crate::json::PathErr>(
                *x,
            ),
            Err(e) => e is DecodePage && path_lookup(*obj, path_view(path@)) is Err,
        },
{
    match crate::json::lookup_path(obj, path) {
        Ok(v) => Ok(v),
        Err(_) => Err(Error::DecodePage("no attribute at path".to_owned())),
    }
}

/// The game's expiration time: the number at `today.expiration`, when it
/// is non-negative.
pub open spec fn expiration_spec(v: JsonValue) -> Option<u64> {
    match path_lookup(v, seq!["today"@, "expiration"@]) {
        Ok(w) => match w {
            JsonValue::Num(x) => if x >= 0 {
                Some(x as u64)
            } else {
                None
            },
            _ => None,
        },
        Err(_) => None,
    }
}

/// The game's centre letter: the string at `today.centerLetter`.
pub open spec fn center_letter_spec(v: JsonValue) -> Option<String> {
    match path_lookup(v, seq!["today"@, "centerLetter"@]) {
        Ok(w) => match w {
            JsonValue::Str(s) => Some(s),
            _ => None,
        },
        Err(_) => None,
    }
}

/// The strings of an array value, when every element is a string.
pub open spec fn as_str_seq(arr: Seq<JsonValue>) -> Option<Seq<String>>
    decreases arr.len(),
{
    if arr.len() == 0 {
        Some(Seq::empty())
    } else {
        match arr[0] {
            JsonValue::Str(s) => match as_str_seq(arr.drop_first()) {
                Some(rest) => Some(seq![s] + rest),
                None => None,
            },
            _ => None,
        }
    }
}

/// The string list at a field path, when the path resolves to an array
/// of strings.
pub open spec fn string_vec_spec(v: JsonValue, path: Seq<Seq<char>>) -> Option<Seq<String>> {
    match path_lookup(v, path) {
        Ok(w) => match w {
            JsonValue::Array(arr) => as_str_seq(arr@),
            _ => None,
        },
        Err(_) => None,
    }
}

/// Reads the game's expiration timestamp.
pub fn parse_expiration(obj: &JsonValue) -> (r: Result<u64, Error>)
    ensures
        match expiration_spec(*obj) {
            Some(x) => r matches Ok(y) && y == x,
            None => r matches Err(e) && e is DecodePage,
        },
{
    let path = path2("today", "expiration");
    proof {
        assert(path_view(path@) =~= seq!["today"@, "expiration"@]);
    }
    match value_at_path(obj, &path) {
        Ok(JsonValue::Num(x)) => {
            if *x >= 0 {
                Ok(*x as u64)
            } else {
                Err(Error::DecodePage("could not parse timestamp".to_owned()))
            }
        },
        _ => Err(Error::DecodePage("could not parse timestamp".to_owned())),
    }
}

/// Reads the game's centre letter.
pub fn parse_center_letter(obj: &JsonValue) -> (r: Result<String, Error>)
    ensures
        match center_letter_spec(*obj) {
            Some(s) => r matches Ok(t) && t == s,
            None => r matches Err(e) && e is DecodePage,
        },
{
    let path = path2("today", "centerLetter");
    proof {
        assert(path_view(path@) =~= seq!["today"@, "centerLetter"@]);
    }
    match value_at_path(obj, &path) {
        Ok(JsonValue::Str(s)) => Ok(s.clone()),
        _ => Err(Error::DecodePage("invalid type for center letter".to_owned())),
    }
}

/// Reads a list of strings at a field path.
pub fn parse_string_vec(obj: &JsonValue, path: &Vec<String>) -> (r: Result<Vec<String>, Error>)
    ensures
        match string_vec_spec(*obj, path_view(path@)) {
            Some(ss) => r matches Ok(v) && v@ == ss,
            None => r matches Err(e) && e is DecodePage,
        },
{
    let arr = match value_at_path(obj, path) {
        Ok(JsonValue::Array(arr)) => arr,
        _ => {
            return Err(Error::DecodePage("value was not list of strings".to_owned()));
        },
    };
    let ghost all = arr@;
    proof {
        assert(all.skip(0) =~= all);
    }
    let mut res: Vec<String> = Vec::new();
    let n = arr.len();
    for k in 0..n
        invariant
            n == arr@.len(),
            all == arr@,
            res@.len() == k,
            path_lookup(*obj, path_view(path@)) == Ok::<JsonValue, crate::json::PathErr>(
                JsonValue::Array(*arr),
            ),
            forall|l: int|
                0 <= l < k ==> ((#[trigger] all[l]) matches JsonValue::Str(s) && res@[l] == s),
    {
        match &arr[k] {
            JsonValue::Str(s) => {
                res.push(s.clone());
            },
            _ => {
                proof {
                    lemma_as_str_seq_none(all, k as int);
                }
                return Err(Error::DecodePage("value was not list of strings".to_owned()));
            },
        }
    }
    proof {
        lemma_as_str_seq_all(all);
        let ss = as_str_seq(all).unwrap();
        assert forall|l: int| 0 <= l < res@.len() implies res@[l] == ss[l] by {
            assert(all[l] matches JsonValue::Str(s) && res@[l] == s);
            assert(all[l] matches JsonValue::Str(s2) && ss[l] == s2);
        }
        assert(res@ =~= ss);
    }
    Ok(res)
}

/// A list whose every prefix element is a string, and whose element `k`
/// is not, denotes no string list.
proof fn lemma_as_str_seq_none(arr: Seq<JsonValue>, k: int)
    requires
        0 <= k < arr.len(),
        !(arr[k] is Str),
    ensures
        as_str_seq(arr) is None,
    decreases arr.len(),
{
    if k > 0 {
        lemma_as_str_seq_none(arr.drop_first(), k - 1);
    }
}

/// A list of strings denotes exactly its strings, element-wise.
proof fn lemma_as_str_seq_all(arr: Seq<JsonValue>)
    requires
        forall|l: int| 0 <= l < arr.len() ==> (#[trigger] arr[l]) is Str,
    ensures
        as_str_seq(arr) matches Some(ss) && ss.len() == arr.len() && (forall|l: int|
            0 <= l < arr.len() ==> ((#[trigger] arr[l]) matches JsonValue::Str(s) && ss[l] == s)),
    decreases arr.len(),
{
    if arr.len() > 0 {
        assert(arr[0] is Str);
        lemma_as_str_seq_all(arr.drop_first());
        assert forall|l: int|
            0 <= l < arr.len() implies ((#[trigger] arr[l]) matches JsonValue::Str(s)
            && as_str_seq(arr).unwrap()[l] == s) by {
            if l > 0 {
                assert(arr.drop_first()[l - 1] == arr[l]);
            }
        }
    }
}

impl GameInfo {
    /// Decodes one day's game from the parsed game-data block: the
    /// expiration, the centre letter and the three word lists must all be
    /// present with their expected shapes.
    pub fn from_game_data(v: &JsonValue) -> (r: Result<GameInfo, Error>)
        ensures
            match r {
                Ok(g) => {
                    &&& expiration_spec(*v) == Some(g.expiration)
                    &&& center_letter_spec(*v) == Some(g.center_letter)
                    &&& string_vec_spec(*v, seq!["today"@, "outerLetters"@]) == Some(
                        g.outer_letters@,
                    )
                    &&& string_vec_spec(*v, seq!["today"@, "pangrams"@]) == Some(g.pangrams@)
                    &&& string_vec_spec(*v, seq!["today"@, "answers"@]) == Some(g.answers@)
                },
                Err(e) => {
                    &&& e is DecodePage
                    &&& {
                        ||| expiration_spec(*v) is None
                        ||| center_letter_spec(*v) is None
                        ||| string_vec_spec(*v, seq!["today"@, "outerLetters"@]) is None
                        ||| string_vec_spec(*v, seq!["today"@, "pangrams"@]) is None
                        ||| string_vec_spec(*v, seq!["today"@, "answers"@]) is None
                    }
                },
            },
    {
        let expiration = match parse_expiration(v) {
            Ok(x) => x,
            Err(e) => return Err(e),
        };
        let center_letter = match parse_center_letter(v) {
            Ok(x) => x,
            Err(e) => return Err(e),
        };
        let p_outer = path2("today", "outerLetters");
        proof {
            assert(path_view(p_outer@) =~= seq!["today"@, "outerLetters"@]);
        }
        let outer_letters = match parse_string_vec(v, &p_outer) {
            Ok(x) => x,
            Err(e) => return Err(e),
        };
        let p_pangrams = path2("today", "pangrams");
        proof {
            assert(path_view(p_pangrams@) =~= seq!["today"@, "pangrams"@]);
        }
        let pangrams = match parse_string_vec(v, &p_pangrams) {
            Ok(x) => x,
            Err(e) => return Err(e),
        };
        let p_answers = path2("today", "answers");
        proof {
            assert(path_view(p_answers@) =~= seq!["today"@, "answers"@]);
        }
        let answers = match parse_string_vec(v, &p_answers) {
            Ok(x) => x,
            Err(e) => return Err(e),
        };
        Ok(GameInfo { expiration, center_letter, outer_letters, pangrams, answers })
    }
}

/// What the game-data pattern captures in a page: the text of the first
/// capture group of its first match, if any.
pub uninterp spec fn first_capture(pattern: Seq<char>, hay: Seq<char>) -> Option<Seq<char>>;

/// Relies on regex's `Regex::new` and `Regex::captures`: the first
/// match's first capture group depends on the pattern and the haystack
/// alone; a pattern that does not compile, or does not match, yields
/// nothing.
#[verifier::external_body]
fn regex_capture(pattern: &str, hay: &str) -> (r: Option<String>)
    ensures
        r.deep_view() == first_capture(pattern@, hay@),
{
    match regex::Regex::new(pattern) {
        Ok(re) => re.captures(hay).and_then(|c| c.get(1)).map(|m| m.as_str().to_owned()),
        Err(_) => None,
    }
}

/// The JSON text of the game-data block embedded in a fetched puzzle
/// page, when the page carries one.
pub fn game_data_block(page: &str) -> (r: Option<String>)
    ensures
        r.deep_view() == first_capture("window.gameData = (.*?)</script>"@, page@),
{
    regex_capture("window.gameData = (.*?)</script>", page)
}

/// A two-segment field path.
fn path2(a: &str, b: &str) -> (r: Vec<String>)
    ensures
        path_view(r@) == seq![a@, b@],
{
    let mut v: Vec<String> = Vec::new();
    v.push(a.to_owned());
    v.push(b.to_owned());
    proof {
        assert(path_view(v@) =~= seq![a@, b@]);
    }
    v
}

} // verus!
