//! The map-search client: its record type, error taxonomy, overload
//! detection, retry policy and response decoding.
//!
//! The transport lives outside the library: callers fetch raw page bodies
//! and hand them in as strings, and the functions here make every decision
//! — whether a body is the overload sentinel, how long to back off, when a
//! retry budget is exhausted, and which records a decoded page yields.

use vstd::prelude::*;
use crate::geo_coord::GeoCoord;
use crate::json::{path_lookup, path_view, JsonValue, PathErr};
use vstd::string::StrSliceExecFns;
use vstd::string::StringExecFns;

verus! {

/// An error of the map-search client.
#[derive(Debug)]
pub enum Error {
    /// The transport failed; carries its description.
    HTTP(String),
    /// Every backoff delay was used up on overload responses.
    RetryLimitExceeded,
    /// A page payload was not valid JSON; carries the parser's description.
    ParseJSON(String),
    /// A payload was valid JSON but not of the expected shape.
    ProcessJSON(String),
}

impl Error {
    /// A human-readable description of the error.
    pub fn message(&self) -> (r: String)
        ensures
            match self {
                Error::HTTP(e) => r@ == "error making request: "@ + e@,
                Error::RetryLimitExceeded => r@ == "request retry limit exceeded"@,
                Error::ParseJSON(e) => r@ == "error parsing JSON: "@ + e@,
                Error::ProcessJSON(e) => r@ == "error processing JSON structure: "@ + e@,
            },
    {
        match self {
            Error::HTTP(e) => {
                let mut s = "error making request: ".to_owned();
                s.append(e.as_str());
                s
            },
            Error::RetryLimitExceeded => "request retry limit exceeded".to_owned(),
            Error::ParseJSON(e) => {
                let mut s = "error parsing JSON: ".to_owned();
                s.append(e.as_str());
                s
            },
            Error::ProcessJSON(e) => {
                let mut s = "error processing JSON structure: ".to_owned();
                s.append(e.as_str());
                s
            },
        }
    }
}

/// A discovered entity.  Identity is the `id` field alone: two records
/// with the same id denote the same entity.
#[derive(Clone, Debug, PartialEq, Eq)]
pub struct MapItem {
    pub id: String,
    pub name: String,
    pub location: GeoCoord,
    pub address: Option<String>,
    pub phone: Option<String>,
    pub chain_id: Option<String>,
}

/// An overloaded upstream answers with a reference dump instead of a page;
/// such a body starts with this fixed prefix.
pub open spec fn is_overload_sentinel(s: Seq<char>) -> bool {
    s.len() >= 6 && s.subrange(0, 6) == "Ref A:"@
}

/// Whether a raw response body is the upstream's overload sentinel.
pub fn is_overloaded(response: &str) -> (r: bool)
    ensures
        r == is_overload_sentinel(response@),
{
    proof {
        reveal_strlit("Ref A:");
    }
    let sentinel: &str = "Ref A:";
    let n = response.unicode_len();
    if n < 6 {
        return false;
    }
    let mut i: usize = 0;
    while i < 6
        invariant
            0 <= i <= 6,
            n == response@.len(),
            n >= 6,
            sentinel@ == "Ref A:"@,
            "Ref A:"@.len() == 6,
            forall|j: int| 0 <= j < i ==> response@[j] == "Ref A:"@[j],
        decreases 6 - i,
    {
        if response.get_char(i) != sentinel.get_char(i) {
            proof {
                assert(response@.subrange(0, 6)[i as int] != "Ref A:"@[i as int]);
            }
            return false;
        }
        i += 1;
    }
    proof {
        assert(response@.subrange(0, 6) =~= "Ref A:"@);
    }
    true
}

/// Conversion of one structured value into a plain field value.
pub trait FromJson: Sized {
    /// The field value this type extracts, when the value has the right
    /// shape.
    spec fn from_json_spec(v: JsonValue) -> Option<Self>;

    /// Converts the value, or reports the shape mismatch.
    fn from_json(v: &JsonValue) -> (r: Result<Self, Error>)
        ensures
            match Self::from_json_spec(*v) {
                Some(x) => r matches Ok(y) && y == x,
                None => r matches Err(e) && e is ProcessJSON,
            },
    ;
}

impl FromJson for i64 {
    open spec fn from_json_spec(v: JsonValue) -> Option<i64> {
        match v {
            JsonValue::Num(x) => Some(x),
            _ => None,
        }
    }

    fn from_json(v: &JsonValue) -> (r: Result<i64, Error>) {
        match v {
            JsonValue::Num(x) => Ok(*x),
            _ => Err(Error::ProcessJSON("not a number".to_owned())),
        }
    }
}

impl FromJson for String {
    open spec fn from_json_spec(v: JsonValue) -> Option<String> {
        match v {
            JsonValue::Str(s) => Some(s),
            _ => None,
        }
    }

    fn from_json(v: &JsonValue) -> (r: Result<String, Error>) {
        match v {
            JsonValue::Str(s) => Ok(s.clone()),
            _ => Err(Error::ProcessJSON("not a string".to_owned())),
        }
    }
}

/// Reads one typed field at a field path of the given record.
pub fn read_object<T: FromJson>(root: &JsonValue, path: &Vec<String>) -> (r: Result<T, Error>)
    ensures
        match path_lookup(*root, path_view(path@)) {
            Ok(w) => match T::from_json_spec(w) {
                Some(x) => r matches Ok(y) && y == x,
                None => r matches Err(e) && e is ProcessJSON,
            },
            Err(_) => r matches Err(e) && e is ProcessJSON,
        },
{
    match crate::json::lookup_path(root, path) {
        Ok(v) => T::from_json(v),
        Err(PathErr::Missing) => Err(Error::ProcessJSON("object path not found".to_owned())),
        Err(PathErr::NotObject) => Err(
            Error::ProcessJSON("incorrect type in object path".to_owned()),
        ),
    }
}

/// The path of a field inside the `entity` object of a payload.
pub open spec fn entity_path(field: Seq<char>) -> Seq<Seq<char>> {
    seq!["entity"@, field]
}

/// The path of a field inside the `geometry` object of a payload.
pub open spec fn geometry_path(field: Seq<char>) -> Seq<Seq<char>> {
    seq!["geometry"@, field]
}

/// The string at a field path, if the path resolves to a string.
pub open spec fn str_at(v: JsonValue, p: Seq<Seq<char>>) -> Option<String> {
    match path_lookup(v, p) {
        Ok(w) => match w {
            JsonValue::Str(s) => Some(s),
            _ => None,
        },
        Err(_) => None,
    }
}

/// The number at a field path, if the path resolves to a number.
pub open spec fn num_at(v: JsonValue, p: Seq<Seq<char>>) -> Option<i64> {
    match path_lookup(v, p) {
        Ok(w) => match w {
            JsonValue::Num(x) => Some(x),
            _ => None,
        },
        Err(_) => None,
    }
}

/// The record a per-item payload denotes: id, title and both coordinates
/// are required, the remaining fields are best-effort.
pub open spec fn item_spec(v: JsonValue) -> Option<MapItem> {
    match (
        str_at(v, entity_path("id"@)),
        str_at(v, entity_path("title"@)),
        num_at(v, geometry_path("x"@)),
        num_at(v, geometry_path("y"@)),
    ) {
        (Some(id), Some(name), Some(x), Some(y)) => Some(
            MapItem {
                id: id,
                name: name,
                location: GeoCoord(x, y),
                address: str_at(v, entity_path("address"@)),
                phone: str_at(v, entity_path("phone"@)),
                chain_id: str_at(v, entity_path("chainId"@)),
            },
        ),
        _ => None,
    }
}

/// A two-segment field path.
fn path2(a: &str, b: &str) -> (r: Vec<String>)
    ensures
        path_view(r@) == seq![a@, b@],
{
    let mut v: Vec<String> = Vec::new();
    v.push(a.to_owned());
    v.push(b.to_owned());
    proof {
        assert(path_view(v@) =~= seq![a@, b@]);
    }
    v
}

/// Decodes one per-item payload into a record.  The required fields must
/// be present with their expected types; the optional ones are kept when
/// they are, and dropped otherwise.
pub fn map_item_from_entity(v: &JsonValue) -> (r: Result<MapItem, Error>)
    ensures
        match item_spec(*v) {
            Some(m) => r matches Ok(x) && x == m,
            None => r matches Err(e) && e is ProcessJSON,
        },
{
    let id = match read_object::<String>(v, &path2("entity", "id")) {
        Ok(x) => x,
        Err(e) => return Err(e),
    };
    let name = match read_object::<String>(v, &path2("entity", "title")) {
        Ok(x) => x,
        Err(e) => return Err(e),
    };
    let x = match read_object::<i64>(v, &path2("geometry", "x")) {
        Ok(x) => x,
        Err(e) => return Err(e),
    };
    let y = match read_object::<i64>(v, &path2("geometry", "y")) {
        Ok(x) => x,
        Err(e) => return Err(e),
    };
    let address = match read_object::<String>(v, &path2("entity", "address")) {
        Ok(x) => Some(x),
        Err(_) => None,
    };
    let phone = match read_object::<String>(v, &path2("entity", "phone")) {
        Ok(x) => Some(x),
        Err(_) => None,
    };
    let chain_id = match read_object::<String>(v, &path2("entity", "chainId")) {
        Ok(x) => Some(x),
        Err(_) => None,
    };
    Ok(MapItem { id, name, location: GeoCoord(x, y), address, phone, chain_id })
}

/// Decodes the per-item payloads of one page: every payload must denote a
/// record, and a single malformed payload fails the page.
pub fn parse_map_items(entities: &Vec<JsonValue>) -> (r: Result<Vec<MapItem>, Error>)
    ensures
        match r {
            Ok(items) => {
                &&& items@.len() == entities@.len()
                &&& forall|i: int|
                    0 <= i < entities@.len() ==> item_spec(#[trigger] entities@[i]) == Some(
                        items@[i],
                    )
            },
            Err(e) => {
                &&& e is ProcessJSON
                &&& exists|i: int|
                    0 <= i < entities@.len() && item_spec(#[trigger] entities@[i]) is None
            },
        },
{
    let mut items: Vec<MapItem> = Vec::new();
    let n = entities.len();
    for k in 0..n
        invariant
            n == entities.len(),
            items@.len() == k,
            forall|i: int| 0 <= i < k ==> item_spec(#[trigger] entities@[i]) == Some(items@[i]),
    {
        match map_item_from_entity(&entities[k]) {
            Ok(m) => items.push(m),
            Err(e) => {
                return Err(e);
            },
        }
    }
    Ok(items)
}

/// What the fixed listing selector and attribute extract from one page:
/// the attribute payload of each matching element, in document order.
pub uninterp spec fn selected_attr_values(
    html: Seq<char>,
    selector: Seq<char>,
    attr: Seq<char>,
) -> Seq<Seq<char>>;

/// Relies on scraper's `Html::parse_fragment`, `Html::select` and
/// `ElementRef::attr`: the elements of a parsed fragment that match a CSS
/// selector, and their attribute values, depend on the fragment, the
/// selector and the attribute name alone.
#[verifier::external_body]
fn select_attr_values(html: &str, selector: &str, attr: &str) -> (r: Vec<String>)
    ensures
        r.deep_view() == selected_attr_values(html@, selector@, attr@),
{
    let doc = scraper::Html::parse_fragment(html);
    let sel = match scraper::Selector::parse(selector) {
        Ok(s) => s,
        Err(_) => return Vec::new(),
    };
    doc.select(&sel).filter_map(|el| el.value().attr(attr).map(|s| s.to_owned())).collect()
}

/// One raw page body, classified: either the overload sentinel, or the
/// per-item payloads its listing elements carry.
pub enum PageOutcome {
    Overloaded,
    Payloads(Vec<String>),
}

/// Classifies a raw page body and extracts its per-item payloads.
pub fn classify_page(response: &str) -> (r: PageOutcome)
    ensures
        match r {
            PageOutcome::Overloaded => is_overload_sentinel(response@),
            PageOutcome::Payloads(ps) => {
                &&& !is_overload_sentinel(response@)
                &&& ps.deep_view() == selected_attr_values(
                    response@,
                    "a.listings-item"@,
                    "data-entity"@,
                )
            },
        },
{
    if is_overloaded(response) {
        PageOutcome::Overloaded
    } else {
        PageOutcome::Payloads(select_attr_values(response, "a.listings-item", "data-entity"))
    }
}

/// The fixed ascending backoff delays, in milliseconds: one retry of an
/// overloaded query per entry.
pub open spec fn backoff_schedule_spec() -> Seq<u64> {
    seq![100u64, 1000u64, 2000u64, 4000u64, 8000u64, 10000u64, 16000u64, 32000u64]
}

/// The fixed ascending backoff delays, in milliseconds.
pub fn backoff_schedule() -> (r: Vec<u64>)
    ensures
        r@ == backoff_schedule_spec(),
{
    let r: Vec<u64> = vec![100, 1000, 2000, 4000, 8000, 10000, 16000, 32000];
    proof {
        assert(r@ =~= backoff_schedule_spec());
    }
    r
}

/// One page-level query with overload backoff, decided over the successive
/// raw bodies the upstream would return: the first body that is not the
/// overload sentinel is the one to decode; an overload consumes one entry
/// of the backoff schedule, and a query whose every attempt hits the
/// sentinel exhausts the schedule and fails.  Returns the index of the
/// body to decode and, in either case, how many requests were issued.
pub fn map_search_attempt(responses: &Vec<String>) -> (r: (Result<usize, Error>, usize))
    requires
        responses@.len() >= backoff_schedule_spec().len(),
    ensures
        match r.0 {
            Ok(i) => {
                &&& i < backoff_schedule_spec().len()
                &&& !is_overload_sentinel(responses@[i as int]@)
                &&& forall|j: int| 0 <= j < i ==> is_overload_sentinel(#[trigger] responses@[j]@)
                &&& r.1 == i + 1
            },
            Err(e) => {
                &&& e is RetryLimitExceeded
                &&& forall|j: int|
                    0 <= j < backoff_schedule_spec().len() ==> is_overload_sentinel(
                        #[trigger] responses@[j]@,
                    )
                &&& r.1 == backoff_schedule_spec().len()
            },
        },
{
    let limit: usize = 8;
    let mut i: usize = 0;
    while i < limit
        invariant
            limit == backoff_schedule_spec().len(),
            responses@.len() >= limit,
            0 <= i <= limit,
            forall|j: int| 0 <= j < i ==> is_overload_sentinel(#[trigger] responses@[j]@),
        decreases limit - i,
    {
        if !is_overloaded(responses[i].as_str()) {
            return (Ok(i), i + 1);
        }
        i += 1;
    }
    (Err(Error::RetryLimitExceeded), limit)
}

/// The outer retry budget around a whole query, decided over the outcomes
/// of successive attempts (`true` for a success): the first success within
/// the budget wins; otherwise every allowed attempt is used and the last
/// failure propagates.  A budget of `max_retries` allows the initial
/// attempt plus `max_retries` retries.  Returns whether the query
/// succeeded and how many attempts were made.
pub fn map_search(outcomes: &Vec<bool>, max_retries: i32) -> (r: (bool, usize))
    requires
        max_retries < 0 ==> outcomes@.len() >= 1,
        max_retries >= 0 ==> outcomes@.len() >= max_retries + 1,
    ensures
        ({
            let allowed: int = if max_retries < 0 {
                1
            } else {
                max_retries + 1
            };
            &&& 1 <= r.1 <= allowed
            &&& r.0 ==> outcomes@[r.1 - 1] && forall|j: int| 0 <= j < r.1 - 1 ==> !outcomes@[j]
            &&& !r.0 ==> r.1 == allowed && forall|j: int| 0 <= j < allowed ==> !(
            #[trigger] outcomes@[j])
        }),
{
    let allowed: usize = if max_retries < 0 {
        1
    } else {
        (max_retries as usize) + 1
    };
    let mut attempts: usize = 0;
    loop
        invariant_except_break
            0 <= attempts < allowed,
            forall|j: int| 0 <= j < attempts ==> !(#[trigger] outcomes@[j]),
        invariant
            1 <= allowed,
            max_retries < 0 ==> allowed == 1,
            max_retries >= 0 ==> allowed == max_retries + 1,
            outcomes@.len() >= allowed,
        ensures
            1 <= attempts <= allowed,
            forall|j: int| 0 <= j < attempts - 1 ==> !(#[trigger] outcomes@[j]),
            outcomes@[attempts - 1] || (attempts == allowed && !outcomes@[attempts - 1]),
        decreases allowed - attempts,
    {
        let ok = outcomes[attempts];
        attempts += 1;
        if ok || attempts >= allowed {
            break;
        }
    }
    let ok = outcomes[attempts - 1];
    (ok, attempts)
}

} // verus!
