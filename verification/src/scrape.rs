//! The crawl: adaptive subdivision search over one top-level bounding box,
//! and the aggregation of worker results.
//!
//! Network transfer lives outside the library.  [`SubdivisionSearch`] is
//! the search's state: it names the next box to query and, fed the items
//! each query returned, decides whether the box is split further.  A
//! weight measure over its queue proves the search finishes however the
//! upstream answers.

use vstd::prelude::*;
use crate::bing_maps::{Error, MapItem};
use crate::geo_coord::{grid_spec, GeoBounds, MICRO_LON_MAX};

verus! {

/// Configuration of a crawl run.
pub struct ScrapeArgs {
    /// How many times a productive box may be split, along one expansion
    /// path.
    pub max_subdivisions: i32,
    /// Grid step in micro-degrees.
    pub step_size: i64,
    /// Number of crawl workers.
    pub parallelism: i32,
    /// Outer retry budget of a single query.
    pub retries: i32,
    /// Free-text query sent upstream.
    pub store_name: String,
    /// Where the output goes.
    pub output_path: String,
}

/// The query budget a box at remaining depth `k` can still cause: itself,
/// and four children of remaining depth `k - 1` each.
pub open spec fn weight(k: int) -> nat
    decreases k,
{
    if k <= 0 {
        1
    } else {
        4 * weight(k - 1) + 1
    }
}

/// The query budget of a whole queue of pending boxes.
pub open spec fn total_weight(q: Seq<(GeoBounds, i32)>, max: int) -> nat
    decreases q.len(),
{
    if q.len() == 0 {
        0
    } else {
        weight(max - q[0].1) + total_weight(q.drop_first(), max)
    }
}

proof fn lemma_children_weight(b: GeoBounds, dd: i32, max: int)
    ensures
        total_weight(children(b, dd), max) == 4 * weight(max - dd),
{
    let cs = children(b, dd);
    let cs1 = cs.drop_first();
    let cs2 = cs1.drop_first();
    let cs3 = cs2.drop_first();
    let cs4 = cs3.drop_first();
    assert(cs4 =~= Seq::<(GeoBounds, i32)>::empty());
    assert(cs[0].1 == dd && cs1[0].1 == dd && cs2[0].1 == dd && cs3[0].1 == dd);
    assert(total_weight(cs4, max) == 0);
    assert(total_weight(cs3, max) == weight(max - dd));
    assert(total_weight(cs2, max) == 2 * weight(max - dd));
    assert(total_weight(cs1, max) == 3 * weight(max - dd));
    assert(total_weight(cs, max) == 4 * weight(max - dd));
}

proof fn lemma_total_weight_concat(a: Seq<(GeoBounds, i32)>, b: Seq<(GeoBounds, i32)>, max: int)
    ensures
        total_weight(a + b, max) == total_weight(a, max) + total_weight(b, max),
    decreases a.len(),
{
    if a.len() == 0 {
        assert(a + b =~= b);
    } else {
        assert((a + b).drop_first() =~= a.drop_first() + b);
        assert((a + b)[0] == a[0]);
        lemma_total_weight_concat(a.drop_first(), b, max);
    }
}

/// No two records share an id.
pub open spec fn ids_distinct(s: Seq<MapItem>) -> bool {
    forall|i: int, j: int| 0 <= i < j < s.len() ==> (#[trigger] s[i]).id@ != (#[trigger] s[j]).id@
}

/// Some record carries the given id.
pub open spec fn has_id(s: Seq<MapItem>, id: Seq<char>) -> bool {
    exists|j: int| 0 <= j < s.len() && (#[trigger] s[j]).id@ == id
}

/// The position of the record with the given id.
pub open spec fn id_index(s: Seq<MapItem>, id: Seq<char>) -> int {
    choose|j: int| 0 <= j < s.len() && (#[trigger] s[j]).id@ == id
}

/// Merging one record into a deduplicated list: a record with a known id
/// replaces the stored one, a new id is appended.
pub open spec fn merge_one(s: Seq<MapItem>, m: MapItem) -> Seq<MapItem> {
    if has_id(s, m.id@) {
        s.update(id_index(s, m.id@), m)
    } else {
        s.push(m)
    }
}

/// Merging a batch of records, in order.
pub open spec fn merge_items(s: Seq<MapItem>, items: Seq<MapItem>) -> Seq<MapItem>
    decreases items.len(),
{
    if items.len() == 0 {
        s
    } else {
        merge_items(merge_one(s, items[0]), items.drop_first())
    }
}

proof fn lemma_merge_one_distinct(s: Seq<MapItem>, m: MapItem)
    requires
        ids_distinct(s),
    ensures
        ids_distinct(merge_one(s, m)),
        merge_one(s, m).len() >= s.len(),
{
    if has_id(s, m.id@) {
        let j = id_index(s, m.id@);
        assert(0 <= j < s.len() && s[j].id@ == m.id@);
    }
}

/// The position of the record carrying the given id, if any.
pub fn find_by_id(results: &Vec<MapItem>, id: &String) -> (r: Option<usize>)
    ensures
        match r {
            Some(j) => j < results@.len() && results@[j as int].id@ == id@,
            None => !has_id(results@, id@),
        },
{
    let n = results.len();
    for j in 0..n
        invariant
            n == results@.len(),
            forall|k: int| 0 <= k < j ==> (#[trigger] results@[k]).id@ != id@,
    {
        if results[j].id == *id {
            return Some(j);
        }
    }
    None
}

/// The four children of a split box, one subdivision deeper.
pub open spec fn children(b: GeoBounds, d: i32) -> Seq<(GeoBounds, i32)> {
    seq![
        (b.split_spec()[0], d),
        (b.split_spec()[1], d),
        (b.split_spec()[2], d),
        (b.split_spec()[3], d),
    ]
}

/// The state of one subdivision search: a FIFO queue of boxes waiting to
/// be queried, each with its depth, and the records found so far,
/// deduplicated by id (the last-seen record of an id is kept).
pub struct SubdivisionSearch {
    /// Depth limit of the expansion.
    pub max_subdivisions: i32,
    /// Boxes whose query is still outstanding, oldest first.
    pub queue: Vec<(GeoBounds, i32)>,
    /// Records found so far, in order of first discovery.
    pub results: Vec<MapItem>,
}

impl SubdivisionSearch {
    /// Queue boxes lie on the globe and found records have distinct ids.
    pub open spec fn wf(self) -> bool {
        &&& ids_distinct(self.results@)
        &&& forall|k: int| 0 <= k < self.queue@.len() ==> (#[trigger] self.queue@[k]).0.wf()
    }

    /// A fresh search over one top-level box.
    pub fn new(bounds: GeoBounds, max_subdivisions: i32) -> (r: Self)
        requires
            bounds.wf(),
        ensures
            r.wf(),
            r.max_subdivisions == max_subdivisions,
            r.queue@ == seq![(bounds, 0i32)],
            r.results@ == Seq::<MapItem>::empty(),
    {
        let mut queue: Vec<(GeoBounds, i32)> = Vec::new();
        queue.push((bounds, 0));
        proof {
            assert(queue@ =~= seq![(bounds, 0i32)]);
        }
        SubdivisionSearch { max_subdivisions, queue, results: Vec::new() }
    }

    /// The box whose query the search is waiting for, oldest first, or
    /// nothing when the search is finished.
    pub fn next_query(&self) -> (r: Option<GeoBounds>)
        ensures
            match r {
                Some(b) => self.queue@.len() > 0 && b == self.queue@[0].0,
                None => self.queue@.len() == 0,
            },
    {
        if self.queue.len() > 0 {
            Some(self.queue[0].0)
        } else {
            None
        }
    }

    /// Feeds the search the items returned for the oldest outstanding box.
    /// The items are merged into the running record list; a box that still
    /// yielded unseen ids, and is above the depth limit, is split into its
    /// four quadrants, which join the back of the queue.  The queue's
    /// query budget strictly shrinks with every step, so a search always
    /// finishes.
    pub fn step(&mut self, items: Vec<MapItem>)
        requires
            old(self).wf(),
            old(self).queue@.len() > 0,
        ensures
            final(self).wf(),
            final(self).max_subdivisions == old(self).max_subdivisions,
            final(self).results@ == merge_items(old(self).results@, items@),
            ({
                let b = old(self).queue@[0].0;
                let d = old(self).queue@[0].1;
                let merged = merge_items(old(self).results@, items@);
                if merged.len() > old(self).results@.len() && d < old(self).max_subdivisions {
                    final(self).queue@ == old(self).queue@.drop_first() + children(
                        b,
                        (d + 1) as i32,
                    )
                } else {
                    final(self).queue@ == old(self).queue@.drop_first()
                }
            }),
            total_weight(final(self).queue@, old(self).max_subdivisions as int) < total_weight(
                old(self).queue@,
                old(self).max_subdivisions as int,
            ),
    {
        let (b, d) = self.queue.remove(0);
        let old_count = self.results.len();
        let ghost orig_results = self.results@;
        let ghost orig_items = items@;
        let mut items = items;
        while items.len() > 0
            invariant
                ids_distinct(self.results@),
                merge_items(orig_results, orig_items) == merge_items(self.results@, items@),
                self.results@.len() >= orig_results.len(),
                self.max_subdivisions == old(self).max_subdivisions,
                self.queue@ == old(self).queue@.drop_first(),
            decreases items.len(),
        {
            let item = items.remove(0);
            proof {
                lemma_merge_one_distinct(self.results@, item);
            }
            let found = find_by_id(&self.results, &item.id);
            match found {
                Some(j) => {
                    proof {
                        assert(has_id(self.results@, item.id@));
                        assert(id_index(self.results@, item.id@) == j) by {
                            let j2 = id_index(self.results@, item.id@);
                            assert(0 <= j2 < self.results@.len() && self.results@[j2].id@
                                == item.id@);
                        }
                    }
                    let ghost before = self.results@;
                    self.results.remove(j);
                    self.results.insert(j, item);
                    proof {
                        assert(self.results@ =~= merge_one(before, item));
                    }
                },
                None => {
                    proof {
                        assert(!has_id(self.results@, item.id@));
                    }
                    let ghost before = self.results@;
                    self.results.push(item);
                    proof {
                        assert(self.results@ =~= merge_one(before, item));
                    }
                },
            }
        }
        proof {
            assert(items@.len() == 0);
            assert(merge_items(self.results@, items@) == self.results@);
        }
        let new_count = self.results.len();
        let ghost old_queue = self.queue@;
        if new_count > old_count && d < self.max_subdivisions {
            let quads = b.split();
            self.queue.push((quads[0], d + 1));
            self.queue.push((quads[1], d + 1));
            self.queue.push((quads[2], d + 1));
            self.queue.push((quads[3], d + 1));
            proof {
                assert(self.queue@ =~= old_queue + children(b, (d + 1) as i32));
            }
        }
        proof {
            let max = old(self).max_subdivisions as int;
            let full = old(self).queue@;
            assert(full =~= seq![full[0]] + full.drop_first());
            lemma_total_weight_concat(seq![full[0]], full.drop_first(), max);
            assert(total_weight(seq![full[0]], max) == weight(max - d)) by {
                assert(seq![full[0]].drop_first() =~= Seq::<(GeoBounds, i32)>::empty());
            }
            if new_count > old_count && d < self.max_subdivisions {
                lemma_total_weight_concat(full.drop_first(), children(b, (d + 1) as i32), max);
                lemma_children_weight(b, (d + 1) as i32, max);
                assert((d + 1) as i32 == d + 1);
                assert(max - d >= 1);
                assert(weight(max - d) == 4 * weight(max - d - 1) + 1) by {
                    reveal_with_fuel(weight, 2);
                }
            }
            assert forall|k: int| 0 <= k < self.queue@.len() implies (
            #[trigger] self.queue@[k]).0.wf() by {
                if k < full.drop_first().len() {
                    assert(self.queue@[k] == full[k + 1]);
                } else {
                    assert(self.queue@[k] == children(b, (d + 1) as i32)[k - (full.len() - 1)]);
                }
            }
        }
    }

    /// Hands back every record the finished search found.
    pub fn into_results(self) -> (r: Vec<MapItem>)
        ensures
            r@ == self.results@,
    {
        self.results
    }
}

/// The records a run accumulates: each successful batch is merged in
/// order; a failed batch contributes nothing.
pub open spec fn merge_run(
    acc: Seq<MapItem>,
    batches: Seq<Result<Vec<MapItem>, Error>>,
) -> Seq<MapItem>
    decreases batches.len(),
{
    if batches.len() == 0 {
        acc
    } else {
        match batches[0] {
            Ok(items) => merge_run(merge_items(acc, items@), batches.drop_first()),
            Err(_) => acc,
        }
    }
}

proof fn lemma_merge_run_snoc(
    acc: Seq<MapItem>,
    batches: Seq<Result<Vec<MapItem>, Error>>,
    b: Result<Vec<MapItem>, Error>,
)
    requires
        forall|k: int| 0 <= k < batches.len() ==> (#[trigger] batches[k]) is Ok,
    ensures
        merge_run(acc, batches + seq![b]) == (match b {
            Ok(items) => merge_items(merge_run(acc, batches), items@),
            Err(_) => merge_run(acc, batches),
        }),
    decreases batches.len(),
{
    if batches.len() == 0 {
        assert(batches + seq![b] =~= seq![b]);
        assert((seq![b])[0] == b);
        assert(seq![b].drop_first() =~= Seq::<Result<Vec<MapItem>, Error>>::empty());
        assert(merge_run(acc, batches) == acc);
        match b {
            Ok(items) => {
                assert(merge_run(acc, batches + seq![b]) == merge_run(
                    merge_items(acc, items@),
                    seq![b].drop_first(),
                ));
                assert(merge_run(acc, batches + seq![b]) == merge_items(acc, items@));
            },
            Err(_) => {
                assert(merge_run(acc, batches + seq![b]) == acc);
            },
        }
    } else {
        assert(batches[0] is Ok);
        assert((batches + seq![b])[0] == batches[0]);
        assert((batches + seq![b]).drop_first() =~= batches.drop_first() + seq![b]);
        let items0 = batches[0]->Ok_0;
        assert(merge_run(acc, batches) == merge_run(merge_items(acc, items0@), batches.drop_first()));
        assert(merge_run(acc, batches + seq![b]) == merge_run(
            merge_items(acc, items0@),
            batches.drop_first() + seq![b],
        ));
        lemma_merge_run_snoc(merge_items(acc, items0@), batches.drop_first(), b);
    }
}

/// One whole subdivision search, decided over the responses its queries
/// would receive, in query order.  The search always terminates: its
/// queue's query budget shrinks with every processed response.  A depth
/// limit of zero or less issues exactly one query; the first failed query
/// aborts the search and propagates its error; a completed search yields
/// the found records, deduplicated by id.  Returns the outcome and how
/// many queries were issued.
pub fn fetch_bounds_subdivided(
    bounds: GeoBounds,
    max_subdivisions: i32,
    responses: Vec<Result<Vec<MapItem>, Error>>,
) -> (r: (Result<Vec<MapItem>, Error>, usize))
    requires
        bounds.wf(),
    ensures
        r.1 <= responses@.len(),
        max_subdivisions <= 0 && responses@.len() >= 1 ==> r.1 == 1,
        r.0 matches Ok(items) ==> ids_distinct(items@) && (forall|j: int|
            0 <= j < r.1 ==> (#[trigger] responses@[j]) is Ok) && items@ == merge_run(
            Seq::<MapItem>::empty(),
            responses@.take(r.1 as int),
        ),
        r.0 is Err ==> 1 <= r.1 && r.0 == responses@[r.1 - 1] && (forall|j: int|
            0 <= j < r.1 - 1 ==> (#[trigger] responses@[j]) is Ok),
        r.1 <= weight(max_subdivisions as int),
{
    let mut machine = SubdivisionSearch::new(bounds, max_subdivisions);
    proof {
        let max = max_subdivisions as int;
        assert(machine.queue@[0] == (bounds, 0i32));
        assert(machine.queue@.drop_first() =~= Seq::<(GeoBounds, i32)>::empty());
        assert(total_weight(Seq::<(GeoBounds, i32)>::empty(), max) == 0);
        assert(total_weight(machine.queue@, max) == weight(max - 0));
        assert(total_weight(machine.queue@, max) == weight(max));
    }
    let ghost all = responses@;
    let mut remaining = responses;
    let total = remaining.len();
    let mut consumed: usize = 0;
    loop
        invariant
            machine.wf(),
            machine.max_subdivisions == max_subdivisions,
            all == responses@,
            total == all.len(),
            consumed + remaining@.len() == total,
            remaining@ == all.skip(consumed as int),
            forall|j: int| 0 <= j < consumed ==> (#[trigger] all[j]) is Ok,
            max_subdivisions <= 0 ==> consumed <= 1,
            max_subdivisions <= 0 && consumed == 0 ==> machine.queue@ == seq![(bounds, 0i32)],
            max_subdivisions <= 0 && consumed != 0 ==> machine.queue@.len() == 0,
            consumed + total_weight(machine.queue@, max_subdivisions as int) <= weight(
                max_subdivisions as int,
            ),
            machine.results@ == merge_run(Seq::<MapItem>::empty(), all.take(consumed as int)),
        ensures
            machine.queue@.len() == 0 || remaining@.len() == 0,
            consumed <= weight(max_subdivisions as int),
        decreases total_weight(machine.queue@, max_subdivisions as int),
    {
        match machine.next_query() {
            None => {
                break ;
            },
            Some(_) => {},
        }
        if remaining.len() == 0 {
            break ;
        }
        let resp = remaining.remove(0);
        proof {
            assert(all.skip(consumed as int)[0] == all[consumed as int]);
            assert(all.skip(consumed as int).drop_first() =~= all.skip(consumed as int + 1));
        }
        consumed = consumed + 1;
        proof {
            assert(all.take(consumed as int) =~= all.take(consumed as int - 1) + seq![
                all[consumed as int - 1],
            ]);
            lemma_merge_run_snoc(
                Seq::<MapItem>::empty(),
                all.take(consumed as int - 1),
                all[consumed as int - 1],
            );
        }
        match resp {
            Ok(items) => {
                machine.step(items);
            },
            Err(e) => {
                return (Err(e), consumed);
            },
        }
    }
    (Ok(machine.into_results()), consumed)
}

/// The deduplication set of the output writer: ids seen so far, in order
/// of first arrival.  The set only grows over the lifetime of a crawl.
pub struct Aggregator {
    pub found: Vec<String>,
}

impl Aggregator {
    /// The recorded ids, oldest first.
    pub open spec fn found_ids(self) -> Seq<Seq<char>> {
        self.found@.map_values(|s: String| s@)
    }

    /// A fresh deduplication set.
    pub fn new() -> (r: Self)
        ensures
            r.found_ids() == Seq::<Seq<char>>::empty(),
    {
        let r = Aggregator { found: Vec::new() };
        proof {
            assert(r.found_ids() =~= Seq::<Seq<char>>::empty());
        }
        r
    }

    /// Records an id.  True exactly when the id was unseen — the caller
    /// then appends the record to the output, so each id yields one line.
    pub fn insert(&mut self, id: &String) -> (r: bool)
        ensures
            r == !old(self).found_ids().contains(id@),
            r ==> final(self).found_ids() == old(self).found_ids().push(id@),
            !r ==> final(self).found_ids() == old(self).found_ids(),
    {
        let n = self.found.len();
        for j in 0..n
            invariant
                n == self.found@.len(),
                self.found@ == old(self).found@,
                forall|k: int| 0 <= k < j ==> (#[trigger] self.found@[k])@ != id@,
        {
            if self.found[j] == *id {
                proof {
                    assert(old(self).found_ids()[j as int] == id@);
                }
                return false;
            }
        }
        proof {
            if old(self).found_ids().contains(id@) {
                let i = choose|i: int|
                    0 <= i < old(self).found_ids().len() && old(self).found_ids()[i] == id@;
                assert(old(self).found@[i]@ == id@);
            }
        }
        let ghost before = self.found@;
        self.found.push(id.clone());
        proof {
            assert(self.found_ids() =~= before.map_values(|s: String| s@).push(id@));
        }
        true
    }
}

/// Taking one record into the output: a record whose id is already there
/// changes nothing, a new id appends the record.
pub open spec fn dedup_insert(acc: Seq<MapItem>, m: MapItem) -> Seq<MapItem> {
    if has_id(acc, m.id@) {
        acc
    } else {
        acc.push(m)
    }
}

/// Taking a whole batch of records into the output, in order.
pub open spec fn dedup_batch(acc: Seq<MapItem>, items: Seq<MapItem>) -> Seq<MapItem>
    decreases items.len(),
{
    if items.len() == 0 {
        acc
    } else {
        dedup_batch(dedup_insert(acc, items[0]), items.drop_first())
    }
}

/// The whole output of a crawl: worker batches are taken in arrival
/// order, and the first failed batch aborts the output.
pub open spec fn write_outputs_spec(
    acc: Seq<MapItem>,
    batches: Seq<Result<Vec<MapItem>, Error>>,
) -> Result<Seq<MapItem>, Error>
    decreases batches.len(),
{
    if batches.len() == 0 {
        Ok(acc)
    } else {
        match batches[0] {
            Ok(items) => write_outputs_spec(dedup_batch(acc, items@), batches.drop_first()),
            Err(e) => Err(e),
        }
    }
}

/// Deduplication is idempotent in the id: once a record with an id has
/// been taken into the output, a second record with the same id —
/// whatever its other fields say — changes nothing.
pub proof fn lemma_dedup_idempotence(acc: Seq<MapItem>, m1: MapItem, m2: MapItem)
    requires
        m1.id@ == m2.id@,
    ensures
        dedup_insert(dedup_insert(acc, m1), m2) == dedup_insert(acc, m1),
{
    let after = dedup_insert(acc, m1);
    if has_id(acc, m1.id@) {
        assert(after == acc);
    } else {
        assert(after == acc.push(m1));
        assert(after[after.len() - 1].id@ == m2.id@);
    }
    assert(has_id(after, m2.id@));
}

/// The lines of the crawl output, in the order they are written: each
/// record whose id is new becomes one line, records with known ids are
/// dropped, and the first failed batch aborts the whole output.
pub fn write_outputs(batches: Vec<Result<Vec<MapItem>, Error>>) -> (r: Result<Vec<MapItem>, Error>)
    ensures
        match write_outputs_spec(Seq::<MapItem>::empty(), batches@) {
            Ok(s) => r matches Ok(v) && v@ == s && ids_distinct(s),
            Err(e) => r matches Err(e2) && e2 == e,
        },
{
    let mut acc: Vec<MapItem> = Vec::new();
    let ghost all = batches@;
    let mut pending = batches;
    proof {
        assert(acc@ =~= Seq::<MapItem>::empty());
    }
    while pending.len() > 0
        invariant
            ids_distinct(acc@),
            all == batches@,
            write_outputs_spec(Seq::<MapItem>::empty(), all) == write_outputs_spec(
                acc@,
                pending@,
            ),
        decreases pending.len(),
    {
        let ghost bsnap = pending@;
        let batch = match pending.remove(0) {
            Ok(items) => items,
            Err(e) => {
                proof {
                    assert(write_outputs_spec(acc@, bsnap) == Err::<Seq<MapItem>, Error>(e));
                }
                return Err(e);
            },
        };
        let mut items = batch;
        let ghost acc_start = acc@;
        let ghost items_all = items@;
        while items.len() > 0
            invariant
                ids_distinct(acc@),
                dedup_batch(acc_start, items_all) == dedup_batch(acc@, items@),
            decreases items.len(),
        {
            let item = items.remove(0);
            match find_by_id(&acc, &item.id) {
                Some(_) => {
                    proof {
                        assert(has_id(acc@, item.id@));
                    }
                },
                None => {
                    acc.push(item);
                },
            }
        }
        proof {
            assert(dedup_batch(acc@, items@) == acc@);
        }
    }
    Ok(acc)
}

/// The full-globe task list that seeds the crawl's shared work queue.
pub fn world_regions(step_size: i64) -> (r: Vec<GeoBounds>)
    requires
        1 <= step_size <= MICRO_LON_MAX,
    ensures
        grid_spec(step_size as int, r@),
        forall|k: int| 0 <= k < r@.len() ==> (#[trigger] r@[k]).wf(),
{
    GeoBounds::globe(step_size)
}

} // verus!
