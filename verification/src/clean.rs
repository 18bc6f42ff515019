//! Cleaning of crawled record files: when the records of a file name
//! chains, only the records of the file's dominant chain survive.
//!
//! Reading and writing the files happens outside the library; the
//! counting and the filtering are decided here.

use vstd::prelude::*;
use crate::bing_maps::MapItem;

verus! {

/// Configuration of a cleaning run.
pub struct CleanArgs {
    /// Directory of crawled record files.
    pub input_dir: String,
    /// Directory the cleaned files go to.
    pub output_dir: String,
}

/// How many records carry the given chain id.
pub open spec fn chain_count(items: Seq<MapItem>, chain: Seq<char>) -> nat
    decreases items.len(),
{
    if items.len() == 0 {
        0
    } else {
        (if items[0].chain_id matches Some(c) && c@ == chain {
            1nat
        } else {
            0nat
        }) + chain_count(items.drop_first(), chain)
    }
}

/// Some record carries the given chain id.
pub open spec fn chain_present(items: Seq<MapItem>, chain: Seq<char>) -> bool {
    exists|k: int|
        0 <= k < items.len() && ((#[trigger] items[k]).chain_id matches Some(c) && c@ == chain)
}

/// The records that carry the given chain id, in order.
pub open spec fn keep_chain(items: Seq<MapItem>, chain: Seq<char>) -> Seq<MapItem>
    decreases items.len(),
{
    if items.len() == 0 {
        Seq::empty()
    } else {
        (if items[0].chain_id matches Some(c) && c@ == chain {
            seq![items[0]]
        } else {
            Seq::empty()
        }) + keep_chain(items.drop_first(), chain)
    }
}

/// Counts the records carrying the given chain id.
pub fn count_chain(items: &Vec<MapItem>, chain: &String) -> (r: u64)
    ensures
        r == chain_count(items@, chain@),
{
    let ghost all = items@;
    proof {
        assert(all.skip(0) =~= all);
    }
    let mut count: u64 = 0;
    let n = items.len();
    for k in 0..n
        invariant
            n == items@.len(),
            all == items@,
            count <= k,
            chain_count(all, chain@) == count + chain_count(all.skip(k as int), chain@),
    {
        proof {
            assert(all.skip(k as int)[0] == all[k as int]);
            assert(all.skip(k as int).drop_first() =~= all.skip(k as int + 1));
        }
        let matches_chain = match &items[k].chain_id {
            Some(c) => *c == *chain,
            None => false,
        };
        if matches_chain {
            count = count + 1;
        }
    }
    count
}

/// The chain id carried by the most records, when any record carries
/// one: its count is at least every other chain's count.  Among equally
/// common chains the choice is deterministic: the first to reach the
/// maximal count, in record order, wins.
pub fn most_common_chain(items: &Vec<MapItem>) -> (r: Option<String>)
    ensures
        match r {
            Some(c) => chain_present(items@, c@) && (forall|c2: Seq<char>|
                #[trigger] chain_present(items@, c2) ==> chain_count(items@, c2) <= chain_count(
                    items@,
                    c@,
                )),
            None => forall|k: int| 0 <= k < items@.len() ==> (#[trigger] items@[k]).chain_id is None,
        },
{
    let mut best: Option<(String, u64)> = None;
    let n = items.len();
    for k in 0..n
        invariant
            n == items@.len(),
            match best {
                Some(p) => {
                    &&& p.1 == chain_count(items@, p.0@)
                    &&& chain_present(items@, p.0@)
                    &&& forall|k2: int|
                        0 <= k2 < k ==> match (#[trigger] items@[k2]).chain_id {
                            Some(c2) => chain_count(items@, c2@) <= p.1,
                            None => true,
                        }
                },
                None => forall|k2: int|
                    0 <= k2 < k ==> (#[trigger] items@[k2]).chain_id is None,
            },
    {
        let chain: Option<String> = match &items[k].chain_id {
            Some(c) => Some(c.clone()),
            None => None,
        };
        if let Some(c) = chain {
            proof {
                assert(items@[k as int].chain_id matches Some(cc) && cc@ == c@);
            }
            let cnt = count_chain(items, &c);
            let replace = match &best {
                Some(p) => cnt > p.1,
                None => true,
            };
            if replace {
                best = Some((c, cnt));
            }
        }
    }
    match best {
        Some(p) => {
            proof {
                assert forall|c2: Seq<char>| chain_present(items@, c2) implies chain_count(
                    items@,
                    c2,
                ) <= chain_count(items@, p.0@) by {
                    let k2 = choose|k2: int|
                        0 <= k2 < items@.len() && ((#[trigger] items@[k2]).chain_id matches Some(c)
                            && c@ == c2);
                    assert(items@[k2].chain_id matches Some(c) && c@ == c2);
                }
            }
            Some(p.0)
        },
        None => None,
    }
}

/// The records of the file that survive cleaning: when some record
/// carries a chain id, exactly the records of one dominant chain — one
/// that no other chain outnumbers — survive, in their original order;
/// a file without chain ids is kept whole.
pub fn clean_file(items: Vec<MapItem>) -> (r: Vec<MapItem>)
    ensures
        (forall|k: int| 0 <= k < items@.len() ==> (#[trigger] items@[k]).chain_id is None) ==> r@
            == items@,
        (exists|k: int| 0 <= k < items@.len() && !((#[trigger] items@[k]).chain_id is None))
            ==> exists|c: Seq<char>|
            {
                &&& chain_present(items@, c)
                &&& forall|c2: Seq<char>|
                    #[trigger] chain_present(items@, c2) ==> chain_count(items@, c2) <= chain_count(
                        items@,
                        c,
                    )
                &&& r@ == keep_chain(items@, c)
            },
{
    match most_common_chain(&items) {
        Some(chain) => {
            let ghost all = items@;
            proof {
                assert(all.skip(0) =~= all);
            }
            let mut out: Vec<MapItem> = Vec::new();
            let mut rest = items;
            while rest.len() > 0
                invariant
                    all == items@,
                    keep_chain(all, chain@) == out@ + keep_chain(rest@, chain@),
                decreases rest@.len(),
            {
                let item = rest.remove(0);
                let matches_chain = match &item.chain_id {
                    Some(c) => *c == chain,
                    None => false,
                };
                if matches_chain {
                    let ghost out_before = out@;
                    out.push(item);
                    proof {
                        assert(out@ + keep_chain(rest@, chain@) =~= out_before + (seq![
                            out@[out@.len() - 1],
                        ] + keep_chain(rest@, chain@)));
                    }
                }
            }
            proof {
                assert(keep_chain(rest@, chain@) == Seq::<MapItem>::empty());
                assert(out@ + Seq::<MapItem>::empty() =~= out@);
            }
            out
        },
        None => items,
    }
}

} // verus!
