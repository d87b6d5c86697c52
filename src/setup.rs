//! Startup: the tracked tickers and each pair's bands for the session.
use crate::decimal::{checked_add, checked_div, parts_of, quotient_of, sum_of, Dec};
use crate::relay::{contains_string, string_views};
use crate::signal::{dec_of, log_spread, log_spread_of, TradeBands, TradePair};
use vstd::prelude::*;

verus! {

/// A ticker's opening price of the day and previous close.
#[derive(Clone, Debug)]
pub struct Snapshot {
    pub ticker: String,
    pub open: Dec,
    pub close: Dec,
}

impl Snapshot {
    pub open spec fn wf(&self) -> bool {
        self.open.wf() && self.close.wf()
    }
}

/// Every ticker named by a pair.
pub open spec fn pair_tickers(pairs: Seq<TradePair>) -> Set<Seq<char>> {
    Set::new(
        |t: Seq<char>|
            exists|i: int|
                0 <= i < pairs.len() && (pairs[i].asset_1@ == t || pairs[i].asset_2@ == t),
    )
}

/// The session's equilibrium: the mean of the opening and the closing log-spreads,
/// each less the long-term baseline, as computed with `rust_decimal`.
pub open spec fn equilibrium_of(
    pair: TradePair,
    open_1: Dec,
    close_1: Dec,
    open_2: Dec,
    close_2: Dec,
) -> Option<(int, int)> {
    match (
        log_spread_of(open_1, open_2, pair.original_lt_spread),
        log_spread_of(close_1, close_2, pair.original_lt_spread),
    ) {
        (Some(a), Some(b)) => match sum_of(a, b) {
            Some(s) => quotient_of(s, (2, 0)),
            None => None,
        },
        _ => None,
    }
}

/// The first snapshot of `ticker`.
pub open spec fn snapshot_for(snapshots: Seq<Snapshot>, ticker: Seq<char>) -> Option<Snapshot>
    decreases snapshots.len(),
{
    if snapshots.len() == 0 {
        None
    } else if snapshots[0].ticker@ == ticker {
        Some(snapshots[0])
    } else {
        snapshot_for(snapshots.drop_first(), ticker)
    }
}

/// The bands of a pair, where both legs have a snapshot and the equilibrium and
/// bands can be computed.
pub open spec fn session_bands(pair: TradePair, snapshots: Seq<Snapshot>) -> Option<TradeBands> {
    match (snapshot_for(snapshots, pair.asset_1@), snapshot_for(snapshots, pair.asset_2@)) {
        (Some(s1), Some(s2)) => match equilibrium_of(pair, s1.open, s1.close, s2.open, s2.close) {
            Some(e) => if TradeBands::can_build(pair, dec_of(e)) {
                Some(crate::signal::bands_of(pair, dec_of(e)))
            } else {
                None
            },
            None => None,
        },
        _ => None,
    }
}

/// The bands of every pair that has them, in the order of the pairs.
pub open spec fn all_session_bands(pairs: Seq<TradePair>, snapshots: Seq<Snapshot>) -> Seq<TradeBands>
    decreases pairs.len(),
{
    if pairs.len() == 0 {
        seq![]
    } else {
        (match session_bands(pairs[0], snapshots) {
            Some(b) => seq![b],
            None => seq![],
        }) + all_session_bands(pairs.drop_first(), snapshots)
    }
}

/// The distinct tickers named by the pairs.
pub fn tracked_tickers(pairs: &Vec<TradePair>) -> (r: Vec<String>)
    ensures
        string_views(r@).to_set() == pair_tickers(pairs@),
        string_views(r@).no_duplicates(),
{
    let mut out: Vec<String> = Vec::new();
    let n = pairs.len();
    let mut i: usize = 0;
    while i < n
        invariant
            n == pairs.len(),
            i <= n,
            string_views(out@).no_duplicates(),
            forall|t: Seq<char>|
                string_views(out@).contains(t) <==> exists|j: int|
                    0 <= j < i && (pairs@[j].asset_1@ == t || pairs@[j].asset_2@ == t),
        decreases n - i,
    {
        let pair = &pairs[i];
        let ghost prev = out@;
        if !contains_string(&out, &pair.asset_1) {
            out.push(pair.asset_1.clone());
            proof {
                assert(string_views(out@) =~= string_views(prev).push(pair.asset_1@));
                assert(string_views(out@)[out@.len() - 1] == pair.asset_1@);
            }
        }
        proof {
            assert(string_views(out@).contains(pair.asset_1@));
        }
        let ghost mid = out@;
        if !contains_string(&out, &pair.asset_2) {
            out.push(pair.asset_2.clone());
            proof {
                assert(string_views(out@) =~= string_views(mid).push(pair.asset_2@));
            }
        }
        proof {
            assert forall|t: Seq<char>|
                string_views(out@).contains(t) <==> exists|j: int|
                    0 <= j < i + 1 && (pairs@[j].asset_1@ == t || pairs@[j].asset_2@ == t) by {
                if string_views(out@).contains(t) {
                    if !string_views(prev).contains(t) {
                        assert(pairs@[i as int].asset_1@ == t || pairs@[i as int].asset_2@ == t);
                    }
                }
                if exists|j: int|
                    0 <= j < i + 1 && (pairs@[j].asset_1@ == t || pairs@[j].asset_2@ == t) {
                    let j = choose|j: int|
                        0 <= j < i + 1 && (pairs@[j].asset_1@ == t || pairs@[j].asset_2@ == t);
                    if j < i {
                        assert(string_views(prev).contains(t));
                        let k = choose|k: int| 0 <= k < prev.len() && string_views(prev)[k] == t;
                        assert(string_views(out@)[k] == t);
                    } else if pairs@[i as int].asset_1@ == t {
                        if string_views(prev).contains(t) {
                            let k = choose|k: int| 0 <= k < prev.len() && string_views(prev)[k] == t;
                            assert(string_views(out@)[k] == t);
                        } else {
                            let k = choose|k: int| 0 <= k < mid.len() && string_views(mid)[k] == t;
                            assert(string_views(out@)[k] == t);
                        }
                    } else {
                        if string_views(mid).contains(t) {
                            let k = choose|k: int| 0 <= k < mid.len() && string_views(mid)[k] == t;
                            assert(string_views(out@)[k] == t);
                        } else {
                            assert(string_views(out@).last() == t);
                        }
                    }
                }
            }
        }
        i = i + 1;
    }
    proof {
        assert(string_views(out@).to_set() =~= pair_tickers(pairs@));
    }
    out
}

/// The session's equilibrium of `pair` from its legs' opening and closing prices.
pub fn equilibrium(pair: &TradePair, open_1: Dec, close_1: Dec, open_2: Dec, close_2: Dec) -> (r:
    Option<Dec>)
    requires
        pair.wf(),
        open_1.wf(),
        close_1.wf(),
        open_2.wf(),
        close_2.wf(),
    ensures
        parts_of(r) == equilibrium_of(*pair, open_1, close_1, open_2, close_2),
        r matches Some(e) ==> e.wf(),
{
    let a = log_spread(open_1, open_2, pair.original_lt_spread);
    let b = log_spread(close_1, close_2, pair.original_lt_spread);
    match (a, b) {
        (Some(x), Some(y)) => match checked_add(x, y) {
            Some(s) => checked_div(s, Dec::new(2, 0)),
            None => None,
        },
        _ => None,
    }
}

fn find_snapshot(snapshots: &Vec<Snapshot>, ticker: &String) -> (r: Option<usize>)
    ensures
        match snapshot_for(snapshots@, ticker@) {
            Some(s) => r matches Some(i) && i < snapshots.len() && snapshots@[i as int] == s,
            None => r is None,
        },
{
    let n = snapshots.len();
    let mut i: usize = 0;
    proof {
        assert(snapshots@.subrange(0, n as int) =~= snapshots@);
    }
    while i < n
        invariant
            n == snapshots.len(),
            i <= n,
            snapshot_for(snapshots@, ticker@) == snapshot_for(
                snapshots@.subrange(i as int, n as int),
                ticker@,
            ),
        decreases n - i,
    {
        let ghost rest = snapshots@.subrange(i as int, n as int);
        proof {
            assert(rest.drop_first() =~= snapshots@.subrange(i + 1, n as int));
            assert(rest[0] == snapshots@[i as int]);
        }
        if snapshots[i].ticker == *ticker {
            return Some(i);
        }
        i = i + 1;
    }
    None
}

/// The bands of `pair` for the session, where both legs have a snapshot and the
/// numbers can be computed.
pub fn bands_for(pair: TradePair, snapshots: &Vec<Snapshot>) -> (r: Option<TradeBands>)
    requires
        pair.wf(),
        forall|i: int| 0 <= i < snapshots.len() ==> (#[trigger] snapshots@[i]).wf(),
    ensures
        r == session_bands(pair, snapshots@),
        r matches Some(b) ==> b.wf(),
{
    let i1 = match find_snapshot(snapshots, &pair.asset_1) {
        Some(i) => i,
        None => return None,
    };
    let i2 = match find_snapshot(snapshots, &pair.asset_2) {
        Some(i) => i,
        None => return None,
    };
    let s1 = &snapshots[i1];
    let s2 = &snapshots[i2];
    match equilibrium(&pair, s1.open, s1.close, s2.open, s2.close) {
        Some(e) => TradeBands::try_new(pair, e),
        None => None,
    }
}

/// The bands of every pair whose legs both have a snapshot and whose numbers can be
/// computed; the other pairs are left out.
pub fn build_bands(pairs: Vec<TradePair>, snapshots: &Vec<Snapshot>) -> (r: Vec<TradeBands>)
    requires
        forall|i: int| 0 <= i < pairs.len() ==> (#[trigger] pairs@[i]).wf(),
        forall|i: int| 0 <= i < snapshots.len() ==> (#[trigger] snapshots@[i]).wf(),
    ensures
        r@ == all_session_bands(pairs@, snapshots@),
        forall|i: int| 0 <= i < r.len() ==> (#[trigger] r@[i]).wf(),
{
    let mut rest = pairs;
    let mut out: Vec<TradeBands> = Vec::new();
    while rest.len() > 0
        invariant
            out@ + all_session_bands(rest@, snapshots@) == all_session_bands(pairs@, snapshots@),
            forall|i: int| 0 <= i < rest.len() ==> (#[trigger] rest@[i]).wf(),
            forall|i: int| 0 <= i < snapshots.len() ==> (#[trigger] snapshots@[i]).wf(),
            forall|i: int| 0 <= i < out.len() ==> (#[trigger] out@[i]).wf(),
        decreases rest.len(),
    {
        let ghost before = rest@;
        let pair = rest.remove(0);
        proof {
            assert(rest@ =~= before.drop_first());
            assert(pair == before[0]);
            assert(before[0].wf());
        }
        match bands_for(pair, snapshots) {
            Some(b) => {
                out.push(b);
            },
            None => {},
        }
        proof {
            assert(out@ + all_session_bands(rest@, snapshots@) =~= all_session_bands(
                pairs@,
                snapshots@,
            ));
        }
    }
    proof {
        assert(out@ =~= out@ + all_session_bands(rest@, snapshots@));
    }
    out
}

} // verus!
