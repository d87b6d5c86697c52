//! The live price cache: the latest price of each ticker.
use crate::decimal::Dec;
use vstd::prelude::*;

verus! {

/// Latest known price per ticker.
pub struct PriceCache {
    tickers: Vec<String>,
    prices: Vec<Dec>,
    contents: Ghost<Map<Seq<char>, Dec>>,
}

impl View for PriceCache {
    type V = Map<Seq<char>, Dec>;

    closed spec fn view(&self) -> Map<Seq<char>, Dec> {
        self.contents@
    }
}

impl PriceCache {
    /// The tickers are distinct, the i-th price belongs to the i-th ticker, and the
    /// map holds exactly these entries, all well-formed.
    pub closed spec fn wf(&self) -> bool {
        &&& self.tickers.len() == self.prices.len()
        &&& forall|i: int, j: int|
            0 <= i < j < self.tickers.len() ==> self.tickers@[i]@ != self.tickers@[j]@
        &&& forall|i: int|
            0 <= i < self.tickers.len() ==> #[trigger] self.contents@.contains_key(
                self.tickers@[i]@,
            ) && self.contents@[self.tickers@[i]@] == self.prices@[i]
        &&& forall|k: Seq<char>|
            #[trigger] self.contents@.contains_key(k) ==> exists|i: int|
                0 <= i < self.tickers.len() && self.tickers@[i]@ == k
        &&& forall|k: Seq<char>| #[trigger] self.contents@.contains_key(k) ==> self.contents@[k].wf()
    }

    pub fn new() -> (r: PriceCache)
        ensures
            r.wf(),
            r@ == Map::<Seq<char>, Dec>::empty(),
    {
        PriceCache { tickers: Vec::new(), prices: Vec::new(), contents: Ghost(Map::empty()) }
    }

    /// Every cached price is a well-formed decimal.
    pub proof fn lemma_prices_wf(&self)
        requires
            self.wf(),
        ensures
            forall|k: Seq<char>| #[trigger] self@.contains_key(k) ==> self@[k].wf(),
    {
    }

    fn position(&self, ticker: &String) -> (r: Option<usize>)
        requires
            self.wf(),
        ensures
            r matches Some(i) ==> i < self.tickers.len() && self.tickers@[i as int]@ == ticker@,
            r is None ==> !self@.contains_key(ticker@),
    {
        let n = self.tickers.len();
        let mut i: usize = 0;
        while i < n
            invariant
                self.wf(),
                n == self.tickers.len(),
                i <= n,
                forall|j: int| 0 <= j < i ==> self.tickers@[j]@ != ticker@,
            decreases n - i,
        {
            if self.tickers[i] == *ticker {
                return Some(i);
            }
            i = i + 1;
        }
        None
    }

    /// The latest price of `ticker`, if any.
    pub fn get(&self, ticker: &String) -> (r: Option<Dec>)
        requires
            self.wf(),
        ensures
            r == (if self@.contains_key(ticker@) {
                Some(self@[ticker@])
            } else {
                None
            }),
            r matches Some(p) ==> p.wf(),
    {
        match self.position(ticker) {
            Some(i) => {
                proof {
                    assert(self.contents@.contains_key(self.tickers@[i as int]@));
                }
                Some(self.prices[i])
            },
            None => None,
        }
    }

    /// Records `price` as the latest price of `ticker`.
    pub fn insert(&mut self, ticker: String, price: Dec)
        requires
            old(self).wf(),
            price.wf(),
        ensures
            final(self).wf(),
            final(self)@ == old(self)@.insert(ticker@, price),
    {
        let ghost key = ticker@;
        match self.position(&ticker) {
            Some(i) => {
                self.prices.set(i, price);
                self.contents = Ghost(self.contents@.insert(key, price));
                proof {
                    assert forall|j: int|
                        0 <= j < self.tickers.len() implies #[trigger] self.contents@.contains_key(
                        self.tickers@[j]@,
                    ) && self.contents@[self.tickers@[j]@] == self.prices@[j] by {
                        if j != i {
                            assert(old(self).contents@.contains_key(old(self).tickers@[j]@));
                            if j < i {
                                assert(self.tickers@[j]@ != self.tickers@[i as int]@);
                            } else {
                                assert(self.tickers@[i as int]@ != self.tickers@[j]@);
                            }
                        }
                    }
                    assert forall|k: Seq<char>| #[trigger]
                        self.contents@.contains_key(k) implies exists|j: int|
                        0 <= j < self.tickers.len() && self.tickers@[j]@ == k by {
                        if k != key {
                            assert(old(self).contents@.contains_key(k));
                            let j = choose|j: int|
                                0 <= j < old(self).tickers.len() && old(self).tickers@[j]@ == k;
                            assert(self.tickers@[j]@ == k);
                        } else {
                            assert(self.tickers@[i as int]@ == k);
                        }
                    }
                }
            },
            None => {
                self.tickers.push(ticker);
                self.prices.push(price);
                self.contents = Ghost(self.contents@.insert(key, price));
                proof {
                    let n = self.tickers.len() - 1;
                    assert(self.tickers@[n]@ == key);
                    assert forall|i: int|
                        0 <= i < self.tickers.len() implies #[trigger] self.contents@.contains_key(
                        self.tickers@[i]@,
                    ) && self.contents@[self.tickers@[i]@] == self.prices@[i] by {
                        if i < n {
                            assert(old(self).contents@.contains_key(old(self).tickers@[i]@));
                            assert(old(self).tickers@[i]@ != key);
                        }
                    }
                    assert forall|k: Seq<char>| #[trigger]
                        self.contents@.contains_key(k) implies exists|j: int|
                        0 <= j < self.tickers.len() && self.tickers@[j]@ == k by {
                        if k != key {
                            assert(old(self).contents@.contains_key(k));
                            let j = choose|j: int|
                                0 <= j < old(self).tickers.len() && old(self).tickers@[j]@ == k;
                            assert(self.tickers@[j]@ == k);
                        } else {
                            assert(self.tickers@[n]@ == k);
                        }
                    }
                }
            },
        }
    }
}

} // verus!
