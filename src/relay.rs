//! The relay: decides, for each message of the market-data feed, what to pass on
//! to the trade generator.
use crate::decimal::Dec;
use vstd::prelude::*;

verus! {

/// A market open with at most this many seconds to the close winds the engine down.
pub const WIND_DOWN_SECONDS: u64 = 600;

/// Market state as the feed reports it.
#[derive(Clone, Copy, Debug, PartialEq, Eq, Structural)]
pub enum MarketState {
    Open { next_close: u64 },
    Closed { next_open: u64 },
}

/// The part of a per-second aggregate of the feed that the engine reads.
#[derive(Clone, Debug)]
pub struct Aggregate {
    pub symbol: String,
    pub close: Dec,
    pub timestamp: u64,
}

/// One decoded message of the feed.
#[derive(Clone, Debug)]
pub enum Input {
    MarketState(MarketState),
    Aggregate(Aggregate),
}

/// What the relay sends to the trade generator.
#[derive(Clone, Debug)]
pub enum RelayMessage {
    PriceTick { ticker: String, price: Dec, timestamp: u64 },
    WindDown,
}

/// The relay's decision on one message.
#[derive(Clone, Debug)]
pub enum RelayAction {
    /// Send this on to the trade generator.
    Forward(RelayMessage),
    /// The market is reported closed while the engine runs: warn, nothing else.
    MarketClosed,
    /// Nothing to do: a malformed message, an untracked ticker, or a market not
    /// yet near its close.
    Discard,
}

/// The decision on `input` (`None`: a message that failed to decode or arrived
/// with a delivery error), for the tracked tickers `tickers`.
pub open spec fn action_for(tickers: Set<Seq<char>>, input: Option<Input>) -> RelayAction {
    match input {
        None => RelayAction::Discard,
        Some(Input::Aggregate(agg)) => if tickers.contains(agg.symbol@) {
            RelayAction::Forward(
                RelayMessage::PriceTick {
                    ticker: agg.symbol,
                    price: agg.close,
                    timestamp: agg.timestamp,
                },
            )
        } else {
            RelayAction::Discard
        },
        Some(Input::MarketState(MarketState::Open { next_close })) => if next_close
            <= WIND_DOWN_SECONDS {
            RelayAction::Forward(RelayMessage::WindDown)
        } else {
            RelayAction::Discard
        },
        Some(Input::MarketState(MarketState::Closed { .. })) => RelayAction::MarketClosed,
    }
}

/// What one message puts on the channel: nothing or one message.
pub open spec fn forwarded(tickers: Set<Seq<char>>, input: Option<Input>) -> Seq<RelayMessage> {
    match action_for(tickers, input) {
        RelayAction::Forward(m) => seq![m],
        _ => seq![],
    }
}

/// What a stream of messages puts on the channel, in order.
pub open spec fn relay_stream(tickers: Set<Seq<char>>, inputs: Seq<Option<Input>>) -> Seq<RelayMessage>
    decreases inputs.len(),
{
    if inputs.len() == 0 {
        seq![]
    } else {
        forwarded(tickers, inputs[0]) + relay_stream(tickers, inputs.drop_first())
    }
}

/// Number of `WindDown` messages in `out`.
pub open spec fn wind_down_count(out: Seq<RelayMessage>) -> nat
    decreases out.len(),
{
    if out.len() == 0 {
        0
    } else {
        (if out[0] is WindDown {
            1nat
        } else {
            0nat
        }) + wind_down_count(out.drop_first())
    }
}

/// Whether `input` reports an open market at most `WIND_DOWN_SECONDS` from its close.
pub open spec fn is_closing_soon(input: Option<Input>) -> bool {
    match input {
        Some(Input::MarketState(MarketState::Open { next_close })) => next_close
            <= WIND_DOWN_SECONDS,
        _ => false,
    }
}

/// Number of messages in `inputs` that report a market closing soon.
pub open spec fn closing_soon_count(inputs: Seq<Option<Input>>) -> nat
    decreases inputs.len(),
{
    if inputs.len() == 0 {
        0
    } else {
        (if is_closing_soon(inputs[0]) {
            1nat
        } else {
            0nat
        }) + closing_soon_count(inputs.drop_first())
    }
}

/// Whether `v` holds a string equal to `s`.
pub fn contains_string(v: &Vec<String>, s: &String) -> (r: bool)
    ensures
        r == string_views(v@).contains(s@),
        r == string_views(v@).to_set().contains(s@),
{
    let n = v.len();
    let mut i: usize = 0;
    while i < n
        invariant
            n == v.len(),
            i <= n,
            forall|j: int| 0 <= j < i ==> v@[j]@ != s@,
        decreases n - i,
    {
        if v[i] == *s {
            proof {
                assert(string_views(v@)[i as int] == s@);
            }
            return true;
        }
        i = i + 1;
    }
    proof {
        if string_views(v@).contains(s@) {
            let k = choose|k: int| 0 <= k < v@.len() && #[trigger] string_views(v@)[k] == s@;
            assert(v@[k]@ != s@);
        }
    }
    false
}

/// Filters the feed down to the tracked tickers' price ticks and wind-down signals.
pub struct Relay {
    pub tickers: Vec<String>,
}

impl View for Relay {
    type V = Set<Seq<char>>;

    open spec fn view(&self) -> Set<Seq<char>> {
        string_views(self.tickers@).to_set()
    }
}

/// The character sequences of a sequence of strings.
pub open spec fn string_views(v: Seq<String>) -> Seq<Seq<char>> {
    v.map_values(|s: String| s@)
}

impl Relay {
    pub fn new(tickers: Vec<String>) -> (r: Relay)
        ensures
            r.tickers == tickers,
    {
        Relay { tickers }
    }

    /// Whether `ticker` is one of the tracked tickers.
    pub fn tracks(&self, ticker: &String) -> (r: bool)
        ensures
            r == self@.contains(ticker@),
    {
        contains_string(&self.tickers, ticker)
    }

    /// The decision on one message (`None`: it could not be decoded or delivered).
    pub fn handle(&self, input: Option<Input>) -> (r: RelayAction)
        ensures
            r == action_for(self@, input),
    {
        match input {
            None => RelayAction::Discard,
            Some(Input::Aggregate(agg)) => {
                if self.tracks(&agg.symbol) {
                    RelayAction::Forward(
                        RelayMessage::PriceTick {
                            ticker: agg.symbol,
                            price: agg.close,
                            timestamp: agg.timestamp,
                        },
                    )
                } else {
                    RelayAction::Discard
                }
            },
            Some(Input::MarketState(MarketState::Open { next_close })) => {
                if next_close <= WIND_DOWN_SECONDS {
                    RelayAction::Forward(RelayMessage::WindDown)
                } else {
                    RelayAction::Discard
                }
            },
            Some(Input::MarketState(MarketState::Closed { .. })) => RelayAction::MarketClosed,
        }
    }

    /// The messages a stream of feed messages puts on the channel, in order.
    pub fn relay_all(&self, inputs: Vec<Option<Input>>) -> (r: Vec<RelayMessage>)
        ensures
            r@ == relay_stream(self@, inputs@),
    {
        let mut rest = inputs;
        let mut out: Vec<RelayMessage> = Vec::new();
        while rest.len() > 0
            invariant
                out@ + relay_stream(self@, rest@) == relay_stream(self@, inputs@),
            decreases rest.len(),
        {
            let ghost before = rest@;
            let input = rest.remove(0);
            proof {
                assert(rest@ == before.drop_first());
                assert(input == before[0]);
            }
            match self.handle(input) {
                RelayAction::Forward(m) => {
                    out.push(m);
                },
                _ => {},
            }
            proof {
                assert(out@ + relay_stream(self@, rest@) =~= relay_stream(self@, inputs@));
            }
        }
        proof {
            assert(out@ =~= out@ + relay_stream(self@, rest@));
        }
        out
    }
}

pub proof fn lemma_relay_stream_concat(
    tickers: Set<Seq<char>>,
    a: Seq<Option<Input>>,
    b: Seq<Option<Input>>,
)
    ensures
        relay_stream(tickers, a + b) == relay_stream(tickers, a) + relay_stream(tickers, b),
    decreases a.len(),
{
    if a.len() == 0 {
        assert(a + b =~= b);
        assert(relay_stream(tickers, a) + relay_stream(tickers, b) =~= relay_stream(tickers, b));
    } else {
        assert((a + b).drop_first() =~= a.drop_first() + b);
        lemma_relay_stream_concat(tickers, a.drop_first(), b);
        assert(relay_stream(tickers, a + b) =~= relay_stream(tickers, a) + relay_stream(
            tickers,
            b,
        ));
    }
}

/// Every price tick the relay forwards is for a tracked ticker: no tick for any
/// other ticker is ever forwarded.
pub proof fn lemma_forwarded_ticks_tracked(tickers: Set<Seq<char>>, inputs: Seq<Option<Input>>)
    ensures
        forall|i: int|
            0 <= i < relay_stream(tickers, inputs).len() ==> match #[trigger] relay_stream(
                tickers,
                inputs,
            )[i] {
                RelayMessage::PriceTick { ticker, .. } => tickers.contains(ticker@),
                RelayMessage::WindDown => true,
            },
    decreases inputs.len(),
{
    if inputs.len() > 0 {
        lemma_forwarded_ticks_tracked(tickers, inputs.drop_first());
        let head = forwarded(tickers, inputs[0]);
        let tail = relay_stream(tickers, inputs.drop_first());
        assert forall|i: int| 0 <= i < relay_stream(tickers, inputs).len() implies match #[trigger] relay_stream(
            tickers,
            inputs,
        )[i] {
            RelayMessage::PriceTick { ticker, .. } => tickers.contains(ticker@),
            RelayMessage::WindDown => true,
        } by {
            if i >= head.len() {
                assert(relay_stream(tickers, inputs)[i] == tail[i - head.len()]);
            }
        }
    }
}

/// A message that could not be decoded is skipped and the ones after it are still
/// handled: the output is that of the messages before it followed by that of the
/// messages after it.
pub proof fn lemma_malformed_skipped(
    tickers: Set<Seq<char>>,
    before: Seq<Option<Input>>,
    after: Seq<Option<Input>>,
)
    ensures
        relay_stream(tickers, before + seq![None] + after) == relay_stream(tickers, before)
            + relay_stream(tickers, after),
{
    lemma_relay_stream_concat(tickers, before + seq![None], after);
    lemma_relay_stream_concat(tickers, before, seq![None]);
    let one: Seq<Option<Input>> = seq![None];
    assert(one.drop_first() =~= Seq::<Option<Input>>::empty());
    assert(relay_stream(tickers, one.drop_first()) =~= Seq::<RelayMessage>::empty());
    assert(forwarded(tickers, one[0]) =~= Seq::<RelayMessage>::empty());
    assert(relay_stream(tickers, one) =~= Seq::<RelayMessage>::empty());
    assert(relay_stream(tickers, before) + relay_stream(tickers, one) =~= relay_stream(
        tickers,
        before,
    ));
}

proof fn lemma_wind_down_count_concat(a: Seq<RelayMessage>, b: Seq<RelayMessage>)
    ensures
        wind_down_count(a + b) == wind_down_count(a) + wind_down_count(b),
    decreases a.len(),
{
    if a.len() == 0 {
        assert(a + b =~= b);
    } else {
        assert((a + b).drop_first() =~= a.drop_first() + b);
        lemma_wind_down_count_concat(a.drop_first(), b);
    }
}

/// The relay sends exactly one `WindDown` for each message reporting an open
/// market at most `WIND_DOWN_SECONDS` from its close, and none for any other.
pub proof fn lemma_one_wind_down_per_closing(tickers: Set<Seq<char>>, inputs: Seq<Option<Input>>)
    ensures
        wind_down_count(relay_stream(tickers, inputs)) == closing_soon_count(inputs),
    decreases inputs.len(),
{
    if inputs.len() > 0 {
        lemma_one_wind_down_per_closing(tickers, inputs.drop_first());
        let head = forwarded(tickers, inputs[0]);
        lemma_wind_down_count_concat(head, relay_stream(tickers, inputs.drop_first()));
        if head.len() > 0 {
            assert(head.drop_first() =~= Seq::<RelayMessage>::empty());
            assert(wind_down_count(head.drop_first()) == 0);
            assert(wind_down_count(head) == if is_closing_soon(inputs[0]) {
                1nat
            } else {
                0nat
            });
        } else {
            assert(wind_down_count(head) == 0);
        }
    }
}

} // verus!
