//! The stream of trades: one page of history at a time, handed out trade by
//! trade.
//!
//! The stream does no fetching of its own. [`TradeStream::poll`] says what is
//! due: a trade, the end, the error that ended the stream, or a request to
//! be made. Whoever drives the stream makes the request and hands the answer
//! to [`TradeStream::receive`], or to [`TradeStream::resume`], which polls
//! again at once.

use vstd::prelude::*;
use crate::error::{Error, ErrorView};
use crate::json::{json_document, JsonView, MemberView};
use crate::kraken::{adapted, history_of_document, history_of_json, kraken_trade_views,
    lemma_pair_entries_are_pair_members, pair_members, trades_of_json, HistoryRequest,
    HistoryRequestView, HistoryResponse, HistoryResponseView, KrakenResponse, KrakenResponseView,
    KrakenTradeView, NO_RESULT};
use crate::text::{parse_u64, u64_text};
use crate::trade::{trade_views, Trade, TradeSymbol, TradeSymbolView, TradeView};

verus! {

/// One page of trades, and the cursor behind it.
#[derive(Debug, PartialEq, Eq)]
pub struct PaginationHelper {
    pub trades: Vec<Trade>,
    pub continuation: u64,
}

/// A [`PaginationHelper`] as a mathematical value.
pub struct PaginationHelperView {
    pub trades: Seq<TradeView>,
    pub continuation: u64,
}

impl View for PaginationHelper {
    type V = PaginationHelperView;

    open spec fn view(&self) -> PaginationHelperView {
        PaginationHelperView { trades: trade_views(self.trades@), continuation: self.continuation }
    }
}

/// The message of the error for a page that does not hold the trades of
/// exactly one pair.
pub const NO_SINGLE_PAIR: &'static str = "page of history must hold the trades of exactly one pair";

/// The message of the error for a cursor that is no unsigned integer.
pub const NO_CURSOR: &'static str = "cursor is no unsigned integer";

/// The trades that the wire trades stand for, in their order, or the error
/// of the first that stands for none.
pub open spec fn adapted_all(raws: Seq<KrakenTradeView>, symbol: TradeSymbolView) -> Result<
    Seq<TradeView>,
    ErrorView,
>
    decreases raws.len(),
{
    if raws.len() == 0 {
        Ok(Seq::empty())
    } else {
        match adapted_all(raws.drop_last(), symbol) {
            Err(error) => Err(error),
            Ok(front) => match adapted(raws.last(), symbol) {
                Err(error) => Err(error),
                Ok(trade) => Ok(front.push(trade)),
            },
        }
    }
}

/// The page that a page on the wire stands for. It must hold the trades of
/// exactly one pair, under whatever name; each of them must stand for a
/// trade; and its cursor must be an unsigned integer.
pub open spec fn page_of(history: HistoryResponseView, symbol: TradeSymbolView) -> Result<
    PaginationHelperView,
    ErrorView,
> {
    if history.trades.len() != 1 {
        Err(ErrorView::Json(NO_SINGLE_PAIR@))
    } else {
        match adapted_all(history.trades[0].1, symbol) {
            Err(error) => Err(error),
            Ok(trades) => match u64_text(history.last) {
                None => Err(ErrorView::Parse(NO_CURSOR@)),
                Some(continuation) => Ok(PaginationHelperView { trades, continuation }),
            },
        }
    }
}

/// The page that an answer of the exchange stands for: the exchange's error
/// where it names one, else the page of its result.
pub open spec fn page_of_response(
    response: KrakenResponseView<HistoryResponseView>,
    symbol: TradeSymbolView,
) -> Result<PaginationHelperView, ErrorView> {
    if response.error.len() > 0 {
        Err(ErrorView::Kraken(response.error))
    } else {
        match response.result {
            None => Err(ErrorView::Json(NO_RESULT@)),
            Some(history) => page_of(history, symbol),
        }
    }
}

/// An error among the first trades is the error of them all.
proof fn lemma_adapted_all_prefix(raws: Seq<KrakenTradeView>, symbol: TradeSymbolView, k: int)
    requires
        0 <= k <= raws.len(),
        adapted_all(raws.take(k), symbol) is Err,
    ensures
        adapted_all(raws, symbol) == adapted_all(raws.take(k), symbol),
    decreases raws.len(),
{
    if k == raws.len() {
        assert(raws.take(k) =~= raws);
    } else {
        assert(raws.drop_last().take(k) =~= raws.take(k));
        lemma_adapted_all_prefix(raws.drop_last(), symbol, k);
    }
}

/// A page holds as many trades as stood on the wire, each the one that its
/// wire trade stands for.
pub proof fn lemma_adapted_all_each(raws: Seq<KrakenTradeView>, symbol: TradeSymbolView)
    requires
        adapted_all(raws, symbol) is Ok,
    ensures
        adapted_all(raws, symbol)->Ok_0.len() == raws.len(),
        forall|i: int|
            0 <= i < raws.len() ==> adapted(#[trigger] raws[i], symbol) == Ok::<
                TradeView,
                ErrorView,
            >(adapted_all(raws, symbol)->Ok_0[i]),
    decreases raws.len(),
{
    if raws.len() > 0 {
        lemma_adapted_all_each(raws.drop_last(), symbol);
        assert forall|i: int| 0 <= i < raws.len() implies adapted(#[trigger] raws[i], symbol)
            == Ok::<TradeView, ErrorView>(adapted_all(raws, symbol)->Ok_0[i]) by {
            if i < raws.len() - 1 {
                assert(raws[i] == raws.drop_last()[i]);
            }
        }
    }
}

impl PaginationHelper {
    /// Makes the page that a page on the wire stands for.
    pub fn from_history(history: &HistoryResponse, symbol: &TradeSymbol) -> (r: Result<Self, Error>)
        ensures
            match r {
                Ok(page) => page_of(history@, symbol@) == Ok::<PaginationHelperView, ErrorView>(
                    page@,
                ),
                Err(error) => page_of(history@, symbol@) == Err::<PaginationHelperView, ErrorView>(
                    error@,
                ),
            },
    {
        if history.trades.len() != 1 {
            return Err(Error::JSONError(String::from_str(NO_SINGLE_PAIR)));
        }
        let raws = &history.trades[0].1;
        let ghost views = kraken_trade_views(raws@);
        assert(history@.trades[0].1 == views);
        let mut trades: Vec<Trade> = Vec::new();
        let mut i: usize = 0;
        assert(views.take(0) =~= Seq::<KrakenTradeView>::empty());
        assert(trade_views(trades@) =~= Seq::<TradeView>::empty());
        while i < raws.len()
            invariant
                i <= raws.len(),
                views == kraken_trade_views(raws@),
                history@.trades.len() == 1,
                history@.trades[0].1 == views,
                adapted_all(views.take(i as int), symbol@) == Ok::<Seq<TradeView>, ErrorView>(
                    trade_views(trades@),
                ),
            decreases raws.len() - i,
        {
            proof {
                assert(views.take(i + 1).drop_last() =~= views.take(i as int));
                assert(views.take(i + 1).last() == raws[i as int]@);
            }
            match Trade::from_kraken(&raws[i], symbol) {
                Ok(trade) => {
                    let ghost before = trades@;
                    trades.push(trade);
                    assert(trade_views(trades@) =~= trade_views(before).push(trade@));
                },
                Err(error) => {
                    proof {
                        lemma_adapted_all_prefix(views, symbol@, i + 1);
                    }
                    return Err(error);
                },
            }
            i += 1;
        }
        assert(views.take(raws.len() as int) =~= views);
        match parse_u64(history.last.as_str()) {
            None => Err(Error::ParseError(String::from_str(NO_CURSOR))),
            Some(continuation) => Ok(PaginationHelper { trades, continuation }),
        }
    }

    /// Makes the page that an answer of the exchange stands for.
    pub fn from_response(response: KrakenResponse<HistoryResponse>, symbol: &TradeSymbol) -> (r:
        Result<Self, Error>)
        ensures
            match r {
                Ok(page) => page_of_response(response@, symbol@) == Ok::<
                    PaginationHelperView,
                    ErrorView,
                >(page@),
                Err(error) => page_of_response(response@, symbol@) == Err::<
                    PaginationHelperView,
                    ErrorView,
                >(error@),
            },
    {
        match response.into_result() {
            Ok(history) => PaginationHelper::from_history(&history, symbol),
            Err(error) => Err(error),
        }
    }
}

/// A page of history with the trades of one pair holds as many trades as
/// that pair has on the wire; one with no pair or with several is refused
/// as malformed.
pub proof fn lemma_page_of_one_pair(history: HistoryResponseView, symbol: TradeSymbolView)
    ensures
        history.trades.len() != 1 ==> page_of(history, symbol) == Err::<
            PaginationHelperView,
            ErrorView,
        >(ErrorView::Json(NO_SINGLE_PAIR@)),
        page_of(history, symbol) is Ok ==> history.trades.len() == 1 && page_of(
            history,
            symbol,
        )->Ok_0.trades.len() == history.trades[0].1.len(),
{
    if page_of(history, symbol) is Ok {
        lemma_adapted_all_each(history.trades[0].1, symbol);
    }
}

/// Read from JSON, a page of history needs exactly one member besides
/// `last`, whatever its name: with none or with several the page is refused
/// as malformed, and with one the page holds as many trades as that member
/// has items.
pub proof fn lemma_page_of_json(json: JsonView, symbol: TradeSymbolView)
    requires
        history_of_json(json) is Some,
    ensures
        pair_members(json.members()->0).len() != 1 ==> page_of(history_of_json(json)->0, symbol)
            == Err::<PaginationHelperView, ErrorView>(ErrorView::Json(NO_SINGLE_PAIR@)),
        page_of(history_of_json(json)->0, symbol) is Ok ==> pair_members(json.members()->0).len()
            == 1 && pair_members(json.members()->0)[0].value.items() is Some && page_of(
            history_of_json(json)->0,
            symbol,
        )->Ok_0.trades.len() == pair_members(json.members()->0)[0].value.items()->0.len(),
{
    let members = json.members()->0;
    let history = history_of_json(json)->0;
    lemma_pair_entries_are_pair_members(members);
    lemma_page_of_one_pair(history, symbol);
    if page_of(history, symbol) is Ok {
        let only = pair_members(members)[0];
        assert(history.trades[0] == (only.name, trades_of_json(only.value)->0));
        assert(pair_members(members).contains(only));
        members.lemma_filter_contains_rev(|m: MemberView| m.name != "last"@, only);
        let at = choose|i: int| 0 <= i < members.len() && members[i] == only;
        assert(members[at].name != "last"@);
        assert(trades_of_json(members[at].value) is Some);
    }
}

/// Where a stream of trades stands.
#[derive(Clone, Copy, Debug, PartialEq, Eq, Structural)]
pub enum State {
    /// No trade is buffered: the next page has to be fetched.
    Fetching,
    /// Trades of the last page are buffered.
    Draining,
    /// The exchange sent an empty page: the stream is over.
    Exhausted,
    /// A fetch went wrong: the stream is over, with that error.
    Failed,
}

/// What a stream of trades has for whoever polls it.
#[derive(Debug, PartialEq, Eq)]
pub enum Step {
    /// Nothing yet: this request has to be made, and its answer handed in.
    Fetch(HistoryRequest),
    /// The next trade.
    Trade(Trade),
    /// The stream is over.
    EndOfStream,
    /// The stream is over, with this error.
    Failed(Error),
}

/// A [`Step`] as a mathematical value.
pub enum StepView {
    Fetch(HistoryRequestView),
    Trade(TradeView),
    EndOfStream,
    Failed(ErrorView),
}

impl View for Step {
    type V = StepView;

    open spec fn view(&self) -> StepView {
        match self {
            Step::Fetch(request) => StepView::Fetch(request@),
            Step::Trade(trade) => StepView::Trade(trade@),
            Step::EndOfStream => StepView::EndOfStream,
            Step::Failed(error) => StepView::Failed(error@),
        }
    }
}

/// The trades of one pair from a cursor on, page by page.
#[derive(Debug)]
pub struct TradeStream {
    symbol: TradeSymbol,
    continuation: u64,
    trades: Vec<Trade>,
    exhausted: bool,
    failure: Option<Error>,
}

/// A [`TradeStream`] as a mathematical value: the pair, the cursor of the
/// next page, the trades of the last page that are still to be handed out,
/// in the order in which the page held them, whether an empty page was
/// seen, and the error that ended the stream.
pub struct TradeStreamView {
    pub symbol: TradeSymbolView,
    pub continuation: u64,
    pub trades: Seq<TradeView>,
    pub exhausted: bool,
    pub failure: Option<ErrorView>,
}

impl TradeStreamView {
    /// A stream at its start.
    pub open spec fn start(symbol: TradeSymbolView, since: u64) -> TradeStreamView {
        TradeStreamView {
            symbol,
            continuation: since,
            trades: Seq::empty(),
            exhausted: false,
            failure: None,
        }
    }

    /// Where the stream stands.
    pub open spec fn state(self) -> State {
        if self.failure is Some {
            State::Failed
        } else if self.exhausted {
            State::Exhausted
        } else if self.trades.len() > 0 {
            State::Draining
        } else {
            State::Fetching
        }
    }

    /// The request for the next page.
    pub open spec fn request(self) -> HistoryRequestView {
        HistoryRequestView { pair: self.symbol.pair(), since: self.continuation }
    }

    /// What a poll finds. While trades are buffered it is the last of them:
    /// a page is handed out from its end.
    pub open spec fn step(self) -> StepView {
        match self.state() {
            State::Failed => StepView::Failed(self.failure->0),
            State::Exhausted => StepView::EndOfStream,
            State::Draining => StepView::Trade(self.trades.last()),
            State::Fetching => StepView::Fetch(self.request()),
        }
    }

    /// The stream after a poll: a trade that was handed out has left the
    /// buffer, and nothing else has changed.
    pub open spec fn polled(self) -> TradeStreamView {
        match self.state() {
            State::Draining => TradeStreamView { trades: self.trades.drop_last(), ..self },
            _ => self,
        }
    }

    /// The stream after `n` polls.
    pub open spec fn polled_times(self, n: nat) -> TradeStreamView
        decreases n,
    {
        if n == 0 {
            self
        } else {
            self.polled_times((n - 1) as nat).polled()
        }
    }

    /// The stream after the outcome of a fetch was handed in. Only a stream
    /// that waits for a page takes one. An error ends it. A page sets the
    /// cursor; an empty page ends the stream, any other fills the buffer.
    pub open spec fn accepted(self, outcome: Result<PaginationHelperView, ErrorView>) -> TradeStreamView {
        if self.state() != State::Fetching {
            self
        } else {
            match outcome {
                Err(error) => TradeStreamView { failure: Some(error), ..self },
                Ok(page) => TradeStreamView {
                    continuation: page.continuation,
                    trades: page.trades,
                    exhausted: page.trades.len() == 0,
                    ..self
                },
            }
        }
    }

    /// The stream after the outcome of a fetch was handed in and the stream
    /// was polled once more.
    pub open spec fn resumed(self, outcome: Result<PaginationHelperView, ErrorView>) -> TradeStreamView {
        self.accepted(outcome).polled()
    }
}

/// The outcome of a fetch as a mathematical value.
pub open spec fn outcome_view(outcome: Result<PaginationHelper, Error>) -> Result<
    PaginationHelperView,
    ErrorView,
> {
    match outcome {
        Ok(page) => Ok(page@),
        Err(error) => Err(error@),
    }
}

/// What a fetch amounts to for a stream of `symbol`, from what came over
/// the transport and what the JSON reader made of it: the transport's error,
/// the reader's, the exchange's, or the page.
pub open spec fn fetched(
    transport: Result<String, Error>,
    symbol: TradeSymbolView,
) -> Result<PaginationHelperView, ErrorView> {
    match transport {
        Err(error) => Err(error@),
        Ok(body) => match history_of_document(json_document(body@)) {
            Err(error) => Err(error),
            Ok(response) => page_of_response(response, symbol),
        },
    }
}

impl View for TradeStream {
    type V = TradeStreamView;

    closed spec fn view(&self) -> TradeStreamView {
        TradeStreamView {
            symbol: self.symbol@,
            continuation: self.continuation,
            trades: trade_views(self.trades@),
            exhausted: self.exhausted,
            failure: match self.failure {
                Some(error) => Some(error@),
                None => None,
            },
        }
    }
}

impl TradeStream {
    /// A stream of the trades of `symbol` from the cursor `since` on. It
    /// begins with nothing buffered.
    pub fn new(symbol: TradeSymbol, since: u64) -> (r: Self)
        ensures
            r@ == TradeStreamView::start(symbol@, since),
    {
        let r = TradeStream {
            symbol,
            continuation: since,
            trades: Vec::new(),
            exhausted: false,
            failure: None,
        };
        assert(trade_views(r.trades@) =~= Seq::<TradeView>::empty());
        r
    }

    /// Where the stream stands.
    pub fn state(&self) -> (r: State)
        ensures
            r == self@.state(),
    {
        if self.failure.is_some() {
            State::Failed
        } else if self.exhausted {
            State::Exhausted
        } else if self.trades.len() > 0 {
            State::Draining
        } else {
            State::Fetching
        }
    }

    /// The cursor from which the next page goes on.
    pub fn continuation(&self) -> (r: u64)
        ensures
            r == self@.continuation,
    {
        self.continuation
    }

    /// How many trades are buffered.
    pub fn buffered(&self) -> (r: usize)
        ensures
            r == self@.trades.len(),
    {
        self.trades.len()
    }

    /// What the stream has next. A buffered trade leaves the buffer, the
    /// last of the page first. With nothing buffered the request for the
    /// next page comes back, as often as it is asked for, until its answer
    /// is handed in. A stream that is over says so on every poll.
    pub fn poll(&mut self) -> (step: Step)
        ensures
            step@ == old(self)@.step(),
            final(self)@ == old(self)@.polled(),
    {
        match self.state() {
            State::Failed => match &self.failure {
                Some(error) => Step::Failed(error.clone()),
                None => Step::EndOfStream,
            },
            State::Exhausted => Step::EndOfStream,
            State::Draining => {
                let ghost before = self.trades@;
                match self.trades.pop() {
                    Some(trade) => {
                        assert(trade_views(self.trades@) =~= trade_views(before).drop_last());
                        Step::Trade(trade)
                    },
                    None => Step::EndOfStream,
                }
            },
            State::Fetching => Step::Fetch(HistoryRequest::new(&self.symbol, self.continuation)),
        }
    }

    /// Hands in the outcome of a fetch: the page, or why there is none.
    /// A stream that is not waiting for a page leaves it aside.
    pub fn accept(&mut self, outcome: Result<PaginationHelper, Error>)
        ensures
            final(self)@ == old(self)@.accepted(outcome_view(outcome)),
    {
        match self.state() {
            State::Fetching => match outcome {
                Err(error) => {
                    self.failure = Some(error);
                },
                Ok(page) => {
                    self.continuation = page.continuation;
                    self.exhausted = page.trades.len() == 0;
                    self.trades = page.trades;
                },
            },
            _ => {},
        }
    }

    /// Hands in what the transport gave for the last request: the body of
    /// the answer, or the transport's error. The body is read as JSON, as
    /// an envelope and as a page of the stream's pair, and the outcome is
    /// accepted. A stream that is not waiting for a page leaves it aside.
    pub fn receive(&mut self, transport: Result<String, Error>)
        ensures
            final(self)@ == old(self)@.accepted(fetched(transport, old(self)@.symbol)),
    {
        match self.state() {
            State::Fetching => {
                let outcome = match transport {
                    Err(error) => Err(error),
                    Ok(body) => match crate::json::parse(body.as_str()) {
                        Err(error) => Err(error),
                        Ok(json) => match KrakenResponse::<HistoryResponse>::from_json(&json) {
                            Err(error) => Err(error),
                            Ok(response) => PaginationHelper::from_response(response, &self.symbol),
                        },
                    },
                };
                self.accept(outcome);
            },
            _ => {},
        }
    }

    /// Hands in what the transport gave for the last request, as
    /// [`TradeStream::receive`] does, and polls the stream. For a stream
    /// that waited for a page this never asks for another: it comes back
    /// with a trade, the end or the error.
    pub fn resume(&mut self, transport: Result<String, Error>) -> (step: Step)
        ensures
            step@ == old(self)@.accepted(fetched(transport, old(self)@.symbol)).step(),
            final(self)@ == old(self)@.resumed(fetched(transport, old(self)@.symbol)),
            old(self)@.state() == State::Fetching ==> !(step@ is Fetch),
    {
        self.receive(transport);
        self.poll()
    }
}

/// While a page drains, each poll takes one trade from the end of the
/// buffer and touches nothing else.
proof fn lemma_draining(stream: TradeStreamView, k: nat)
    requires
        stream.failure is None,
        !stream.exhausted,
        k <= stream.trades.len(),
    ensures
        stream.polled_times(k) == (TradeStreamView {
            trades: stream.trades.take(stream.trades.len() - k),
            ..stream
        }),
    decreases k,
{
    if k == 0 {
        assert(stream.trades.take(stream.trades.len() as int) =~= stream.trades);
    } else {
        lemma_draining(stream, (k - 1) as nat);
        let before = stream.polled_times((k - 1) as nat);
        assert(before.trades.drop_last() =~= stream.trades.take(stream.trades.len() - k));
    }
}

/// A stream that is over stays as it is, whatever is done with it.
pub proof fn lemma_over_is_over(
    stream: TradeStreamView,
    n: nat,
    outcome: Result<PaginationHelperView, ErrorView>,
)
    requires
        stream.state() == State::Exhausted || stream.state() == State::Failed,
    ensures
        stream.polled_times(n) == stream,
        stream.accepted(outcome) == stream,
    decreases n,
{
    if n > 0 {
        lemma_over_is_over(stream, (n - 1) as nat, outcome);
    }
}

/// The trades of a page come out last first: after a page was accepted,
/// poll number `k`, counted from zero, hands out the trade that stood `k`
/// places before the end of the page.
pub proof fn lemma_page_comes_out_in_reverse(
    stream: TradeStreamView,
    page: PaginationHelperView,
    k: nat,
)
    requires
        stream.state() == State::Fetching,
        k < page.trades.len(),
    ensures
        stream.accepted(Ok(page)).polled_times(k).step() == StepView::Trade(
            page.trades[page.trades.len() - 1 - k],
        ),
{
    lemma_draining(stream.accepted(Ok(page)), k);
}

/// The next page is asked for when the last trade of a page is out and not
/// before: after as many polls as the page held trades, the stream wants the
/// page at the cursor that came with the page, for the same pair.
pub proof fn lemma_next_page_follows_last_trade(stream: TradeStreamView, page: PaginationHelperView)
    requires
        stream.state() == State::Fetching,
        page.trades.len() > 0,
    ensures
        stream.accepted(Ok(page)).polled_times(page.trades.len()).step() == StepView::Fetch(
            HistoryRequestView { pair: stream.symbol.pair(), since: page.continuation },
        ),
        forall|k: nat|
            k < page.trades.len() ==> #[trigger] stream.accepted(Ok(page)).polled_times(k).state()
                == State::Draining,
{
    let filled = stream.accepted(Ok(page));
    lemma_draining(filled, page.trades.len());
    assert forall|k: nat| k < page.trades.len() implies #[trigger] filled.polled_times(k).state()
        == State::Draining by {
        lemma_draining(filled, k);
    }
}

/// An empty page ends the stream, whatever cursor comes with it: the stream
/// is exhausted, and every poll from then on finds the end of the stream.
pub proof fn lemma_empty_page_ends_stream(
    stream: TradeStreamView,
    page: PaginationHelperView,
    n: nat,
)
    requires
        stream.state() == State::Fetching,
        page.trades.len() == 0,
    ensures
        stream.accepted(Ok(page)).state() == State::Exhausted,
        stream.accepted(Ok(page)).polled_times(n).step() == StepView::EndOfStream,
{
    lemma_over_is_over(stream.accepted(Ok(page)), n, Ok(page));
}

/// A page and an empty page behind it make a whole stream: the trades of
/// the first come out, then the page at its cursor is asked for, and when
/// that is empty the stream is over for good.
pub proof fn lemma_stream_ends_behind_last_page(
    stream: TradeStreamView,
    page: PaginationHelperView,
    empty: PaginationHelperView,
    n: nat,
)
    requires
        stream.state() == State::Fetching,
        page.trades.len() > 0,
        empty.trades.len() == 0,
    ensures
        ({
            let drained = stream.accepted(Ok(page)).polled_times(page.trades.len());
            &&& drained.state() == State::Fetching
            &&& drained.request() == (HistoryRequestView {
                pair: stream.symbol.pair(),
                since: page.continuation,
            })
            &&& drained.accepted(Ok(empty)).polled_times(n).step() == StepView::EndOfStream
        }),
{
    let drained = stream.accepted(Ok(page)).polled_times(page.trades.len());
    lemma_draining(stream.accepted(Ok(page)), page.trades.len());
    lemma_empty_page_ends_stream(drained, empty, n);
}

/// A fetch that went wrong ends the stream with its error: the stream has
/// failed, and every poll from then on finds that error.
pub proof fn lemma_error_ends_stream(stream: TradeStreamView, error: ErrorView, n: nat)
    requires
        stream.state() == State::Fetching,
    ensures
        stream.accepted(Err(error)).state() == State::Failed,
        stream.accepted(Err(error)).polled_times(n).step() == StepView::Failed(error),
{
    lemma_over_is_over(stream.accepted(Err(error)), n, Err(error));
}

/// Every fetch settles the stream: with its outcome handed in, a stream
/// that waited for a page has trades to hand out or is over, so that the
/// next poll asks for no page.
pub proof fn lemma_fetch_settles(
    stream: TradeStreamView,
    outcome: Result<PaginationHelperView, ErrorView>,
)
    requires
        stream.state() == State::Fetching,
    ensures
        stream.accepted(outcome).state() != State::Fetching,
        !(stream.accepted(outcome).step() is Fetch),
{
}

/// An answer in which the exchange names an error is a failed fetch with
/// exactly the exchange's messages, whatever else the answer holds.
pub proof fn lemma_exchange_error_is_kept(
    response: KrakenResponseView<HistoryResponseView>,
    symbol: TradeSymbolView,
)
    requires
        response.error.len() > 0,
    ensures
        page_of_response(response, symbol) == Err::<PaginationHelperView, ErrorView>(
            ErrorView::Kraken(response.error),
        ),
{
}

} // verus!
