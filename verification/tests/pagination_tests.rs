use crytrade::error::Error;
use crytrade::kraken::{
    HistoryRequest, HistoryResponse, Kraken, KrakenResponse, KrakenTrade, NO_ENVELOPE, NO_RESULT,
    NO_TIME,
};
use crytrade::pagination::{
    PaginationHelper, State, Step, TradeStream, NO_CURSOR, NO_SINGLE_PAIR,
};
use crytrade::trade::{Trade, TradeSymbol};

const FIRST_PAGE: &str = r#"
    {
        "error": [],
        "result": {
            "XETHZEUR": [
                ["138.65000", "1.55284051", 1575127767.9793, "b", "l", ""],
                ["138.66000", "10.00000000", 1575127767.9842, "b", "l", ""]
            ],
            "last": "1575145023655038533"
        }
    }
"#;

const EMPTY_PAGE: &str = r#"{"error": [], "result": {"XETHZEUR": [], "last": "1575145023655038533"}}"#;

fn eth_eur() -> TradeSymbol {
    TradeSymbol { base_currency: "ETH".to_string(), quote_currency: "EUR".to_string() }
}

fn raw(price: &str, time: &str) -> KrakenTrade {
    KrakenTrade(
        price.to_string(),
        "1.0".to_string(),
        time.to_string(),
        "b".to_string(),
        "l".to_string(),
        "".to_string(),
    )
}

fn trade(price: &str, timestamp: u64) -> Trade {
    Trade { symbol: eth_eur(), price: price.to_string(), volume: "1.0".to_string(), timestamp }
}

fn page(prices: &[&str], continuation: u64) -> PaginationHelper {
    PaginationHelper {
        trades: prices.iter().map(|p| trade(p, 1)).collect(),
        continuation,
    }
}

/// Drives the stream as a consumer would: fetches when asked to, and comes
/// back with the next trade, the error, or `None` at the end.
fn next(
    stream: &mut TradeStream,
    fetch: &mut dyn FnMut(&HistoryRequest) -> Result<String, Error>,
) -> Option<Result<Trade, Error>> {
    loop {
        match stream.poll() {
            Step::Fetch(request) => {
                let answer = fetch(&request);
                stream.receive(answer);
            }
            Step::Trade(trade) => return Some(Ok(trade)),
            Step::EndOfStream => return None,
            Step::Failed(error) => return Some(Err(error)),
        }
    }
}

#[test]
fn stream_starts_by_asking_for_the_first_page() {
    let k = Kraken { client: () };
    let mut stream = k.history_since_until_now(eth_eur(), 1575127767000000000);
    assert_eq!(stream.state(), State::Fetching);
    assert_eq!(stream.continuation(), 1575127767000000000);
    assert_eq!(stream.buffered(), 0);
    let expected = HistoryRequest { pair: "ETHEUR".to_string(), since: 1575127767000000000 };
    assert_eq!(stream.poll(), Step::Fetch(HistoryRequest::new(&eth_eur(), 1575127767000000000)));
    assert_eq!(stream.poll(), Step::Fetch(expected));
    assert_eq!(stream.state(), State::Fetching);
}

#[test]
fn page_comes_out_last_trade_first() {
    let mut stream = TradeStream::new(eth_eur(), 5);
    stream.accept(Ok(page(&["A", "B"], 9)));
    assert_eq!(stream.state(), State::Draining);
    assert_eq!(stream.buffered(), 2);
    assert_eq!(stream.continuation(), 9);
    assert_eq!(stream.poll(), Step::Trade(trade("B", 1)));
    assert_eq!(stream.state(), State::Draining);
    assert_eq!(stream.poll(), Step::Trade(trade("A", 1)));
    assert_eq!(stream.state(), State::Fetching);
    assert_eq!(stream.poll(), Step::Fetch(HistoryRequest { pair: "ETHEUR".to_string(), since: 9 }));
}

#[test]
fn longer_page_comes_out_in_reverse() {
    let mut stream = TradeStream::new(eth_eur(), 0);
    stream.accept(Ok(page(&["1", "2", "3", "4", "5"], 1)));
    for expected in ["5", "4", "3", "2", "1"] {
        assert_eq!(stream.poll(), Step::Trade(trade(expected, 1)));
    }
    assert_eq!(stream.state(), State::Fetching);
}

#[test]
fn empty_page_ends_the_stream() {
    for last in [0u64, 1, 1575145023655038533, u64::MAX] {
        let mut stream = TradeStream::new(eth_eur(), 5);
        stream.accept(Ok(page(&[], last)));
        assert_eq!(stream.state(), State::Exhausted);
        for _ in 0..5 {
            assert_eq!(stream.poll(), Step::EndOfStream);
        }
        assert_eq!(stream.state(), State::Exhausted);
    }
}

#[test]
fn stream_that_is_over_takes_nothing_more() {
    let mut stream = TradeStream::new(eth_eur(), 5);
    stream.accept(Ok(page(&[], 6)));
    stream.accept(Ok(page(&["A"], 7)));
    assert_eq!(stream.poll(), Step::EndOfStream);
    stream.accept(Err(Error::APIError("late".to_string())));
    assert_eq!(stream.poll(), Step::EndOfStream);
    stream.receive(Ok(FIRST_PAGE.to_string()));
    assert_eq!(stream.poll(), Step::EndOfStream);

    let mut stream = TradeStream::new(eth_eur(), 5);
    stream.accept(Err(Error::APIError("down".to_string())));
    stream.accept(Ok(page(&["A"], 7)));
    stream.receive(Ok(EMPTY_PAGE.to_string()));
    assert_eq!(stream.poll(), Step::Failed(Error::APIError("down".to_string())));
    assert_eq!(stream.state(), State::Failed);
}

#[test]
fn draining_stream_leaves_a_page_aside() {
    let mut stream = TradeStream::new(eth_eur(), 5);
    stream.accept(Ok(page(&["A", "B"], 9)));
    stream.accept(Ok(page(&["C"], 10)));
    stream.accept(Err(Error::APIError("down".to_string())));
    assert_eq!(stream.continuation(), 9);
    assert_eq!(stream.poll(), Step::Trade(trade("B", 1)));
    assert_eq!(stream.poll(), Step::Trade(trade("A", 1)));
    assert_eq!(stream.state(), State::Fetching);
}

#[test]
fn transport_error_ends_the_stream() {
    let mut stream = TradeStream::new(eth_eur(), 5);
    stream.receive(Err(Error::APIError("connection refused".to_string())));
    assert_eq!(stream.state(), State::Failed);
    for _ in 0..3 {
        assert_eq!(stream.poll(), Step::Failed(Error::APIError("connection refused".to_string())));
    }
}

#[test]
fn exchange_error_ends_the_stream() {
    let mut stream = TradeStream::new(eth_eur(), 1575127767000000000);
    let mut fetch = |_: &HistoryRequest| Ok(r#"{"error": ["EQuery:Unknown asset pair"]}"#.to_string());
    let expected = Error::KrakenError(vec!["EQuery:Unknown asset pair".to_string()]);
    assert_eq!(next(&mut stream, &mut fetch), Some(Err(expected.clone())));
    assert_eq!(next(&mut stream, &mut fetch), Some(Err(expected)));
    assert_eq!(stream.state(), State::Failed);
}

#[test]
fn body_that_is_no_page_ends_the_stream() {
    let cases: Vec<(&str, Error)> = vec![
        ("{", Error::JSONError("EOF while parsing an object at line 1 column 1".to_string())),
        ("[]", Error::JSONError(NO_ENVELOPE.to_string())),
        (r#"{"error": []}"#, Error::JSONError(NO_RESULT.to_string())),
        (r#"{"error": [], "result": {"last": "5"}}"#, Error::JSONError(NO_SINGLE_PAIR.to_string())),
        (
            r#"{"error": [], "result": {"A": [], "B": [], "last": "5"}}"#,
            Error::JSONError(NO_SINGLE_PAIR.to_string()),
        ),
        (
            r#"{"error": [], "result": {"A": [], "last": "five"}}"#,
            Error::ParseError(NO_CURSOR.to_string()),
        ),
        (
            r#"{"error": [], "result": {"A": [], "last": "-5"}}"#,
            Error::ParseError(NO_CURSOR.to_string()),
        ),
        (
            r#"{"error": [], "result": {"A": [], "last": "18446744073709551616"}}"#,
            Error::ParseError(NO_CURSOR.to_string()),
        ),
    ];
    for (body, expected) in cases {
        let mut stream = TradeStream::new(eth_eur(), 5);
        stream.receive(Ok(body.to_string()));
        assert_eq!(stream.poll(), Step::Failed(expected), "{}", body);
        assert_eq!(stream.continuation(), 5);
    }
}

#[test]
fn one_pair_gives_a_page_of_all_its_trades() {
    let history = HistoryResponse {
        trades: vec![(
            "XETHZEUR".to_string(),
            vec![raw("1", "1.0"), raw("2", "2.0"), raw("3", "3.0")],
        )],
        last: "77".to_string(),
    };
    let made = PaginationHelper::from_history(&history, &eth_eur()).unwrap();
    assert_eq!(
        made,
        PaginationHelper {
            trades: vec![trade("1", 10000), trade("2", 20000), trade("3", 30000)],
            continuation: 77,
        }
    );
    let history =
        HistoryResponse { trades: vec![("whatever".to_string(), vec![])], last: "+8".to_string() };
    assert_eq!(
        PaginationHelper::from_history(&history, &eth_eur()),
        Ok(PaginationHelper { trades: vec![], continuation: 8 })
    );
}

#[test]
fn no_pair_or_two_pairs_give_no_page() {
    let none = HistoryResponse { trades: vec![], last: "77".to_string() };
    assert_eq!(
        PaginationHelper::from_history(&none, &eth_eur()),
        Err(Error::JSONError(NO_SINGLE_PAIR.to_string()))
    );
    let two = HistoryResponse {
        trades: vec![
            ("XETHZEUR".to_string(), vec![raw("1", "1.0")]),
            ("XXBTZEUR".to_string(), vec![raw("2", "2.0")]),
        ],
        last: "77".to_string(),
    };
    assert_eq!(
        PaginationHelper::from_history(&two, &eth_eur()),
        Err(Error::JSONError(NO_SINGLE_PAIR.to_string()))
    );
}

#[test]
fn first_bad_trade_decides_the_error() {
    let history = HistoryResponse {
        trades: vec![(
            "XETHZEUR".to_string(),
            vec![raw("1", "1.0"), raw("2", "later"), raw("oops", "3.0")],
        )],
        last: "not a cursor".to_string(),
    };
    assert_eq!(
        PaginationHelper::from_history(&history, &eth_eur()),
        Err(Error::ParseError(NO_TIME.to_string()))
    );
}

#[test]
fn response_gives_its_page_or_its_error() {
    let history = HistoryResponse {
        trades: vec![("XETHZEUR".to_string(), vec![raw("1", "1.0")])],
        last: "77".to_string(),
    };
    let response = KrakenResponse { error: vec![], result: Some(history) };
    assert_eq!(
        PaginationHelper::from_response(response, &eth_eur()),
        Ok(PaginationHelper { trades: vec![trade("1", 10000)], continuation: 77 })
    );
    let response: KrakenResponse<HistoryResponse> =
        KrakenResponse { error: vec!["E".to_string()], result: None };
    assert_eq!(
        PaginationHelper::from_response(response, &eth_eur()),
        Err(Error::KrakenError(vec!["E".to_string()]))
    );
    let response: KrakenResponse<HistoryResponse> = KrakenResponse { error: vec![], result: None };
    assert_eq!(
        PaginationHelper::from_response(response, &eth_eur()),
        Err(Error::JSONError(NO_RESULT.to_string()))
    );
}

#[test]
fn two_trades_then_an_empty_page() {
    let mut asked: Vec<(String, Vec<(String, String)>)> = Vec::new();
    let mut fetch = |request: &HistoryRequest| {
        asked.push((request.pair.clone(), request.query()));
        if request.since == 1575127767000000000 {
            Ok(FIRST_PAGE.to_string())
        } else if request.since == 1575145023655038533 {
            Ok(EMPTY_PAGE.to_string())
        } else {
            Err(Error::APIError("unexpected cursor".to_string()))
        }
    };
    let mut stream = TradeStream::new(eth_eur(), 1575127767000000000);
    let mut got: Vec<Trade> = Vec::new();
    while let Some(item) = next(&mut stream, &mut fetch) {
        got.push(item.unwrap());
    }
    assert_eq!(
        got,
        vec![
            Trade {
                symbol: eth_eur(),
                price: "138.66000".to_string(),
                volume: "10.00000000".to_string(),
                timestamp: 15751277679842,
            },
            Trade {
                symbol: eth_eur(),
                price: "138.65000".to_string(),
                volume: "1.55284051".to_string(),
                timestamp: 15751277679793,
            },
        ]
    );
    assert_eq!(next(&mut stream, &mut fetch), None);
    assert_eq!(stream.state(), State::Exhausted);
    assert_eq!(
        asked,
        vec![
            (
                "ETHEUR".to_string(),
                vec![
                    ("pair".to_string(), "ETHEUR".to_string()),
                    ("since".to_string(), "1575127767000000000".to_string()),
                ]
            ),
            (
                "ETHEUR".to_string(),
                vec![
                    ("pair".to_string(), "ETHEUR".to_string()),
                    ("since".to_string(), "1575145023655038533".to_string()),
                ]
            ),
        ]
    );
}

#[test]
fn no_page_is_fetched_ahead() {
    let mut fetches = 0;
    let mut fetch = |_: &HistoryRequest| {
        fetches += 1;
        Ok(FIRST_PAGE.to_string())
    };
    let mut stream = TradeStream::new(eth_eur(), 0);
    assert!(next(&mut stream, &mut fetch).is_some());
    assert!(next(&mut stream, &mut fetch).is_some());
    assert_eq!(stream.state(), State::Fetching);
    assert!(next(&mut stream, &mut fetch).is_some());
    assert_eq!(stream.state(), State::Draining);
    drop(stream);
    assert_eq!(fetches, 2);
}

#[test]
fn resume_hands_in_the_answer_and_polls() {
    let mut stream = TradeStream::new(eth_eur(), 1575127767000000000);
    let first = stream.resume(Ok(FIRST_PAGE.to_string()));
    assert_eq!(
        first,
        Step::Trade(Trade {
            symbol: eth_eur(),
            price: "138.66000".to_string(),
            volume: "10.00000000".to_string(),
            timestamp: 15751277679842,
        })
    );
    assert_eq!(stream.buffered(), 1);
    assert_eq!(stream.continuation(), 1575145023655038533);
    let second = stream.resume(Err(Error::APIError("not asked for".to_string())));
    assert!(matches!(second, Step::Trade(_)));
    assert_eq!(stream.state(), State::Fetching);
    assert_eq!(stream.resume(Ok(EMPTY_PAGE.to_string())), Step::EndOfStream);
    assert_eq!(stream.resume(Ok(FIRST_PAGE.to_string())), Step::EndOfStream);

    let mut stream = TradeStream::new(eth_eur(), 0);
    assert_eq!(
        stream.resume(Err(Error::APIError("down".to_string()))),
        Step::Failed(Error::APIError("down".to_string()))
    );
}
