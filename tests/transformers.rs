use barter_feed::error::DataError;
use barter_feed::event::Market;
use barter_feed::subscription::SubscriptionMap;
use barter_feed::transformer::book::{book_events, InstrumentOrderBook, MultiBookTransformer, OrderBookUpdater};
use barter_feed::transformer::stateless::{IntoMarketEvents, StatelessTransformer};
use barter_feed::transformer::Identifier;
use barter_integration::model::instrument::kind::InstrumentKind;
use barter_integration::model::instrument::Instrument;
use barter_integration::model::SubscriptionId;

fn id(s: &str) -> SubscriptionId {
    SubscriptionId::from(s)
}

fn instrument(base: &str) -> Instrument {
    Instrument::from((base, "usdt", InstrumentKind::Spot))
}

fn instrument_map(keys: &[(&str, &str)]) -> SubscriptionMap<Instrument> {
    let mut map = SubscriptionMap::new();
    for (k, base) in keys {
        map.insert(id(k), instrument(base));
    }
    map
}

struct Trade {
    id: Option<SubscriptionId>,
    price: u64,
}

impl Identifier for Trade {
    fn spec_id(&self) -> Option<SubscriptionId> {
        self.id.clone()
    }
    fn id(&self) -> Option<SubscriptionId> {
        self.spec_id()
    }
}

impl IntoMarketEvents<u64> for Trade {
    fn market_events(self, exchange: String, instrument: Instrument) -> Vec<Result<Market<u64>, DataError>> {
        vec![Ok(Market { exchange, instrument, event: self.price })]
    }
    fn into_market_events(self, exchange: &String, instrument: Instrument) -> Vec<Result<Market<u64>, DataError>> {
        self.market_events(exchange.clone(), instrument)
    }
}

fn stateless() -> StatelessTransformer {
    StatelessTransformer::new(String::from("binance"), instrument_map(&[("btc", "btc"), ("eth", "eth")]))
}

#[test]
fn stateless_without_id_yields_nothing() {
    let out = stateless().transform(Trade { id: None, price: 1 });
    assert!(out.is_empty());
}

#[test]
fn stateless_unknown_id_yields_one_error() {
    let out = stateless().transform(Trade { id: Some(id("sol")), price: 1 });
    assert_eq!(out.len(), 1);
    match &out[0] {
        Err(DataError::Unidentifiable(s)) => assert_eq!(s, &id("sol")),
        _ => panic!("expected an unidentifiable-message error"),
    }
}

#[test]
fn stateless_known_id_converts_payload() {
    let out = stateless().transform(Trade { id: Some(id("eth")), price: 2500 });
    assert_eq!(out.len(), 1);
    let m = out[0].as_ref().unwrap();
    assert_eq!(m.exchange, "binance");
    assert_eq!(m.instrument, instrument("eth"));
    assert_eq!(m.event, 2500);
}

/// A book that is the sum of the deltas applied to it, with the last sequence number.
#[derive(Debug, Clone, PartialEq)]
struct Book {
    last_seq: u64,
    total: i64,
}

struct Delta {
    id: Option<SubscriptionId>,
    seq: u64,
    change: i64,
}

impl Identifier for Delta {
    fn spec_id(&self) -> Option<SubscriptionId> {
        self.id.clone()
    }
    fn id(&self) -> Option<SubscriptionId> {
        self.spec_id()
    }
}

struct SeqUpdater;

impl OrderBookUpdater for SeqUpdater {
    type OrderBook = Book;
    type Update = Delta;

    fn updated(
        self,
        book: Book,
        update: Delta,
        _next: Self,
        next_book: Book,
        r: Result<Option<Book>, DataError>,
    ) -> bool {
        match r {
            Ok(Some(b)) => {
                b == next_book
                    && update.seq == book.last_seq + 1
                    && next_book == Book { last_seq: update.seq, total: book.total + update.change }
            }
            Ok(None) => update.seq <= book.last_seq && next_book == book,
            Err(_) => next_book == book,
        }
    }

    fn update(&mut self, book: &mut Book, update: Delta) -> Result<Option<Book>, DataError> {
        if update.seq <= book.last_seq {
            return Ok(None);
        }
        if update.seq != book.last_seq + 1 {
            return Err(DataError::InvalidSequence {
                prev_last_update_id: book.last_seq,
                first_update_id: update.seq,
            });
        }
        book.last_seq = update.seq;
        book.total += update.change;
        Ok(Some(book.clone()))
    }
}

fn empty_book(base: &str) -> InstrumentOrderBook<SeqUpdater> {
    InstrumentOrderBook { instrument: instrument(base), book: Book { last_seq: 0, total: 0 }, updater: SeqUpdater }
}

fn multi(keys: &[(&str, &str)]) -> MultiBookTransformer<SeqUpdater> {
    let map = instrument_map(keys);
    let books = keys.iter().map(|(_, base)| Ok(empty_book(base))).collect();
    match MultiBookTransformer::new(String::from("binance"), &map, books) {
        Ok(t) => t,
        Err(_) => panic!("construction should succeed"),
    }
}

fn book_of(t: &MultiBookTransformer<SeqUpdater>, key: &str) -> Book {
    t.book_map.find(&id(key)).unwrap().book.clone()
}

#[test]
fn multi_book_applies_delta_and_emits_book() {
    let mut t = multi(&[("btc", "btc")]);
    let out = t.transform(Delta { id: Some(id("btc")), seq: 1, change: 5 });
    assert_eq!(out.len(), 1);
    let m = out[0].as_ref().unwrap();
    assert_eq!(m.exchange, "binance");
    assert_eq!(m.instrument, instrument("btc"));
    assert_eq!(m.event, Book { last_seq: 1, total: 5 });
    assert_eq!(book_of(&t, "btc"), Book { last_seq: 1, total: 5 });
}

#[test]
fn multi_book_unknown_id_leaves_books_unchanged() {
    let mut t = multi(&[("btc", "btc")]);
    let out = t.transform(Delta { id: Some(id("doge")), seq: 1, change: 5 });
    assert_eq!(out.len(), 1);
    assert!(matches!(&out[0], Err(DataError::Unidentifiable(s)) if s == &id("doge")));
    assert_eq!(book_of(&t, "btc"), Book { last_seq: 0, total: 0 });
}

#[test]
fn multi_book_without_id_yields_nothing() {
    let mut t = multi(&[("btc", "btc")]);
    let out = t.transform(Delta { id: None, seq: 1, change: 5 });
    assert!(out.is_empty());
    assert_eq!(book_of(&t, "btc"), Book { last_seq: 0, total: 0 });
}

#[test]
fn multi_book_update_touches_only_its_book() {
    let mut t = multi(&[("btc", "btc"), ("eth", "eth")]);
    t.transform(Delta { id: Some(id("btc")), seq: 1, change: 3 });
    assert_eq!(book_of(&t, "btc"), Book { last_seq: 1, total: 3 });
    assert_eq!(book_of(&t, "eth"), Book { last_seq: 0, total: 0 });
}

#[test]
fn multi_book_repeated_update_does_not_corrupt() {
    let mut t = multi(&[("btc", "btc")]);
    t.transform(Delta { id: Some(id("btc")), seq: 1, change: 3 });
    let out = t.transform(Delta { id: Some(id("btc")), seq: 1, change: 3 });
    assert!(out.is_empty());
    assert_eq!(book_of(&t, "btc"), Book { last_seq: 1, total: 3 });
}

#[test]
fn multi_book_update_error_is_one_item() {
    let mut t = multi(&[("btc", "btc")]);
    let out = t.transform(Delta { id: Some(id("btc")), seq: 5, change: 3 });
    assert_eq!(out.len(), 1);
    assert!(matches!(
        &out[0],
        Err(DataError::InvalidSequence { prev_last_update_id: 0, first_update_id: 5 })
    ));
}

#[test]
fn multi_book_construction_is_all_or_nothing() {
    let map = instrument_map(&[("btc", "btc"), ("eth", "eth"), ("sol", "sol")]);
    let books = vec![
        Ok(empty_book("btc")),
        Err(DataError::Socket(String::from("snapshot failed"))),
        Ok(empty_book("sol")),
    ];
    match MultiBookTransformer::new(String::from("binance"), &map, books) {
        Err(DataError::Socket(reason)) => assert_eq!(reason, "snapshot failed"),
        _ => panic!("construction should fail"),
    }
}

#[test]
fn multi_book_construction_builds_one_book_per_entry() {
    let t = multi(&[("btc", "btc"), ("eth", "eth"), ("sol", "sol")]);
    assert_eq!(t.book_map.len(), 3);
    assert_eq!(t.book_map.find(&id("sol")).unwrap().instrument, instrument("sol"));
}

#[test]
fn book_events_maps_each_outcome() {
    let ex = String::from("kraken");
    let i = instrument("btc");
    let out = book_events(&ex, &i, Ok(Some(7u64)));
    assert_eq!(out.len(), 1);
    let m = out[0].as_ref().unwrap();
    assert_eq!((m.exchange.as_str(), m.event), ("kraken", 7));
    assert!(book_events::<u64>(&ex, &i, Ok(None)).is_empty());
    let out = book_events::<u64>(&ex, &i, Err(DataError::SubscribeTimeout));
    assert!(matches!(&out[..], [Err(DataError::SubscribeTimeout)]));
}
