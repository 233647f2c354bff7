use barter_feed::error::DataError;
use barter_feed::subscriber::validator::{Handshake, SubResponse, WebSocketSubscriber};
use barter_feed::subscriber::{build_meta, map_subscriptions, Connector, Subscription, SubscriptionMeta};
use barter_integration::model::instrument::kind::InstrumentKind;
use barter_integration::model::instrument::Instrument;
use barter_integration::model::SubscriptionId;

fn sub(base: &str, quote: &str) -> Subscription {
    Subscription {
        exchange: String::from("binance"),
        channel: String::from("trade"),
        instrument: Instrument::from((base, quote, InstrumentKind::Spot)),
    }
}

fn id(s: &str) -> SubscriptionId {
    SubscriptionId::from(s)
}

fn two_sub_meta() -> SubscriptionMeta {
    let subs = vec![sub("btc", "usdt"), sub("eth", "usdt")];
    let ids = vec![id("btcusdt@trade"), id("ethusdt@trade")];
    let frames = vec![String::from("sub btc"), String::from("sub eth")];
    build_meta(&subs, &ids, frames).unwrap()
}

fn pending(h: Handshake) -> WebSocketSubscriber {
    match h {
        Handshake::Pending(s) => s,
        _ => panic!("handshake should be pending"),
    }
}

#[test]
fn build_meta_keeps_one_entry_per_subscription() {
    let meta = two_sub_meta();
    assert_eq!(meta.map.len(), 2);
    assert_eq!(meta.expected_responses, 2);
    assert_eq!(meta.subscriptions, vec![String::from("sub btc"), String::from("sub eth")]);
    assert_eq!(
        meta.map.find(&id("ethusdt@trade")),
        Some(&Instrument::from(("eth", "usdt", InstrumentKind::Spot)))
    );
}

#[test]
fn build_meta_counts_frames_not_subscriptions() {
    let subs = vec![sub("btc", "usdt"), sub("eth", "usdt"), sub("sol", "usdt")];
    let ids = vec![id("a"), id("b"), id("c")];
    let meta = build_meta(&subs, &ids, vec![String::from("one batched frame")]).unwrap();
    assert_eq!(meta.map.len(), 3);
    assert_eq!(meta.expected_responses, 1);
}

#[test]
fn build_meta_rejects_duplicate_ids() {
    let subs = vec![sub("btc", "usdt"), sub("eth", "usdt")];
    let ids = vec![id("same"), id("same")];
    match build_meta(&subs, &ids, vec![]) {
        Err(DataError::DuplicateSubscriptionId(d)) => assert_eq!(d, id("same")),
        _ => panic!("expected a duplicate key error"),
    }
}

struct TestExchange;

impl Connector for TestExchange {
    fn exchange() -> String {
        String::from("test")
    }
    fn base_url() -> String {
        String::from("wss://example.invalid")
    }
    fn spec_subscription_id(subscription: &Subscription) -> SubscriptionId {
        SubscriptionId(format!("{}|{}", subscription.channel, subscription.instrument.base))
    }
    fn subscription_id(subscription: &Subscription) -> SubscriptionId {
        Self::spec_subscription_id(subscription)
    }
    fn spec_requests(subscriptions: &Vec<Subscription>) -> Vec<String> {
        vec![format!("subscribe {}", subscriptions.len())]
    }
    fn requests(subscriptions: &Vec<Subscription>) -> Vec<String> {
        Self::spec_requests(subscriptions)
    }
}

#[test]
fn map_subscriptions_uses_connector_encoding() {
    let subs = vec![sub("btc", "usdt"), sub("eth", "usdt")];
    let meta = map_subscriptions::<TestExchange>(&subs).unwrap();
    assert_eq!(meta.map.len(), 2);
    assert!(meta.map.find(&id("trade|btc")).is_some());
    assert!(meta.map.find(&id("trade|eth")).is_some());
    assert_eq!(meta.subscriptions, vec![String::from("subscribe 2")]);
    assert_eq!(meta.expected_responses, 1);
}

#[test]
fn both_acknowledged_yields_two_entry_map() {
    let h = WebSocketSubscriber::new(two_sub_meta());
    let h = pending(h).validate(SubResponse::Success);
    let h = pending(h).validate(SubResponse::Success);
    match h {
        Handshake::Done(map) => {
            assert_eq!(map.len(), 2);
            assert!(map.find(&id("btcusdt@trade")).is_some());
            assert!(map.find(&id("ethusdt@trade")).is_some());
        }
        _ => panic!("handshake should be done"),
    }
}

#[test]
fn rejection_of_second_fails_batch() {
    let h = WebSocketSubscriber::new(two_sub_meta());
    let h = pending(h).validate(SubResponse::Success);
    let h = pending(h).validate(SubResponse::Rejected(String::from("invalid symbol")));
    match h {
        Handshake::Failed(DataError::Subscribe(reason)) => assert_eq!(reason, "invalid symbol"),
        _ => panic!("handshake should fail"),
    }
}

#[test]
fn unrelated_frames_are_ignored() {
    let h = WebSocketSubscriber::new(two_sub_meta());
    let s = pending(pending(h).validate(SubResponse::Unrelated));
    assert_eq!(s.acknowledged, 0);
    let s = pending(s.validate(SubResponse::Success));
    assert_eq!(s.acknowledged, 1);
}

#[test]
fn timeout_fails_batch() {
    let h = WebSocketSubscriber::new(two_sub_meta());
    let h = pending(h).validate(SubResponse::TimedOut);
    assert!(matches!(h, Handshake::Failed(DataError::SubscribeTimeout)));
}

#[test]
fn correction_moves_entry_to_exchange_key() {
    let h = WebSocketSubscriber::new(two_sub_meta());
    let h = pending(h).validate(SubResponse::Corrected {
        requested: id("btcusdt@trade"),
        canonical: id("42"),
    });
    let h = pending(h).validate(SubResponse::Success);
    match h {
        Handshake::Done(map) => {
            assert_eq!(map.len(), 2);
            assert!(map.find(&id("btcusdt@trade")).is_none());
            assert_eq!(
                map.find(&id("42")),
                Some(&Instrument::from(("btc", "usdt", InstrumentKind::Spot)))
            );
        }
        _ => panic!("handshake should be done"),
    }
}

#[test]
fn correction_onto_other_entry_fails() {
    let h = WebSocketSubscriber::new(two_sub_meta());
    let h = pending(h).validate(SubResponse::Corrected {
        requested: id("btcusdt@trade"),
        canonical: id("ethusdt@trade"),
    });
    match h {
        Handshake::Failed(DataError::DuplicateSubscriptionId(d)) => assert_eq!(d, id("ethusdt@trade")),
        _ => panic!("handshake should fail"),
    }
}

#[test]
fn correction_of_unknown_key_is_ignored() {
    let h = WebSocketSubscriber::new(two_sub_meta());
    let s = pending(pending(h).validate(SubResponse::Corrected {
        requested: id("nope"),
        canonical: id("7"),
    }));
    assert_eq!(s.acknowledged, 0);
    assert_eq!(s.map.len(), 2);
}

#[test]
fn nothing_expected_is_done_at_once() {
    let subs: Vec<Subscription> = vec![];
    let ids: Vec<SubscriptionId> = vec![];
    let meta = build_meta(&subs, &ids, vec![]).unwrap();
    assert!(matches!(WebSocketSubscriber::new(meta), Handshake::Done(_)));
}
