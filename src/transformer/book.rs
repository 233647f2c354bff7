use vstd::prelude::*;
use barter_integration::model::instrument::Instrument;
use barter_integration::model::SubscriptionId;
use crate::error::DataError;
use crate::event::Market;
use crate::subscription::{copy_id, id_view, SubscriptionMap};
use crate::transformer::Identifier;

verus! {

/// The per-exchange strategy that folds order book updates into a book.
pub trait OrderBookUpdater: Sized {
    /// The book this updater maintains.
    type OrderBook;

    /// One message of the exchange's book stream.
    type Update: Identifier;

    /// Whether applying `update` to `book` may leave this updater as `next`, the book as
    /// `next_book`, and return `r`.
    spec fn updated(
        self,
        book: Self::OrderBook,
        update: Self::Update,
        next: Self,
        next_book: Self::OrderBook,
        r: Result<Option<Self::OrderBook>, DataError>,
    ) -> bool;

    /// Applies `update` to `book`: `Ok(Some(b))` when the book changed enough to be
    /// emitted as `b`, `Ok(None)` when the update was absorbed, `Err` when it cannot be
    /// applied.
    fn update(
        &mut self,
        book: &mut Self::OrderBook,
        update: Self::Update,
    ) -> (r: Result<Option<Self::OrderBook>, DataError>)
        ensures
            old(self).updated(*old(book), update, *final(self), *final(book), r),
    ;
}

/// The book of one subscribed instrument, with the updater that evolves it.
pub struct InstrumentOrderBook<Updater: OrderBookUpdater> {
    pub instrument: Instrument,
    pub book: Updater::OrderBook,
    pub updater: Updater,
}

/// What one outcome of an updater turns into on the output stream.
pub open spec fn outcome_events<B>(
    exchange: String,
    instrument: Instrument,
    outcome: Result<Option<B>, DataError>,
) -> Seq<Result<Market<B>, DataError>> {
    match outcome {
        Ok(Some(b)) => seq![Ok(Market { exchange, instrument, event: b })],
        Ok(None) => Seq::empty(),
        Err(e) => seq![Err(e)],
    }
}

/// Turns the outcome of an updater into the events it emits: the new book as one
/// market event, nothing, or the error as one item.
pub fn book_events<B>(
    exchange: &String,
    instrument: &Instrument,
    outcome: Result<Option<B>, DataError>,
) -> (r: Vec<Result<Market<B>, DataError>>)
    ensures
        r@ == outcome_events(*exchange, *instrument, outcome),
{
    match outcome {
        Ok(Some(b)) => {
            let m = Market { exchange: exchange.clone(), instrument: instrument.clone(), event: b };
            let r = vec![Ok(m)];
            proof {
                assert(r@ =~= outcome_events(*exchange, *instrument, outcome));
            }
            r
        },
        Ok(None) => {
            let r = Vec::new();
            proof {
                assert(r@ =~= outcome_events(*exchange, *instrument, outcome));
            }
            r
        },
        Err(e) => {
            let r = vec![Err(e)];
            proof {
                assert(r@ =~= outcome_events(*exchange, *instrument, outcome));
            }
            r
        },
    }
}

/// Keeps one order book per subscription and folds each update into the book its
/// routing key names.
pub struct MultiBookTransformer<Updater: OrderBookUpdater> {
    pub exchange: String,
    pub book_map: SubscriptionMap<InstrumentOrderBook<Updater>>,
}

/// Whether `post` and `out` are what processing `update`, whose routing key is `id`,
/// may leave from `pre`: no key, nothing happens; an unknown key, one
/// unidentifiable-message error and nothing changes; a known key, that key's updater is
/// applied to its book and this update, only that key's book and updater change, as the
/// updater left them, and the output is what the updater's outcome emits for that
/// instrument.
pub open spec fn transformed<U: OrderBookUpdater>(
    pre: MultiBookTransformer<U>,
    post: MultiBookTransformer<U>,
    id: Option<SubscriptionId>,
    update: U::Update,
    out: Seq<Result<Market<U::OrderBook>, DataError>>,
) -> bool {
    &&& post.exchange == pre.exchange
    &&& post.book_map.wf()
    &&& post.book_map.keys() == pre.book_map.keys()
    &&& match id {
        None => out == Seq::<Result<Market<U::OrderBook>, DataError>>::empty() && post.book_map@ == pre.book_map@,
        Some(s) => {
            let k = id_view(&s);
            if pre.book_map@.contains_key(k) {
                &&& post.book_map@.dom() == pre.book_map@.dom()
                &&& forall|j: Seq<char>| j != k ==> #[trigger] post.book_map@.get(j) == pre.book_map@.get(j)
                &&& post.book_map@[k].instrument == pre.book_map@[k].instrument
                &&& exists|o: Result<Option<U::OrderBook>, DataError>|
                    #[trigger] pre.book_map@[k].updater.updated(
                        pre.book_map@[k].book,
                        update,
                        post.book_map@[k].updater,
                        post.book_map@[k].book,
                        o,
                    ) && out == outcome_events(pre.exchange, pre.book_map@[k].instrument, o)
            } else {
                &&& out == seq![Err::<Market<U::OrderBook>, DataError>(DataError::Unidentifiable(s))]
                &&& post.book_map@ == pre.book_map@
            }
        },
    }
}

/// Routing isolation: processing one update leaves the book and updater under every
/// key other than the one the update names exactly as they were.
pub proof fn lemma_routing_isolation<U: OrderBookUpdater>(
    pre: MultiBookTransformer<U>,
    post: MultiBookTransformer<U>,
    id: Option<SubscriptionId>,
    update: U::Update,
    out: Seq<Result<Market<U::OrderBook>, DataError>>,
    other: Seq<char>,
)
    requires
        transformed(pre, post, id, update, out),
        id is Some ==> other != id_view(&id->0),
    ensures
        post.book_map@.contains_key(other) == pre.book_map@.contains_key(other),
        post.book_map@.get(other) == pre.book_map@.get(other),
{
}

impl<Updater: OrderBookUpdater> MultiBookTransformer<Updater> {
    /// Processes one update whose routing key is `id`.
    pub fn transform_identified(
        &mut self,
        id: Option<SubscriptionId>,
        update: Updater::Update,
    ) -> (r: Vec<Result<Market<Updater::OrderBook>, DataError>>)
        requires
            old(self).book_map.wf(),
        ensures
            transformed(*old(self), *final(self), id, update, r@),
    {
        let ghost pre = *self;
        match self.book_map.route(id) {
            Ok(None) => {
                let r = Vec::new();
                proof {
                    assert(r@ =~= Seq::<Result<Market<Updater::OrderBook>, DataError>>::empty());
                }
                r
            },
            Err(e) => {
                let r = vec![Err(e)];
                proof {
                    assert(r@ =~= seq![Err::<Market<Updater::OrderBook>, DataError>(DataError::Unidentifiable(id->0))]);
                }
                r
            },
            Ok(Some(i)) => {
                let ghost k = pre.book_map.keys()[i as int];
                let ghost u = update;
                let entry = self.book_map.value_at_mut(i);
                let outcome = entry.updater.update(&mut entry.book, update);
                let r = book_events(&self.exchange, &entry.instrument, outcome);
                proof {
                    assert(self.book_map@ == pre.book_map@.insert(k, *entry));
                    assert(r@ == outcome_events(pre.exchange, pre.book_map@[k].instrument, outcome));
                    assert(self.book_map@.dom() =~= pre.book_map@.dom());
                    assert(forall|j: Seq<char>| j != k ==> #[trigger] self.book_map@.get(j) == pre.book_map@.get(j));
                    assert(pre.book_map@[k].updater.updated(
                        pre.book_map@[k].book,
                        u,
                        self.book_map@[k].updater,
                        self.book_map@[k].book,
                        outcome,
                    ));
                }
                r
            },
        }
    }

    /// Processes one update: routes it by the key it names and folds it into that
    /// key's book.
    pub fn transform(&mut self, update: Updater::Update) -> (r: Vec<
        Result<Market<Updater::OrderBook>, DataError>,
    >)
        requires
            old(self).book_map.wf(),
        ensures
            transformed(*old(self), *final(self), update.spec_id(), update, r@),
    {
        let id = update.id();
        self.transform_identified(id, update)
    }

    /// Assembles the transformer from the outcome of initialising one book per entry of
    /// `map`, in the map's order. It is built only when every initialisation
    /// succeeded; otherwise the first failure is returned.
    pub fn new(
        exchange: String,
        map: &SubscriptionMap<Instrument>,
        books: Vec<Result<InstrumentOrderBook<Updater>, DataError>>,
    ) -> (r: Result<Self, DataError>)
        requires
            map.wf(),
            books@.len() == map.keys().len(),
        ensures
            r is Ok <==> (forall|i: int| 0 <= i < books@.len() ==> #[trigger] books@[i] is Ok),
            r is Err ==> exists|i: int|
                0 <= i < books@.len() && books@[i] == Err::<InstrumentOrderBook<Updater>, DataError>(r->Err_0)
                    && forall|j: int| 0 <= j < i ==> #[trigger] books@[j] is Ok,
            r is Ok ==> {
                let t = r->Ok_0;
                &&& t.exchange == exchange
                &&& t.book_map.wf()
                &&& t.book_map.keys() == map.keys()
                &&& t.book_map@.dom() == map@.dom()
                &&& forall|i: int| 0 <= i < books@.len() ==>
                    t.book_map@[map.keys()[i]] == #[trigger] books@[i]->Ok_0
            },
    {
        let ghost orig = books@;
        let ghost ks = map.keys();
        let n = books.len();
        let mut pending = books;
        let mut book_map: SubscriptionMap<InstrumentOrderBook<Updater>> = SubscriptionMap::new();
        let mut i: usize = 0;
        while i < n
            invariant
                n == orig.len() == ks.len(),
                orig == books@,
                ks == map.keys(),
                ks.no_duplicates(),
                i <= n,
                pending@ == orig.subrange(i as int, n as int),
                book_map.wf(),
                book_map.keys() == ks.subrange(0, i as int),
                forall|j: int| 0 <= j < i ==> #[trigger] orig[j] is Ok,
                forall|j: int| 0 <= j < i ==> book_map@[ks[j]] == #[trigger] orig[j]->Ok_0,
            decreases n - i,
        {
            let b = pending.remove(0);
            assert(b == orig[i as int]);
            match b {
                Ok(b) => {
                    let ghost pre = book_map;
                    let ghost k = ks[i as int];
                    proof {
                        pre.lemma_view();
                        if pre.keys().contains(k) {
                            let c = pre.keys().index_of(k);
                            assert(ks[c] == k);
                        }
                    }
                    book_map.insert(copy_id(map.key_at(i)), b);
                    proof {
                        assert(book_map.keys() =~= ks.subrange(0, i as int + 1));
                        assert forall|j: int| 0 <= j < i + 1 implies book_map@[ks[j]] == #[trigger] orig[j]->Ok_0 by {
                            if j < i {
                                assert(ks[j] != k);
                            }
                        }
                    }
                },
                Err(e) => {
                    proof {
                        assert(orig[i as int] == Err::<InstrumentOrderBook<Updater>, DataError>(e));
                        assert(!(orig[i as int] is Ok));
                    }
                    return Err(e);
                },
            }
            i = i + 1;
        }
        proof {
            assert(book_map.keys() =~= ks);
            book_map.lemma_view();
            map.lemma_view();
        }
        Ok(MultiBookTransformer { exchange, book_map })
    }
}

} // verus!
