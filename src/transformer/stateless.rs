use vstd::prelude::*;
use barter_integration::model::instrument::Instrument;
use barter_integration::model::SubscriptionId;
use crate::error::DataError;
use crate::event::Market;
use crate::subscription::{id_view, SubscriptionMap};
use crate::transformer::Identifier;

verus! {

/// A message that carries complete events of its own, converted without state.
pub trait IntoMarketEvents<Event>: Sized {
    /// The normalised events this message converts to, for the given exchange and
    /// instrument.
    spec fn market_events(self, exchange: String, instrument: Instrument) -> Vec<
        Result<Market<Event>, DataError>,
    >;

    /// The normalised events of this message, for the given exchange and instrument.
    fn into_market_events(self, exchange: &String, instrument: Instrument) -> (r: Vec<
        Result<Market<Event>, DataError>,
    >)
        ensures
            r@ == self.market_events(*exchange, instrument)@,
            carries_envelope(r@, *exchange, instrument),
    ;
}

/// Every event of `out` is about `instrument` on `exchange`.
pub open spec fn carries_envelope<Event>(
    out: Seq<Result<Market<Event>, DataError>>,
    exchange: String,
    instrument: Instrument,
) -> bool {
    forall|i: int|
        0 <= i < out.len() && (#[trigger] out[i]) is Ok ==> out[i]->Ok_0.exchange == exchange
            && out[i]->Ok_0.instrument == instrument
}

/// Routes each message to the instrument its routing key names and converts it
/// directly, keeping no state between messages.
pub struct StatelessTransformer {
    pub exchange: String,
    pub instrument_map: SubscriptionMap<Instrument>,
}

/// What `input`, whose routing key is `id`, yields on `exchange` under `map`: nothing
/// without a key, one unidentifiable-message error for an unknown key, and the
/// message's own conversion for the instrument of a known key.
pub open spec fn routed_output<Event, Input: IntoMarketEvents<Event>>(
    exchange: String,
    map: SubscriptionMap<Instrument>,
    id: Option<SubscriptionId>,
    input: Input,
) -> Seq<Result<Market<Event>, DataError>> {
    match id {
        None => Seq::empty(),
        Some(s) => if map@.contains_key(id_view(&s)) {
            input.market_events(exchange, map@[id_view(&s)])@
        } else {
            seq![Err(DataError::Unidentifiable(s))]
        },
    }
}

impl StatelessTransformer {
    /// A transformer over the validated map of a connection.
    pub fn new(exchange: String, instrument_map: SubscriptionMap<Instrument>) -> (r: Self)
        ensures
            r.exchange == exchange,
            r.instrument_map == instrument_map,
    {
        StatelessTransformer { exchange, instrument_map }
    }

    /// Processes one message whose routing key is `id`; for a known key the result is
    /// the message's own conversion for that key's instrument.
    pub fn transform_identified<Event, Input: IntoMarketEvents<Event>>(
        &self,
        id: Option<SubscriptionId>,
        input: Input,
    ) -> (r: Vec<Result<Market<Event>, DataError>>)
        requires
            self.instrument_map.wf(),
        ensures
            r@ == routed_output(self.exchange, self.instrument_map, id, input),
            id is Some && self.instrument_map@.contains_key(id_view(&id->0)) ==> carries_envelope(
                r@,
                self.exchange,
                self.instrument_map@[id_view(&id->0)],
            ),
    {
        match self.instrument_map.route(id) {
            Ok(None) => {
                let r = Vec::new();
                proof {
                    assert(r@ =~= Seq::<Result<Market<Event>, DataError>>::empty());
                }
                r
            },
            Err(e) => {
                let r = vec![Err(e)];
                proof {
                    assert(r@ =~= seq![Err::<Market<Event>, DataError>(DataError::Unidentifiable(id->0))]);
                }
                r
            },
            Ok(Some(i)) => {
                proof {
                    self.instrument_map.lemma_view();
                    assert(self.instrument_map.keys().contains(self.instrument_map.keys()[i as int]));
                }
                let instrument = self.instrument_map.value_at(i).clone();
                input.into_market_events(&self.exchange, instrument)
            },
        }
    }

    /// Processes one message: routes it by the key it names and converts it.
    pub fn transform<Event, Input: Identifier + IntoMarketEvents<Event>>(
        &mut self,
        input: Input,
    ) -> (r: Vec<Result<Market<Event>, DataError>>)
        requires
            old(self).instrument_map.wf(),
        ensures
            *final(self) == *old(self),
            r@ == routed_output(old(self).exchange, old(self).instrument_map, input.spec_id(), input),
            input.spec_id() is Some && old(self).instrument_map@.contains_key(id_view(&input.spec_id()->0))
                ==> carries_envelope(
                r@,
                old(self).exchange,
                old(self).instrument_map@[id_view(&input.spec_id()->0)],
            ),
    {
        let id = input.id();
        self.transform_identified(id, input)
    }
}

} // verus!
