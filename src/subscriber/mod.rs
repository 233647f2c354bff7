use vstd::prelude::*;
use barter_integration::model::instrument::Instrument;
use barter_integration::model::SubscriptionId;
use crate::error::DataError;
use crate::subscription::{copy_id, id_view, SubscriptionMap};

pub mod validator;

verus! {

/// One logical feed request: a channel of one exchange for one instrument.
#[derive(Debug)]
pub struct Subscription {
    pub exchange: String,
    pub channel: String,
    pub instrument: Instrument,
}

/// What the handshake needs: the routing key of each subscription, the frames to send
/// in order, and how many acknowledgements the exchange will send back.
pub struct SubscriptionMeta {
    pub map: SubscriptionMap<Instrument>,
    pub subscriptions: Vec<String>,
    pub expected_responses: usize,
}

/// The exchange-specific encoding of subscriptions.
pub trait Connector {
    /// The tag of the exchange.
    fn exchange() -> String;

    /// Where to connect.
    fn base_url() -> String;

    /// The routing key the exchange uses for `subscription`.
    spec fn spec_subscription_id(subscription: &Subscription) -> SubscriptionId;

    /// The routing key the exchange will use for `subscription`.
    fn subscription_id(subscription: &Subscription) -> (r: SubscriptionId)
        ensures
            id_view(&r) == id_view(&Self::spec_subscription_id(subscription)),
    ;

    /// The request frames that subscribe to `subscriptions`.
    spec fn spec_requests(subscriptions: &Vec<Subscription>) -> Vec<String>;

    /// The request frames that subscribe to `subscriptions`, one or several per frame.
    fn requests(subscriptions: &Vec<Subscription>) -> (r: Vec<String>)
        ensures
            r@ == Self::spec_requests(subscriptions)@,
    ;
}

/// The routing keys that exchange `C` gives a sequence of subscriptions, in order.
pub open spec fn connector_keys<C: Connector>(subscriptions: Seq<Subscription>) -> Seq<Seq<char>> {
    Seq::new(subscriptions.len(), |i: int| id_view(&C::spec_subscription_id(&subscriptions[i])))
}

/// The texts of a sequence of routing keys.
pub open spec fn id_views(ids: Seq<SubscriptionId>) -> Seq<Seq<char>> {
    ids.map_values(|x: SubscriptionId| id_view(&x))
}

/// Builds the handshake metadata from the routing key of each subscription (`ids[i]`
/// for `subscriptions[i]`) and the request frames. It fails with the first key that
/// repeats an earlier one; otherwise every subscription has its own entry, in order,
/// and one acknowledgement is expected per frame.
pub fn build_meta(
    subscriptions: &Vec<Subscription>,
    ids: &Vec<SubscriptionId>,
    requests: Vec<String>,
) -> (r: Result<SubscriptionMeta, DataError>)
    requires
        ids@.len() == subscriptions@.len(),
    ensures
        r is Ok <==> id_views(ids@).no_duplicates(),
        r is Err ==> exists|i: int, j: int|
            0 <= i < j < ids@.len() && #[trigger] id_view(&ids@[i]) == #[trigger] id_view(&ids@[j])
                && r->Err_0 is DuplicateSubscriptionId
                && id_view(&r->Err_0->DuplicateSubscriptionId_0) == id_view(&ids@[j]),
        r is Ok ==> {
            let m = r->Ok_0;
            &&& m.map.wf()
            &&& m.map.keys() == id_views(ids@)
            &&& m.map@.dom() == id_views(ids@).to_set()
            &&& m.map@.dom().len() == ids@.len()
            &&& forall|i: int| 0 <= i < ids@.len() ==>
                m.map@[id_view(&#[trigger] ids@[i])] == subscriptions@[i].instrument
            &&& m.subscriptions == requests
            &&& m.expected_responses == requests@.len()
        },
{
    let ghost ks = id_views(ids@);
    let mut map: SubscriptionMap<Instrument> = SubscriptionMap::new();
    let mut i: usize = 0;
    while i < ids.len()
        invariant
            ks == id_views(ids@),
            ids@.len() == subscriptions@.len(),
            i <= ids@.len(),
            map.wf(),
            map.keys() == ks.subrange(0, i as int),
            forall|j: int| 0 <= j < i ==> map@[id_view(&#[trigger] ids@[j])] == subscriptions@[j].instrument,
        decreases ids@.len() - i,
    {
        let ghost k = ks[i as int];
        proof {
            map.lemma_view();
        }
        match map.position(&ids[i]) {
            Some(p) => {
                proof {
                    assert(ks[p as int] == k);
                    assert(id_view(&ids@[p as int]) == id_view(&ids@[i as int]));
                    assert(!ks.no_duplicates());
                }
                let d = copy_id(&ids[i]);
                return Err(DataError::DuplicateSubscriptionId(d));
            },
            None => {},
        }
        let ghost pre = map;
        map.insert(copy_id(&ids[i]), subscriptions[i].instrument.clone());
        proof {
            assert(map.keys() =~= ks.subrange(0, i as int + 1));
            assert forall|j: int| 0 <= j < i + 1 implies map@[id_view(&#[trigger] ids@[j])]
                == subscriptions@[j].instrument by {
                if j < i {
                    assert(pre.keys()[j] == id_view(&ids@[j]));
                    assert(pre.keys().contains(id_view(&ids@[j])));
                }
            }
        }
        i = i + 1;
    }
    proof {
        assert(map.keys() =~= ks);
        map.lemma_view();
    }
    let expected_responses = requests.len();
    Ok(SubscriptionMeta { map, subscriptions: requests, expected_responses })
}

/// Maps subscriptions to their handshake metadata with the encoding of exchange `C`;
/// it fails exactly when two subscriptions get the same routing key.
pub fn map_subscriptions<C: Connector>(subscriptions: &Vec<Subscription>) -> (r: Result<
    SubscriptionMeta,
    DataError,
>)
    ensures
        r is Ok <==> connector_keys::<C>(subscriptions@).no_duplicates(),
        r is Ok ==> {
            let m = r->Ok_0;
            &&& m.map.wf()
            &&& m.map.keys() == connector_keys::<C>(subscriptions@)
            &&& m.map@.dom() == connector_keys::<C>(subscriptions@).to_set()
            &&& forall|i: int| 0 <= i < subscriptions@.len() ==>
                m.map@[#[trigger] m.map.keys()[i]] == subscriptions@[i].instrument
            &&& m.subscriptions@ == C::spec_requests(subscriptions)@
            &&& m.expected_responses == C::spec_requests(subscriptions)@.len()
        },
        r is Err ==> r->Err_0 is DuplicateSubscriptionId,
{
    let mut ids: Vec<SubscriptionId> = Vec::new();
    let mut i: usize = 0;
    while i < subscriptions.len()
        invariant
            i <= subscriptions@.len(),
            ids@.len() == i,
            forall|j: int| 0 <= j < i ==> id_view(&#[trigger] ids@[j]) == id_view(&C::spec_subscription_id(&subscriptions@[j])),
        decreases subscriptions@.len() - i,
    {
        ids.push(C::subscription_id(&subscriptions[i]));
        i = i + 1;
    }
    let requests = C::requests(subscriptions);
    proof {
        assert(id_views(ids@) =~= connector_keys::<C>(subscriptions@));
    }
    build_meta(subscriptions, &ids, requests)
}

} // verus!
