use vstd::prelude::*;
use barter_integration::model::instrument::Instrument;
use barter_integration::model::SubscriptionId;
use crate::error::DataError;
use crate::subscriber::SubscriptionMeta;
use crate::subscription::{id_view, same_id, SubscriptionMap};

verus! {

/// One frame received while subscribing, as the exchange's parser classified it.
#[derive(Debug)]
pub enum SubResponse {
    /// An acknowledgement of a subscription under the key it was requested with.
    Success,
    /// An acknowledgement that names the key the exchange will really use for the
    /// subscription requested under another key.
    Corrected { requested: SubscriptionId, canonical: SubscriptionId },
    /// A rejection of a subscription of the batch, with the exchange's reason.
    Rejected(String),
    /// A frame that is not about this batch.
    Unrelated,
    /// The time allowed for the acknowledgements ran out.
    TimedOut,
}

/// The handshake of one connection while acknowledgements are still awaited.
pub struct WebSocketSubscriber {
    pub map: SubscriptionMap<Instrument>,
    pub acknowledged: usize,
    pub expected_responses: usize,
}

/// Where a handshake stands.
pub enum Handshake {
    /// More acknowledgements are needed.
    Pending(WebSocketSubscriber),
    /// Every acknowledgement came: the validated map of the connection.
    Done(SubscriptionMap<Instrument>),
    /// The batch failed as a whole; the connection is unusable.
    Failed(DataError),
}

/// A handshake as mathematical values.
pub enum HandshakeView {
    Pending { map: Map<Seq<char>, Instrument>, acknowledged: nat, expected: nat },
    Done(Map<Seq<char>, Instrument>),
    Failed(DataError),
}

impl Handshake {
    pub open spec fn view(&self) -> HandshakeView {
        match self {
            Handshake::Pending(s) => HandshakeView::Pending {
                map: s.map@,
                acknowledged: s.acknowledged as nat,
                expected: s.expected_responses as nat,
            },
            Handshake::Done(m) => HandshakeView::Done(m@),
            Handshake::Failed(e) => HandshakeView::Failed(*e),
        }
    }

    /// A pending handshake has a map with unique keys and still awaits at least one
    /// acknowledgement.
    pub open spec fn wf(&self) -> bool {
        match self {
            Handshake::Pending(s) => s.map.wf() && s.acknowledged < s.expected_responses,
            Handshake::Done(m) => m.wf(),
            Handshake::Failed(_) => true,
        }
    }
}

/// One more acknowledgement of a pending handshake over `map`.
pub open spec fn acknowledge(map: Map<Seq<char>, Instrument>, acknowledged: nat, expected: nat) -> HandshakeView {
    if acknowledged + 1 >= expected {
        HandshakeView::Done(map)
    } else {
        HandshakeView::Pending { map, acknowledged: acknowledged + 1, expected }
    }
}

/// The handshake before any frame arrived.
pub open spec fn start(map: Map<Seq<char>, Instrument>, expected: nat) -> HandshakeView {
    if expected == 0 {
        HandshakeView::Done(map)
    } else {
        HandshakeView::Pending { map, acknowledged: 0, expected }
    }
}

/// The handshake after one more frame. A finished handshake stays as it is. A
/// rejection or a timeout fails the whole batch. A correction of a known key moves
/// that entry to the exchange's key, unless another entry already has it, which fails
/// the batch; a correction of an unknown key and an unrelated frame are ignored.
pub open spec fn next(h: HandshakeView, response: SubResponse) -> HandshakeView {
    match h {
        HandshakeView::Pending { map, acknowledged, expected } => match response {
            SubResponse::Success => acknowledge(map, acknowledged, expected),
            SubResponse::Corrected { requested, canonical } => {
                let f = id_view(&requested);
                let t = id_view(&canonical);
                if !map.contains_key(f) {
                    h
                } else if t == f || !map.contains_key(t) {
                    acknowledge(map.remove(f).insert(t, map[f]), acknowledged, expected)
                } else {
                    HandshakeView::Failed(DataError::DuplicateSubscriptionId(canonical))
                }
            },
            SubResponse::Rejected(reason) => HandshakeView::Failed(DataError::Subscribe(reason)),
            SubResponse::Unrelated => h,
            SubResponse::TimedOut => HandshakeView::Failed(DataError::SubscribeTimeout),
        },
        _ => h,
    }
}

/// The handshake after a sequence of frames, in order.
pub open spec fn run(h: HandshakeView, responses: Seq<SubResponse>) -> HandshakeView
    decreases responses.len(),
{
    if responses.len() == 0 {
        h
    } else {
        run(next(h, responses[0]), responses.drop_first())
    }
}

impl WebSocketSubscriber {
    /// Starts the handshake of a batch whose request frames were all sent.
    pub fn new(meta: SubscriptionMeta) -> (r: Handshake)
        requires
            meta.map.wf(),
        ensures
            r.wf(),
            r.view() == start(meta.map@, meta.expected_responses as nat),
    {
        if meta.expected_responses == 0 {
            Handshake::Done(meta.map)
        } else {
            Handshake::Pending(
                WebSocketSubscriber {
                    map: meta.map,
                    acknowledged: 0,
                    expected_responses: meta.expected_responses,
                },
            )
        }
    }

    fn acknowledged_one(self) -> (r: Handshake)
        requires
            self.map.wf(),
            self.acknowledged < self.expected_responses,
        ensures
            r.wf(),
            r.view() == acknowledge(self.map@, self.acknowledged as nat, self.expected_responses as nat),
    {
        if self.acknowledged + 1 >= self.expected_responses {
            Handshake::Done(self.map)
        } else {
            Handshake::Pending(
                WebSocketSubscriber {
                    map: self.map,
                    acknowledged: self.acknowledged + 1,
                    expected_responses: self.expected_responses,
                },
            )
        }
    }

    /// Takes one frame of the exchange into account.
    pub fn validate(self, response: SubResponse) -> (r: Handshake)
        requires
            self.map.wf(),
            self.acknowledged < self.expected_responses,
        ensures
            r.wf(),
            r.view() == next(Handshake::Pending(self).view(), response),
    {
        match response {
            SubResponse::Success => self.acknowledged_one(),
            SubResponse::Corrected { requested, canonical } => {
                let mut s = self;
                if s.map.find(&requested).is_none() {
                    return Handshake::Pending(s);
                }
                let taken = match s.map.find(&canonical) {
                    Some(_) => !same_id(&requested, &canonical),
                    None => false,
                };
                if taken {
                    return Handshake::Failed(DataError::DuplicateSubscriptionId(canonical));
                }
                let moved = s.map.rekey(&requested, canonical);
                assert(moved);
                s.acknowledged_one()
            },
            SubResponse::Rejected(reason) => Handshake::Failed(DataError::Subscribe(reason)),
            SubResponse::Unrelated => Handshake::Pending(self),
            SubResponse::TimedOut => Handshake::Failed(DataError::SubscribeTimeout),
        }
    }
}

/// A handshake that has finished, by success or failure, stays as it is whatever
/// frames follow.
pub proof fn lemma_finished_handshake_stays(h: HandshakeView, responses: Seq<SubResponse>)
    requires
        !(h is Pending),
    ensures
        run(h, responses) == h,
    decreases responses.len(),
{
    if responses.len() > 0 {
        lemma_finished_handshake_stays(next(h, responses[0]), responses.drop_first());
    }
}

/// Running a sequence of frames is running its first `i` frames, then the rest.
pub proof fn lemma_run_split(h: HandshakeView, responses: Seq<SubResponse>, i: int)
    requires
        0 <= i <= responses.len(),
    ensures
        run(h, responses) == run(run(h, responses.take(i)), responses.skip(i)),
    decreases i,
{
    if i > 0 {
        let rest = responses.drop_first();
        lemma_run_split(next(h, responses[0]), rest, i - 1);
        assert(responses.take(i).drop_first() =~= rest.take(i - 1));
        assert(responses.skip(i) =~= rest.skip(i - 1));
    } else {
        assert(responses.skip(0) =~= responses);
    }
}

/// All or nothing: when any subscription of the batch is rejected while the handshake
/// is still pending, the whole handshake fails and no map comes out of it.
pub proof fn lemma_rejection_fails_batch(h: HandshakeView, responses: Seq<SubResponse>, i: int)
    requires
        0 <= i < responses.len(),
        responses[i] is Rejected,
        run(h, responses.take(i)) is Pending,
    ensures
        run(h, responses) is Failed,
{
    lemma_run_split(h, responses, i);
    let mid = run(h, responses.take(i));
    let rest = responses.skip(i);
    assert(rest[0] == responses[i]);
    let failed = next(mid, rest[0]);
    assert(failed is Failed);
    lemma_finished_handshake_stays(failed, rest.drop_first());
}

/// A handshake that completes saw no rejection while it was pending: a map is handed
/// out only for a batch that was not rejected.
pub proof fn lemma_completed_batch_saw_no_rejection(h: HandshakeView, responses: Seq<SubResponse>)
    requires
        run(h, responses) is Done,
    ensures
        forall|i: int|
            0 <= i < responses.len() && (#[trigger] responses[i]) is Rejected ==> !(run(
                h,
                responses.take(i),
            ) is Pending),
{
    assert forall|i: int|
        0 <= i < responses.len() && (#[trigger] responses[i]) is Rejected implies !(run(
            h,
            responses.take(i),
        ) is Pending) by {
        if run(h, responses.take(i)) is Pending {
            lemma_rejection_fails_batch(h, responses, i);
        }
    }
}

/// Some key of `m` holds `v`.
#[verifier::opaque]
pub open spec fn has_value(m: Map<Seq<char>, Instrument>, v: Instrument) -> bool {
    exists|j: Seq<char>| m.contains_key(j) && m[j] == v
}

/// Every value of `a` is a value of `b`, and every value of `b` is a value of `a`.
pub open spec fn same_values(a: Map<Seq<char>, Instrument>, b: Map<Seq<char>, Instrument>) -> bool {
    &&& forall|k: Seq<char>| #[trigger] a.contains_key(k) ==> has_value(b, a[k])
    &&& forall|j: Seq<char>| #[trigger] b.contains_key(j) ==> has_value(a, b[j])
}

proof fn lemma_has_value(m: Map<Seq<char>, Instrument>, k: Seq<char>)
    requires
        m.contains_key(k),
    ensures
        has_value(m, m[k]),
{
    reveal(has_value);
}

proof fn lemma_same_values_trans(
    a: Map<Seq<char>, Instrument>,
    b: Map<Seq<char>, Instrument>,
    c: Map<Seq<char>, Instrument>,
)
    requires
        same_values(a, b),
        same_values(b, c),
    ensures
        same_values(a, c),
{
    assert forall|k: Seq<char>| #[trigger] a.contains_key(k) implies has_value(c, a[k]) by {
        assert(has_value(b, a[k]));
        reveal(has_value);
        let j = choose|j: Seq<char>| b.contains_key(j) && b[j] == a[k];
        assert(has_value(c, b[j]));
    }
    assert forall|l: Seq<char>| #[trigger] c.contains_key(l) implies has_value(a, c[l]) by {
        assert(has_value(b, c[l]));
        reveal(has_value);
        let j = choose|j: Seq<char>| b.contains_key(j) && b[j] == c[l];
        assert(has_value(a, b[j]));
    }
}

/// A handshake over `map` that completes yields exactly as many entries as `map` had,
/// with the same instruments, and each of its keys is a key of `map` or the key the
/// exchange named in one of the acknowledgements: no entry goes missing and none is
/// added.
pub proof fn lemma_validated_map_entries(
    map: Map<Seq<char>, Instrument>,
    acknowledged: nat,
    expected: nat,
    responses: Seq<SubResponse>,
)
    requires
        map.dom().finite(),
        run(HandshakeView::Pending { map, acknowledged, expected }, responses) is Done,
    ensures
        ({
            let m = run(HandshakeView::Pending { map, acknowledged, expected }, responses)->Done_0;
            &&& m.dom().finite()
            &&& m.dom().len() == map.dom().len()
            &&& same_values(m, map)
            &&& forall|k: Seq<char>| #[trigger] m.contains_key(k) ==> map.contains_key(k) || exists|i: int|
                0 <= i < responses.len() && responses[i] is Corrected
                    && id_view(&responses[i]->Corrected_canonical) == k
        }),
    decreases responses.len(),
{
    let h = HandshakeView::Pending { map, acknowledged, expected };
    if responses.len() > 0 {
        let r0 = responses[0];
        let rest = responses.drop_first();
        let h1 = next(h, r0);
        let m = run(h, responses)->Done_0;
        // the map after the first frame
        let map1 = match r0 {
            SubResponse::Corrected { requested, canonical } => {
                let f = id_view(&requested);
                let t = id_view(&canonical);
                if map.contains_key(f) && (t == f || !map.contains_key(t)) {
                    map.remove(f).insert(t, map[f])
                } else {
                    map
                }
            },
            _ => map,
        };
        assert(map1.dom().finite());
        assert(map1.dom().len() == map.dom().len()) by {
            if let SubResponse::Corrected { requested, canonical } = r0 {
                let f = id_view(&requested);
                let t = id_view(&canonical);
                if map.contains_key(f) && (t == f || !map.contains_key(t)) {
                    assert(map.remove(f).dom().len() == map.dom().len() - 1);
                    assert(!map.remove(f).contains_key(t));
                }
            }
        }
        assert(same_values(map1, map)) by {
            assert forall|k: Seq<char>| #[trigger] map1.contains_key(k) implies has_value(map, map1[k]) by {
                if map.contains_key(k) && map[k] == map1[k] {
                    lemma_has_value(map, k);
                } else if let SubResponse::Corrected { requested, canonical } = r0 {
                    lemma_has_value(map, id_view(&requested));
                }
            }
            assert forall|j: Seq<char>| #[trigger] map.contains_key(j) implies has_value(map1, map[j]) by {
                if map1.contains_key(j) && map1[j] == map[j] {
                    lemma_has_value(map1, j);
                } else if let SubResponse::Corrected { requested, canonical } = r0 {
                    lemma_has_value(map1, id_view(&canonical));
                }
            }
        }
        assert forall|k: Seq<char>| #[trigger] map1.contains_key(k) implies map.contains_key(k) || (
            r0 is Corrected && id_view(&r0->Corrected_canonical) == k) by {}
        match h1 {
            HandshakeView::Pending { map: mp, acknowledged: a1, expected: e1 } => {
                assert(mp == map1);
                lemma_validated_map_entries(map1, a1, e1, rest);
                lemma_same_values_trans(m, map1, map);
                assert forall|k: Seq<char>| #[trigger] m.contains_key(k) implies map.contains_key(k) || exists|i: int|
                    0 <= i < responses.len() && responses[i] is Corrected
                        && id_view(&responses[i]->Corrected_canonical) == k by {
                    if !map1.contains_key(k) {
                        let j = choose|j: int| 0 <= j < rest.len() && rest[j] is Corrected
                            && id_view(&rest[j]->Corrected_canonical) == k;
                        assert(responses[j + 1] == rest[j]);
                    } else if !map.contains_key(k) {
                        assert(responses[0] == r0);
                    }
                }
            },
            HandshakeView::Done(md) => {
                assert(md == map1);
                lemma_finished_handshake_stays(h1, rest);
                assert forall|k: Seq<char>| #[trigger] m.contains_key(k) implies map.contains_key(k) || exists|i: int|
                    0 <= i < responses.len() && responses[i] is Corrected
                        && id_view(&responses[i]->Corrected_canonical) == k by {
                    if !map.contains_key(k) {
                        assert(responses[0] == r0);
                    }
                }
            },
            HandshakeView::Failed(_) => {
                lemma_finished_handshake_stays(h1, rest);
            },
        }
    }
}

} // verus!
