use vstd::prelude::*;

use crate::msg::ChatMessage;
use crate::msg::MsgView;

verus! {

/// What one endpoint holds: the messages published since it subscribed and
/// not yet taken, oldest first.
pub open spec fn queue_view(q: Option<Vec<ChatMessage>>) -> Option<Seq<MsgView>> {
    match q {
        Some(v) => Some(v@.map_values(|m: ChatMessage| m@)),
        None => None,
    }
}

/// Every live queue gets the published message appended; abandoned
/// endpoints stay abandoned.
pub open spec fn publish_spec(qs: Seq<Option<Seq<MsgView>>>, m: MsgView) -> Seq<
    Option<Seq<MsgView>>,
> {
    qs.map_values(
        |q: Option<Seq<MsgView>>|
            match q {
                Some(ms) => Some(ms.push(m)),
                None => None,
            },
    )
}

/// The queues after a run of publishes, in order.
pub open spec fn publish_all(qs: Seq<Option<Seq<MsgView>>>, ms: Seq<MsgView>) -> Seq<
    Option<Seq<MsgView>>,
>
    decreases ms.len(),
{
    if ms.len() == 0 {
        qs
    } else {
        publish_all(publish_spec(qs, ms[0]), ms.skip(1))
    }
}

/// The publish/subscribe fan-out point: one pending queue per subscriber,
/// each replaying every message published after its subscription to exactly
/// one consumer.
pub struct Router {
    queues: Vec<Option<Vec<ChatMessage>>>,
}

impl View for Router {
    type V = Seq<Option<Seq<MsgView>>>;

    closed spec fn view(&self) -> Seq<Option<Seq<MsgView>>> {
        self.queues@.map_values(|q: Option<Vec<ChatMessage>>| queue_view(q))
    }
}

impl Router {
    /// Whether a handle names a live endpoint.
    pub open spec fn live(self, h: int) -> bool {
        0 <= h < self@.len() && self@[h] is Some
    }

    /// A router with no subscribers.
    pub fn new() -> (r: Router)
        ensures
            r@ == Seq::<Option<Seq<MsgView>>>::empty(),
    {
        let r = Router { queues: Vec::new() };
        proof {
            assert(r@ =~= Seq::<Option<Seq<MsgView>>>::empty());
        }
        r
    }

    /// A fresh endpoint.  It observes every message published from this
    /// point forward and none published before.
    pub fn subscribe(&mut self) -> (h: usize)
        ensures
            final(self)@ == old(self)@.push(Some(Seq::<MsgView>::empty())),
            h == old(self)@.len(),
            final(self).live(h as int),
    {
        let ghost pre = self@;
        let h = self.queues.len();
        let q: Vec<ChatMessage> = Vec::new();
        self.queues.push(Some(q));
        proof {
            assert(self@ =~~= pre.push(Some(Seq::<MsgView>::empty())));
        }
        h
    }

    /// Deliver one message to every current endpoint, without blocking on
    /// any of them.
    pub fn publish(&mut self, m: &ChatMessage)
        ensures
            final(self)@ == publish_spec(old(self)@, m@),
    {
        let ghost pre = self@;
        let mut i: usize = 0;
        while i < self.queues.len()
            invariant
                pre == old(self)@,
                0 <= i <= self.queues@.len(),
                self@.len() == pre.len(),
                self.queues@.len() == pre.len(),
                forall|k: int| 0 <= k < i ==> self@[k] == publish_spec(pre, m@)[k],
                forall|k: int| i <= k < pre.len() ==> self@[k] == pre[k],
            decreases self.queues@.len() - i,
        {
            let ghost sv = self@;
            let ghost oq = self.queues@;
            let q = self.queues.remove(i);
            let q2: Option<Vec<ChatMessage>>;
            match q {
                Some(mut v) => {
                    let ghost vpre = v@;
                    v.push(m.clone_msg());
                    proof {
                        assert(v@.map_values(|mm: ChatMessage| mm@) =~= vpre.map_values(
                            |mm: ChatMessage| mm@,
                        ).push(m@));
                    }
                    q2 = Some(v);
                },
                None => {
                    q2 = None;
                },
            }
            self.queues.insert(i, q2);
            proof {
                oq.remove_ensures(i as int);
                assert(self.queues@ =~= oq.update(i as int, q2)) by {
                    assert(self.queues@ == oq.remove(i as int).insert(i as int, q2));
                    oq.remove(i as int).insert_ensures(i as int, q2);
                }
                assert(pre[i as int] == queue_view(oq[i as int]));
                assert(queue_view(q2) == publish_spec(pre, m@)[i as int]);
                assert forall|k: int| 0 <= k < pre.len() implies #[trigger] self@[k] == (if k <= i {
                    publish_spec(pre, m@)[k]
                } else {
                    pre[k]
                }) by {
                    assert(self.queues@[k] == oq.update(i as int, q2)[k]);
                    assert(self@[k] == queue_view(self.queues@[k]));
                    if k != i {
                        assert(oq.update(i as int, q2)[k] == oq[k]);
                        assert(sv[k] == queue_view(oq[k]));
                    }
                }
            }
            i += 1;
        }
        proof {
            assert(self@ =~= publish_spec(pre, m@));
        }
    }

    /// Take the oldest pending message of a live endpoint; nothing pending
    /// gives nothing.
    #[verifier::rlimit(50)]
    pub fn recv(&mut self, h: usize) -> (r: Option<ChatMessage>)
        requires
            old(self).live(h as int),
        ensures
            match r {
                Some(m) => old(self)@[h as int]->0.len() > 0 && m@ == old(
                    self,
                )@[h as int]->0[0] && final(self)@ == old(self)@.update(
                    h as int,
                    Some(old(self)@[h as int]->0.skip(1)),
                ),
                None => old(self)@[h as int]->0.len() == 0 && final(self)@ == old(self)@,
            },
    {
        let ghost pre = self@;
        let ghost oq = self.queues@;
        let q = self.queues.remove(h);
        match q {
            Some(mut v) => {
                if v.len() > 0 {
                    let ghost vp = v@;
                    let m = v.remove(0);
                    self.queues.insert(h, Some(v));
                    proof {
                        oq.remove_ensures(h as int);
                        assert(self.queues@ =~= oq.update(h as int, Some(v))) by {
                            oq.remove(h as int).insert_ensures(h as int, Some(v));
                        }
                        assert(v@ =~= vp.skip(1));
                        assert(pre[h as int] == queue_view(oq[h as int]));
                        assert(v@.map_values(|mm: ChatMessage| mm@) =~= vp.map_values(
                            |mm: ChatMessage| mm@,
                        ).skip(1));
                        assert(self@ =~~= pre.update(h as int, Some(pre[h as int]->0.skip(1))));
                    }
                    Some(m)
                } else {
                    self.queues.insert(h, Some(v));
                    proof {
                        oq.remove_ensures(h as int);
                        assert(self.queues@ =~= oq.update(h as int, Some(v))) by {
                            oq.remove(h as int).insert_ensures(h as int, Some(v));
                        }
                        assert(oq.update(h as int, Some(v)) =~= oq);
                        assert(self@ =~= pre);
                    }
                    None
                }
            },
            None => {
                proof {
                    assert(false);
                }
                None
            },
        }
    }

    /// Abandon an endpoint: delivery to it becomes a silent no-op.
    pub fn unsubscribe(&mut self, h: usize)
        requires
            (h as int) < old(self)@.len(),
        ensures
            final(self)@ == old(self)@.update(h as int, None),
    {
        let ghost pre = self@;
        let ghost oq = self.queues@;
        let _q = self.queues.remove(h);
        self.queues.insert(h, None);
        proof {
            oq.remove_ensures(h as int);
            assert(self.queues@ =~= oq.update(h as int, None)) by {
                oq.remove(h as int).insert_ensures(h as int, None);
            }
            assert(self@ =~= pre.update(h as int, None));
        }
    }

    /// Whether a handle names a live endpoint.
    pub fn is_live(&self, h: usize) -> (b: bool)
        ensures
            b == self.live(h as int),
    {
        if h < self.queues.len() {
            let b = match &self.queues[h] {
                Some(_) => true,
                None => false,
            };
            proof {
                assert(self@[h as int] == queue_view(self.queues@[h as int]));
            }
            b
        } else {
            false
        }
    }

    /// How many endpoints were ever subscribed, abandoned ones included.
    pub fn endpoint_count(&self) -> (n: usize)
        ensures
            n == self@.len(),
    {
        self.queues.len()
    }
}

// ---------------------------------------------------------------------------
// Laws of the router.
// ---------------------------------------------------------------------------

/// Messages published while an endpoint is live all land in its queue,
/// each exactly once, behind what was already pending, in publish order.
/// Together with `subscribe` (the queue starts empty) and `recv` (messages
/// leave from the front, one at a time), a subscriber takes exactly the
/// messages published after it subscribed, in order.
pub proof fn lemma_publish_order(qs: Seq<Option<Seq<MsgView>>>, ms: Seq<MsgView>, h: int)
    requires
        0 <= h < qs.len(),
        qs[h] is Some,
    ensures
        publish_all(qs, ms).len() == qs.len(),
        publish_all(qs, ms)[h] is Some,
        publish_all(qs, ms)[h]->0 == qs[h]->0 + ms,
    decreases ms.len(),
{
    if ms.len() == 0 {
        assert(qs[h]->0 + ms =~= qs[h]->0);
    } else {
        let qs2 = publish_spec(qs, ms[0]);
        assert(qs2[h] == Some(qs[h]->0.push(ms[0])));
        lemma_publish_order(qs2, ms.skip(1), h);
        assert(qs[h]->0.push(ms[0]) + ms.skip(1) =~= qs[h]->0 + ms);
    }
}

/// An abandoned endpoint never hears anything again: publishing leaves it
/// abandoned.
pub proof fn lemma_abandoned_stays_silent(qs: Seq<Option<Seq<MsgView>>>, ms: Seq<MsgView>, h: int)
    requires
        0 <= h < qs.len(),
        qs[h] is None,
    ensures
        publish_all(qs, ms).len() == qs.len(),
        publish_all(qs, ms)[h] is None,
    decreases ms.len(),
{
    if ms.len() > 0 {
        let qs2 = publish_spec(qs, ms[0]);
        assert(qs2[h] is None);
        lemma_abandoned_stays_silent(qs2, ms.skip(1), h);
    }
}

} // verus!
