use vstd::prelude::*;
use tokio::sync::mpsc::{Sender, Receiver};
use crate::proto::{Value, CommandResponse};
use crate::store::{assoc, find_key, lemma_assoc_update, lemma_assoc_push, lemma_assoc_none};

verus! {

// The pub/sub broadcaster: a registry of topics, each a list of
// subscription identifiers, and a registry of subscriptions, each the
// sending end of that subscriber's bounded queue. Identifiers are
// assigned from a counter that starts at 1 and never steps back, so no
// identifier is ever reused within a process.

#[verifier::external_type_specification]
#[verifier::external_body]
#[verifier::reject_recursive_types(T)]
pub struct ExSender<T>(Sender<T>);

#[verifier::external_type_specification]
#[verifier::external_body]
#[verifier::reject_recursive_types(T)]
pub struct ExReceiver<T>(Receiver<T>);

/// Relies on tokio's `mpsc::channel`: a fresh bounded channel pair. It
/// panics on capacity 0 and on capacities above its semaphore's permit
/// cap, which is the top three bits of `usize` cleared and so at least
/// `0x1fff_ffff` on every architecture modeled here; the admitted
/// capacities stay conservatively below that.
#[verifier::external_body]
fn new_channel(capacity: usize) -> (r: (Sender<CommandResponse>, Receiver<CommandResponse>))
    requires
        1 <= capacity <= 0x1fff_ffff,
{
    tokio::sync::mpsc::channel(capacity)
}

/// Relies on tokio's `Sender::try_send`: the message is queued unless
/// the queue is full or the receiver is gone; which of those holds
/// depends on the receiving side, so nothing is promised of the result.
#[verifier::external_body]
fn try_send_response(tx: &Sender<CommandResponse>, msg: CommandResponse) -> (r: bool) {
    tx.try_send(msg).is_ok()
}

/// No identifier appears twice.
pub open spec fn distinct_u32(s: Seq<u32>) -> bool {
    forall|i: int, j: int| 0 <= i < j < s.len() ==> s[i] != s[j]
}

/// Every identifier is at least 1 and below the counter.
pub open spec fn id_bounds(s: Seq<u32>, hi: u32) -> bool {
    forall|i: int| 0 <= i < s.len() ==> 1 <= #[trigger] s[i] < hi
}

/// The identifiers of `s` that are not in `dead`, in order.
pub open spec fn without(s: Seq<u32>, dead: Seq<u32>) -> Seq<u32>
    decreases s.len(),
{
    if s.len() == 0 {
        Seq::empty()
    } else if dead.contains(s[0]) {
        without(s.drop_first(), dead)
    } else {
        seq![s[0]] + without(s.drop_first(), dead)
    }
}

/// The subscriptions of `s` whose identifiers are not in `dead`, in order.
pub open spec fn subs_without(
    s: Seq<(u32, Sender<CommandResponse>)>,
    dead: Seq<u32>,
) -> Seq<(u32, Sender<CommandResponse>)>
    decreases s.len(),
{
    if s.len() == 0 {
        Seq::empty()
    } else if dead.contains(s[0].0) {
        subs_without(s.drop_first(), dead)
    } else {
        seq![s[0]] + subs_without(s.drop_first(), dead)
    }
}

/// The identifiers of a subscription registry, in order.
pub open spec fn keys_of(s: Seq<(u32, Sender<CommandResponse>)>) -> Seq<u32> {
    s.map_values(|p: (u32, Sender<CommandResponse>)| p.0)
}

proof fn lemma_without_props(s: Seq<u32>, dead: Seq<u32>)
    ensures
        forall|x: u32| #[trigger] without(s, dead).contains(x) <==> s.contains(x) && !dead.contains(
            x,
        ),
        distinct_u32(s) ==> distinct_u32(without(s, dead)),
    decreases s.len(),
{
    if s.len() == 0 {
    } else {
        let d = s.drop_first();
        lemma_without_props(d, dead);
        assert(forall|j: int| 0 <= j < d.len() ==> d[j] == s[j + 1]);
        assert forall|x: u32| s.contains(x) && x != s[0] implies d.contains(x) by {
            let i = choose|i: int| 0 <= i < s.len() && s[i] == x;
            assert(d[i - 1] == x);
        }
        assert forall|x: u32| d.contains(x) implies s.contains(x) by {
            let i = choose|i: int| 0 <= i < d.len() && d[i] == x;
            assert(s[i + 1] == x);
        }
        if distinct_u32(s) {
            assert(distinct_u32(d));
        }
        if dead.contains(s[0]) {
            assert(without(s, dead) == without(d, dead));
        } else {
            let w = without(s, dead);
            let wd = without(d, dead);
            assert(w == seq![s[0]] + wd);
            assert(forall|j: int| 0 <= j < wd.len() ==> w[j + 1] == wd[j]);
            assert forall|x: u32| #[trigger] w.contains(x) implies (s.contains(x) && !dead.contains(
                x,
            )) by {
                let i = choose|i: int| 0 <= i < w.len() && w[i] == x;
                if i == 0 {
                    assert(x == s[0]);
                } else {
                    assert(wd[i - 1] == x);
                    assert(wd.contains(x));
                }
            }
            assert forall|x: u32| s.contains(x) && !dead.contains(x) implies w.contains(x) by {
                if x == s[0] {
                    assert(w[0] == x);
                } else {
                    assert(wd.contains(x));
                    let i = choose|i: int| 0 <= i < wd.len() && wd[i] == x;
                    assert(w[i + 1] == x);
                }
            }
            if distinct_u32(s) {
                assert forall|i: int, j: int| 0 <= i < j < w.len() implies w[i] != w[j] by {
                    if i == 0 {
                        assert(w[j] == wd[j - 1]);
                        assert(wd.contains(wd[j - 1]));
                        assert(!d.contains(s[0]));
                    } else {
                        assert(w[i] == wd[i - 1] && w[j] == wd[j - 1]);
                    }
                }
            }
        }
    }
}

proof fn lemma_keys_of_subs_without(s: Seq<(u32, Sender<CommandResponse>)>, dead: Seq<u32>)
    ensures
        keys_of(subs_without(s, dead)) == without(keys_of(s), dead),
    decreases s.len(),
{
    if s.len() == 0 {
        assert(keys_of(subs_without(s, dead)) =~= without(keys_of(s), dead));
    } else {
        let d = s.drop_first();
        lemma_keys_of_subs_without(d, dead);
        assert(keys_of(s).drop_first() =~= keys_of(d));
        assert(keys_of(s)[0] == s[0].0);
        if dead.contains(s[0].0) {
            assert(keys_of(subs_without(s, dead)) =~= without(keys_of(s), dead));
        } else {
            assert(keys_of(seq![s[0]] + subs_without(d, dead)) =~= seq![s[0].0] + keys_of(
                subs_without(d, dead),
            ));
            assert(without(keys_of(s), dead) =~= seq![s[0].0] + without(keys_of(d), dead));
        }
    }
}

fn contains_u32(v: &Vec<u32>, x: u32) -> (r: bool)
    ensures
        r == v@.contains(x),
{
    let mut i: usize = 0;
    while i < v.len()
        invariant
            i <= v@.len(),
            forall|j: int| 0 <= j < i ==> v@[j] != x,
        decreases v@.len() - i,
    {
        if v[i] == x {
            proof {
                assert(v@.contains(x)) by {
                    assert(v@[i as int] == x);
                }
            }
            return true;
        }
        i = i + 1;
    }
    proof {
        if v@.contains(x) {
            let j = choose|j: int| 0 <= j < v@.len() && v@[j] == x;
            assert(false);
        }
    }
    false
}

fn retain_ids(mut v: Vec<u32>, dead: &Vec<u32>) -> (r: Vec<u32>)
    ensures
        r@ == without(v@, dead@),
{
    let ghost v0 = v@;
    let mut out: Vec<u32> = Vec::new();
    proof {
        assert(out@ + without(v@, dead@) =~= without(v0, dead@));
    }
    while v.len() > 0
        invariant
            out@ + without(v@, dead@) == without(v0, dead@),
        decreases v@.len(),
    {
        let ghost pre = v@;
        let ghost preout = out@;
        let x = v.remove(0);
        proof {
            assert(v@ =~= pre.drop_first());
        }
        if !contains_u32(dead, x) {
            out.push(x);
            proof {
                assert(without(pre, dead@) == seq![x] + without(v@, dead@));
                assert(out@ + without(v@, dead@) =~= preout + without(pre, dead@));
            }
        } else {
            proof {
                assert(without(pre, dead@) == without(v@, dead@));
            }
        }
    }
    proof {
        assert(without(v@, dead@) =~= Seq::<u32>::empty());
        assert(out@ =~= without(v0, dead@));
    }
    out
}

fn retain_subs(mut v: Vec<(u32, Sender<CommandResponse>)>, dead: &Vec<u32>) -> (r: Vec<
    (u32, Sender<CommandResponse>),
>)
    ensures
        r@ == subs_without(v@, dead@),
{
    let ghost v0 = v@;
    let mut out: Vec<(u32, Sender<CommandResponse>)> = Vec::new();
    proof {
        assert(out@ + subs_without(v@, dead@) =~= subs_without(v0, dead@));
    }
    while v.len() > 0
        invariant
            out@ + subs_without(v@, dead@) == subs_without(v0, dead@),
        decreases v@.len(),
    {
        let ghost pre = v@;
        let ghost preout = out@;
        let p = v.remove(0);
        proof {
            assert(v@ =~= pre.drop_first());
        }
        if !contains_u32(dead, p.0) {
            out.push(p);
            proof {
                assert(subs_without(pre, dead@) == seq![pre[0]] + subs_without(v@, dead@));
                assert(out@ + subs_without(v@, dead@) =~= preout + subs_without(pre, dead@));
            }
        } else {
            proof {
                assert(subs_without(pre, dead@) == subs_without(v@, dead@));
            }
        }
    }
    proof {
        assert(subs_without(v@, dead@) =~= Seq::<(u32, Sender<CommandResponse>)>::empty());
        assert(out@ =~= subs_without(v0, dead@));
    }
    out
}

fn find_sub(v: &Vec<(u32, Sender<CommandResponse>)>, id: u32) -> (r: Option<usize>)
    ensures
        match r {
            Some(i) => i < v@.len() && v@[i as int].0 == id,
            None => !keys_of(v@).contains(id),
        },
{
    let mut i: usize = 0;
    while i < v.len()
        invariant
            i <= v@.len(),
            forall|j: int| 0 <= j < i ==> v@[j].0 != id,
        decreases v@.len() - i,
    {
        if v[i].0 == id {
            return Some(i);
        }
        i = i + 1;
    }
    proof {
        if keys_of(v@).contains(id) {
            let j = choose|j: int| 0 <= j < keys_of(v@).len() && keys_of(v@)[j] == id;
            assert(v@[j].0 == id);
            assert(false);
        }
    }
    None
}

/// One fan-out's effect on the registries: the identifiers in `dead`
/// were subscribed to the topic, and exactly they leave the topic and
/// the subscription registry.
#[verifier::opaque]
pub open spec fn publish_shift(
    pre: Broadcaster,
    post: Broadcaster,
    t: Seq<char>,
    dead: Seq<u32>,
) -> bool {
    &&& (forall|x: u32| #[trigger] dead.contains(x) ==> pre.topic_ids(t).contains(x))
    &&& (forall|x: u32|
        pre.topic_ids(t).contains(x) && !pre.sub_ids().contains(x) ==> #[trigger] dead.contains(
            x,
        ))
    &&& post.topic_ids(t) == without(pre.topic_ids(t), dead)
    &&& post.sub_ids() == without(pre.sub_ids(), dead)
}

/// Some set of dead subscribers was dropped by a fan-out on the topic.
pub open spec fn published(pre: Broadcaster, post: Broadcaster, t: Seq<char>) -> bool {
    exists|dead: Seq<u32>| #[trigger] publish_shift(pre, post, t, dead)
}

/// The topic fan-out engine.
pub struct Broadcaster {
    topics: Vec<(String, Vec<u32>)>,
    subs: Vec<(u32, Sender<CommandResponse>)>,
    next_id: u32,
}

impl Broadcaster {
    /// The identifiers subscribed to a topic, in subscription order.
    pub closed spec fn topic_ids(self, t: Seq<char>) -> Seq<u32> {
        match assoc(self.topics@, t) {
            Option::None => Seq::empty(),
            Option::Some(ids) => ids@,
        }
    }

    /// The identifiers of the live subscriptions, in subscription order.
    pub closed spec fn sub_ids(self) -> Seq<u32> {
        keys_of(self.subs@)
    }

    /// The identifier the next subscription will get.
    pub closed spec fn spec_next_id(self) -> u32 {
        self.next_id
    }

    /// The counter's current value: the identifier the next
    /// subscription will get.
    pub fn next_subscription_id(&self) -> (r: u32)
        ensures
            r == self.spec_next_id(),
    {
        self.next_id
    }

    /// Identifiers are unique, at least 1, and below the counter.
    pub closed spec fn wf(self) -> bool {
        &&& self.next_id >= 1
        &&& distinct_u32(self.sub_ids())
        &&& id_bounds(self.sub_ids(), self.next_id)
    }

    /// Subscription identifiers are pairwise distinct and at least 1.
    pub proof fn lemma_ids_distinct(self)
        requires
            self.wf(),
        ensures
            distinct_u32(self.sub_ids()),
            forall|i: int| 0 <= i < self.sub_ids().len() ==> #[trigger] self.sub_ids()[i] >= 1,
    {
    }

    /// An empty broadcaster; the first identifier assigned will be 1.
    pub fn new() -> (r: Broadcaster)
        ensures
            r.wf(),
            r.spec_next_id() == 1,
            r.sub_ids() == Seq::<u32>::empty(),
            forall|t: Seq<char>| #[trigger] r.topic_ids(t) == Seq::<u32>::empty(),
    {
        let r = Broadcaster { topics: Vec::new(), subs: Vec::new(), next_id: 1 };
        proof {
            assert(r.sub_ids() =~= Seq::<u32>::empty());
        }
        r
    }

    /// Registers a fresh subscription on the topic: the new identifier
    /// is the counter's value, never assigned before; a response whose
    /// single value is the identifier is pushed onto the new queue; the
    /// receiving end is handed back.
    pub fn subscribe(&mut self, topic: &String) -> (r: (u32, Receiver<CommandResponse>))
        requires
            old(self).wf(),
            old(self).spec_next_id() < u32::MAX,
        ensures
            final(self).wf(),
            r.0 == old(self).spec_next_id(),
            r.0 >= 1,
            !old(self).sub_ids().contains(r.0),
            final(self).sub_ids() == old(self).sub_ids().push(r.0),
            final(self).topic_ids(topic@) == old(self).topic_ids(topic@).push(r.0),
            forall|t2: Seq<char>|
                t2 != topic@ ==> #[trigger] final(self).topic_ids(t2) == old(self).topic_ids(t2),
            final(self).spec_next_id() == old(self).spec_next_id() + 1,
    {
        let id = self.next_id;
        self.next_id = self.next_id + 1;
        let (tx, rx) = new_channel(8);
        let mut vals: Vec<Value> = Vec::new();
        vals.push(Value::Int(id as i64));
        let hello = CommandResponse::ok_with_values(vals);
        let _queued = try_send_response(&tx, hello);
        proof {
            if old(self).sub_ids().contains(id) {
                let j = choose|j: int|
                    0 <= j < old(self).sub_ids().len() && old(self).sub_ids()[j] == id;
                assert(false);
            }
        }
        self.subs.push((id, tx));
        proof {
            assert(self.sub_ids() =~= old(self).sub_ids().push(id));
        }
        let ti_opt = find_key(&self.topics, topic);
        match ti_opt {
            None => {
                proof {
                    lemma_assoc_none(self.topics@, topic@);
                }
                let ghost tsv = self.topics@;
                let mut ids: Vec<u32> = Vec::new();
                ids.push(id);
                let ghost idsv = ids@;
                self.topics.push((topic.clone(), ids));
                proof {
                    assert forall|t2: Seq<char>| true implies assoc(self.topics@, t2) == (
                    if assoc(tsv, t2) is Some {
                        assoc(tsv, t2)
                    } else if topic@ == t2 {
                        Option::Some(self.topics@[tsv.len() as int].1)
                    } else {
                        Option::None
                    }) by {
                        lemma_assoc_push(tsv, self.topics@[tsv.len() as int], t2);
                    }
                    assert(self.topics@[tsv.len() as int].1@ == idsv);
                    assert(idsv =~= old(self).topic_ids(topic@).push(id));
                }
            },
            Some(ti) => {
                let (name, mut ids) = self.topics.remove(ti);
                let ghost tsv = old(self).topics@;
                let ghost idsv = ids@;
                ids.push(id);
                let ghost idsv2 = ids@;
                self.topics.insert(ti, (name, ids));
                proof {
                    reveal(publish_shift);
                    let newids = self.topics@[ti as int].1;
                    assert(newids@ == idsv2);
                    assert(tsv[ti as int].1@ == idsv);
                    assert(self.topics@ =~= tsv.update(ti as int, (tsv[ti as int].0, newids)));
                    assert forall|t2: Seq<char>| true implies assoc(self.topics@, t2) == (
                    if t2 == tsv[ti as int].0@ {
                        Option::Some(newids)
                    } else {
                        assoc(tsv, t2)
                    }) by {
                        lemma_assoc_update(tsv, ti as int, newids, t2);
                    }
                }
            },
        }
        (id, rx)
    }

    /// Removes the identifier from the topic and from the subscription
    /// registry. True exactly when the topic or the registry knew it.
    pub fn unsubscribe(&mut self, topic: &String, id: u32) -> (r: bool)
        requires
            old(self).wf(),
        ensures
            final(self).wf(),
            r == (old(self).topic_ids(topic@).contains(id) || old(self).sub_ids().contains(id)),
            final(self).topic_ids(topic@) == without(old(self).topic_ids(topic@), seq![id]),
            final(self).sub_ids() == without(old(self).sub_ids(), seq![id]),
            forall|t2: Seq<char>|
                t2 != topic@ ==> #[trigger] final(self).topic_ids(t2) == old(self).topic_ids(t2),
            final(self).spec_next_id() == old(self).spec_next_id(),
    {
        let mut dead: Vec<u32> = Vec::new();
        dead.push(id);
        proof {
            assert(dead@ =~= seq![id]);
        }
        let mut known = false;
        let ti_opt = find_key(&self.topics, topic);
        match ti_opt {
            None => {
                proof {
                    assert(old(self).topic_ids(topic@) =~= Seq::<u32>::empty());
                    assert(without(old(self).topic_ids(topic@), seq![id]) =~= Seq::<u32>::empty());
                }
            },
            Some(ti) => {
                let (name, ids) = self.topics.remove(ti);
                let ghost tsv = old(self).topics@;
                let ghost idsv = ids@;
                known = contains_u32(&ids, id);
                let kept = retain_ids(ids, &dead);
                self.topics.insert(ti, (name, kept));
                proof {
                    reveal(publish_shift);
                    let newids = self.topics@[ti as int].1;
                    assert(newids@ == without(idsv, dead@));
                    assert(tsv[ti as int].1@ == idsv);
                    assert(self.topics@ =~= tsv.update(ti as int, (tsv[ti as int].0, newids)));
                    assert forall|t2: Seq<char>| true implies assoc(self.topics@, t2) == (
                    if t2 == tsv[ti as int].0@ {
                        Option::Some(newids)
                    } else {
                        assoc(tsv, t2)
                    }) by {
                        lemma_assoc_update(tsv, ti as int, newids, t2);
                    }
                }
            },
        }
        let in_subs = {
            let found = find_sub(&self.subs, id);
            match found {
                Some(i) => {
                    proof {
                        assert(keys_of(self.subs@).contains(id)) by {
                            assert(keys_of(self.subs@)[i as int] == id);
                        }
                    }
                    true
                },
                None => false,
            }
        };
        let subs = self.subs.split_off(0);
        let ghost subsv = subs@;
        proof {
            assert(subsv == old(self).subs@);
        }
        let kept_subs = retain_subs(subs, &dead);
        self.subs = kept_subs;
        proof {
            lemma_keys_of_subs_without(subsv, dead@);
            lemma_without_props(keys_of(subsv), dead@);
            assert(keys_of(subsv) == old(self).sub_ids());
            assert(self.sub_ids() == without(old(self).sub_ids(), dead@));
            assert(id_bounds(self.sub_ids(), self.next_id)) by {
                assert forall|i: int| 0 <= i < self.sub_ids().len() implies 1 <= #[trigger] self
                    .sub_ids()[i] < self.next_id by {
                    let x = self.sub_ids()[i];
                    assert(self.sub_ids().contains(x));
                    assert(old(self).sub_ids().contains(x));
                    let j = choose|j: int|
                        0 <= j < old(self).sub_ids().len() && old(self).sub_ids()[j] == x;
                }
            }
        }
        known || in_subs
    }

    /// Delivers a response carrying the data to every subscriber of the
    /// topic whose queue accepts it; the rest are dead and are dropped
    /// from the topic and from the registry. Other topics are untouched.
    pub fn publish(&mut self, topic: &String, data: Vec<Value>) -> (r: ())
        requires
            old(self).wf(),
        ensures
            final(self).wf(),
            published(*old(self), *final(self), topic@),
            forall|t2: Seq<char>|
                t2 != topic@ ==> #[trigger] final(self).topic_ids(t2) == old(self).topic_ids(t2),
            final(self).spec_next_id() == old(self).spec_next_id(),
    {
        let resp = CommandResponse::ok_with_values(data);
        let ti_opt = find_key(&self.topics, topic);
        match ti_opt {
            None => {
                proof {
                    reveal(publish_shift);
                    assert(old(self).topic_ids(topic@) =~= Seq::<u32>::empty());
                    lemma_without_id(old(self).topic_ids(topic@));
                    lemma_without_id(old(self).sub_ids());
                    assert(publish_shift(*old(self), *self, topic@, Seq::<u32>::empty()));
                    assert(published(*old(self), *self, topic@));
                }
            },
            Some(ti) => {
                let ids = clone_ids(&self.topics[ti].1);
                let mut dead: Vec<u32> = Vec::new();
                let mut i: usize = 0;
                while i < ids.len()
                    invariant
                        i <= ids@.len(),
                        forall|j: int| 0 <= j < dead@.len() ==> ids@.contains(#[trigger] dead@[j]),
                        forall|x: u32|
                            ids@.take(i as int).contains(x) && !keys_of(self.subs@).contains(x)
                                ==> #[trigger] dead@.contains(x),
                        self == old(self),
                    decreases ids@.len() - i,
                {
                    let ghost dead0 = dead@;
                    proof {
                        assert(ids@.contains(ids@[i as int]));
                    }
                    match find_sub(&self.subs, ids[i]) {
                        Some(si) => {
                            proof {
                                assert(keys_of(self.subs@).contains(ids@[i as int])) by {
                                    assert(keys_of(self.subs@)[si as int] == ids@[i as int]);
                                }
                            }
                            let ok = try_send_response(&self.subs[si].1, resp.dup());
                            if !ok {
                                dead.push(ids[i]);
                            }
                        },
                        None => {
                            dead.push(ids[i]);
                            proof {
                                assert(dead@.contains(ids@[i as int])) by {
                                    assert(dead@[dead@.len() - 1] == ids@[i as int]);
                                }
                            }
                        },
                    }
                    proof {
                        assert forall|x: u32| dead0.contains(x) implies dead@.contains(x) by {
                            let j = choose|j: int| 0 <= j < dead0.len() && dead0[j] == x;
                            assert(dead@[j] == x);
                        }
                        assert(ids@.take(i + 1 as int) =~= ids@.take(i as int).push(
                            ids@[i as int],
                        ));
                        let prefix2 = ids@.take(i + 1 as int);
                        assert forall|x: u32|
                            prefix2.contains(x) && !keys_of(self.subs@).contains(x) implies dead@
                            .contains(x) by {
                            let j = choose|j: int| 0 <= j < prefix2.len() && #[trigger] prefix2[j]
                                == x;
                            if j < i {
                                assert(ids@.take(i as int)[j] == x);
                                assert(ids@.take(i as int).contains(x));
                                assert(dead0.contains(x));
                            } else {
                                assert(x == ids@[i as int]);
                            }
                        }
                    }
                    i = i + 1;
                }
                let (name, old_ids) = self.topics.remove(ti);
                let ghost tsv = old(self).topics@;
                let ghost idsv = old_ids@;
                let kept = retain_ids(old_ids, &dead);
                self.topics.insert(ti, (name, kept));
                let subs = self.subs.split_off(0);
                let ghost subsv = subs@;
                let kept_subs = retain_subs(subs, &dead);
                self.subs = kept_subs;
                proof {
                    reveal(publish_shift);
                    let newids = self.topics@[ti as int].1;
                    assert(newids@ == without(idsv, dead@));
                    assert(tsv[ti as int].1@ == idsv);
                    assert(self.topics@ =~= tsv.update(ti as int, (tsv[ti as int].0, newids)));
                    assert forall|t2: Seq<char>| true implies assoc(self.topics@, t2) == (
                    if t2 == tsv[ti as int].0@ {
                        Option::Some(newids)
                    } else {
                        assoc(tsv, t2)
                    }) by {
                        lemma_assoc_update(tsv, ti as int, newids, t2);
                    }
                    lemma_keys_of_subs_without(subsv, dead@);
                    lemma_without_props(keys_of(subsv), dead@);
                    assert(keys_of(subsv) == old(self).sub_ids());
                    assert(self.sub_ids() == without(old(self).sub_ids(), dead@));
                    assert(id_bounds(self.sub_ids(), self.next_id)) by {
                        assert forall|k: int| 0 <= k < self.sub_ids().len() implies 1
                            <= #[trigger] self.sub_ids()[k] < self.next_id by {
                            let x = self.sub_ids()[k];
                            assert(self.sub_ids().contains(x));
                            assert(old(self).sub_ids().contains(x));
                            let j = choose|j: int|
                                0 <= j < old(self).sub_ids().len() && old(self).sub_ids()[j] == x;
                        }
                    }
                    assert(old(self).topic_ids(topic@) == idsv);
                    assert((forall|x: u32|
                        #[trigger] dead@.contains(x) ==> old(self).topic_ids(topic@).contains(x)))
                        by {
                        assert forall|x: u32| #[trigger] dead@.contains(x) implies idsv.contains(
                            x,
                        ) by {
                            let j = choose|j: int| 0 <= j < dead@.len() && dead@[j] == x;
                        }
                    }
                    assert forall|x: u32|
                        old(self).topic_ids(topic@).contains(x) && !old(self).sub_ids().contains(
                            x,
                        ) implies dead@.contains(x) by {
                        assert(ids@.take(ids@.len() as int) =~= ids@);
                        assert(ids@ == idsv);
                    }
                    assert(publish_shift(*old(self), *self, topic@, dead@));
                    assert(published(*old(self), *self, topic@));
                }
            },
        }
    }
}

/// Removing nothing leaves the identifiers as they are.
proof fn lemma_without_id(s: Seq<u32>)
    ensures
        without(s, Seq::empty()) == s,
    decreases s.len(),
{
    if s.len() == 0 {
        assert(without(s, Seq::empty()) =~= s);
    } else {
        lemma_without_id(s.drop_first());
        assert(without(s, Seq::empty()) =~= s);
    }
}

fn clone_ids(v: &Vec<u32>) -> (r: Vec<u32>)
    ensures
        r@ == v@,
{
    let mut out: Vec<u32> = Vec::new();
    let mut i: usize = 0;
    while i < v.len()
        invariant
            i <= v@.len(),
            out@ == v@.take(i as int),
        decreases v@.len() - i,
    {
        out.push(v[i]);
        proof {
            assert(v@.take(i + 1 as int) =~= v@.take(i as int).push(v@[i as int]));
        }
        i = i + 1;
    }
    proof {
        assert(v@.take(v@.len() as int) =~= v@);
    }
    out
}

} // verus!
