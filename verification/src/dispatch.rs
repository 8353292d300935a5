use vstd::prelude::*;
use vstd::string::StringExecFns;
use tokio::sync::mpsc::Receiver;
use crate::proto::{Value, ValueV, KvpairV, CommandRequest, RequestV, CommandResponse, ResponseV,
    views_of, STATUS_OK, STATUS_NOT_FOUND};
use crate::store::{MemTable, pairs_of};
use crate::hub::{Broadcaster, without, publish_shift, published};
use crate::dec_digits;

verus! {

// The command dispatcher and service facade: a decoded request is routed
// to the storage backend or to the broadcaster, and exactly one reply
// comes back; a subscription's reply is the lazy stream of responses.

/// What a command yields: one response, or an open-ended stream of them.
pub enum Reply {
    Single(CommandResponse),
    Stream(Receiver<CommandResponse>),
}

/// A successful response carrying values.
pub open spec fn ok_values_resp(vals: Seq<ValueV>) -> ResponseV {
    ResponseV { status: STATUS_OK, message: Seq::empty(), values: vals, pairs: Seq::empty() }
}

/// A successful response carrying pairs.
pub open spec fn ok_pairs_resp(pairs: Seq<KvpairV>) -> ResponseV {
    ResponseV { status: STATUS_OK, message: Seq::empty(), values: Seq::empty(), pairs }
}

/// The diagnostic for a missing key.
pub open spec fn not_found_msg(t: Seq<char>, k: Seq<char>) -> Seq<char> {
    "Not found for table "@ + t + ", key "@ + k
}

/// The not-found response for a missing key.
pub open spec fn not_found_resp(t: Seq<char>, k: Seq<char>) -> ResponseV {
    ResponseV {
        status: STATUS_NOT_FOUND,
        message: not_found_msg(t, k),
        values: Seq::empty(),
        pairs: Seq::empty(),
    }
}

/// The diagnostic for an unknown subscription.
pub open spec fn unsub_missing_msg(id: u32) -> Seq<char> {
    "Not found: subscription "@ + dec_digits(id as nat)
}

/// The not-found response for an unknown subscription.
pub open spec fn unsub_missing_resp(id: u32) -> ResponseV {
    ResponseV {
        status: STATUS_NOT_FOUND,
        message: unsub_missing_msg(id),
        values: Seq::empty(),
        pairs: Seq::empty(),
    }
}

/// The value, or the absent value for a miss.
pub open spec fn value_or_absent(o: Option<ValueV>) -> ValueV {
    match o {
        Option::Some(v) => v,
        Option::None => ValueV::Absent,
    }
}

/// The value the last pair with this key carries, if any.
pub open spec fn last_set(pairs: Seq<KvpairV>, k: Seq<char>) -> Option<ValueV>
    decreases pairs.len(),
{
    if pairs.len() == 0 {
        Option::None
    } else if pairs.last().key == k {
        Option::Some(pairs.last().value)
    } else {
        last_set(pairs.drop_last(), k)
    }
}

/// Whether the key is one of the listed keys.
pub open spec fn among(keys: Seq<Seq<char>>, k: Seq<char>) -> bool
    decreases keys.len(),
{
    if keys.len() == 0 {
        false
    } else if keys.last() == k {
        true
    } else {
        among(keys.drop_last(), k)
    }
}

/// The service facade: a storage backend and a broadcaster.
pub struct Service {
    pub store: MemTable,
    pub hub: Broadcaster,
}

impl Service {
    pub open spec fn wf(self) -> bool {
        self.store.wf() && self.hub.wf()
    }

    /// A fresh service over an empty store and broadcaster.
    pub fn new() -> (r: Service)
        ensures
            r.wf(),
            forall|t: Seq<char>, k: Seq<char>| #[trigger] r.store.spec_get(t, k) is None,
            r.hub.spec_next_id() == 1,
            r.hub.sub_ids() == Seq::<u32>::empty(),
            forall|t: Seq<char>| #[trigger] r.hub.topic_ids(t) == Seq::<u32>::empty(),
    {
        Service { store: MemTable::new(), hub: Broadcaster::new() }
    }
}

/// How one request takes the service from `pre` to `post` and what reply
/// it yields: the exact routing policy of the dispatcher.
pub open spec fn executed(pre: Service, req: RequestV, r: Reply, post: Service) -> bool {
    match req {
        RequestV::HGet { table, key } => {
            &&& post == pre
            &&& match r {
                Reply::Single(resp) => resp@ == (match pre.store.spec_get(table, key) {
                    Option::Some(v) => ok_values_resp(seq![v]),
                    Option::None => not_found_resp(table, key),
                }),
                Reply::Stream(_) => false,
            }
        },
        RequestV::HGetAll { table } => {
            &&& post == pre
            &&& match r {
                Reply::Single(resp) => resp@ == ok_pairs_resp(
                    match pre.store.spec_table(table) {
                        Option::Some(es) => pairs_of(es),
                        Option::None => Seq::empty(),
                    },
                ),
                Reply::Stream(_) => false,
            }
        },
        RequestV::HMGet { table, keys } => {
            &&& post == pre
            &&& match r {
                Reply::Single(resp) => resp@ == ok_values_resp(
                    Seq::new(keys.len(), |i: int| value_or_absent(pre.store.spec_get(table, keys[i]))),
                ),
                Reply::Stream(_) => false,
            }
        },
        RequestV::HSet { table, pair } => {
            &&& post.hub == pre.hub
            &&& post.store.spec_get(table, pair.key) == Option::Some(pair.value)
            &&& (forall|t2: Seq<char>, k2: Seq<char>|
                !(t2 == table && k2 == pair.key) ==> #[trigger] post.store.spec_get(t2, k2)
                    == pre.store.spec_get(t2, k2))
            &&& match r {
                Reply::Single(resp) => resp@ == ok_values_resp(
                    seq![value_or_absent(pre.store.spec_get(table, pair.key))],
                ),
                Reply::Stream(_) => false,
            }
        },
        RequestV::HMSet { table, pairs } => {
            &&& post.hub == pre.hub
            &&& (forall|k2: Seq<char>|
                #[trigger] post.store.spec_get(table, k2) == (match last_set(pairs, k2) {
                    Option::Some(v) => Option::Some(v),
                    Option::None => pre.store.spec_get(table, k2),
                }))
            &&& (forall|t2: Seq<char>, k2: Seq<char>|
                t2 != table ==> #[trigger] post.store.spec_get(t2, k2) == pre.store.spec_get(
                    t2,
                    k2,
                ))
            &&& match r {
                Reply::Single(resp) => resp@ == ok_values_resp(
                    Seq::new(
                        pairs.len(),
                        |i: int|
                            match last_set(pairs.take(i), pairs[i].key) {
                                Option::Some(v) => v,
                                Option::None => value_or_absent(
                                    pre.store.spec_get(table, pairs[i].key),
                                ),
                            },
                    ),
                ),
                Reply::Stream(_) => false,
            }
        },
        RequestV::HDel { table, key } => {
            &&& post.hub == pre.hub
            &&& post.store.spec_get(table, key) is None
            &&& (forall|t2: Seq<char>, k2: Seq<char>|
                !(t2 == table && k2 == key) ==> #[trigger] post.store.spec_get(t2, k2)
                    == pre.store.spec_get(t2, k2))
            &&& match r {
                Reply::Single(resp) => resp@ == ok_values_resp(
                    seq![value_or_absent(pre.store.spec_get(table, key))],
                ),
                Reply::Stream(_) => false,
            }
        },
        RequestV::HMDel { table, keys } => {
            &&& post.hub == pre.hub
            &&& (forall|k2: Seq<char>|
                #[trigger] post.store.spec_get(table, k2) == (if among(keys, k2) {
                    Option::None
                } else {
                    pre.store.spec_get(table, k2)
                }))
            &&& (forall|t2: Seq<char>, k2: Seq<char>|
                t2 != table ==> #[trigger] post.store.spec_get(t2, k2) == pre.store.spec_get(
                    t2,
                    k2,
                ))
            &&& match r {
                Reply::Single(resp) => resp@ == ok_values_resp(
                    Seq::new(
                        keys.len(),
                        |i: int|
                            if among(keys.take(i), keys[i]) {
                                ValueV::Absent
                            } else {
                                value_or_absent(pre.store.spec_get(table, keys[i]))
                            },
                    ),
                ),
                Reply::Stream(_) => false,
            }
        },
        RequestV::HExist { table, key } => {
            &&& post == pre
            &&& match r {
                Reply::Single(resp) => resp@ == ok_values_resp(
                    seq![ValueV::Bool(pre.store.spec_get(table, key) is Some)],
                ),
                Reply::Stream(_) => false,
            }
        },
        RequestV::HMExist { table, keys } => {
            &&& post == pre
            &&& match r {
                Reply::Single(resp) => resp@ == ok_values_resp(
                    Seq::new(
                        keys.len(),
                        |i: int| ValueV::Bool(pre.store.spec_get(table, keys[i]) is Some),
                    ),
                ),
                Reply::Stream(_) => false,
            }
        },
        RequestV::Subscribe { topic } => {
            &&& post.store == pre.store
            &&& post.hub.spec_next_id() == pre.hub.spec_next_id() + 1
            &&& post.hub.sub_ids() == pre.hub.sub_ids().push(pre.hub.spec_next_id())
            &&& post.hub.topic_ids(topic) == pre.hub.topic_ids(topic).push(pre.hub.spec_next_id())
            &&& !pre.hub.sub_ids().contains(pre.hub.spec_next_id())
            &&& (forall|t2: Seq<char>|
                t2 != topic ==> #[trigger] post.hub.topic_ids(t2) == pre.hub.topic_ids(t2))
            &&& r is Stream
        },
        RequestV::Unsubscribe { topic, id } => {
            &&& post.store == pre.store
            &&& post.hub.spec_next_id() == pre.hub.spec_next_id()
            &&& post.hub.topic_ids(topic) == without(pre.hub.topic_ids(topic), seq![id])
            &&& post.hub.sub_ids() == without(pre.hub.sub_ids(), seq![id])
            &&& (forall|t2: Seq<char>|
                t2 != topic ==> #[trigger] post.hub.topic_ids(t2) == pre.hub.topic_ids(t2))
            &&& match r {
                Reply::Single(resp) => resp@ == (if pre.hub.topic_ids(topic).contains(id)
                    || pre.hub.sub_ids().contains(id) {
                    ok_values_resp(Seq::empty())
                } else {
                    unsub_missing_resp(id)
                }),
                Reply::Stream(_) => false,
            }
        },
        RequestV::Publish { topic, values } => {
            &&& post.store == pre.store
            &&& post.hub.spec_next_id() == pre.hub.spec_next_id()
            &&& published(pre.hub, post.hub, topic)
            &&& (forall|t2: Seq<char>|
                t2 != topic ==> #[trigger] post.hub.topic_ids(t2) == pre.hub.topic_ids(t2))
            &&& match r {
                Reply::Single(resp) => resp@ == ok_values_resp(Seq::empty()),
                Reply::Stream(_) => false,
            }
        },
    }
}

#[verifier::spinoff_prover]
#[verifier::rlimit(100)]
proof fn lemma_executed_publish(
    pre: Service,
    topic: Seq<char>,
    values: Seq<ValueV>,
    r: Reply,
    post: Service,
)
    requires
        post.store == pre.store,
        post.hub.spec_next_id() == pre.hub.spec_next_id(),
        published(pre.hub, post.hub, topic),
        forall|t2: Seq<char>|
            t2 != topic ==> #[trigger] post.hub.topic_ids(t2) == pre.hub.topic_ids(t2),
        r is Single,
        r->Single_0@ == ok_values_resp(Seq::empty()),
    ensures
        executed(pre, RequestV::Publish { topic, values }, r, post),
{
}

fn digit_str(d: u32) -> (r: &'static str)
    requires
        d < 10,
    ensures
        r@ == seq![(('0' as u8) + d as u8) as char],
{
    if d == 0 {
        proof {
            reveal_strlit("0");
            assert(("0")@ =~= seq![(('0' as u8) + d as u8) as char]);
        }
        "0"
    } else if d == 1 {
        proof {
            reveal_strlit("1");
            assert(("1")@ =~= seq![(('0' as u8) + d as u8) as char]);
        }
        "1"
    } else if d == 2 {
        proof {
            reveal_strlit("2");
            assert(("2")@ =~= seq![(('0' as u8) + d as u8) as char]);
        }
        "2"
    } else if d == 3 {
        proof {
            reveal_strlit("3");
            assert(("3")@ =~= seq![(('0' as u8) + d as u8) as char]);
        }
        "3"
    } else if d == 4 {
        proof {
            reveal_strlit("4");
            assert(("4")@ =~= seq![(('0' as u8) + d as u8) as char]);
        }
        "4"
    } else if d == 5 {
        proof {
            reveal_strlit("5");
            assert(("5")@ =~= seq![(('0' as u8) + d as u8) as char]);
        }
        "5"
    } else if d == 6 {
        proof {
            reveal_strlit("6");
            assert(("6")@ =~= seq![(('0' as u8) + d as u8) as char]);
        }
        "6"
    } else if d == 7 {
        proof {
            reveal_strlit("7");
            assert(("7")@ =~= seq![(('0' as u8) + d as u8) as char]);
        }
        "7"
    } else if d == 8 {
        proof {
            reveal_strlit("8");
            assert(("8")@ =~= seq![(('0' as u8) + d as u8) as char]);
        }
        "8"
    } else {
        proof {
            reveal_strlit("9");
            assert(("9")@ =~= seq![(('0' as u8) + d as u8) as char]);
        }
        "9"
    }
}

/// The decimal digits of the value, most significant first.
fn u32_decimal(n: u32) -> (r: String)
    ensures
        r@ == dec_digits(n as nat),
    decreases n,
{
    if n < 10 {
        let d = digit_str(n);
        d.to_owned()
    } else {
        let mut s = u32_decimal(n / 10);
        s.append(digit_str(n % 10));
        proof {
            assert(s@ =~= dec_digits(n as nat));
        }
        s
    }
}

fn not_found_response(table: &String, key: &String) -> (r: CommandResponse)
    ensures
        r@ == not_found_resp(table@, key@),
{
    let mut msg = String::from_str("Not found for table ");
    msg.append(table.as_str());
    msg.append(", key ");
    msg.append(key.as_str());
    proof {
        assert(msg@ =~= not_found_msg(table@, key@));
    }
    let r = CommandResponse::with_status(STATUS_NOT_FOUND, msg);
    proof {
        assert(r@ =~= not_found_resp(table@, key@));
    }
    r
}

fn unsub_missing_response(id: u32) -> (r: CommandResponse)
    ensures
        r@ == unsub_missing_resp(id),
{
    let mut msg = String::from_str("Not found: subscription ");
    let digits = u32_decimal(id);
    msg.append(digits.as_str());
    proof {
        assert(msg@ =~= unsub_missing_msg(id));
    }
    let r = CommandResponse::with_status(STATUS_NOT_FOUND, msg);
    proof {
        assert(r@ =~= unsub_missing_resp(id));
    }
    r
}

fn value_of(o: Option<Value>) -> (r: Value)
    ensures
        r@ == value_or_absent(match o {
            Option::Some(v) => Option::Some(v@),
            Option::None => Option::None,
        }),
{
    match o {
        Some(v) => v,
        None => Value::Absent,
    }
}

impl Service {
    /// Routes one decoded request, returning its reply and stepping the
    /// service state exactly as `executed` describes.
    #[verifier::spinoff_prover]
    #[verifier::rlimit(100)]
    pub fn execute(&mut self, req: CommandRequest) -> (r: Reply)
        requires
            old(self).wf(),
            req@ is Subscribe ==> old(self).hub.spec_next_id() < u32::MAX,
        ensures
            final(self).wf(),
            executed(*old(self), req@, r, *final(self)),
            final(self).hub.spec_next_id() <= old(self).hub.spec_next_id() + 1,
    {
        match req {
            CommandRequest::HGet { table, key } => {
                let resp = match self.store.get(&table, &key) {
                    Some(v) => {
                        let mut vals: Vec<Value> = Vec::new();
                        vals.push(v);
                        let resp = CommandResponse::ok_with_values(vals);
                        proof {
                            assert(resp@.values =~= seq![
                                self.store.spec_get(table@, key@)->Some_0,
                            ]);
                        }
                        resp
                    },
                    None => not_found_response(&table, &key),
                };
                {
                    let reply = Reply::Single(resp);
                    proof {
                        assert(executed(*old(self), req@, reply, *self));
                    }
                    reply
                }
            },
            CommandRequest::HGetAll { table } => {
                let pairs = self.store.get_all(&table);
                let reply = Reply::Single(CommandResponse::ok_with_pairs(pairs));
                proof {
                    assert(executed(*old(self), req@, reply, *self));
                }
                reply
            },
            CommandRequest::HMGet { table, keys } => {
                let ghost kv = views_of(keys@);
                let mut vals: Vec<Value> = Vec::new();
                let mut i: usize = 0;
                while i < keys.len()
                    invariant
                        i <= keys@.len(),
                        kv == views_of(keys@),
                        self == old(self),
                        vals@.len() == i,
                        forall|j: int|
                            0 <= j < i ==> vals@[j]@ == value_or_absent(
                                self.store.spec_get(table@, #[trigger] kv[j]),
                            ),
                    decreases keys@.len() - i,
                {
                    let v = value_of(self.store.get(&table, &keys[i]));
                    vals.push(v);
                    proof {
                        assert(kv[i as int] == keys@[i as int]@);
                    }
                    i = i + 1;
                }
                let resp = CommandResponse::ok_with_values(vals);
                proof {
                    assert(resp@.values =~= Seq::new(
                        kv.len(),
                        |j: int| value_or_absent(self.store.spec_get(table@, kv[j])),
                    ));
                }
                {
                    let reply = Reply::Single(resp);
                    proof {
                        assert(executed(*old(self), req@, reply, *self));
                    }
                    reply
                }
            },
            CommandRequest::HSet { table, pair } => {
                let prev = self.store.set(&table, &pair.key, pair.value);
                let mut vals: Vec<Value> = Vec::new();
                vals.push(value_of(prev));
                let resp = CommandResponse::ok_with_values(vals);
                proof {
                    assert(resp@.values =~= seq![
                        value_or_absent(old(self).store.spec_get(table@, pair@.key)),
                    ]);
                }
                {
                    let reply = Reply::Single(resp);
                    proof {
                        assert(executed(*old(self), req@, reply, *self));
                    }
                    reply
                }
            },
            CommandRequest::HMSet { table, pairs } => {
                let ghost pv = views_of(pairs@);
                let ghost pre = *self;
                let mut prevs: Vec<Value> = Vec::new();
                let mut i: usize = 0;
                while i < pairs.len()
                    invariant
                        i <= pairs@.len(),
                        pv == views_of(pairs@),
                        pre.wf(),
                        self.store.wf(),
                        self.hub == pre.hub,
                        prevs@.len() == i,
                        forall|k2: Seq<char>|
                            #[trigger] self.store.spec_get(table@, k2) == (match last_set(
                                pv.take(i as int),
                                k2,
                            ) {
                                Option::Some(v) => Option::Some(v),
                                Option::None => pre.store.spec_get(table@, k2),
                            }),
                        forall|t2: Seq<char>, k2: Seq<char>|
                            t2 != table@ ==> #[trigger] self.store.spec_get(t2, k2)
                                == pre.store.spec_get(t2, k2),
                        forall|j: int|
                            0 <= j < i ==> prevs@[j]@ == (match last_set(
                                pv.take(j),
                                #[trigger] pv[j].key,
                            ) {
                                Option::Some(v) => v,
                                Option::None => value_or_absent(
                                    pre.store.spec_get(table@, pv[j].key),
                                ),
                            }),
                    decreases pairs@.len() - i,
                {
                    proof {
                        assert(pv[i as int] == pairs@[i as int]@);
                    }
                    let ghost mid = *self;
                    let p = &pairs[i];
                    let prev = self.store.set(&table, &p.key, p.value.dup());
                    prevs.push(value_of(prev));
                    proof {
                        assert(pv.take(i + 1 as int).drop_last() =~= pv.take(i as int));
                        assert(pv.take(i + 1 as int).last() == pv[i as int]);
                        assert forall|k2: Seq<char>|
                            true implies #[trigger] self.store.spec_get(table@, k2) == (
                        match last_set(pv.take(i + 1 as int), k2) {
                            Option::Some(v) => Option::Some(v),
                            Option::None => pre.store.spec_get(table@, k2),
                        }) by {
                            if k2 == pv[i as int].key {
                            } else {
                                assert(mid.store.spec_get(table@, k2) == self.store.spec_get(
                                    table@,
                                    k2,
                                ));
                            }
                        }
                    }
                    i = i + 1;
                }
                proof {
                    assert(pv.take(pairs@.len() as int) =~= pv);
                }
                let resp = CommandResponse::ok_with_values(prevs);
                proof {
                    assert(resp@.values =~= Seq::new(
                        pv.len(),
                        |j: int|
                            match last_set(pv.take(j), pv[j].key) {
                                Option::Some(v) => v,
                                Option::None => value_or_absent(
                                    pre.store.spec_get(table@, pv[j].key),
                                ),
                            },
                    ));
                }
                {
                    let reply = Reply::Single(resp);
                    proof {
                        assert(executed(*old(self), req@, reply, *self));
                    }
                    reply
                }
            },
            CommandRequest::HDel { table, key } => {
                let prev = self.store.del(&table, &key);
                let mut vals: Vec<Value> = Vec::new();
                vals.push(value_of(prev));
                let resp = CommandResponse::ok_with_values(vals);
                proof {
                    assert(resp@.values =~= seq![
                        value_or_absent(old(self).store.spec_get(table@, key@)),
                    ]);
                }
                {
                    let reply = Reply::Single(resp);
                    proof {
                        assert(executed(*old(self), req@, reply, *self));
                    }
                    reply
                }
            },
            CommandRequest::HMDel { table, keys } => {
                let ghost kv = views_of(keys@);
                let ghost pre = *self;
                let mut prevs: Vec<Value> = Vec::new();
                let mut i: usize = 0;
                while i < keys.len()
                    invariant
                        i <= keys@.len(),
                        kv == views_of(keys@),
                        pre.wf(),
                        self.store.wf(),
                        self.hub == pre.hub,
                        prevs@.len() == i,
                        forall|k2: Seq<char>|
                            #[trigger] self.store.spec_get(table@, k2) == (if among(
                                kv.take(i as int),
                                k2,
                            ) {
                                Option::None
                            } else {
                                pre.store.spec_get(table@, k2)
                            }),
                        forall|t2: Seq<char>, k2: Seq<char>|
                            t2 != table@ ==> #[trigger] self.store.spec_get(t2, k2)
                                == pre.store.spec_get(t2, k2),
                        forall|j: int|
                            0 <= j < i ==> prevs@[j]@ == (if among(kv.take(j), #[trigger] kv[j]) {
                                ValueV::Absent
                            } else {
                                value_or_absent(pre.store.spec_get(table@, kv[j]))
                            }),
                    decreases keys@.len() - i,
                {
                    proof {
                        assert(kv[i as int] == keys@[i as int]@);
                    }
                    let ghost mid = *self;
                    let prev = self.store.del(&table, &keys[i]);
                    prevs.push(value_of(prev));
                    proof {
                        assert(kv.take(i + 1 as int).drop_last() =~= kv.take(i as int));
                        assert(kv.take(i + 1 as int).last() == kv[i as int]);
                        assert forall|k2: Seq<char>|
                            true implies #[trigger] self.store.spec_get(table@, k2) == (if among(
                            kv.take(i + 1 as int),
                            k2,
                        ) {
                            Option::None
                        } else {
                            pre.store.spec_get(table@, k2)
                        }) by {
                            if k2 == kv[i as int] {
                            } else {
                                assert(mid.store.spec_get(table@, k2) == self.store.spec_get(
                                    table@,
                                    k2,
                                ));
                            }
                        }
                    }
                    i = i + 1;
                }
                proof {
                    assert(kv.take(keys@.len() as int) =~= kv);
                }
                let resp = CommandResponse::ok_with_values(prevs);
                proof {
                    assert(resp@.values =~= Seq::new(
                        kv.len(),
                        |j: int|
                            if among(kv.take(j), kv[j]) {
                                ValueV::Absent
                            } else {
                                value_or_absent(pre.store.spec_get(table@, kv[j]))
                            },
                    ));
                }
                {
                    let reply = Reply::Single(resp);
                    proof {
                        assert(executed(*old(self), req@, reply, *self));
                    }
                    reply
                }
            },
            CommandRequest::HExist { table, key } => {
                let present = self.store.contains(&table, &key);
                let mut vals: Vec<Value> = Vec::new();
                vals.push(Value::Bool(present));
                let resp = CommandResponse::ok_with_values(vals);
                proof {
                    assert(resp@.values =~= seq![
                        ValueV::Bool(self.store.spec_get(table@, key@) is Some),
                    ]);
                }
                {
                    let reply = Reply::Single(resp);
                    proof {
                        assert(executed(*old(self), req@, reply, *self));
                    }
                    reply
                }
            },
            CommandRequest::HMExist { table, keys } => {
                let ghost kv = views_of(keys@);
                let mut vals: Vec<Value> = Vec::new();
                let mut i: usize = 0;
                while i < keys.len()
                    invariant
                        i <= keys@.len(),
                        kv == views_of(keys@),
                        self == old(self),
                        vals@.len() == i,
                        forall|j: int|
                            0 <= j < i ==> vals@[j]@ == ValueV::Bool(
                                self.store.spec_get(table@, #[trigger] kv[j]) is Some,
                            ),
                    decreases keys@.len() - i,
                {
                    let present = self.store.contains(&table, &keys[i]);
                    vals.push(Value::Bool(present));
                    proof {
                        assert(kv[i as int] == keys@[i as int]@);
                    }
                    i = i + 1;
                }
                let resp = CommandResponse::ok_with_values(vals);
                proof {
                    assert(resp@.values =~= Seq::new(
                        kv.len(),
                        |j: int| ValueV::Bool(self.store.spec_get(table@, kv[j]) is Some),
                    ));
                }
                {
                    let reply = Reply::Single(resp);
                    proof {
                        assert(executed(*old(self), req@, reply, *self));
                    }
                    reply
                }
            },
            CommandRequest::Subscribe { topic } => {
                proof {
                    assert(req@ is Subscribe);
                }
                let (_id, rx) = self.hub.subscribe(&topic);
                {
                    let reply = Reply::Stream(rx);
                    proof {
                        assert(executed(*old(self), req@, reply, *self));
                    }
                    reply
                }
            },
            CommandRequest::Unsubscribe { topic, id } => {
                let known = self.hub.unsubscribe(&topic, id);
                let resp = if known {
                    let r = CommandResponse::ok_with_values(Vec::new());
                    proof {
                        assert(r@.values =~= Seq::<ValueV>::empty());
                    }
                    r
                } else {
                    unsub_missing_response(id)
                };
                {
                    let reply = Reply::Single(resp);
                    proof {
                        assert(executed(*old(self), req@, reply, *self));
                    }
                    reply
                }
            },
            CommandRequest::Publish { topic, values } => {
                self.hub.publish(&topic, values);
                proof {
                    assert(published(old(self).hub, self.hub, topic@));
                }
                let r = CommandResponse::ok_with_values(Vec::new());
                proof {
                    assert(r@.values =~= Seq::<ValueV>::empty());
                    assert(r@ == ok_values_resp(Seq::<ValueV>::empty()));
                }
                {
                    let reply = Reply::Single(r);
                    proof {
                        assert(req@ == (RequestV::Publish {
                            topic: topic@,
                            values: views_of(values@),
                        }));
                        lemma_executed_publish(
                            *old(self),
                            topic@,
                            views_of(values@),
                            reply,
                            *self,
                        );
                        assert(executed(*old(self), req@, reply, *self));
                    }
                    reply
                }
            },
        }
    }

    /// Handles a batch of requests strictly in order: the reply at each
    /// position answers the request at that position, and the service
    /// steps through the intermediate states one request at a time.
    pub fn execute_all(&mut self, reqs: Vec<CommandRequest>) -> (r: Vec<Reply>)
        requires
            old(self).wf(),
            old(self).hub.spec_next_id() + reqs@.len() <= u32::MAX,
        ensures
            final(self).wf(),
            r@.len() == reqs@.len(),
            exists|states: Seq<Service>|
                {
                    &&& states.len() == reqs@.len() + 1
                    &&& states[0] == *old(self)
                    &&& states[reqs@.len() as int] == *final(self)
                    &&& (forall|i: int|
                        0 <= i < reqs@.len() ==> #[trigger] executed(
                            states[i],
                            reqs@[i]@,
                            r@[i],
                            states[i + 1],
                        ))
                },
    {
        let ghost n = reqs@.len();
        let mut replies: Vec<Reply> = Vec::new();
        let ghost mut states: Seq<Service> = seq![*self];
        let ghost mut done: Seq<CommandRequest> = Seq::empty();
        let mut reqs = reqs;
        let mut i: usize = 0;
        let ghost reqs0 = reqs@;
        proof {
            assert(done + reqs@ =~= reqs0);
        }
        while reqs.len() > 0
            invariant
                self.wf(),
                i + reqs@.len() == n,
                done.len() == i,
                done + reqs@ == reqs0,
                self.hub.spec_next_id() + reqs@.len() <= u32::MAX,
                replies@.len() == i,
                states.len() == i + 1,
                states[0] == *old(self),
                states[i as int] == *self,
                forall|j: int|
                    0 <= j < i ==> #[trigger] executed(states[j], reqs0[j]@, replies@[j], states[j
                        + 1]),
            decreases reqs@.len(),
        {
            let ghost rv = reqs@;
            let req = reqs.remove(0);
            proof {
                assert(rv =~= seq![req] + reqs@);
                assert(reqs0[i as int] == req) by {
                    assert(reqs0[i as int] == rv[0]);
                }
                assert(done.push(req) + reqs@ =~= reqs0);
                done = done.push(req);
            }
            let reply = self.execute(req);
            replies.push(reply);
            proof {
                states = states.push(*self);
            }
            i = replies.len();
        }
        proof {
            assert(states[n as int] == *self);
        }
        replies
    }
}

} // verus!
