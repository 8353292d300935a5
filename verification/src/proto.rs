use vstd::prelude::*;

verus! {

/// Status code for a successful command.
pub const STATUS_OK: u32 = 200;

/// Status code for a command whose subject was not found.
pub const STATUS_NOT_FOUND: u32 = 404;

/// Status code for a malformed command.
pub const STATUS_INVALID: u32 = 422;

/// Status code for an internal failure.
pub const STATUS_INTERNAL: u32 = 500;

/// A stored value. Floating-point values are carried as their IEEE-754
/// bit pattern, so that the core never computes on them and a value
/// round-trips through the wire exactly.
#[derive(Debug, PartialEq)]
pub enum Value {
    /// Signed 64-bit integer.
    Int(i64),
    /// Double-precision float, as its raw bit pattern.
    Double(u64),
    /// UTF-8 string.
    Str(String),
    /// Raw byte blob.
    Blob(Vec<u8>),
    /// Boolean.
    Bool(bool),
    /// No value.
    Absent,
}

/// The mathematical shape of a `Value`.
pub enum ValueV {
    Int(i64),
    Double(u64),
    Str(Seq<char>),
    Blob(Seq<u8>),
    Bool(bool),
    Absent,
}

impl View for Value {
    type V = ValueV;

    open spec fn view(&self) -> ValueV {
        match self {
            Value::Int(i) => ValueV::Int(*i),
            Value::Double(b) => ValueV::Double(*b),
            Value::Str(s) => ValueV::Str(s@),
            Value::Blob(b) => ValueV::Blob(b@),
            Value::Bool(b) => ValueV::Bool(*b),
            Value::Absent => ValueV::Absent,
        }
    }
}

impl Value {
    /// A copy with the same mathematical value.
    pub fn dup(&self) -> (r: Value)
        ensures
            r@ == self@,
    {
        match self {
            Value::Int(i) => Value::Int(*i),
            Value::Double(b) => Value::Double(*b),
            Value::Str(s) => Value::Str(s.clone()),
            Value::Blob(b) => Value::Blob(b.clone()),
            Value::Bool(b) => Value::Bool(*b),
            Value::Absent => Value::Absent,
        }
    }
}

/// A `(key, value)` pair, with an optional absolute expiration time in
/// milliseconds since the epoch.
#[derive(Debug, PartialEq)]
pub struct Kvpair {
    pub key: String,
    pub value: Value,
    pub expires: Option<u64>,
}

/// The mathematical shape of a `Kvpair`.
pub struct KvpairV {
    pub key: Seq<char>,
    pub value: ValueV,
    pub expires: Option<u64>,
}

impl View for Kvpair {
    type V = KvpairV;

    open spec fn view(&self) -> KvpairV {
        KvpairV { key: self.key@, value: self.value@, expires: self.expires }
    }
}

impl Kvpair {
    /// A copy with the same mathematical value.
    pub fn dup(&self) -> (r: Kvpair)
        ensures
            r@ == self@,
    {
        Kvpair { key: self.key.clone(), value: self.value.dup(), expires: self.expires }
    }
}

/// The views of the elements of a vector.
pub open spec fn views_of<T: View>(s: Seq<T>) -> Seq<T::V> {
    s.map_values(|x: T| x@)
}

/// A decoded command request.
#[derive(Debug, PartialEq)]
pub enum CommandRequest {
    HGet { table: String, key: String },
    HGetAll { table: String },
    HMGet { table: String, keys: Vec<String> },
    HSet { table: String, pair: Kvpair },
    HMSet { table: String, pairs: Vec<Kvpair> },
    HDel { table: String, key: String },
    HMDel { table: String, keys: Vec<String> },
    HExist { table: String, key: String },
    HMExist { table: String, keys: Vec<String> },
    Subscribe { topic: String },
    Unsubscribe { topic: String, id: u32 },
    Publish { topic: String, values: Vec<Value> },
}

/// The mathematical shape of a `CommandRequest`.
pub enum RequestV {
    HGet { table: Seq<char>, key: Seq<char> },
    HGetAll { table: Seq<char> },
    HMGet { table: Seq<char>, keys: Seq<Seq<char>> },
    HSet { table: Seq<char>, pair: KvpairV },
    HMSet { table: Seq<char>, pairs: Seq<KvpairV> },
    HDel { table: Seq<char>, key: Seq<char> },
    HMDel { table: Seq<char>, keys: Seq<Seq<char>> },
    HExist { table: Seq<char>, key: Seq<char> },
    HMExist { table: Seq<char>, keys: Seq<Seq<char>> },
    Subscribe { topic: Seq<char> },
    Unsubscribe { topic: Seq<char>, id: u32 },
    Publish { topic: Seq<char>, values: Seq<ValueV> },
}

impl View for CommandRequest {
    type V = RequestV;

    open spec fn view(&self) -> RequestV {
        match self {
            CommandRequest::HGet { table, key } => RequestV::HGet { table: table@, key: key@ },
            CommandRequest::HGetAll { table } => RequestV::HGetAll { table: table@ },
            CommandRequest::HMGet { table, keys } => RequestV::HMGet {
                table: table@,
                keys: views_of(keys@),
            },
            CommandRequest::HSet { table, pair } => RequestV::HSet {
                table: table@,
                pair: pair@,
            },
            CommandRequest::HMSet { table, pairs } => RequestV::HMSet {
                table: table@,
                pairs: views_of(pairs@),
            },
            CommandRequest::HDel { table, key } => RequestV::HDel { table: table@, key: key@ },
            CommandRequest::HMDel { table, keys } => RequestV::HMDel {
                table: table@,
                keys: views_of(keys@),
            },
            CommandRequest::HExist { table, key } => RequestV::HExist {
                table: table@,
                key: key@,
            },
            CommandRequest::HMExist { table, keys } => RequestV::HMExist {
                table: table@,
                keys: views_of(keys@),
            },
            CommandRequest::Subscribe { topic } => RequestV::Subscribe { topic: topic@ },
            CommandRequest::Unsubscribe { topic, id } => RequestV::Unsubscribe {
                topic: topic@,
                id: *id,
            },
            CommandRequest::Publish { topic, values } => RequestV::Publish {
                topic: topic@,
                values: views_of(values@),
            },
        }
    }
}

/// A command response: a status, a diagnostic message, and result
/// values and pairs.
#[derive(Debug, PartialEq)]
pub struct CommandResponse {
    pub status: u32,
    pub message: String,
    pub values: Vec<Value>,
    pub pairs: Vec<Kvpair>,
}

/// The mathematical shape of a `CommandResponse`.
pub struct ResponseV {
    pub status: u32,
    pub message: Seq<char>,
    pub values: Seq<ValueV>,
    pub pairs: Seq<KvpairV>,
}

impl View for CommandResponse {
    type V = ResponseV;

    open spec fn view(&self) -> ResponseV {
        ResponseV {
            status: self.status,
            message: self.message@,
            values: views_of(self.values@),
            pairs: views_of(self.pairs@),
        }
    }
}

impl CommandResponse {
    /// A copy with the same mathematical value.
    pub fn dup(&self) -> (r: CommandResponse)
        ensures
            r@ == self@,
    {
        let mut values: Vec<Value> = Vec::new();
        let mut i: usize = 0;
        while i < self.values.len()
            invariant
                i <= self.values.len(),
                values@.len() == i as int,
                forall|j: int| 0 <= j < i ==> values@[j]@ == self.values@[j]@,
            decreases self.values.len() - i,
        {
            values.push(self.values[i].dup());
            i = i + 1;
        }
        let mut pairs: Vec<Kvpair> = Vec::new();
        let mut k: usize = 0;
        while k < self.pairs.len()
            invariant
                k <= self.pairs.len(),
                pairs@.len() == k as int,
                forall|j: int| 0 <= j < k ==> pairs@[j]@ == self.pairs@[j]@,
            decreases self.pairs.len() - k,
        {
            pairs.push(self.pairs[k].dup());
            k = k + 1;
        }
        let r = CommandResponse {
            status: self.status,
            message: self.message.clone(),
            values,
            pairs,
        };
        proof {
            assert(views_of(r.values@) =~= views_of(self.values@));
            assert(views_of(r.pairs@) =~= views_of(self.pairs@));
        }
        r
    }

    /// A successful response carrying the given values.
    pub fn ok_with_values(values: Vec<Value>) -> (r: CommandResponse)
        ensures
            r@.status == STATUS_OK,
            r@.message == Seq::<char>::empty(),
            r@.values == views_of(values@),
            r@.pairs == Seq::<KvpairV>::empty(),
    {
        let r = CommandResponse { status: STATUS_OK, message: String::new(), values, pairs: Vec::new() };
        proof {
            assert(views_of(r.pairs@) =~= Seq::<KvpairV>::empty());
        }
        r
    }

    /// A successful response carrying the given pairs.
    pub fn ok_with_pairs(pairs: Vec<Kvpair>) -> (r: CommandResponse)
        ensures
            r@.status == STATUS_OK,
            r@.message == Seq::<char>::empty(),
            r@.values == Seq::<ValueV>::empty(),
            r@.pairs == views_of(pairs@),
    {
        let r = CommandResponse { status: STATUS_OK, message: String::new(), values: Vec::new(), pairs };
        proof {
            assert(views_of(r.values@) =~= Seq::<ValueV>::empty());
        }
        r
    }

    /// A response with a status and a message and no payload.
    pub fn with_status(status: u32, message: String) -> (r: CommandResponse)
        ensures
            r@.status == status,
            r@.message == message@,
            r@.values == Seq::<ValueV>::empty(),
            r@.pairs == Seq::<KvpairV>::empty(),
    {
        let r = CommandResponse { status, message, values: Vec::new(), pairs: Vec::new() };
        proof {
            assert(views_of(r.values@) =~= Seq::<ValueV>::empty());
            assert(views_of(r.pairs@) =~= Seq::<KvpairV>::empty());
        }
        r
    }
}

} // verus!
