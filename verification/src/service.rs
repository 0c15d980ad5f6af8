//! The service: answers each decoded request against the store.

use vstd::prelude::*;
use crate::memcached::store::{Store, store_get, store_set};
use crate::memcached::types::{
    Command, Key, Reply, ReplyType, ReplyView, Request, RequestView,
};

verus! {

/// The service that answers requests from the store it owns.
pub struct MemcachedService {
    store: Store,
}

impl View for MemcachedService {
    type V = Map<Seq<u8>, Seq<u8>>;

    closed spec fn view(&self) -> Map<Seq<u8>, Seq<u8>> {
        self.store@
    }
}

/// The reply to a `get` of `key` from a store holding `m`.
pub open spec fn get_reply(m: Map<Seq<u8>, Seq<u8>>, key: Seq<u8>) -> ReplyView {
    match store_get(m, key) {
        Some(v) => ReplyView {
            reply_type: ReplyType::Value,
            key: Some(key),
            length: Some(v.len() as u64),
        },
        None => ReplyView { reply_type: ReplyType::NotFound, key: None, length: None },
    }
}

/// The reply to a stored `set`.
pub open spec fn stored_reply() -> ReplyView {
    ReplyView { reply_type: ReplyType::Stored, key: None, length: None }
}

/// Answering `req` against a store holding `m`: the store afterwards and the reply.
pub open spec fn call_spec(m: Map<Seq<u8>, Seq<u8>>, req: RequestView) -> (Map<Seq<u8>, Seq<u8>>, ReplyView) {
    match req.command {
        Command::Get => (m, get_reply(m, req.key)),
        Command::SetValue => (store_set(m, req.key, req.body.unwrap()), stored_reply()),
    }
}

impl MemcachedService {
    /// A service over `store`.
    pub fn new(store: Store) -> (r: Self)
        ensures
            r@ == store@,
    {
        MemcachedService { store: store }
    }

    fn process_get(&self, key: Key) -> (r: Reply)
        ensures
            r@ == get_reply(self@, key@),
    {
        match self.store.get(&key) {
            Some(value) => Reply::value(key, value.len() as u64),
            None => Reply::not_found(),
        }
    }

    fn process_set(&mut self, key: Key, body: Vec<u8>) -> (r: Reply)
        ensures
            final(self)@ == store_set(old(self)@, key@, body@),
            r@ == stored_reply(),
    {
        self.store.set(key, body);
        Reply::stored()
    }

    /// Answers one request; a `set` carries its data.
    pub fn call(&mut self, req: Request) -> (r: Reply)
        requires
            req@.command == Command::SetValue ==> req@.body is Some,
        ensures
            (final(self)@, r@) == call_spec(old(self)@, req@),
    {
        let (command, key, body) = req.into_parts();
        match command {
            Command::Get => self.process_get(key),
            Command::SetValue => {
                let body = match body {
                    Some(b) => b,
                    None => {
                        proof {
                            assert(false);
                        }
                        Vec::new()
                    },
                };
                self.process_set(key, body)
            },
        }
    }
}

/// After a `set` of a key has been answered `STORED`, a `get` of that key is answered
/// with a value reply of the key and the length of the data stored.
pub proof fn law_get_request_after_set_request(m: Map<Seq<u8>, Seq<u8>>, set: RequestView, get: RequestView)
    requires
        set.command == Command::SetValue,
        set.body is Some,
        get.command == Command::Get,
        get.key == set.key,
    ensures
        ({
            let after_set = call_spec(m, set);
            let after_get = call_spec(after_set.0, get);
            &&& after_set.1 == stored_reply()
            &&& after_get.0 == after_set.0
            &&& after_get.1 == (ReplyView {
                reply_type: ReplyType::Value,
                key: Some(set.key),
                length: Some(set.body.unwrap().len() as u64),
            })
        }),
{
}

/// Answering a `set` makes its key hold the request's data and leaves every other key
/// holding what it held, with no key added or dropped besides.
pub proof fn law_set_request_changes_only_its_key(m: Map<Seq<u8>, Seq<u8>>, req: RequestView, other: Seq<u8>)
    requires
        req.command == Command::SetValue,
        req.body is Some,
    ensures
        call_spec(m, req).0.contains_key(req.key),
        call_spec(m, req).0[req.key] == req.body.unwrap(),
        other != req.key ==> (call_spec(m, req).0.contains_key(other) <==> m.contains_key(other)),
        other != req.key && m.contains_key(other) ==> call_spec(m, req).0[other] == m[other],
        call_spec(m, req).1.reply_type == ReplyType::Stored,
{
}

/// Answering a `get` leaves the store exactly as it was, whether or not it holds the
/// key; a key it holds is answered with a value reply of that key and the length of
/// its data, a key it does not hold with a not-found reply.
pub proof fn law_get_request_reads_only(m: Map<Seq<u8>, Seq<u8>>, req: RequestView)
    requires
        req.command == Command::Get,
    ensures
        call_spec(m, req).0 == m,
        m.contains_key(req.key) ==> call_spec(m, req).1 == (ReplyView {
            reply_type: ReplyType::Value,
            key: Some(req.key),
            length: Some(m[req.key].len() as u64),
        }),
        !m.contains_key(req.key) ==> call_spec(m, req).1.reply_type == ReplyType::NotFound,
{
}

} // verus!
