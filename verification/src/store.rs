//! The message store: a durable mapping from identifier to message record,
//! with point insert, point lookup and point delete. Records are kept as
//! their stable encoding; the store's invariant says every stored byte
//! string is exactly one encoded record whose id is its key.

use vstd::prelude::*;
use vstd::pervasive::unreached;
use crate::codec::check_record_fits;
use crate::codec::dec_record;
use crate::codec::decode_record;
use crate::codec::encode_record;
use crate::codec::lemma_dec_enc_record;
use crate::codec::record_fits;
use crate::stable::byte_map_contents;
use crate::stable::byte_map_get;
use crate::stable::byte_map_insert;
use crate::stable::byte_map_keys;
use crate::stable::byte_map_remove;
use crate::stable::StableByteMap;
use crate::types::CoffeeMessage;
use crate::types::CoffeeMessageView;
use crate::types::Error;
use crate::types::ErrorKind;

verus! {

/// Whether loaded byte contents are what this library persists: every
/// stored value decodes to a record whose id is its key, fits the size
/// bound, and carries an id the counter has issued (nonzero, at most
/// `last_id`).
pub open spec fn loadable(c: Map<u64, Seq<u8>>, last_id: u64) -> bool {
    forall|k: u64| #[trigger] c.dom().contains(k) ==> {
        &&& dec_record(c[k]) is Some
        &&& dec_record(c[k]).unwrap().id == k
        &&& record_fits(dec_record(c[k]).unwrap())
        &&& 1 <= k && k <= last_id
    }
}

/// Durable mapping from id to message record.
pub struct MessageStore {
    map: StableByteMap,
}

impl MessageStore {
    /// The stored bytes, keyed by id.
    pub closed spec fn contents(&self) -> Map<u64, Seq<u8>> {
        byte_map_contents(self.map)
    }

    /// Every stored value decodes to a record whose id is its key and which
    /// fits the size bound.
    pub open spec fn wf(&self) -> bool {
        forall|k: u64| #[trigger]
            self.contents().dom().contains(k) ==> {
                &&& dec_record(self.contents()[k]) is Some
                &&& dec_record(self.contents()[k]).unwrap().id == k
                &&& record_fits(dec_record(self.contents()[k]).unwrap())
            }
    }

    /// Build the store from a byte map as the durable layer handed it over,
    /// validating every entry: each must decode to a record whose id is its
    /// key, fit the size bound, and carry an issued id (nonzero, at most
    /// `last_id`). Any violation is malformed stored data — a fatal error,
    /// and exactly then.
    pub fn from_map(map: StableByteMap, last_id: u64) -> (r: Result<MessageStore, Error>)
        ensures
            match r {
                Ok(s) => {
                    &&& s.wf()
                    &&& s.contents() == byte_map_contents(map)
                    &&& loadable(byte_map_contents(map), last_id)
                    &&& forall|k: u64| #[trigger] s@.dom().contains(k) ==> 1 <= k && k <= last_id
                },
                Err(e) => {
                    &&& e.kind == ErrorKind::Fatal
                    &&& !loadable(byte_map_contents(map), last_id)
                },
            },
    {
        let keys = byte_map_keys(&map);
        let store = MessageStore { map };
        let c = Ghost(store.contents());
        let mut i: usize = 0;
        while i < keys.len()
            invariant
                i <= keys@.len(),
                c@ == store.contents(),
                c@ == byte_map_contents(map),
                forall|k: u64| #[trigger] c@.dom().contains(k) ==> keys@.contains(k),
                forall|j: int| 0 <= j < keys@.len() ==> c@.dom().contains(#[trigger] keys@[j]),
                forall|j: int| 0 <= j < i ==> entry_ok(c@, #[trigger] keys@[j], last_id),
            decreases keys@.len() - i,
        {
            let k = keys[i];
            let ok = match byte_map_get(&store.map, &k) {
                None => false,
                Some(bytes) => match decode_record(&bytes) {
                    None => false,
                    Some(rec) => rec.id == k && check_record_fits(&rec) && 1 <= k && k <= last_id,
                },
            };
            if !ok {
                return Err(
                    Error { kind: ErrorKind::Fatal, msg: "malformed stored data".to_owned() },
                );
            }
            i = i + 1;
        }
        proof {
            assert forall|k: u64| #[trigger] c@.dom().contains(k) implies entry_ok(
                c@,
                k,
                last_id,
            ) by {
                assert(keys@.contains(k));
                let j = choose|j: int| 0 <= j < keys@.len() && keys@[j] == k;
                assert(entry_ok(c@, keys@[j], last_id));
            }
        }
        Ok(store)
    }

    /// Unconditional upsert of the record under its own id; overwrites
    /// silently if the id is already present.
    pub fn do_insert(&mut self, message: &CoffeeMessage)
        requires
            old(self).wf(),
            record_fits(message@),
        ensures
            final(self).wf(),
            final(self)@ == old(self)@.insert(message.id, message@),
    {
        let bytes = encode_record(message);
        let _prev = byte_map_insert(&mut self.map, message.id, bytes);
        proof {
            lemma_dec_enc_record(message@);
            assert(self@ =~= old(self)@.insert(message.id, message@));
        }
    }

    /// Point lookup; absence, never an error, when the id is unknown.
    pub fn _get_message(&self, id: &u64) -> (r: Option<CoffeeMessage>)
        requires
            self.wf(),
        ensures
            match r {
                Some(m) => self@.dom().contains(*id) && m@ == self@[*id],
                None => !self@.dom().contains(*id),
            },
    {
        match byte_map_get(&self.map, id) {
            None => None,
            Some(bytes) => match decode_record(&bytes) {
                Some(m) => Some(m),
                None => unreached(),
            },
        }
    }

    /// Point delete: removes and returns the prior record if present;
    /// absence if the id was never present or already deleted.
    pub fn remove(&mut self, id: &u64) -> (r: Option<CoffeeMessage>)
        requires
            old(self).wf(),
        ensures
            final(self).wf(),
            final(self)@ == old(self)@.remove(*id),
            match r {
                Some(m) => old(self)@.dom().contains(*id) && m@ == old(self)@[*id],
                None => !old(self)@.dom().contains(*id),
            },
    {
        let prev = byte_map_remove(&mut self.map, id);
        proof {
            assert(self@ =~= old(self)@.remove(*id));
        }
        match prev {
            None => None,
            Some(bytes) => match decode_record(&bytes) {
                Some(m) => Some(m),
                None => unreached(),
            },
        }
    }
}

/// One loaded entry is in order: decodes, keyed by its own id, fits, issued.
pub open spec fn entry_ok(c: Map<u64, Seq<u8>>, k: u64, last_id: u64) -> bool {
    c.dom().contains(k) ==> {
        &&& dec_record(c[k]) is Some
        &&& dec_record(c[k]).unwrap().id == k
        &&& record_fits(dec_record(c[k]).unwrap())
        &&& 1 <= k && k <= last_id
    }
}

impl View for MessageStore {
    type V = Map<u64, CoffeeMessageView>;

    closed spec fn view(&self) -> Map<u64, CoffeeMessageView> {
        Map::new(
            |k: u64| self.contents().dom().contains(k),
            |k: u64| dec_record(self.contents()[k]).unwrap(),
        )
    }
}

} // verus!
