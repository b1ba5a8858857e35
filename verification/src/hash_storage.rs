//! The content-addressed index: a concurrent map from content hash to
//! assigned filename, with atomic insert-if-absent as the deduplication
//! decision point, rebuilt from the durable log at startup.

use vstd::prelude::*;
use vstd::utf8::decode_utf8;
use dashmap::DashMap;
use crate::error::Error;
use crate::hashing::ContentHash;
use crate::log_format::{parse_log, spec_parse_log, spec_parse_ok, entry_matches};

verus! {

/// The in-memory index. The map is shared-state machinery from an outside
/// crate; every operation on it goes through a contract below, phrased over
/// `index_entries`.
#[verifier::external_body]
pub struct HashStorage {
    map: DashMap<Vec<u8>, String>,
}

/// The entries the index holds: content hash bytes to assigned name.
pub uninterp spec fn index_entries(s: HashStorage) -> Map<Seq<u8>, Seq<char>>;

/// The entry map of an index that holds nothing.
pub open spec fn empty_entries() -> Map<Seq<u8>, Seq<char>> {
    Map::empty()
}

/// What one insert-if-absent does to the entries: nothing when the hash is
/// already recorded, else it records the candidate.
pub open spec fn spec_insert_map(
    m: Map<Seq<u8>, Seq<char>>,
    h: Seq<u8>,
    n: Seq<char>,
) -> Map<Seq<u8>, Seq<char>> {
    if m.contains_key(h) {
        m
    } else {
        m.insert(h, n)
    }
}

/// The name an insert-if-absent answers with: the recorded one when the hash
/// is already known, else the candidate.
pub open spec fn spec_chosen_name(m: Map<Seq<u8>, Seq<char>>, h: Seq<u8>, n: Seq<char>) -> Seq<
    char,
> {
    if m.contains_key(h) {
        m[h]
    } else {
        n
    }
}

/// The outcome of an insert-if-absent.
pub enum InsertOutcome {
    /// No entry existed: the candidate name was recorded and a new file must
    /// be stored under it.
    Inserted(String),
    /// The hash was already recorded, possibly by a request that raced
    /// ahead: the existing name is answered and the candidate is discarded.
    AlreadyExists(String),
}

impl InsertOutcome {
    /// The name the caller must advertise, as a character sequence.
    pub open spec fn spec_name(self) -> Seq<char> {
        match self {
            InsertOutcome::Inserted(n) => n@,
            InsertOutcome::AlreadyExists(n) => n@,
        }
    }

    /// The name the caller must advertise.
    pub fn name(&self) -> (r: &String)
        ensures
            r@ == self.spec_name(),
    {
        match self {
            InsertOutcome::Inserted(n) => n,
            InsertOutcome::AlreadyExists(n) => n,
        }
    }
}

/// The index a replayed log stands for: its records in order, later records
/// overriding earlier ones with the same hash.
pub open spec fn log_map(es: Seq<(Seq<u8>, Seq<u8>)>) -> Map<Seq<u8>, Seq<char>>
    decreases es.len(),
{
    if es.len() == 0 {
        Map::empty()
    } else {
        log_map(es.drop_last()).insert(es.last().0, decode_utf8(es.last().1))
    }
}

impl HashStorage {
    /// The entries this index holds, as a mathematical map.
    pub open spec fn entries(self) -> Map<Seq<u8>, Seq<char>> {
        index_entries(self)
    }

    /// An index is well formed when its entry set is finite, as every index
    /// built here is.
    pub open spec fn inv(self) -> bool {
        index_entries(self).dom().finite()
    }

    /// Relies on DashMap::new: a freshly created map has no entries.
    #[verifier::external_body]
    fn new_map() -> (r: HashStorage)
        ensures
            r.entries() == empty_entries(),
    {
        HashStorage { map: DashMap::new() }
    }

    /// Relies on DashMap::get: answers the value recorded under the key, if
    /// any, and changes nothing.
    #[verifier::external_body]
    fn get_name(&self, hash: &ContentHash) -> (r: Option<String>)
        ensures
            (match r {
                Some(n) => self.entries().contains_key(hash@) && n@ == self.entries()[hash@],
                None => !self.entries().contains_key(hash@),
            }),
    {
        self.map.get(hash.as_bytes()).map(|entry| entry.value().clone())
    }

    /// Relies on DashMap::entry: one atomic look-then-insert per key. When
    /// the key is vacant the candidate is recorded and nothing is answered;
    /// when it is occupied the recorded name is answered and the map is
    /// unchanged.
    #[verifier::external_body]
    fn entry_or_existing(&mut self, hash: &ContentHash, name: &String) -> (r: Option<String>)
        ensures
            (match r {
                Some(e) => {
                    &&& old(self).entries().contains_key(hash@)
                    &&& e@ == old(self).entries()[hash@]
                    &&& final(self).entries() == old(self).entries()
                },
                None => {
                    &&& !old(self).entries().contains_key(hash@)
                    &&& final(self).entries() == old(self).entries().insert(hash@, name@)
                },
            }),
    {
        match self.map.entry(hash.as_bytes().clone()) {
            dashmap::mapref::entry::Entry::Occupied(occupied) => Some(occupied.get().clone()),
            dashmap::mapref::entry::Entry::Vacant(vacant) => {
                vacant.insert(name.clone());
                None
            },
        }
    }

    /// Relies on DashMap::insert: the entry is recorded, overwriting any
    /// entry under the same key.
    #[verifier::external_body]
    fn insert_raw(&mut self, hash: &ContentHash, name: &String)
        ensures
            index_entries(*final(self)) == index_entries(*old(self)).insert(hash@, name@),
    {
        self.map.insert(hash.as_bytes().clone(), name.clone());
    }

    /// Relies on DashMap::len: the number of entries held.
    #[verifier::external_body]
    fn map_len(&self) -> (r: usize)
        ensures
            index_entries(*self).dom().finite() ==> r == index_entries(*self).len(),
    {
        self.map.len()
    }

    /// A fresh, empty index.
    pub fn new() -> (r: HashStorage)
        ensures
            r.inv(),
            index_entries(r) == empty_entries(),
    {
        Self::new_map()
    }

    /// Non-blocking read of the name assigned to a hash: the existing name
    /// exactly when the hash was previously recorded.
    pub fn lookup(&self, hash: &ContentHash) -> (r: Option<String>)
        ensures
            index_entries(*self).contains_key(hash@) ==> (r matches Some(n) && n@
                == index_entries(*self)[hash@]),
            !index_entries(*self).contains_key(hash@) ==> r is None,
    {
        self.get_name(hash)
    }

    /// Atomic compare-and-insert, the linchpin that keeps two concurrent
    /// uploads of identical content from storing two copies: records the
    /// candidate only if no entry exists for the hash, and always answers
    /// the name the caller must use. A discarded candidate must never have a
    /// file stored under it.
    pub fn insert_if_absent(&mut self, hash: &ContentHash, candidate: String) -> (r: InsertOutcome)
        ensures
            index_entries(*final(self)) == spec_insert_map(
                index_entries(*old(self)),
                hash@,
                candidate@,
            ),
            old(self).inv() ==> final(self).inv(),
            (match r {
                InsertOutcome::Inserted(n) => !index_entries(*old(self)).contains_key(hash@) && n@
                    == candidate@,
                InsertOutcome::AlreadyExists(n) => index_entries(*old(self)).contains_key(hash@)
                    && n@ == index_entries(*old(self))[hash@],
            }),
            r.spec_name() == spec_chosen_name(index_entries(*old(self)), hash@, candidate@),
    {
        match self.entry_or_existing(hash, &candidate) {
            Some(existing) => InsertOutcome::AlreadyExists(existing),
            None => InsertOutcome::Inserted(candidate),
        }
    }

    /// The number of entries the index holds.
    pub fn len(&self) -> (r: usize)
        requires
            self.inv(),
        ensures
            r == index_entries(*self).len(),
    {
        self.map_len()
    }

    /// Rebuild the index by replaying the durable log's contents in order.
    /// Fails — and startup must abort — if any record is malformed, never
    /// silently dropping one.
    pub fn load_from_file(contents: &Vec<u8>) -> (r: Result<HashStorage, Error>)
        ensures
            match r {
                Ok(s) => {
                    &&& spec_parse_ok(contents@)
                    &&& s.inv()
                    &&& index_entries(s) == log_map(spec_parse_log(contents@)->Some_0)
                },
                Err(e) => e == Error::IndexCorruption && !spec_parse_ok(contents@),
            },
    {
        let entries = match parse_log(contents) {
            Ok(entries) => entries,
            Err(e) => {
                return Err(e);
            },
        };
        let ghost es = spec_parse_log(contents@)->Some_0;
        let mut store = Self::new();
        let mut i: usize = 0;
        while i < entries.len()
            invariant
                i <= entries@.len(),
                entries@.len() == es.len(),
                forall|k: int| 0 <= k < es.len() ==> entry_matches(#[trigger] entries@[k], es[k]),
                store.inv(),
                index_entries(store) == log_map(es.take(i as int)),
            decreases entries@.len() - i,
        {
            let entry = &entries[i];
            proof {
                assert(entry_matches(entries@[i as int], es[i as int]));
                assert(es.take(i + 1).drop_last() =~= es.take(i as int));
                assert(es.take(i + 1).last() == es[i as int]);
            }
            store.insert_raw(&entry.hash, &entry.name);
            i += 1;
        }
        proof {
            assert(es.take(es.len() as int) =~= es);
        }
        Ok(store)
    }
}

/// Dedup idempotence: uploading the same content twice in sequence answers
/// the first upload's name both times and leaves a single entry — the
/// second upload stores nothing.
pub proof fn lemma_dedup_idempotent(
    m: Map<Seq<u8>, Seq<char>>,
    h: Seq<u8>,
    n1: Seq<char>,
    n2: Seq<char>,
)
    requires
        !m.contains_key(h),
    ensures
        ({
            let m1 = spec_insert_map(m, h, n1);
            &&& spec_chosen_name(m, h, n1) == n1
            &&& m1.contains_key(h) && m1[h] == n1
            &&& spec_insert_map(m1, h, n2) == m1
            &&& spec_chosen_name(m1, h, n2) == n1
        }),
{
}

/// The state of the index after `i` of the racing inserts for one hash have
/// been serialized, in order of their candidates.
pub open spec fn spec_after_inserts(
    m: Map<Seq<u8>, Seq<char>>,
    h: Seq<u8>,
    names: Seq<Seq<char>>,
    i: int,
) -> Map<Seq<u8>, Seq<char>>
    decreases i,
{
    if i <= 0 {
        m
    } else {
        spec_insert_map(spec_after_inserts(m, h, names, i - 1), h, names[i - 1])
    }
}

/// Concurrent race safety: however many uploads of identical content race,
/// their inserts serialize; exactly the first one in that order is recorded,
/// and every racer — the winner and every later one — is answered the
/// winner's name, so exactly one file is stored.
pub proof fn lemma_race_single_winner(
    m: Map<Seq<u8>, Seq<char>>,
    h: Seq<u8>,
    names: Seq<Seq<char>>,
    i: int,
)
    requires
        !m.contains_key(h),
        1 <= i <= names.len(),
    ensures
        spec_after_inserts(m, h, names, i) == m.insert(h, names[0]),
        spec_chosen_name(spec_after_inserts(m, h, names, i - 1), h, names[i - 1]) == names[0],
    decreases i,
{
    if i == 1 {
        assert(spec_after_inserts(m, h, names, 0) == m);
        assert(spec_after_inserts(m, h, names, 1) == spec_insert_map(m, h, names[0]));
    } else {
        lemma_race_single_winner(m, h, names, i - 1);
    }
}

/// Distinctness: uploads of two contents with different hashes record two
/// entries; each upload is answered its own candidate, and if the two
/// candidates differ — as the on-disk collision check arranges — the two
/// recorded names differ.
pub proof fn lemma_distinct_entries(
    m: Map<Seq<u8>, Seq<char>>,
    h1: Seq<u8>,
    h2: Seq<u8>,
    n1: Seq<char>,
    n2: Seq<char>,
)
    requires
        !m.contains_key(h1),
        !spec_insert_map(m, h1, n1).contains_key(h2),
    ensures
        ({
            let m1 = spec_insert_map(m, h1, n1);
            let m2 = spec_insert_map(m1, h2, n2);
            &&& h1 != h2
            &&& spec_chosen_name(m, h1, n1) == n1
            &&& spec_chosen_name(m1, h2, n2) == n2
            &&& m2.contains_key(h1) && m2[h1] == n1
            &&& m2.contains_key(h2) && m2[h2] == n2
            &&& (n1 != n2 ==> m2[h1] != m2[h2])
        }),
{
}

/// A replayed log's index is finite, and a hash is recorded in it exactly
/// when some record carries it.
pub proof fn lemma_log_map_keys(es: Seq<(Seq<u8>, Seq<u8>)>)
    ensures
        log_map(es).dom().finite(),
        forall|h: Seq<u8>|
            log_map(es).dom().contains(h) <==> exists|i: int|
                0 <= i < es.len() && (#[trigger] es[i]).0 == h,
    decreases es.len(),
{
    if es.len() > 0 {
        lemma_log_map_keys(es.drop_last());
        assert forall|h: Seq<u8>| log_map(es).dom().contains(h) implies exists|i: int|
            0 <= i < es.len() && (#[trigger] es[i]).0 == h by {
            if h == es.last().0 {
                assert(es[es.len() - 1].0 == h);
            } else {
                let i = choose|i: int| 0 <= i < es.drop_last().len() && (#[trigger] es.drop_last()[i]).0 == h;
                assert(es[i].0 == h);
            }
        }
        assert forall|h: Seq<u8>|
            (exists|i: int| 0 <= i < es.len() && (#[trigger] es[i]).0 == h) implies log_map(
            es,
        ).dom().contains(h) by {
            let i = choose|i: int| 0 <= i < es.len() && (#[trigger] es[i]).0 == h;
            if i < es.len() - 1 {
                assert(es.drop_last()[i].0 == h);
            }
        }
    }
}

/// Log replay sizing: a log of records with pairwise distinct hashes
/// reconstructs an index with exactly one entry per record.
pub proof fn lemma_log_map_len(es: Seq<(Seq<u8>, Seq<u8>)>)
    requires
        forall|i: int, j: int|
            0 <= i < j < es.len() ==> (#[trigger] es[i]).0 != (#[trigger] es[j]).0,
    ensures
        log_map(es).len() == es.len(),
    decreases es.len(),
{
    broadcast use vstd::set::group_set_axioms;

    if es.len() > 0 {
        let prefix = es.drop_last();
        lemma_log_map_len(prefix);
        lemma_log_map_keys(prefix);
        if log_map(prefix).dom().contains(es.last().0) {
            let i = choose|i: int|
                0 <= i < prefix.len() && (#[trigger] prefix[i]).0 == es.last().0;
            assert(es[i].0 == es[es.len() - 1].0);
            assert(false);
        }
        assert(log_map(es).dom() =~= log_map(prefix).dom().insert(es.last().0));
    }
}

} // verus!
