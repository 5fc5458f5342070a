//! The launch-history store: a persisted map from application name to a
//! launch counter, kept in an embedded key-value database whose keys are
//! the UTF-8 bytes of the name and whose values are eight-byte
//! little-endian counters.

use vstd::prelude::*;

use crate::bytes::{pack, pack_spec, unpack, unpack_spec};
use crate::xdg::App;

verus! {

/// Why the history store could not answer.
#[derive(Clone, Copy, Debug, PartialEq, Eq, Structural)]
pub enum HistoryError {
    /// The underlying database failed; launch-history integrity is a
    /// data-integrity concern, so this aborts the session.
    Io,
    /// A stored counter does not hold exactly eight bytes.
    Corrupt,
}

#[verifier::external_type_specification]
#[verifier::external_body]
/// The embedded database handle the store is built over.
pub struct ExDb(sled::Db);

#[verifier::external_type_specification]
#[verifier::external_body]
/// The embedded database's own error type.
pub struct ExSledError(sled::Error);

/// The persisted launch-history store.
#[verifier::external_body]
pub struct AppHistory {
    db: sled::Db,
}

/// The key-value entries the store holds: name bytes to counter bytes.
pub uninterp spec fn history_entries(h: AppHistory) -> Map<Seq<u8>, Seq<u8>>;

/// The key under which a name's counter is stored.
pub open spec fn name_key(name: Seq<char>) -> Seq<u8> {
    vstd::utf8::encode_utf8(name)
}

impl AppHistory {
    /// Wraps an open database handle; the store's entries are whatever
    /// the database holds. The contracts model the entries as this
    /// value's own: clones of the same database share one tree, so while
    /// this store is in use no other handle may write to it, or two
    /// lookups of one name could disagree in a way the contracts exclude.
    #[verifier::external_body]
    pub fn new(db: sled::Db) -> AppHistory {
        AppHistory { db }
    }

    /// Relies on sled::Tree::get: returns the value stored under the key,
    /// if there is one.
    #[verifier::external_body]
    fn db_get(&self, key: &[u8]) -> (r: Result<Option<Vec<u8>>, sled::Error>)
        ensures
            match r {
                Result::Ok(Option::Some(v)) => history_entries(*self).contains_key(key@)
                    && history_entries(*self)[key@] == v@,
                Result::Ok(Option::None) => !history_entries(*self).contains_key(key@),
                Result::Err(_) => true,
            },
    {
        match self.db.get(key) {
            Result::Ok(Option::Some(iv)) => Result::Ok(Option::Some(iv.as_ref().to_vec())),
            Result::Ok(Option::None) => Result::Ok(Option::None),
            Result::Err(e) => Result::Err(e),
        }
    }

    /// Relies on sled::Tree::insert: on success the key maps to the value
    /// and every other key keeps its binding.
    #[verifier::external_body]
    fn db_insert(&mut self, key: &[u8], value: &[u8]) -> (r: Result<(), sled::Error>)
        ensures
            r is Ok ==> history_entries(*final(self)) == history_entries(*old(self)).insert(
                key@,
                value@,
            ),
    {
        match self.db.insert(key, value) {
            Result::Ok(_) => Result::Ok(()),
            Result::Err(e) => Result::Err(e),
        }
    }

    /// Looks a name's launch counter up: the decoded stored counter, or 0
    /// when the store holds no entry for the name.
    pub fn lookup(&self, name: &str) -> (r: Result<u64, HistoryError>)
        ensures
            match r {
                Result::Ok(n) => {
                    let m = history_entries(*self);
                    let k = name_key(name@);
                    (m.contains_key(k) && m[k].len() == 8 && n == unpack_spec(m[k])) || (
                    !m.contains_key(k) && n == 0)
                },
                Result::Err(HistoryError::Corrupt) => {
                    let m = history_entries(*self);
                    let k = name_key(name@);
                    m.contains_key(k) && m[k].len() != 8
                },
                Result::Err(HistoryError::Io) => true,
            },
    {
        let key = name.as_bytes();
        match self.db_get(key) {
            Result::Ok(Option::Some(v)) => {
                if v.len() != 8 {
                    return Result::Err(HistoryError::Corrupt);
                }
                let buf: [u8; 8] = [v[0], v[1], v[2], v[3], v[4], v[5], v[6], v[7]];
                proof {
                    assert(buf@ =~= history_entries(*self)[name_key(name@)]);
                }
                Result::Ok(unpack(buf))
            },
            Result::Ok(Option::None) => Result::Ok(0),
            Result::Err(_) => Result::Err(HistoryError::Io),
        }
    }

    /// Records a name's launch counter: on success the store maps the
    /// name to the eight-byte encoding of `count`.
    pub fn record(&mut self, name: &str, count: u64) -> (r: Result<(), HistoryError>)
        ensures
            r is Ok ==> history_entries(*final(self)) == history_entries(*old(self)).insert(
                name_key(name@),
                pack_spec(count),
            ),
            r is Err ==> r == Result::Err::<(), HistoryError>(HistoryError::Io),
    {
        let key = name.as_bytes();
        let packed = pack(count);
        match self.db_insert(key, packed.as_slice()) {
            Result::Ok(_) => Result::Ok(()),
            Result::Err(_) => Result::Err(HistoryError::Io),
        }
    }

    /// Annotates an entry with its recorded launch counter, leaving every
    /// other attribute as it stands.
    pub fn get(&self, app: App) -> (r: Result<App, HistoryError>)
        ensures
            match r {
                Result::Ok(a) => {
                    let m = history_entries(*self);
                    let k = name_key(app.name@);
                    &&& a == (App { history: a.history, ..app })
                    &&& ((m.contains_key(k) && m[k].len() == 8 && a.history == unpack_spec(m[k]))
                        || (!m.contains_key(k) && a.history == 0))
                },
                Result::Err(HistoryError::Corrupt) => {
                    let m = history_entries(*self);
                    let k = name_key(app.name@);
                    m.contains_key(k) && m[k].len() != 8
                },
                Result::Err(HistoryError::Io) => true,
            },
    {
        let mut app = app;
        match self.lookup(app.name.as_str()) {
            Result::Ok(n) => {
                let ghost before = app;
                app.history = n;
                proof {
                    assert(app == (App { history: app.history, ..before }));
                }
                Result::Ok(app)
            },
            Result::Err(e) => Result::Err(e),
        }
    }
}

/// A recorded counter reads back as itself: after a successful `record`
/// of `count` under a name, the store maps that name's key to an
/// eight-byte value that decodes to `count`, so a successful `lookup`
/// of the same name can only return `count`.
pub proof fn lemma_record_then_lookup(m: Map<Seq<u8>, Seq<u8>>, name: Seq<char>, count: u64)
    ensures
        ({
            let m2 = m.insert(name_key(name), pack_spec(count));
            m2.contains_key(name_key(name)) && m2[name_key(name)].len() == 8 && unpack_spec(
                m2[name_key(name)],
            ) == count
        }),
{
    crate::bytes::lemma_pack_unpack(count);
}

} // verus!
