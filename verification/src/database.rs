//! The persistent metric store.
//!
//! A [`Database`] holds one value per `(lifetime, ping_name, metric_id)`
//! key. The in-process table is the authoritative model that every contract
//! speaks about; each mutation is mirrored to a durable rkv store on disk,
//! and a write that the disk refuses is reported but never corrupts the
//! model. With delayed ping-lifetime I/O, Ping-lifetime writes go to an
//! in-memory cache first and reach the persistent table only on
//! [`Database::persist_ping_lifetime_data`]; reads merge the two layers
//! with the cache taking precedence.

use vstd::prelude::*;

use rkv::backend::BackendEnvironmentBuilder;

use crate::codec::{decode_metric, decode_spec, enc_metric, encode_metric};
use crate::common_metric_data::CommonMetricData;
use crate::glean::Glean;
use crate::keys::get_storage_key;
use crate::lifetime::Lifetime;
use crate::metric::Metric;
use crate::strutil::{str_eq, str_starts_with};

verus! {

/// The key of one stored value.
pub type MetricKey = (Lifetime, Seq<char>, Seq<char>);

/// What can go wrong in the store.
#[derive(Copy, Clone, Debug, PartialEq, Eq, Structural)]
pub enum DatabaseError {
    /// The store directory or file could not be created or opened. Only
    /// construction fails this way.
    IoFailure,
    /// The durable mirror refused a write. The in-memory state says what
    /// each operation did regardless.
    WriteFailed,
}

/// One stored record: a value under its lifetime, ping name and metric id.
pub struct Row {
    /// The lifetime this value was recorded under.
    pub lifetime: Lifetime,
    /// The ping (storage) name.
    pub ping: String,
    /// The metric identifier, `category.name` or `category.name/label`.
    pub id: String,
    /// The encoded metric value.
    pub value: Vec<u8>,
}

/// The key of a row.
pub open spec fn row_key(r: Row) -> MetricKey {
    (r.lifetime, r.ping@, r.id@)
}

/// The map a sequence of rows stands for; later rows win.
pub open spec fn rows_map(rows: Seq<Row>) -> Map<MetricKey, Seq<u8>>
    decreases rows.len(),
{
    if rows.len() == 0 {
        Map::empty()
    } else {
        rows_map(rows.drop_last()).insert(row_key(rows.last()), rows.last().value@)
    }
}

/// No two rows share a key.
pub open spec fn rows_unique(rows: Seq<Row>) -> bool {
    forall|i: int, j: int|
        0 <= i < j < rows.len() ==> row_key(#[trigger] rows[i]) != row_key(#[trigger] rows[j])
}

/// A key is in the map exactly when some row carries it.
proof fn lemma_rows_map_contains(rows: Seq<Row>, k: MetricKey)
    ensures
        rows_map(rows).contains_key(k) <==> exists|i: int|
            0 <= i < rows.len() && row_key(#[trigger] rows[i]) == k,
    decreases rows.len(),
{
    if rows.len() > 0 {
        lemma_rows_map_contains(rows.drop_last(), k);
        if rows_map(rows).contains_key(k) {
            if row_key(rows.last()) == k {
                assert(row_key(rows[rows.len() - 1]) == k);
            } else {
                let i = choose|i: int|
                    0 <= i < rows.drop_last().len() && row_key(#[trigger] rows.drop_last()[i])
                        == k;
                assert(rows.drop_last()[i] == rows[i]);
            }
        }
        if exists|i: int| 0 <= i < rows.len() && row_key(#[trigger] rows[i]) == k {
            let i = choose|i: int| 0 <= i < rows.len() && row_key(#[trigger] rows[i]) == k;
            if i < rows.len() - 1 {
                assert(rows.drop_last()[i] == rows[i]);
            }
        }
    }
}

/// With unique keys, each row's value is the map's value at its key.
proof fn lemma_rows_map_index(rows: Seq<Row>, i: int)
    requires
        rows_unique(rows),
        0 <= i < rows.len(),
    ensures
        rows_map(rows).contains_key(row_key(rows[i])),
        rows_map(rows)[row_key(rows[i])] == rows[i].value@,
    decreases rows.len(),
{
    lemma_rows_map_contains(rows, row_key(rows[i]));
    if i < rows.len() - 1 {
        assert(row_key(rows[i]) != row_key(rows[rows.len() - 1]));
        assert(rows.drop_last()[i] == rows[i]);
        lemma_rows_map_index(rows.drop_last(), i);
    }
}

/// Replacing the value of row `i` inserts at its key.
proof fn lemma_rows_map_update(rows: Seq<Row>, i: int, r2: Row)
    requires
        rows_unique(rows),
        0 <= i < rows.len(),
        row_key(r2) == row_key(rows[i]),
    ensures
        rows_map(rows.update(i, r2)) =~= rows_map(rows).insert(row_key(r2), r2.value@),
        rows_unique(rows.update(i, r2)),
    decreases rows.len(),
{
    let rows2 = rows.update(i, r2);
    assert forall|a: int, b: int| 0 <= a < b < rows2.len() implies row_key(#[trigger] rows2[a])
        != row_key(#[trigger] rows2[b]) by {
        assert(row_key(rows[a]) != row_key(rows[b]));
    }
    if i == rows.len() - 1 {
        assert(rows2.drop_last() =~= rows.drop_last());
        assert(rows2.last() == r2);
    } else {
        assert(rows2.drop_last() =~= rows.drop_last().update(i, r2));
        assert(rows2.last() == rows.last());
        lemma_rows_map_update(rows.drop_last(), i, r2);
        assert(row_key(rows.last()) != row_key(r2));
    }
}

/// Appending a row inserts at its key.
proof fn lemma_rows_map_push(rows: Seq<Row>, r: Row)
    ensures
        rows_map(rows.push(r)) =~= rows_map(rows).insert(row_key(r), r.value@),
{
    assert(rows.push(r).drop_last() =~= rows);
    assert(rows.push(r).last() == r);
}

/// Removing row `i` removes its key.
proof fn lemma_rows_map_remove(rows: Seq<Row>, i: int)
    requires
        rows_unique(rows),
        0 <= i < rows.len(),
    ensures
        rows_map(rows.remove(i)) =~= rows_map(rows).remove(row_key(rows[i])),
        rows_unique(rows.remove(i)),
    decreases rows.len(),
{
    let rows2 = rows.remove(i);
    assert forall|a: int, b: int| 0 <= a < b < rows2.len() implies row_key(#[trigger] rows2[a])
        != row_key(#[trigger] rows2[b]) by {
        let a0 = if a < i {
            a
        } else {
            a + 1
        };
        let b0 = if b < i {
            b
        } else {
            b + 1
        };
        assert(rows2[a] == rows[a0] && rows2[b] == rows[b0]);
        assert(row_key(rows[a0]) != row_key(rows[b0]));
    }
    if i == rows.len() - 1 {
        assert(rows2 =~= rows.drop_last());
        lemma_rows_map_contains(rows.drop_last(), row_key(rows.last()));
        assert forall|a: int| 0 <= a < rows.drop_last().len() implies row_key(
            #[trigger] rows.drop_last()[a],
        ) != row_key(rows.last()) by {
            assert(rows.drop_last()[a] == rows[a]);
            assert(row_key(rows[a]) != row_key(rows[rows.len() - 1]));
        }
        assert(!rows_map(rows.drop_last()).contains_key(row_key(rows.last())));
        assert(rows_map(rows.drop_last()).remove(row_key(rows.last())) =~= rows_map(
            rows.drop_last(),
        ));
    } else {
        assert(rows2.drop_last() =~= rows.drop_last().remove(i));
        assert(rows2.last() == rows.last());
        lemma_rows_map_remove(rows.drop_last(), i);
        assert(row_key(rows.last()) != row_key(rows[i]));
    }
}

// ---------------------------------------------------------------------------
// The durable mirror, behind trusted wrappers
// ---------------------------------------------------------------------------

#[verifier::external_type_specification]
#[verifier::external_body]
#[verifier::reject_recursive_types(E)]
pub struct ExRkv<E>(rkv::Rkv<E>);

#[verifier::external_type_specification]
#[verifier::external_body]
pub struct ExSafeModeEnvironment(rkv::backend::SafeModeEnvironment);

/// Relies on `rkv::Rkv::from_builder` with the safe-mode backend: opens
/// (or creates, directory included) the environment under `<path>/db`.
/// Fails exactly when rkv cannot create or open it.
#[verifier::external_body]
fn disk_open(path: &str) -> (r: Result<rkv::Rkv<rkv::backend::SafeModeEnvironment>, DatabaseError>) {
    let p = std::path::Path::new(path).join("db");
    let mut builder = rkv::backend::SafeMode::new();
    builder.set_make_dir_if_needed(true);
    match rkv::Rkv::from_builder(&p, builder) {
        Ok(env) => Ok(env),
        Err(_) => Err(DatabaseError::IoFailure),
    }
}

/// Relies on `rkv::SingleStore::put` and `Writer::commit`: writes one
/// key-value pair into the named store. Nothing is assumed of the outcome;
/// the result only reports whether rkv accepted the write.
#[verifier::external_body]
fn disk_put(
    env: &rkv::Rkv<rkv::backend::SafeModeEnvironment>,
    store: &str,
    key: &str,
    value: &[u8],
) -> (ok: bool) {
    let st = match env.open_single(store, rkv::StoreOptions::create()) { Ok(s) => s, Err(_) => return false };
    let mut writer = match env.write() { Ok(w) => w, Err(_) => return false };
    if st.put(&mut writer, key, &rkv::Value::Blob(value)).is_err() { return false; }
    writer.commit().is_ok()
}

/// Relies on `rkv::SingleStore::delete` and `Writer::commit`: removes one
/// key from the named store. The result only reports rkv's answer;
/// deleting an absent key is reported as success.
#[verifier::external_body]
fn disk_delete(env: &rkv::Rkv<rkv::backend::SafeModeEnvironment>, store: &str, key: &str) -> (ok:
    bool) {
    let st = match env.open_single(store, rkv::StoreOptions::create()) { Ok(s) => s, Err(_) => return false };
    let mut writer = match env.write() { Ok(w) => w, Err(_) => return false };
    match st.delete(&mut writer, key) {
        Ok(()) | Err(rkv::StoreError::KeyValuePairNotFound) => writer.commit().is_ok(),
        Err(_) => false,
    }
}

/// Relies on `rkv::SingleStore::clear` and `Writer::commit`: empties the
/// named store. The result only reports rkv's answer.
#[verifier::external_body]
fn disk_clear(env: &rkv::Rkv<rkv::backend::SafeModeEnvironment>, store: &str) -> (ok: bool) {
    let st = match env.open_single(store, rkv::StoreOptions::create()) { Ok(s) => s, Err(_) => return false };
    let mut writer = match env.write() { Ok(w) => w, Err(_) => return false };
    if st.clear(&mut writer).is_err() { return false; }
    writer.commit().is_ok()
}

/// Relies on `rkv::SingleStore::iter_start`: reads every key-value pair of
/// the named store, keeping UTF-8 keys and blob values. What comes back is
/// arbitrary data from disk; the caller validates every pair.
#[verifier::external_body]
fn disk_load(env: &rkv::Rkv<rkv::backend::SafeModeEnvironment>, store: &str) -> (rows: Vec<
    (String, Vec<u8>),
>) {
    let mut out = Vec::new();
    let handles = (env.open_single(store, rkv::StoreOptions::create()), env.read());
    if let (Ok(st), Ok(reader)) = handles {
        if let Ok(iter) = st.iter_start(&reader) {
            for item in iter {
                if let Ok((k, rkv::Value::Blob(b))) = item {
                    if let Ok(ks) = core::str::from_utf8(k) { out.push((ks.to_owned(), b.to_vec())); }
                }
            }
        }
    }
    out
}

// ---------------------------------------------------------------------------
// The store itself
// ---------------------------------------------------------------------------

/// Copy a byte vector.
fn clone_bytes(v: &Vec<u8>) -> (r: Vec<u8>)
    ensures
        r@ == v@,
{
    let mut out: Vec<u8> = Vec::new();
    let mut i: usize = 0;
    while i < v.len()
        invariant
            0 <= i <= v.len(),
            out@ =~= v@.subrange(0, i as int),
        decreases v.len() - i,
    {
        out.push(v[i]);
        i += 1;
    }
    assert(out@ =~= v@);
    out
}

/// Find the row holding the given key, if any.
fn find_row_index(rows: &Vec<Row>, lifetime: Lifetime, storage_name: &str, key: &str) -> (r:
    Option<usize>)
    ensures
        match r {
            Some(i) => i < rows.len() && row_key(rows@[i as int]) == (
                lifetime,
                storage_name@,
                key@,
            ),
            None => forall|i: int|
                0 <= i < rows.len() ==> row_key(#[trigger] rows@[i]) != (
                    lifetime,
                    storage_name@,
                    key@,
                ),
        },
{
    let mut i: usize = 0;
    while i < rows.len()
        invariant
            0 <= i <= rows.len(),
            forall|j: int|
                0 <= j < i ==> row_key(#[trigger] rows@[j]) != (lifetime, storage_name@, key@),
        decreases rows.len() - i,
    {
        let row = &rows[i];
        if row.lifetime == lifetime && str_eq(row.ping.as_str(), storage_name) && str_eq(
            row.id.as_str(),
            key,
        ) {
            return Some(i);
        }
        i += 1;
    }
    None
}

/// The metric store: the verified in-memory table, the optional delayed
/// ping-lifetime cache, and the rkv environment both are mirrored to.
pub struct Database {
    rows: Vec<Row>,
    ping_lifetime_data: Option<Vec<Row>>,
    disk: rkv::Rkv<rkv::backend::SafeModeEnvironment>,
}

impl Database {
    /// The persistent table: what has reached (or is mirrored to) disk.
    pub closed spec fn store_map(self) -> Map<MetricKey, Seq<u8>> {
        rows_map(self.rows@)
    }

    /// Whether this store was opened with delayed ping-lifetime I/O.
    pub closed spec fn delayed(self) -> bool {
        self.ping_lifetime_data is Some
    }

    /// The rows buffered in the delayed cache.
    pub closed spec fn cache_rows(self) -> Seq<Row> {
        match self.ping_lifetime_data {
            Some(v) => v@,
            None => Seq::empty(),
        }
    }

    /// The delayed cache as a map. Only Ping-lifetime keys ever enter it.
    pub closed spec fn cache_map(self) -> Map<MetricKey, Seq<u8>> {
        rows_map(self.cache_rows())
    }

    /// What a reader of this store sees: the persistent table overlaid
    /// with the delayed cache, the cache taking precedence.
    pub closed spec fn merged_map(self) -> Map<MetricKey, Seq<u8>> {
        Map::new(
            |k: MetricKey| self.store_map().contains_key(k) || self.cache_map().contains_key(k),
            |k: MetricKey|
                if self.cache_map().contains_key(k) {
                    self.cache_map()[k]
                } else {
                    self.store_map()[k]
                },
        )
    }

    /// Well-formedness: unique keys in the table and in the cache, and
    /// only Ping-lifetime rows in the cache.
    pub closed spec fn wf(self) -> bool {
        &&& rows_unique(self.rows@)
        &&& rows_unique(self.cache_rows())
        &&& forall|i: int|
            0 <= i < self.cache_rows().len() ==> (#[trigger] self.cache_rows()[i]).lifetime
                == Lifetime::Ping
    }

    /// Initializes the data store.
    ///
    /// This opens the underlying rkv store under `<data_path>/db`, creating
    /// the directory if needed, and loads the persisted rows; whatever on
    /// disk does not parse as a stored record is skipped. The delayed cache
    /// always starts empty: the persistent store is authoritative on open.
    pub fn new(data_path: &str, delay_ping_lifetime_io: bool) -> (r: Result<Database, DatabaseError>)
        ensures
            match r {
                Ok(db) => {
                    &&& db.wf()
                    &&& db.delayed() == delay_ping_lifetime_io
                    &&& db.cache_map() == Map::<MetricKey, Seq<u8>>::empty()
                    &&& exists|
                        raw_ping: Seq<(String, Vec<u8>)>,
                        raw_app: Seq<(String, Vec<u8>)>,
                        raw_user: Seq<(String, Vec<u8>)>,
                    |
                        db.store_map() == #[trigger] loaded_map(
                            loaded_map(
                                loaded_map(
                                    Map::<MetricKey, Seq<u8>>::empty(),
                                    Lifetime::Ping,
                                    raw_ping,
                                ),
                                Lifetime::Application,
                                raw_app,
                            ),
                            Lifetime::User,
                            raw_user,
                        )
                },
                Err(e) => e == DatabaseError::IoFailure,
            },
    {
        let env = match disk_open(data_path) {
            Ok(env) => env,
            Err(_) => {
                return Err(DatabaseError::IoFailure);
            },
        };
        let mut rows: Vec<Row> = Vec::new();
        proof {
            assert(rows@ =~= Seq::<Row>::empty());
        }
        let raw_ping = disk_load(&env, Lifetime::Ping.as_str());
        load_rows(&mut rows, Lifetime::Ping, &raw_ping);
        let raw_app = disk_load(&env, Lifetime::Application.as_str());
        load_rows(&mut rows, Lifetime::Application, &raw_app);
        let raw_user = disk_load(&env, Lifetime::User.as_str());
        load_rows(&mut rows, Lifetime::User, &raw_user);
        let ping_lifetime_data: Option<Vec<Row>> = if delay_ping_lifetime_io {
            Some(Vec::new())
        } else {
            None
        };
        let db = Database { rows, ping_lifetime_data, disk: env };
        proof {
            assert(db.cache_rows() =~= Seq::<Row>::empty());
            assert(db.cache_map() =~= Map::<MetricKey, Seq<u8>>::empty());
            assert(db.store_map() == loaded_map(
                loaded_map(
                    loaded_map(Map::<MetricKey, Seq<u8>>::empty(), Lifetime::Ping, raw_ping@),
                    Lifetime::Application,
                    raw_app@,
                ),
                Lifetime::User,
                raw_user@,
            ));
        }
        Ok(db)
    }

    /// Get the initial database file size.
    pub fn file_size(&self) -> (r: Option<u64>)
        ensures
            r is None,
    {
        None
    }

    /// Get the rkv load state.
    pub fn rkv_load_state(&self) -> (r: Option<String>)
        ensures
            r is None,
    {
        None
    }

    /// Determines if the storage has the given metric.
    ///
    /// With delayed I/O the cache is consulted first, so a buffered write
    /// counts as present.
    pub fn has_metric(&self, lifetime: Lifetime, storage_name: &str, metric_identifier: &str) -> (r:
        bool)
        requires
            self.wf(),
        ensures
            r == self.merged_map().contains_key((lifetime, storage_name@, metric_identifier@)),
    {
        let ghost k: MetricKey = (lifetime, storage_name@, metric_identifier@);
        if let Some(cache) = &self.ping_lifetime_data {
            if let Some(i) = find_row_index(cache, lifetime, storage_name, metric_identifier) {
                proof {
                    lemma_rows_map_index(self.cache_rows(), i as int);
                }
                return true;
            }
            proof {
                lemma_rows_map_contains(self.cache_rows(), k);
            }
        }
        match find_row_index(&self.rows, lifetime, storage_name, metric_identifier) {
            Some(i) => {
                proof {
                    lemma_rows_map_index(self.rows@, i as int);
                }
                true
            },
            None => {
                proof {
                    lemma_rows_map_contains(self.rows@, k);
                    if !self.delayed() {
                        assert(self.cache_rows() =~= Seq::<Row>::empty());
                    }
                    lemma_rows_map_contains(self.cache_rows(), k);
                }
                false
            },
        }
    }
}

/// The two maps agree at `k`: same presence, same value.
pub open spec fn same_at(m1: Map<MetricKey, Seq<u8>>, m2: Map<MetricKey, Seq<u8>>, k: MetricKey) -> bool {
    &&& m1.contains_key(k) == m2.contains_key(k)
    &&& (m1.contains_key(k) ==> m1[k] == m2[k])
}

/// `m` holds exactly `v` at `k`.
pub open spec fn map_has(m: Map<MetricKey, Seq<u8>>, k: MetricKey, v: Seq<u8>) -> bool {
    m.contains_key(k) && m[k] == v
}

/// `prev` reads back the value the store holds at `k`: the decoded value
/// where one is present and decodable, and absent otherwise.
pub open spec fn prev_matches(db: Database, k: MetricKey, prev: Option<Metric>) -> bool {
    match prev {
        Some(m) => db.merged_map().contains_key(k) && decode_spec(db.merged_map()[k]) == Some(m@),
        None => !db.merged_map().contains_key(k) || decode_spec(db.merged_map()[k]) is None,
    }
}

/// Upsert a row into a row table.
fn upsert(rows: &mut Vec<Row>, lifetime: Lifetime, storage_name: &str, key: &str, blob: Vec<u8>)
    requires
        rows_unique(old(rows)@),
    ensures
        rows_unique(final(rows)@),
        rows_map(final(rows)@) == rows_map(old(rows)@).insert(
            (lifetime, storage_name@, key@),
            blob@,
        ),
        (forall|i: int|
            0 <= i < old(rows)@.len() ==> (#[trigger] old(rows)@[i]).lifetime == Lifetime::Ping)
            && lifetime == Lifetime::Ping ==> forall|i: int|
            0 <= i < final(rows)@.len() ==> (#[trigger] final(rows)@[i]).lifetime
                == Lifetime::Ping,
{
    let row = Row { lifetime, ping: storage_name.to_owned(), id: key.to_owned(), value: blob };
    let ghost rk = row_key(row);
    match find_row_index(rows, lifetime, storage_name, key) {
        Some(i) => {
            proof {
                lemma_rows_map_update(rows@, i as int, row);
            }
            rows[i] = row;
        },
        None => {
            let ghost before = rows@;
            proof {
                lemma_rows_map_push(rows@, row);
            }
            rows.push(row);
            proof {
                assert forall|a: int, b: int| 0 <= a < b < rows@.len() implies row_key(
                    #[trigger] rows@[a],
                ) != row_key(#[trigger] rows@[b]) by {
                    if b == rows@.len() - 1 {
                        assert(rows@[a] == before[a]);
                        assert(row_key(before[a]) != rk);
                    } else {
                        assert(rows@[a] == before[a] && rows@[b] == before[b]);
                    }
                }
            }
        },
    }
}

impl Database {
    /// Records a metric in the underlying storage system, for a single
    /// lifetime.
    ///
    /// With delayed I/O, Ping-lifetime values go to the in-memory cache
    /// and always succeed. Everything else is written through: if the
    /// durable mirror refuses the write, nothing is stored and an error is
    /// returned.
    pub fn record_per_lifetime(
        &mut self,
        lifetime: Lifetime,
        storage_name: &str,
        key: &str,
        metric: &Metric,
    ) -> (r: Result<(), DatabaseError>)
        requires
            old(self).wf(),
        ensures
            final(self).wf(),
            final(self).delayed() == old(self).delayed(),
            match r {
                Ok(_) => if lifetime == Lifetime::Ping && old(self).delayed() {
                    final(self).cache_map() == old(self).cache_map().insert(
                        (lifetime, storage_name@, key@),
                        enc_metric(metric@),
                    ) && final(self).store_map() == old(self).store_map()
                } else {
                    final(self).store_map() == old(self).store_map().insert(
                        (lifetime, storage_name@, key@),
                        enc_metric(metric@),
                    ) && final(self).cache_map() == old(self).cache_map()
                },
                Err(e) => {
                    &&& e == DatabaseError::WriteFailed
                    &&& !(lifetime == Lifetime::Ping && old(self).delayed())
                    &&& final(self).store_map() == old(self).store_map()
                    &&& final(self).cache_map() == old(self).cache_map()
                },
            },
    {
        let blob = encode_metric(metric);
        if lifetime == Lifetime::Ping {
            if let Some(cache) = &mut self.ping_lifetime_data {
                upsert(cache, Lifetime::Ping, storage_name, key, blob);
                return Ok(());
            }
        }
        let key_string = get_storage_key(storage_name, Some(key));
        if disk_put(&self.disk, lifetime.as_str(), key_string.as_str(), blob.as_slice()) {
            upsert(&mut self.rows, lifetime, storage_name, key, blob);
            Ok(())
        } else {
            Err(DatabaseError::WriteFailed)
        }
    }

    /// The value currently readable at a key, decoded; absent when nothing
    /// is stored or the stored blob does not decode.
    fn get_current(&self, lifetime: Lifetime, storage_name: &str, key: &str) -> (r: Option<Metric>)
        requires
            self.wf(),
        ensures
            prev_matches(*self, (lifetime, storage_name@, key@), r),
    {
        let ghost k: MetricKey = (lifetime, storage_name@, key@);
        if let Some(cache) = &self.ping_lifetime_data {
            if let Some(i) = find_row_index(cache, lifetime, storage_name, key) {
                proof {
                    lemma_rows_map_index(self.cache_rows(), i as int);
                }
                return decode_metric(cache[i].value.as_slice());
            }
            proof {
                lemma_rows_map_contains(self.cache_rows(), k);
            }
        }
        proof {
            if !self.delayed() {
                assert(self.cache_rows() =~= Seq::<Row>::empty());
                lemma_rows_map_contains(self.cache_rows(), k);
            }
        }
        match find_row_index(&self.rows, lifetime, storage_name, key) {
            Some(i) => {
                proof {
                    lemma_rows_map_index(self.rows@, i as int);
                }
                decode_metric(self.rows[i].value.as_slice())
            },
            None => {
                proof {
                    lemma_rows_map_contains(self.rows@, k);
                }
                None
            },
        }
    }

    /// Records a metric after applying a transformation to the currently
    /// stored value, for a single lifetime.
    ///
    /// The read, the transformation and the write happen under the same
    /// exclusive borrow of the store, so no other operation can observe an
    /// intermediate state.
    pub fn record_per_lifetime_with<F: Fn(Option<Metric>) -> Metric>(
        &mut self,
        lifetime: Lifetime,
        storage_name: &str,
        key: &str,
        transform: &F,
    ) -> (r: Result<(), DatabaseError>)
        requires
            old(self).wf(),
            forall|v: Option<Metric>| #[trigger] transform.requires((v,)),
        ensures
            final(self).wf(),
            final(self).delayed() == old(self).delayed(),
            match r {
                Ok(_) => exists|prev: Option<Metric>, out: Metric|
                    {
                        &&& prev_matches(*old(self), (lifetime, storage_name@, key@), prev)
                        &&& #[trigger] transform.ensures((prev,), out)
                        &&& if lifetime == Lifetime::Ping && old(self).delayed() {
                            final(self).cache_map() == old(self).cache_map().insert(
                                (lifetime, storage_name@, key@),
                                enc_metric(out@),
                            ) && final(self).store_map() == old(self).store_map()
                        } else {
                            final(self).store_map() == old(self).store_map().insert(
                                (lifetime, storage_name@, key@),
                                enc_metric(out@),
                            ) && final(self).cache_map() == old(self).cache_map()
                        }
                    },
                Err(e) => {
                    &&& e == DatabaseError::WriteFailed
                    &&& !(lifetime == Lifetime::Ping && old(self).delayed())
                    &&& final(self).store_map() == old(self).store_map()
                    &&& final(self).cache_map() == old(self).cache_map()
                },
            },
    {
        let prev = self.get_current(lifetime, storage_name, key);
        let ghost prev_ghost = prev;
        let new_value = transform(prev);
        let r = self.record_per_lifetime(lifetime, storage_name, key, &new_value);
        proof {
            if r is Ok {
                assert(transform.ensures((prev_ghost,), new_value));
            }
        }
        r
    }
}

/// The views of a list of ping names.
pub open spec fn ping_views(pings: Seq<String>) -> Seq<Seq<char>> {
    pings.map_values(|p: String| p@)
}

/// Is `k` one of the keys a record call with this lifetime, ping list and
/// identifier aims at?
pub open spec fn is_target(
    k: MetricKey,
    lifetime: Lifetime,
    pings: Seq<Seq<char>>,
    id: Seq<char>,
) -> bool {
    k.0 == lifetime && k.2 == id && pings.contains(k.1)
}

/// No ping name occurs twice in the list.
pub open spec fn pings_unique(pings: Seq<Seq<char>>) -> bool {
    forall|j1: int, j2: int|
        0 <= j1 < j2 < pings.len() ==> #[trigger] pings[j1] != #[trigger] pings[j2]
}

/// Two states that agree at a key read back the same value there.
proof fn lemma_prev_matches_same_at(
    db1: Database,
    db2: Database,
    k: MetricKey,
    prev: Option<Metric>,
)
    requires
        same_at(db1.merged_map(), db2.merged_map(), k),
        prev_matches(db1, k, prev),
    ensures
        prev_matches(db2, k, prev),
{
}

/// The transform was applied at `k`: some input that reads back `pre`'s
/// stored value there, together with an output the transform's
/// postcondition admits for it, explains the value `m` holds at `k`.
pub open spec fn applied_at<F: Fn(Option<Metric>) -> Metric>(
    pre: Database,
    m: Map<MetricKey, Seq<u8>>,
    transform: F,
    k: MetricKey,
) -> bool {
    exists|prev: Option<Metric>, out: Metric|
        prev_matches(pre, k, prev) && #[trigger] transform.ensures((prev,), out) && map_has(
            m,
            k,
            enc_metric(out@),
        )
}

/// An applied-at fact carries over to any map that agrees at the key.
proof fn lemma_applied_at_same_at<F: Fn(Option<Metric>) -> Metric>(
    pre: Database,
    m1: Map<MetricKey, Seq<u8>>,
    m2: Map<MetricKey, Seq<u8>>,
    transform: F,
    k: MetricKey,
)
    requires
        applied_at(pre, m1, transform, k),
        same_at(m2, m1, k),
    ensures
        applied_at(pre, m2, transform, k),
{
    let (prev, out) = choose|prev: Option<Metric>, out: Metric|
        prev_matches(pre, k, prev) && #[trigger] transform.ensures((prev,), out) && map_has(
            m1,
            k,
            enc_metric(out@),
        );
    assert(map_has(m2, k, enc_metric(out@)));
    assert(prev_matches(pre, k, prev) && transform.ensures((prev,), out) && map_has(
        m2,
        k,
        enc_metric(out@),
    ));
}

impl Database {
    /// Records a metric in the underlying storage system.
    ///
    /// When upload is disabled nothing is recorded. Otherwise the value is
    /// upserted under the metric's identifier, once per ping the metric is
    /// sent in; a key whose durable write fails keeps its previous value,
    /// and no other key changes.
    pub fn record(&mut self, glean: &Glean, data: &CommonMetricData, value: &Metric)
        requires
            old(self).wf(),
        ensures
            final(self).wf(),
            final(self).delayed() == old(self).delayed(),
            !glean.upload_enabled() ==> {
                &&& final(self).store_map() == old(self).store_map()
                &&& final(self).cache_map() == old(self).cache_map()
            },
            glean.upload_enabled() ==> {
                let pings = ping_views(data.send_in_pings@);
                let id = data.identifier_spec();
                &&& forall|k: MetricKey|
                    !(#[trigger] is_target(k, data.lifetime, pings, id)) ==> same_at(
                        final(self).store_map(),
                        old(self).store_map(),
                        k,
                    ) && same_at(final(self).cache_map(), old(self).cache_map(), k)
                &&& forall|k: MetricKey|
                    #[trigger] is_target(k, data.lifetime, pings, id) ==> map_has(
                        final(self).merged_map(),
                        k,
                        enc_metric(value@),
                    ) || same_at(final(self).merged_map(), old(self).merged_map(), k)
                &&& (data.lifetime == Lifetime::Ping && old(self).delayed()) ==> forall|
                    k: MetricKey,
                |
                    #[trigger] is_target(k, data.lifetime, pings, id) ==> map_has(
                        final(self).merged_map(),
                        k,
                        enc_metric(value@),
                    )
            },
    {
        if !glean.is_upload_enabled() {
            return ;
        }
        let name = data.identifier();
        let ghost pings = ping_views(data.send_in_pings@);
        let ghost id = data.identifier_spec();
        let ghost pre = *self;
        let mut i: usize = 0;
        while i < data.send_in_pings.len()
            invariant
                self.wf(),
                self.delayed() == pre.delayed(),
                0 <= i <= data.send_in_pings.len(),
                pings == ping_views(data.send_in_pings@),
                id == name@,
                forall|k: MetricKey|
                    !(#[trigger] is_target(k, data.lifetime, pings, id)) ==> same_at(
                        self.store_map(),
                        pre.store_map(),
                        k,
                    ) && same_at(self.cache_map(), pre.cache_map(), k),
                forall|k: MetricKey|
                    #[trigger] is_target(k, data.lifetime, pings, id) ==> map_has(
                        self.merged_map(),
                        k,
                        enc_metric(value@),
                    ) || same_at(self.merged_map(), pre.merged_map(), k),
                (data.lifetime == Lifetime::Ping && pre.delayed()) ==> forall|j: int|
                    0 <= j < i ==> map_has(
                        self.merged_map(),
                        (data.lifetime, #[trigger] pings[j], id),
                        enc_metric(value@),
                    ),
            decreases data.send_in_pings.len() - i,
        {
            let ghost before = *self;
            let ping_name = &data.send_in_pings[i];
            proof {
                assert(pings[i as int] == ping_name@);
                assert(pings.contains(ping_name@));
            }
            let res = self.record_per_lifetime(data.lifetime, ping_name.as_str(), name.as_str(), value);
            proof {
                let kk: MetricKey = (data.lifetime, ping_name@, id);
                lemma_record_step(before, *self, kk, enc_metric(value@), res is Ok);
                if res is Ok && !(data.lifetime == Lifetime::Ping && before.delayed()) {
                    lemma_no_cache_at(*self, kk);
                }
                if data.lifetime == Lifetime::Ping && pre.delayed() {
                    assert forall|j: int| 0 <= j < i + 1 implies map_has(
                        self.merged_map(),
                        (data.lifetime, #[trigger] pings[j], id),
                        enc_metric(value@),
                    ) by {
                        if j < i {
                            let kj: MetricKey = (data.lifetime, pings[j], id);
                            if kj != kk {
                                assert(same_at(self.merged_map(), before.merged_map(), kj));
                            }
                        }
                    }
                }
            }
            i += 1;
        }
    }

    /// Records the provided value, with the given lifetime, after applying
    /// a transformation function to the currently stored value.
    ///
    /// When upload is disabled nothing is recorded.
    pub fn record_with<F: Fn(Option<Metric>) -> Metric>(
        &mut self,
        glean: &Glean,
        data: &CommonMetricData,
        transform: F,
    )
        requires
            old(self).wf(),
            forall|v: Option<Metric>| #[trigger] transform.requires((v,)),
        ensures
            final(self).wf(),
            final(self).delayed() == old(self).delayed(),
            !glean.upload_enabled() ==> {
                &&& final(self).store_map() == old(self).store_map()
                &&& final(self).cache_map() == old(self).cache_map()
            },
            glean.upload_enabled() ==> {
                let pings = ping_views(data.send_in_pings@);
                let id = data.identifier_spec();
                &&& forall|k: MetricKey|
                    !(#[trigger] is_target(k, data.lifetime, pings, id)) ==> same_at(
                        final(self).store_map(),
                        old(self).store_map(),
                        k,
                    ) && same_at(final(self).cache_map(), old(self).cache_map(), k)
                &&& forall|k: MetricKey|
                    #[trigger] is_target(k, data.lifetime, pings, id) ==> (exists|
                        prev: Option<Metric>,
                        out: Metric,
                    |
                        #[trigger] transform.ensures((prev,), out) && map_has(
                            final(self).merged_map(),
                            k,
                            enc_metric(out@),
                        )) || same_at(final(self).merged_map(), old(self).merged_map(), k)
                &&& (data.lifetime == Lifetime::Ping && old(self).delayed()) ==> forall|
                    k: MetricKey,
                |
                    #[trigger] is_target(k, data.lifetime, pings, id) ==> exists|
                        prev: Option<Metric>,
                        out: Metric,
                    |
                        #[trigger] transform.ensures((prev,), out) && map_has(
                            final(self).merged_map(),
                            k,
                            enc_metric(out@),
                        )
                &&& pings_unique(pings) ==> forall|j: int|
                    #![trigger pings[j]]
                    0 <= j < pings.len() ==> applied_at(
                        *old(self),
                        final(self).merged_map(),
                        transform,
                        (data.lifetime, pings[j], id),
                    ) || same_at(
                        final(self).merged_map(),
                        old(self).merged_map(),
                        (data.lifetime, pings[j], id),
                    )
                &&& (pings_unique(pings) && data.lifetime == Lifetime::Ping && old(self).delayed())
                    ==> forall|j: int|
                    #![trigger pings[j]]
                    0 <= j < pings.len() ==> applied_at(
                        *old(self),
                        final(self).merged_map(),
                        transform,
                        (data.lifetime, pings[j], id),
                    )
            },
    {
        if !glean.is_upload_enabled() {
            return ;
        }
        let name = data.identifier();
        let ghost pings = ping_views(data.send_in_pings@);
        let ghost id = data.identifier_spec();
        let ghost pre = *self;
        let mut i: usize = 0;
        while i < data.send_in_pings.len()
            invariant
                self.wf(),
                self.delayed() == pre.delayed(),
                0 <= i <= data.send_in_pings.len(),
                pings == ping_views(data.send_in_pings@),
                id == name@,
                pre == *old(self),
                forall|v: Option<Metric>| #[trigger] transform.requires((v,)),
                forall|k: MetricKey|
                    !(#[trigger] is_target(k, data.lifetime, pings, id)) ==> same_at(
                        self.store_map(),
                        pre.store_map(),
                        k,
                    ) && same_at(self.cache_map(), pre.cache_map(), k),
                forall|k: MetricKey|
                    #[trigger] is_target(k, data.lifetime, pings, id) ==> (exists|
                        prev: Option<Metric>,
                        out: Metric,
                    |
                        #[trigger] transform.ensures((prev,), out) && map_has(
                            self.merged_map(),
                            k,
                            enc_metric(out@),
                        )) || same_at(self.merged_map(), pre.merged_map(), k),
                (data.lifetime == Lifetime::Ping && pre.delayed()) ==> forall|j: int|
                    #![trigger pings[j]]
                    0 <= j < i ==> exists|prev: Option<Metric>, out: Metric|
                        #[trigger] transform.ensures((prev,), out) && map_has(
                            self.merged_map(),
                            (data.lifetime, pings[j], id),
                            enc_metric(out@),
                        ),
                pings_unique(pings) ==> forall|j: int|
                    #![trigger pings[j]]
                    0 <= j < i ==> applied_at(
                        pre,
                        self.merged_map(),
                        transform,
                        (data.lifetime, pings[j], id),
                    ) || same_at(
                        self.merged_map(),
                        pre.merged_map(),
                        (data.lifetime, pings[j], id),
                    ),
                (pings_unique(pings) && data.lifetime == Lifetime::Ping && pre.delayed())
                    ==> forall|j: int|
                    #![trigger pings[j]]
                    0 <= j < i ==> applied_at(
                        pre,
                        self.merged_map(),
                        transform,
                        (data.lifetime, pings[j], id),
                    ),
                pings_unique(pings) ==> forall|j: int|
                    #![trigger pings[j]]
                    i <= j < pings.len() ==> same_at(
                        self.merged_map(),
                        pre.merged_map(),
                        (data.lifetime, pings[j], id),
                    ),
            decreases data.send_in_pings.len() - i,
        {
            let ghost before = *self;
            let ping_name = &data.send_in_pings[i];
            proof {
                assert(pings[i as int] == ping_name@);
                assert(pings.contains(ping_name@));
            }
            let res = self.record_per_lifetime_with(
                data.lifetime,
                ping_name.as_str(),
                name.as_str(),
                &transform,
            );
            proof {
                let kk: MetricKey = (data.lifetime, ping_name@, id);
                if res is Ok {
                    let (prev, out) = choose|prev: Option<Metric>, out: Metric|
                        {
                            &&& prev_matches(before, kk, prev)
                            &&& #[trigger] transform.ensures((prev,), out)
                            &&& if data.lifetime == Lifetime::Ping && before.delayed() {
                                self.cache_map() == before.cache_map().insert(
                                    kk,
                                    enc_metric(out@),
                                ) && self.store_map() == before.store_map()
                            } else {
                                self.store_map() == before.store_map().insert(
                                    kk,
                                    enc_metric(out@),
                                ) && self.cache_map() == before.cache_map()
                            }
                        };
                    lemma_record_step(before, *self, kk, enc_metric(out@), true);
                    if !(data.lifetime == Lifetime::Ping && before.delayed()) {
                        lemma_no_cache_at(*self, kk);
                    }
                    assert(map_has(self.merged_map(), kk, enc_metric(out@)));
                    if pings_unique(pings) {
                        assert(same_at(before.merged_map(), pre.merged_map(), kk));
                        lemma_prev_matches_same_at(before, pre, kk, prev);
                        assert(applied_at(pre, self.merged_map(), transform, kk));
                        assert forall|j: int|
                            #![trigger pings[j]]
                            0 <= j < i as int && applied_at(
                                pre,
                                before.merged_map(),
                                transform,
                                (data.lifetime, pings[j], id),
                            ) implies applied_at(
                            pre,
                            self.merged_map(),
                            transform,
                            (data.lifetime, pings[j], id),
                        ) by {
                            let kj: MetricKey = (data.lifetime, pings[j], id);
                            if kj != kk {
                                lemma_applied_at_same_at(
                                    pre,
                                    before.merged_map(),
                                    self.merged_map(),
                                    transform,
                                    kj,
                                );
                            }
                        }
                        assert forall|j: int|
                            #![trigger pings[j]]
                            i as int + 1 <= j < pings.len() implies same_at(
                            self.merged_map(),
                            pre.merged_map(),
                            (data.lifetime, pings[j], id),
                        ) by {
                            assert(pings[j] != pings[i as int]);
                            assert((data.lifetime, pings[j], id) != kk);
                        }
                    }
                    if data.lifetime == Lifetime::Ping && before.delayed() {
                        assert forall|j: int|
                            #![trigger pings[j]]
                            0 <= j < i as int + 1 implies exists|
                            prev2: Option<Metric>,
                            out2: Metric,
                        |
                            #[trigger] transform.ensures((prev2,), out2) && map_has(
                                self.merged_map(),
                                (data.lifetime, pings[j], id),
                                enc_metric(out2@),
                            ) by {
                            if j < i as int {
                                let kj: MetricKey = (data.lifetime, pings[j], id);
                                if kj != kk {
                                    assert(same_at(self.merged_map(), before.merged_map(), kj));
                                }
                            }
                        }
                    }
                } else {
                    lemma_record_step(before, *self, kk, Seq::empty(), false);
                }
            }
            i += 1;
        }
        proof {
            assert(pings.len() == data.send_in_pings@.len());
            assert(i == data.send_in_pings@.len());
            if data.lifetime == Lifetime::Ping && pre.delayed() {
                assert forall|k: MetricKey|
                    #[trigger] is_target(k, data.lifetime, pings, id) implies exists|
                    prev: Option<Metric>,
                    out: Metric,
                |
                    #[trigger] transform.ensures((prev,), out) && map_has(
                        self.merged_map(),
                        k,
                        enc_metric(out@),
                    ) by {
                    let j = choose|j: int| 0 <= j < pings.len() && pings[j] == k.1;
                    assert((data.lifetime, pings[j], id) == k);
                }
            }
        }
    }
}

/// Every key in the delayed cache is a Ping-lifetime key.
/// Every key in the delayed cache is a Ping-lifetime key.

/// Every key in the delayed cache is a Ping-lifetime key.
proof fn lemma_cache_keys(db: Database)
    requires
        db.wf(),
    ensures
        forall|k: MetricKey|
            #[trigger] db.cache_map().contains_key(k) ==> k.0 == Lifetime::Ping,
{
    assert forall|k: MetricKey|
        #[trigger] db.cache_map().contains_key(k) implies k.0 == Lifetime::Ping by {
        lemma_rows_map_contains(db.cache_rows(), k);
        let i = choose|i: int|
            0 <= i < db.cache_rows().len() && row_key(#[trigger] db.cache_rows()[i]) == k;
        assert(db.cache_rows()[i].lifetime == Lifetime::Ping);
    }
}

/// A key is absent from the cache when the store is not delayed or the
/// key is not a Ping-lifetime key.
proof fn lemma_no_cache_at(db: Database, k: MetricKey)
    requires
        db.wf(),
        !db.delayed() || k.0 != Lifetime::Ping,
    ensures
        !db.cache_map().contains_key(k),
{
    if !db.delayed() {
        assert(db.cache_rows() =~= Seq::<Row>::empty());
        lemma_rows_map_contains(db.cache_rows(), k);
    } else {
        lemma_cache_keys(db);
    }
}

/// One record step: the state moved from `before` to `after` by inserting
/// `v` at `k` in one layer, or by standing still.
proof fn lemma_record_step(before: Database, after: Database, k: MetricKey, v: Seq<u8>, ok: bool)
    requires
        before.wf(),
        after.wf(),
        if ok {
            (after.cache_map() == before.cache_map().insert(k, v) && after.store_map()
                == before.store_map()) || (after.store_map() == before.store_map().insert(k, v)
                && after.cache_map() == before.cache_map())
        } else {
            after.store_map() == before.store_map() && after.cache_map() == before.cache_map()
        },
    ensures
        forall|k2: MetricKey|
            k2 != k ==> #[trigger] same_at(after.store_map(), before.store_map(), k2) && same_at(
                after.cache_map(),
                before.cache_map(),
                k2,
            ) && same_at(after.merged_map(), before.merged_map(), k2),
        ok && (after.cache_map() == before.cache_map().insert(k, v)) ==> map_has(
            after.merged_map(),
            k,
            v,
        ),
        ok && after.store_map() == before.store_map().insert(k, v) && !after.cache_map()
            .contains_key(k) ==> map_has(after.merged_map(), k, v),
        !ok ==> same_at(after.merged_map(), before.merged_map(), k),
{
    assert forall|k2: MetricKey| k2 != k implies #[trigger] same_at(
        after.store_map(),
        before.store_map(),
        k2,
    ) && same_at(after.cache_map(), before.cache_map(), k2) && same_at(
        after.merged_map(),
        before.merged_map(),
        k2,
    ) by {}
}

/// Does `id` pass the optional prefix filter?
pub open spec fn prefix_sel(prefix: Option<Seq<char>>, id: Seq<char>) -> bool {
    match prefix {
        Some(p) => p.is_prefix_of(id),
        None => true,
    }
}

/// The view of an optional string slice.
pub open spec fn opt_view(s: Option<&str>) -> Option<Seq<char>> {
    match s {
        Some(p) => Some(p@),
        None => None,
    }
}

impl Database {
    /// Collects the requested data from the given storage.
    ///
    /// Returns every `(metric_id, value)` of the given lifetime and
    /// storage whose identifier starts with `metric_key` (all of them when
    /// no prefix is given), each identifier once, with buffered cache
    /// values taking precedence over persisted ones. Entries whose stored
    /// bytes do not decode are silently skipped.
    pub fn iter_store_from(
        &self,
        lifetime: Lifetime,
        storage_name: &str,
        metric_key: Option<&str>,
    ) -> (r: Vec<(String, Metric)>)
        requires
            self.wf(),
        ensures
            forall|j: int|
                #![trigger r@[j]]
                0 <= j < r@.len() ==> {
                    let id = r@[j].0@;
                    &&& self.merged_map().contains_key((lifetime, storage_name@, id))
                    &&& prefix_sel(opt_view(metric_key), id)
                    &&& decode_spec(self.merged_map()[(lifetime, storage_name@, id)]) == Some(
                        r@[j].1@,
                    )
                },
            forall|id: Seq<char>|
                (#[trigger] self.merged_map().contains_key((lifetime, storage_name@, id))
                    && prefix_sel(opt_view(metric_key), id) && decode_spec(
                    self.merged_map()[(lifetime, storage_name@, id)],
                ) is Some) ==> exists|j: int|
                    #![trigger r@[j]]
                    0 <= j < r@.len() && r@[j].0@ == id,
            forall|j1: int, j2: int|
                0 <= j1 < j2 < r@.len() ==> (#[trigger] r@[j1]).0@ != (#[trigger] r@[j2]).0@,
    {
        let ghost pfx = opt_view(metric_key);
        let mut out: Vec<(String, Metric)> = Vec::new();
        if let Some(cache) = &self.ping_lifetime_data {
            let mut i: usize = 0;
            while i < cache.len()
                invariant
                    self.wf(),
                    self.ping_lifetime_data matches Some(c) && c@ == cache@,
                    cache@ == self.cache_rows(),
                    0 <= i <= cache.len(),
                    pfx == opt_view(metric_key),
                    forall|j: int|
                        #![trigger out@[j]]
                        0 <= j < out@.len() ==> {
                            let id = out@[j].0@;
                            &&& self.cache_map().contains_key((lifetime, storage_name@, id))
                            &&& prefix_sel(pfx, id)
                            &&& decode_spec(self.cache_map()[(lifetime, storage_name@, id)])
                                == Some(out@[j].1@)
                        },
                    forall|j: int|
                        0 <= j < out@.len() ==> exists|a: int|
                            #![trigger cache@[a]]
                            0 <= a < i && cache@[a].id@ == (#[trigger] out@[j]).0@
                                && cache@[a].lifetime == lifetime && cache@[a].ping@
                                == storage_name@,
                    forall|a: int|
                        #![trigger cache@[a]]
                        0 <= a < i ==> {
                            let row = cache@[a];
                            (row.lifetime == lifetime && row.ping@ == storage_name@ && prefix_sel(
                                pfx,
                                row.id@,
                            ) && decode_spec(row.value@) is Some) ==> exists|j: int|
                                #![trigger out@[j]]
                                0 <= j < out@.len() && out@[j].0@ == row.id@
                        },
                    forall|j1: int, j2: int|
                        0 <= j1 < j2 < out@.len() ==> (#[trigger] out@[j1]).0@ != (
                        #[trigger] out@[j2]).0@,
                decreases cache.len() - i,
            {
                let row = &cache[i];
                if row.lifetime == lifetime && str_eq(row.ping.as_str(), storage_name) && (
                match metric_key {
                    Some(p) => str_starts_with(row.id.as_str(), p),
                    None => true,
                }) {
                    proof {
                        lemma_rows_map_index(self.cache_rows(), i as int);
                    }
                    if let Some(m) = decode_metric(row.value.as_slice()) {
                        let ghost before_out = out@;
                        out.push((row.id.clone(), m));
                        proof {
                            assert forall|j: int| 0 <= j < before_out.len() implies #[trigger] out@[j]
                                == before_out[j] by {}
                            assert(out@[out@.len() - 1].0@ == cache@[i as int].id@);
                            assert forall|j1: int, j2: int|
                                0 <= j1 < j2 < out@.len() implies (#[trigger] out@[j1]).0@ != (
                            #[trigger] out@[j2]).0@ by {
                                if j2 == out@.len() - 1 && out@[j1].0@ == row.id@ {
                                    let a = choose|a: int|
                                        #![trigger cache@[a]]
                                        0 <= a < i && cache@[a].id@ == before_out[j1].0@
                                            && cache@[a].lifetime == lifetime && cache@[a].ping@
                                            == storage_name@;
                                    assert(row_key(cache@[a]) == row_key(cache@[i as int]));
                                    assert(false);
                                }
                            }
                            assert forall|j: int| 0 <= j < out@.len() implies exists|a: int|
                                #![trigger cache@[a]]
                                0 <= a < i + 1 && cache@[a].id@ == (#[trigger] out@[j]).0@
                                    && cache@[a].lifetime == lifetime && cache@[a].ping@
                                    == storage_name@ by {
                                if j < before_out.len() {
                                    let a = choose|a: int|
                                        #![trigger cache@[a]]
                                        0 <= a < i && cache@[a].id@ == before_out[j].0@
                                            && cache@[a].lifetime == lifetime && cache@[a].ping@
                                            == storage_name@;
                                    assert(0 <= a < i + 1 && cache@[a].id@ == out@[j].0@
                                        && cache@[a].lifetime == lifetime && cache@[a].ping@
                                        == storage_name@);
                                } else {
                                    assert(0 <= i < i + 1 && cache@[i as int].id@ == out@[j].0@
                                        && cache@[i as int].lifetime == lifetime
                                        && cache@[i as int].ping@ == storage_name@);
                                }
                            }
                            assert forall|a: int|
                                #![trigger cache@[a]]
                                0 <= a < i + 1 implies {
                                let crow = cache@[a];
                                (crow.lifetime == lifetime && crow.ping@ == storage_name@
                                    && prefix_sel(pfx, crow.id@) && decode_spec(
                                    crow.value@,
                                ) is Some) ==> exists|j: int|
                                    #![trigger out@[j]]
                                    0 <= j < out@.len() && out@[j].0@ == crow.id@
                            } by {
                                let crow = cache@[a];
                                if crow.lifetime == lifetime && crow.ping@ == storage_name@
                                    && prefix_sel(pfx, crow.id@) && decode_spec(
                                    crow.value@,
                                ) is Some {
                                    if a < i {
                                        let j = choose|j: int|
                                            #![trigger before_out[j]]
                                            0 <= j < before_out.len() && before_out[j].0@
                                                == crow.id@;
                                        assert(out@[j] == before_out[j]);
                                        assert(out@[j].0@ == crow.id@);
                                    } else {
                                        assert(out@[out@.len() - 1].0@ == crow.id@);
                                    }
                                }
                            }
                        }
                    }
                }
                i += 1;
            }
        }
        proof {
            if self.ping_lifetime_data is None {
                assert(self.cache_rows() =~= Seq::<Row>::empty());
            }
            assert forall|id: Seq<char>|
                (#[trigger] self.cache_map().contains_key((lifetime, storage_name@, id))
                    && prefix_sel(pfx, id) && decode_spec(
                    self.cache_map()[(lifetime, storage_name@, id)],
                ) is Some) implies exists|j: int|
                #![trigger out@[j]]
                0 <= j < out@.len() && out@[j].0@ == id by {
                let k: MetricKey = (lifetime, storage_name@, id);
                lemma_rows_map_contains(self.cache_rows(), k);
                let a = choose|a: int|
                    0 <= a < self.cache_rows().len() && row_key(#[trigger] self.cache_rows()[a])
                        == k;
                lemma_rows_map_index(self.cache_rows(), a);
            }
            assert forall|j: int| #![trigger out@[j]] 0 <= j < out@.len() implies {
                let id = out@[j].0@;
                &&& self.merged_map().contains_key((lifetime, storage_name@, id))
                &&& self.cache_map().contains_key((lifetime, storage_name@, id))
                &&& prefix_sel(pfx, id)
                &&& decode_spec(self.merged_map()[(lifetime, storage_name@, id)]) == Some(
                    out@[j].1@,
                )
            } by {
                let k: MetricKey = (lifetime, storage_name@, out@[j].0@);
                assert(self.cache_map().contains_key(k));
                assert(self.merged_map()[k] == self.cache_map()[k]);
            }
        }
        let ghost cache_pushed = out@;
        let mut i: usize = 0;
        while i < self.rows.len()
            invariant
                self.wf(),
                0 <= i <= self.rows.len(),
                pfx == opt_view(metric_key),
                cache_pushed.len() <= out@.len(),
                forall|j: int|
                    0 <= j < cache_pushed.len() ==> #[trigger] out@[j] == cache_pushed[j],
                forall|j: int|
                    0 <= j < cache_pushed.len() ==> self.cache_map().contains_key(
                        (lifetime, storage_name@, (#[trigger] cache_pushed[j]).0@),
                    ),
                forall|j: int|
                    #![trigger out@[j]]
                    0 <= j < out@.len() ==> {
                        let id = out@[j].0@;
                        &&& self.merged_map().contains_key((lifetime, storage_name@, id))
                        &&& prefix_sel(pfx, id)
                        &&& decode_spec(self.merged_map()[(lifetime, storage_name@, id)]) == Some(
                            out@[j].1@,
                        )
                    },
                forall|id: Seq<char>|
                    (#[trigger] self.cache_map().contains_key((lifetime, storage_name@, id))
                        && prefix_sel(pfx, id) && decode_spec(
                        self.cache_map()[(lifetime, storage_name@, id)],
                    ) is Some) ==> exists|j: int|
                        #![trigger out@[j]]
                        0 <= j < out@.len() && out@[j].0@ == id,
                forall|j: int|
                    cache_pushed.len() <= j < out@.len() ==> exists|a: int|
                        #![trigger self.rows@[a]]
                        0 <= a < i && self.rows@[a].id@ == (#[trigger] out@[j]).0@
                            && self.rows@[a].lifetime == lifetime && self.rows@[a].ping@
                            == storage_name@,
                forall|a: int|
                    #![trigger self.rows@[a]]
                    0 <= a < i ==> {
                        let row = self.rows@[a];
                        (row.lifetime == lifetime && row.ping@ == storage_name@ && prefix_sel(
                            pfx,
                            row.id@,
                        ) && !self.cache_map().contains_key(row_key(row)) && decode_spec(
                            row.value@,
                        ) is Some) ==> exists|j: int|
                            #![trigger out@[j]]
                            0 <= j < out@.len() && out@[j].0@ == row.id@
                    },
                forall|j1: int, j2: int|
                    0 <= j1 < j2 < out@.len() ==> (#[trigger] out@[j1]).0@ != (#[trigger] out@[j2]).0@,
            decreases self.rows.len() - i,
        {
            let row = &self.rows[i];
            if row.lifetime == lifetime && str_eq(row.ping.as_str(), storage_name) && (
            match metric_key {
                Some(p) => str_starts_with(row.id.as_str(), p),
                None => true,
            }) {
                let shadowed = match &self.ping_lifetime_data {
                    Some(cache) => find_row_index(
                        cache,
                        lifetime,
                        row.ping.as_str(),
                        row.id.as_str(),
                    ).is_some(),
                    None => false,
                };
                proof {
                    let k = row_key(self.rows@[i as int]);
                    if self.ping_lifetime_data is Some {
                        lemma_rows_map_contains(self.cache_rows(), k);
                        if shadowed {
                            let a = choose|a: int|
                                0 <= a < self.cache_rows().len() && row_key(
                                    #[trigger] self.cache_rows()[a],
                                ) == k;
                            lemma_rows_map_index(self.cache_rows(), a);
                        }
                    } else {
                        assert(self.cache_rows() =~= Seq::<Row>::empty());
                        lemma_rows_map_contains(self.cache_rows(), k);
                    }
                    assert(shadowed == self.cache_map().contains_key(k));
                }
                if !shadowed {
                    proof {
                        lemma_rows_map_index(self.rows@, i as int);
                        assert(self.merged_map()[row_key(self.rows@[i as int])] == self.store_map()[
                            row_key(self.rows@[i as int])]);
                    }
                    if let Some(m) = decode_metric(row.value.as_slice()) {
                        let ghost before_out = out@;
                        out.push((row.id.clone(), m));
                        proof {
                            assert forall|j: int| 0 <= j < before_out.len() implies #[trigger] out@[j]
                                == before_out[j] by {}
                            assert(out@[out@.len() - 1].0@ == self.rows@[i as int].id@);
                            let k: MetricKey = (lifetime, storage_name@, row.id@);
                            assert forall|j1: int, j2: int|
                                0 <= j1 < j2 < out@.len() implies (#[trigger] out@[j1]).0@ != (
                            #[trigger] out@[j2]).0@ by {
                                if j2 == out@.len() - 1 && out@[j1].0@ == row.id@ {
                                    if j1 < cache_pushed.len() {
                                        assert(out@[j1] == cache_pushed[j1]);
                                        assert(self.cache_map().contains_key(k));
                                        assert(false);
                                    } else {
                                        let a = choose|a: int|
                                            #![trigger self.rows@[a]]
                                            0 <= a < i && self.rows@[a].id@ == before_out[j1].0@
                                                && self.rows@[a].lifetime == lifetime
                                                && self.rows@[a].ping@ == storage_name@;
                                        assert(row_key(self.rows@[a]) == row_key(
                                            self.rows@[i as int],
                                        ));
                                        assert(false);
                                    }
                                }
                            }
                            assert forall|j: int|
                                cache_pushed.len() <= j < out@.len() implies exists|a: int|
                                #![trigger self.rows@[a]]
                                0 <= a < i + 1 && self.rows@[a].id@ == (#[trigger] out@[j]).0@
                                    && self.rows@[a].lifetime == lifetime && self.rows@[a].ping@
                                    == storage_name@ by {
                                if j < before_out.len() {
                                    let a = choose|a: int|
                                        #![trigger self.rows@[a]]
                                        0 <= a < i && self.rows@[a].id@ == before_out[j].0@
                                            && self.rows@[a].lifetime == lifetime
                                            && self.rows@[a].ping@ == storage_name@;
                                    assert(0 <= a < i + 1 && self.rows@[a].id@ == out@[j].0@
                                        && self.rows@[a].lifetime == lifetime && self.rows@[a].ping@
                                        == storage_name@);
                                } else {
                                    assert(0 <= i < i + 1 && self.rows@[i as int].id@ == out@[j].0@
                                        && self.rows@[i as int].lifetime == lifetime
                                        && self.rows@[i as int].ping@ == storage_name@);
                                }
                            }
                            assert forall|a: int|
                                #![trigger self.rows@[a]]
                                0 <= a < i + 1 implies {
                                let srow = self.rows@[a];
                                (srow.lifetime == lifetime && srow.ping@ == storage_name@
                                    && prefix_sel(pfx, srow.id@) && !self.cache_map().contains_key(
                                    row_key(srow),
                                ) && decode_spec(srow.value@) is Some) ==> exists|j: int|
                                    #![trigger out@[j]]
                                    0 <= j < out@.len() && out@[j].0@ == srow.id@
                            } by {
                                let srow = self.rows@[a];
                                if srow.lifetime == lifetime && srow.ping@ == storage_name@
                                    && prefix_sel(pfx, srow.id@) && !self.cache_map().contains_key(
                                    row_key(srow),
                                ) && decode_spec(srow.value@) is Some {
                                    if a < i {
                                        let j = choose|j: int|
                                            #![trigger before_out[j]]
                                            0 <= j < before_out.len() && before_out[j].0@
                                                == srow.id@;
                                        assert(out@[j] == before_out[j]);
                                        assert(out@[j].0@ == srow.id@);
                                    } else {
                                        assert(out@[out@.len() - 1].0@ == srow.id@);
                                    }
                                }
                            }
                            assert forall|id: Seq<char>|
                                (#[trigger] self.cache_map().contains_key(
                                    (lifetime, storage_name@, id),
                                ) && prefix_sel(pfx, id) && decode_spec(
                                    self.cache_map()[(lifetime, storage_name@, id)],
                                ) is Some) implies exists|j: int|
                                #![trigger out@[j]]
                                0 <= j < out@.len() && out@[j].0@ == id by {
                                let j = choose|j: int|
                                    #![trigger before_out[j]]
                                    0 <= j < before_out.len() && before_out[j].0@ == id;
                                assert(out@[j] == before_out[j]);
                                assert(out@[j].0@ == id);
                            }
                        }
                    }
                }
            }
            i += 1;
        }
        proof {
            assert forall|id: Seq<char>|
                (#[trigger] self.merged_map().contains_key((lifetime, storage_name@, id))
                    && prefix_sel(pfx, id) && decode_spec(
                    self.merged_map()[(lifetime, storage_name@, id)],
                ) is Some) implies exists|j: int|
                #![trigger out@[j]]
                0 <= j < out@.len() && out@[j].0@ == id by {
                let k: MetricKey = (lifetime, storage_name@, id);
                if self.cache_map().contains_key(k) {
                    assert(self.merged_map()[k] == self.cache_map()[k]);
                } else {
                    assert(self.store_map().contains_key(k));
                    assert(self.merged_map()[k] == self.store_map()[k]);
                    lemma_rows_map_contains(self.rows@, k);
                    let a = choose|a: int|
                        0 <= a < self.rows@.len() && row_key(#[trigger] self.rows@[a]) == k;
                    lemma_rows_map_index(self.rows@, a);
                    assert(self.rows@[a].lifetime == lifetime && self.rows@[a].ping@
                        == storage_name@ && self.rows@[a].id@ == id);
                }
            }
        }
        out
    }
}

/// Does a clear with this lifetime and optional ping name hit key `k`?
pub open spec fn clear_sel(k: MetricKey, lifetime: Lifetime, ping: Option<Seq<char>>) -> bool {
    k.0 == lifetime && match ping {
        Some(p) => k.1 == p,
        None => true,
    }
}

/// Remove every row of the given lifetime (and ping name, when one is
/// given), returning the composed storage keys of the removed rows.
fn remove_rows_matching(rows: &mut Vec<Row>, lifetime: Lifetime, ping: Option<&str>) -> (removed:
    Vec<String>)
    requires
        rows_unique(old(rows)@),
    ensures
        rows_unique(final(rows)@),
        forall|k: MetricKey|
            #[trigger] rows_map(final(rows)@).contains_key(k) <==> (rows_map(
                old(rows)@,
            ).contains_key(k) && !clear_sel(k, lifetime, opt_view(ping))),
        forall|k: MetricKey|
            #[trigger] rows_map(final(rows)@).contains_key(k) ==> rows_map(final(rows)@)[k]
                == rows_map(old(rows)@)[k],
        (forall|a: int|
            0 <= a < old(rows)@.len() ==> (#[trigger] old(rows)@[a]).lifetime == Lifetime::Ping)
            ==> forall|a: int|
            0 <= a < final(rows)@.len() ==> (#[trigger] final(rows)@[a]).lifetime
                == Lifetime::Ping,
{
    let ghost orig = rows@;
    let ghost pv = opt_view(ping);
    let mut removed: Vec<String> = Vec::new();
    let mut i: usize = 0;
    while i < rows.len()
        invariant
            rows_unique(rows@),
            0 <= i <= rows@.len(),
            pv == opt_view(ping),
            forall|k: MetricKey|
                #[trigger] rows_map(rows@).contains_key(k) ==> rows_map(orig).contains_key(k)
                    && rows_map(rows@)[k] == rows_map(orig)[k],
            forall|k: MetricKey|
                rows_map(orig).contains_key(k) && !clear_sel(k, lifetime, pv) ==> #[trigger]
                rows_map(rows@).contains_key(k),
            forall|a: int|
                0 <= a < i ==> !clear_sel(row_key(#[trigger] rows@[a]), lifetime, pv),
            (forall|a: int|
                0 <= a < orig.len() ==> (#[trigger] orig[a]).lifetime == Lifetime::Ping)
                ==> forall|a: int|
                0 <= a < rows@.len() ==> (#[trigger] rows@[a]).lifetime == Lifetime::Ping,
        decreases rows@.len() - i,
    {
        let row = &rows[i];
        let hit = row.lifetime == lifetime && (match ping {
            Some(p) => str_eq(row.ping.as_str(), p),
            None => true,
        });
        if hit {
            removed.push(get_storage_key(row.ping.as_str(), Some(row.id.as_str())));
            let ghost before = rows@;
            proof {
                lemma_rows_map_remove(rows@, i as int);
            }
            let _ = rows.remove(i);
            proof {
                assert(rows@ =~= before.remove(i as int));
                assert(clear_sel(row_key(before[i as int]), lifetime, pv));
                assert forall|a: int|
                    0 <= a < i implies !clear_sel(
                    row_key(#[trigger] rows@[a]),
                    lifetime,
                    pv,
                ) by {
                    assert(rows@[a] == before[a]);
                }
                if forall|a: int|
                    0 <= a < orig.len() ==> (#[trigger] orig[a]).lifetime == Lifetime::Ping {
                    assert forall|a: int|
                        0 <= a < rows@.len() implies (#[trigger] rows@[a]).lifetime
                            == Lifetime::Ping by {
                        if a < i {
                            assert(rows@[a] == before[a]);
                        } else {
                            assert(rows@[a] == before[a + 1]);
                        }
                    }
                }
            }
        } else {
            i += 1;
        }
    }
    proof {
        assert forall|k: MetricKey| #[trigger]
            rows_map(rows@).contains_key(k) implies !clear_sel(k, lifetime, pv) by {
            lemma_rows_map_contains(rows@, k);
            let a = choose|a: int| 0 <= a < rows@.len() && row_key(#[trigger] rows@[a]) == k;
        }
    }
    removed
}

impl Database {
    /// Clears a storage (only Ping Lifetime).
    ///
    /// Both the persistent table and the delayed cache drop every value of
    /// the named ping. An error reports that the durable mirror refused
    /// one of the deletions; the in-memory state is cleared regardless.
    pub fn clear_ping_lifetime_storage(&mut self, storage_name: &str) -> (r: Result<
        (),
        DatabaseError,
    >)
        requires
            old(self).wf(),
        ensures
            final(self).wf(),
            final(self).delayed() == old(self).delayed(),
            forall|k: MetricKey|
                #[trigger] final(self).store_map().contains_key(k) <==> (old(self).store_map().contains_key(k) && !(k.0 == Lifetime::Ping && k.1 == storage_name@)),
            forall|k: MetricKey|
                #[trigger] final(self).store_map().contains_key(k) ==> final(self).store_map()[k]
                    == old(self).store_map()[k],
            forall|k: MetricKey|
                #[trigger] final(self).cache_map().contains_key(k) <==> (old(self).cache_map().contains_key(k) && !(k.0 == Lifetime::Ping && k.1 == storage_name@)),
            forall|k: MetricKey|
                #[trigger] final(self).cache_map().contains_key(k) ==> final(self).cache_map()[k]
                    == old(self).cache_map()[k],
            r is Err ==> r == Err::<(), DatabaseError>(DatabaseError::WriteFailed),
    {
        let removed = remove_rows_matching(&mut self.rows, Lifetime::Ping, Some(storage_name));
        if let Some(cache) = &mut self.ping_lifetime_data {
            let _ = remove_rows_matching(cache, Lifetime::Ping, Some(storage_name));
        }
        let mut ok = true;
        let mut i: usize = 0;
        while i < removed.len()
            invariant
                0 <= i <= removed.len(),
            decreases removed.len() - i,
        {
            if !disk_delete(&self.disk, Lifetime::Ping.as_str(), removed[i].as_str()) {
                ok = false;
            }
            i += 1;
        }
        if ok {
            Ok(())
        } else {
            Err(DatabaseError::WriteFailed)
        }
    }

    /// Removes a single metric from the storage.
    ///
    /// The value leaves the persistent table and, for a Ping-lifetime
    /// metric, the delayed cache. An error reports that the durable mirror
    /// refused the deletion; the in-memory state no longer holds the value
    /// regardless.
    pub fn remove_single_metric(
        &mut self,
        lifetime: Lifetime,
        storage_name: &str,
        metric_id: &str,
    ) -> (r: Result<(), DatabaseError>)
        requires
            old(self).wf(),
        ensures
            final(self).wf(),
            final(self).delayed() == old(self).delayed(),
            final(self).store_map() == old(self).store_map().remove(
                (lifetime, storage_name@, metric_id@),
            ),
            final(self).cache_map() == old(self).cache_map().remove(
                (lifetime, storage_name@, metric_id@),
            ),
            r is Err ==> r == Err::<(), DatabaseError>(DatabaseError::WriteFailed),
    {
        let ghost k: MetricKey = (lifetime, storage_name@, metric_id@);
        match find_row_index(&self.rows, lifetime, storage_name, metric_id) {
            Some(i) => {
                proof {
                    lemma_rows_map_remove(self.rows@, i as int);
                }
                let _ = self.rows.remove(i);
            },
            None => {
                proof {
                    lemma_rows_map_contains(self.rows@, k);
                    assert(rows_map(self.rows@).remove(k) =~= rows_map(self.rows@));
                }
            },
        }
        if let Some(cache) = &mut self.ping_lifetime_data {
            match find_row_index(cache, lifetime, storage_name, metric_id) {
                Some(i) => {
                    proof {
                        lemma_rows_map_remove(cache@, i as int);
                    }
                    let _ = cache.remove(i);
                },
                None => {
                    proof {
                        lemma_rows_map_contains(cache@, k);
                        assert(rows_map(cache@).remove(k) =~= rows_map(cache@));
                    }
                },
            }
        } else {
            proof {
                assert(self.cache_rows() =~= Seq::<Row>::empty());
                lemma_rows_map_contains(self.cache_rows(), k);
                assert(self.cache_map().remove(k) =~= self.cache_map());
            }
        }
        let key_string = get_storage_key(storage_name, Some(metric_id));
        if disk_delete(&self.disk, lifetime.as_str(), key_string.as_str()) {
            Ok(())
        } else {
            Err(DatabaseError::WriteFailed)
        }
    }

    /// Clears all the metrics in the database, for the provided lifetime.
    ///
    /// Errors of the durable mirror are swallowed: the in-memory state is
    /// cleared either way, and a later open simply reloads what the disk
    /// still holds.
    pub fn clear_lifetime(&mut self, lifetime: Lifetime)
        requires
            old(self).wf(),
        ensures
            final(self).wf(),
            final(self).delayed() == old(self).delayed(),
            forall|k: MetricKey|
                #[trigger] final(self).store_map().contains_key(k) <==> (old(self).store_map().contains_key(k) && k.0 != lifetime),
            forall|k: MetricKey|
                #[trigger] final(self).store_map().contains_key(k) ==> final(self).store_map()[k]
                    == old(self).store_map()[k],
            forall|k: MetricKey|
                #[trigger] final(self).cache_map().contains_key(k) <==> (old(self).cache_map().contains_key(k) && k.0 != lifetime),
            forall|k: MetricKey|
                #[trigger] final(self).cache_map().contains_key(k) ==> final(self).cache_map()[k]
                    == old(self).cache_map()[k],
    {
        let _ = remove_rows_matching(&mut self.rows, lifetime, None);
        proof {
            lemma_cache_keys(*old(self));
        }
        if let Some(cache) = &mut self.ping_lifetime_data {
            let _ = remove_rows_matching(cache, lifetime, None);
        } else {
            proof {
                assert(self.cache_rows() =~= Seq::<Row>::empty());
                assert forall|k: MetricKey| !(#[trigger] self.cache_map().contains_key(k)) by {
                    lemma_rows_map_contains(self.cache_rows(), k);
                }
            }
        }
        let _ = disk_clear(&self.disk, lifetime.as_str());
    }

    /// Clears all metrics in the database.
    ///
    /// Errors of the durable mirror are swallowed, as in
    /// [`Database::clear_lifetime`].
    pub fn clear_all(&mut self)
        requires
            old(self).wf(),
        ensures
            final(self).wf(),
            final(self).delayed() == old(self).delayed(),
            forall|k: MetricKey| !(#[trigger] final(self).store_map().contains_key(k)),
            forall|k: MetricKey| !(#[trigger] final(self).cache_map().contains_key(k)),
    {
        self.clear_lifetime(Lifetime::User);
        self.clear_lifetime(Lifetime::Ping);
        self.clear_lifetime(Lifetime::Application);
        proof {
            assert forall|k: MetricKey| !(#[trigger] self.store_map().contains_key(k)) by {
                match k.0 {
                    Lifetime::User => {},
                    Lifetime::Ping => {},
                    Lifetime::Application => {},
                }
            }
            assert forall|k: MetricKey| !(#[trigger] self.cache_map().contains_key(k)) by {
                match k.0 {
                    Lifetime::User => {},
                    Lifetime::Ping => {},
                    Lifetime::Application => {},
                }
            }
        }
    }

    /// Persists the delayed ping-lifetime data to the durable store.
    ///
    /// Every buffered entry moves to the persistent table — buffered
    /// values overwrite persisted ones — and the cache is left empty, so
    /// the table afterwards holds exactly what a reader saw before. Does
    /// nothing when the store was not opened with delayed I/O. An error
    /// reports that the durable mirror refused one of the writes.
    pub fn persist_ping_lifetime_data(&mut self) -> (r: Result<(), DatabaseError>)
        requires
            old(self).wf(),
        ensures
            final(self).wf(),
            final(self).delayed() == old(self).delayed(),
            old(self).delayed() ==> {
                &&& final(self).store_map() == old(self).merged_map()
                &&& forall|k: MetricKey| !(#[trigger] final(self).cache_map().contains_key(k))
            },
            !old(self).delayed() ==> {
                &&& r is Ok
                &&& final(self).store_map() == old(self).store_map()
                &&& final(self).cache_map() == old(self).cache_map()
            },
            r is Err ==> r == Err::<(), DatabaseError>(DatabaseError::WriteFailed),
    {
        if self.ping_lifetime_data.is_none() {
            return Ok(());
        }
        let ghost target = old(self).merged_map();
        let mut ok = true;
        let mut remaining = match &self.ping_lifetime_data {
            Some(cache) => cache.len(),
            None => 0,
        };
        while remaining > 0
            invariant
                self.wf(),
                self.delayed(),
                remaining == self.cache_rows().len(),
                forall|k: MetricKey|
                    #[trigger] self.cache_map().contains_key(k) ==> target.contains_key(k)
                        && target[k] == self.cache_map()[k],
                forall|k: MetricKey|
                    !(#[trigger] self.cache_map().contains_key(k)) ==> same_at(
                        self.store_map(),
                        target,
                        k,
                    ),
            decreases remaining,
        {
            let ghost pre = *self;
            let popped = match &mut self.ping_lifetime_data {
                Some(cache) => cache.pop(),
                None => None,
            };
            match popped {
                Some(row) => {
                    proof {
                        let cr = pre.cache_rows();
                        assert(cr.len() == remaining);
                        assert(cr.len() > 0);
                        assert(self.cache_rows() =~= cr.drop_last());
                        assert(row == cr.last());
                        let kr = row_key(cr.last());
                        lemma_rows_map_contains(cr.drop_last(), kr);
                        assert forall|a: int| 0 <= a < cr.drop_last().len() implies row_key(
                            #[trigger] cr.drop_last()[a],
                        ) != kr by {
                            assert(cr.drop_last()[a] == cr[a]);
                            assert(row_key(cr[a]) != row_key(cr[cr.len() - 1]));
                        }
                        assert(!rows_map(cr.drop_last()).contains_key(kr));
                        assert(rows_map(cr) == rows_map(cr.drop_last()).insert(kr, cr.last().value@));
                        assert(pre.cache_map() == rows_map(cr));
                        assert(pre.cache_map().contains_key(kr));
                        assert(pre.cache_map()[kr] == row.value@);
                        assert(target.contains_key(kr) && target[kr] == row.value@);
                    }
                    let key_string = get_storage_key(row.ping.as_str(), Some(row.id.as_str()));
                    if !disk_put(
                        &self.disk,
                        Lifetime::Ping.as_str(),
                        key_string.as_str(),
                        row.value.as_slice(),
                    ) {
                        ok = false;
                    }
                    proof {
                        assert(row.lifetime == Lifetime::Ping);
                    }
                    upsert(&mut self.rows, Lifetime::Ping, row.ping.as_str(), row.id.as_str(), row.value);
                    proof {
                        let cr = pre.cache_rows();
                        let kr = row_key(cr.last());
                        assert(self.cache_map() == rows_map(cr.drop_last()));
                        assert(pre.cache_map() == self.cache_map().insert(kr, row.value@));
                        assert(self.store_map() == pre.store_map().insert(kr, row.value@));
                        assert forall|k: MetricKey|
                            #[trigger] self.cache_map().contains_key(k) implies target.contains_key(
                            k,
                        ) && target[k] == self.cache_map()[k] by {
                            assert(k != kr);
                            assert(pre.cache_map().contains_key(k));
                            assert(pre.cache_map()[k] == self.cache_map()[k]);
                        }
                        assert forall|k: MetricKey|
                            !(#[trigger] self.cache_map().contains_key(k)) implies same_at(
                            self.store_map(),
                            target,
                            k,
                        ) by {
                            if k == kr {
                                assert(self.store_map().contains_key(kr));
                                assert(self.store_map()[kr] == row.value@);
                            } else {
                                assert(!pre.cache_map().contains_key(k));
                                assert(same_at(pre.store_map(), target, k));
                            }
                        }
                    }
                    remaining = remaining - 1;
                },
                None => {
                    proof {
                        assert(false);
                    }
                },
            }
        }
        proof {
            assert forall|k: MetricKey| !(#[trigger] self.cache_map().contains_key(k)) by {
                assert(self.cache_rows().len() == 0);
                lemma_rows_map_contains(self.cache_rows(), k);
            }
            assert forall|k: MetricKey|
                #![trigger self.store_map().contains_key(k)]
                #![trigger target.contains_key(k)]
                self.store_map().contains_key(k) == target.contains_key(k) && (
                self.store_map().contains_key(k) ==> self.store_map()[k] == target[k]) by {
                assert(!self.cache_map().contains_key(k));
                assert(same_at(self.store_map(), target, k));
            }
            assert(self.store_map() =~= target);
        }
        if ok {
            Ok(())
        } else {
            Err(DatabaseError::WriteFailed)
        }
    }
}

impl Database {
    /// One-shot import of a legacy store's raw entries into this store.
    ///
    /// A legacy entry is a `("{ping_name}#{metric_id}", value)` pair; the
    /// key is split under the legacy scheme and the value inserted
    /// unchanged under the given lifetime. The import runs only while the
    /// persistent table is empty: a store that already holds data is never
    /// overwritten, and the call then changes nothing. Entries whose key
    /// holds no `#` are skipped. Reading and deleting the legacy files is
    /// the caller's concern.
    pub fn migrate_legacy_data(
        &mut self,
        lifetime: Lifetime,
        legacy: &Vec<(String, Vec<u8>)>,
    ) -> (r: Result<(), DatabaseError>)
        requires
            old(self).wf(),
        ensures
            final(self).wf(),
            final(self).delayed() == old(self).delayed(),
            final(self).cache_map() == old(self).cache_map(),
            (exists|k: MetricKey| old(self).store_map().contains_key(k)) ==> final(self).store_map() == old(self).store_map() && r is Ok,
            forall|k: MetricKey|
                #[trigger] final(self).store_map().contains_key(k) ==> old(self).store_map().contains_key(k) || (k.0 == lifetime && exists|i: int, h: int|
                    #![trigger crate::keys::is_first_hash(legacy@[i].0@, h)]
                    {
                        &&& 0 <= i < legacy@.len()
                        &&& crate::keys::is_first_hash(legacy@[i].0@, h)
                        &&& legacy@[i].0@.subrange(0, h) == k.1
                        &&& legacy@[i].0@.subrange(h + 1, legacy@[i].0@.len() as int) == k.2
                        &&& final(self).store_map()[k] == legacy@[i].1@
                    }),
            (r is Ok && (forall|k: MetricKey| !(#[trigger] old(self).store_map().contains_key(k))))
                ==> forall|i: int, h: int|
                #![trigger crate::keys::is_first_hash(legacy@[i].0@, h)]
                (0 <= i < legacy@.len() && crate::keys::is_first_hash(legacy@[i].0@, h)) ==> final(self).store_map().contains_key(
                    (
                        lifetime,
                        legacy@[i].0@.subrange(0, h),
                        legacy@[i].0@.subrange(h + 1, legacy@[i].0@.len() as int),
                    ),
                ),
            (forall|i: int, h: int|
                #![trigger crate::keys::is_first_hash(legacy@[i].0@, h)]
                0 <= i < legacy@.len() ==> !crate::keys::is_first_hash(legacy@[i].0@, h)) ==> r
                is Ok,
            r is Err ==> r == Err::<(), DatabaseError>(DatabaseError::WriteFailed),
    {
        let ghost pre = *self;
        if self.rows.len() > 0 {
            proof {
                lemma_rows_map_index(self.rows@, 0);
            }
            return Ok(());
        }
        proof {
            assert forall|k: MetricKey| !(#[trigger] pre.store_map().contains_key(k)) by {
                lemma_rows_map_contains(pre.rows@, k);
            }
        }
        let mut ok = true;
        let mut i: usize = 0;
        while i < legacy.len()
            invariant
                self.wf(),
                self.delayed() == pre.delayed(),
                self.cache_map() == pre.cache_map(),
                0 <= i <= legacy@.len(),
                forall|k: MetricKey| !(#[trigger] pre.store_map().contains_key(k)),
                forall|k: MetricKey|
                    #[trigger] self.store_map().contains_key(k) ==> (k.0 == lifetime && exists|
                        ii: int,
                        h: int,
                    |
                        #![trigger crate::keys::is_first_hash(legacy@[ii].0@, h)]
                        {
                            &&& 0 <= ii < legacy@.len()
                            &&& crate::keys::is_first_hash(legacy@[ii].0@, h)
                            &&& legacy@[ii].0@.subrange(0, h) == k.1
                            &&& legacy@[ii].0@.subrange(h + 1, legacy@[ii].0@.len() as int) == k.2
                            &&& self.store_map()[k] == legacy@[ii].1@
                        }),
                (forall|ii: int, h: int|
                    #![trigger crate::keys::is_first_hash(legacy@[ii].0@, h)]
                    0 <= ii < legacy@.len() ==> !crate::keys::is_first_hash(legacy@[ii].0@, h))
                    ==> ok,
                ok ==> forall|ii: int, h: int|
                    #![trigger crate::keys::is_first_hash(legacy@[ii].0@, h)]
                    (0 <= ii < i && crate::keys::is_first_hash(legacy@[ii].0@, h))
                        ==> self.store_map().contains_key(
                        (
                            lifetime,
                            legacy@[ii].0@.subrange(0, h),
                            legacy@[ii].0@.subrange(h + 1, legacy@[ii].0@.len() as int),
                        ),
                    ),
            decreases legacy@.len() - i,
        {
            let entry = &legacy[i];
            match crate::keys::split_storage_key(entry.0.as_str()) {
                Some((ping, id)) => {
                    let ghost gh = choose|h: int|
                        crate::keys::is_first_hash(entry.0@, h) && ping@ == entry.0@.subrange(0, h)
                            && id@ == entry.0@.subrange(h + 1, entry.0@.len() as int);
                    let blob = clone_bytes(&entry.1);
                    if disk_put(&self.disk, lifetime.as_str(), entry.0.as_str(), blob.as_slice()) {
                        let ghost before = *self;
                        upsert(&mut self.rows, lifetime, ping.as_str(), id.as_str(), blob);
                        proof {
                            let kk: MetricKey = (lifetime, ping@, id@);
                            assert(self.store_map() == before.store_map().insert(kk, entry.1@));
                            assert forall|h: int|
                                crate::keys::is_first_hash(entry.0@, h) implies h == gh by {
                                crate::keys::lemma_first_hash_unique(entry.0@, h, gh);
                            }
                        }
                    } else {
                        ok = false;
                    }
                },
                None => {},
            }
            i += 1;
        }
        if ok {
            Ok(())
        } else {
            Err(DatabaseError::WriteFailed)
        }
    }
}

/// Without delayed I/O the cache holds nothing at all.
pub proof fn lemma_no_delayed_cache(db: Database)
    requires
        !db.delayed(),
    ensures
        forall|k: MetricKey| !(#[trigger] db.cache_map().contains_key(k)),
{
    assert(db.cache_rows() =~= Seq::<Row>::empty());
    assert forall|k: MetricKey| !(#[trigger] db.cache_map().contains_key(k)) by {
        lemma_rows_map_contains(db.cache_rows(), k);
    }
}

/// How the merged view relates to its two layers: it contains a key when
/// either layer does, the cache wins where both hold one, and only
/// Ping-lifetime keys ever sit in the cache.
pub proof fn lemma_merged_overlay(db: Database)
    requires
        db.wf(),
    ensures
        forall|k: MetricKey|
            #[trigger] db.merged_map().contains_key(k) <==> (db.store_map().contains_key(k)
                || db.cache_map().contains_key(k)),
        forall|k: MetricKey|
            #[trigger] db.cache_map().contains_key(k) ==> db.merged_map()[k] == db.cache_map()[k],
        forall|k: MetricKey|
            db.store_map().contains_key(k) && !(#[trigger] db.cache_map().contains_key(k))
                ==> db.merged_map()[k] == db.store_map()[k],
        forall|k: MetricKey| #[trigger] db.cache_map().contains_key(k) ==> k.0 == Lifetime::Ping,
{
    lemma_cache_keys(db);
}

/// The table that merging one store's raw `(key, value)` entries into a
/// starting table yields: an entry contributes exactly when its key splits
/// as `"{ping}#{metric_id}"` and its `(lifetime, ping, id)` is not present
/// yet — the first occurrence of a key wins — and it contributes that
/// entry's value; nothing else changes.
pub open spec fn loaded_map(
    m0: Map<MetricKey, Seq<u8>>,
    lifetime: Lifetime,
    raw: Seq<(String, Vec<u8>)>,
) -> Map<MetricKey, Seq<u8>>
    decreases raw.len(),
{
    if raw.len() == 0 {
        m0
    } else {
        let prev = loaded_map(m0, lifetime, raw.drop_last());
        match crate::keys::legacy_split(raw.last().0@) {
            Some((ping, id)) => if prev.contains_key((lifetime, ping, id)) {
                prev
            } else {
                prev.insert((lifetime, ping, id), raw.last().1@)
            },
            None => prev,
        }
    }
}

/// Merge one store's raw entries into the table: exactly the rows
/// [`loaded_map`] describes join it.
fn load_rows(rows: &mut Vec<Row>, lifetime: Lifetime, raw: &Vec<(String, Vec<u8>)>)
    requires
        rows_unique(old(rows)@),
    ensures
        rows_unique(final(rows)@),
        rows_map(final(rows)@) == loaded_map(rows_map(old(rows)@), lifetime, raw@),
{
    let ghost m0 = rows_map(old(rows)@);
    let mut i: usize = 0;
    while i < raw.len()
        invariant
            rows_unique(rows@),
            0 <= i <= raw@.len(),
            m0 == rows_map(old(rows)@),
            rows_map(rows@) == loaded_map(m0, lifetime, raw@.take(i as int)),
        decreases raw.len() - i,
    {
        proof {
            assert(raw@.take(i as int + 1).drop_last() =~= raw@.take(i as int));
            assert(raw@.take(i as int + 1).last() == raw@[i as int]);
        }
        let (key_string, blob) = (&raw[i].0, &raw[i].1);
        if let Some((ping, id)) = crate::keys::split_storage_key(key_string.as_str()) {
            let ghost k: MetricKey = (lifetime, ping@, id@);
            match find_row_index(rows, lifetime, ping.as_str(), id.as_str()) {
                Some(j) => {
                    proof {
                        lemma_rows_map_index(rows@, j as int);
                        assert(rows_map(rows@).contains_key(k));
                    }
                },
                None => {
                    proof {
                        lemma_rows_map_contains(rows@, k);
                        assert(!rows_map(rows@).contains_key(k));
                    }
                    let ghost before = rows@;
                    let row = Row { lifetime, ping, id, value: clone_bytes(blob) };
                    let ghost rk = row_key(row);
                    proof {
                        lemma_rows_map_push(before, row);
                    }
                    rows.push(row);
                    proof {
                        assert forall|a: int, b: int| 0 <= a < b < rows@.len() implies row_key(
                            #[trigger] rows@[a],
                        ) != row_key(#[trigger] rows@[b]) by {
                            if b == rows@.len() - 1 {
                                assert(rows@[a] == before[a]);
                                assert(row_key(before[a]) != rk);
                            } else {
                                assert(rows@[a] == before[a] && rows@[b] == before[b]);
                            }
                        }
                    }
                },
            }
        }
        i += 1;
    }
    proof {
        assert(raw@.take(raw@.len() as int) =~= raw@);
    }
}

} // verus!
