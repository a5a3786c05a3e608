//! The storage key scheme.
//!
//! On disk, a value recorded under `(ping_name, metric_id)` lives under the
//! single key `"{ping_name}#{metric_id}"` within its lifetime's store; a
//! key `"{ping_name}#"` is the prefix of every key of that ping. Ping names
//! never contain `#`, so splitting at the first `#` inverts composition.

use vstd::prelude::*;
use vstd::string::{StrSliceExecFns, StringExecFns};

verus! {

/// The composed storage key for a ping name and metric identifier.
pub open spec fn storage_key_spec(ping: Seq<char>, id: Seq<char>) -> Seq<char> {
    ping + seq!['#'] + id
}

/// `i` is the first `#` in `k`.
pub open spec fn is_first_hash(k: Seq<char>, i: int) -> bool {
    &&& 0 <= i < k.len()
    &&& k[i] == '#'
    &&& forall|j: int| 0 <= j < i ==> k[j] != '#'
}

/// Compose the storage key for a metric, or the iteration prefix of a ping
/// when no metric identifier is given.
pub fn get_storage_key(storage_name: &str, metric_id: Option<&str>) -> (r: String)
    ensures
        match metric_id {
            Some(id) => r@ == storage_key_spec(storage_name@, id@),
            None => r@ == storage_name@ + seq!['#'],
        },
{
    proof {
        reveal_strlit("#");
        assert("#"@ =~= seq!['#']);
    }
    let mut key = String::from_str(storage_name);
    key.append("#");
    match metric_id {
        Some(id) => {
            key.append(id);
        },
        None => {},
    }
    key
}

/// What splitting a key at its first `#` yields: the parts before and
/// after it, or nothing when the key holds no `#`.
pub open spec fn legacy_split(k: Seq<char>) -> Option<(Seq<char>, Seq<char>)> {
    if exists|h: int| is_first_hash(k, h) {
        let h = choose|h: int| is_first_hash(k, h);
        Some((k.subrange(0, h), k.subrange(h + 1, k.len() as int)))
    } else {
        None
    }
}

/// Split a storage key at its first `#` into ping name and metric
/// identifier. Returns `None` when the key holds no `#`.
pub fn split_storage_key(key: &str) -> (r: Option<(String, String)>)
    ensures
        match r {
            Some((ping, id)) => legacy_split(key@) == Some((ping@, id@)),
            None => legacy_split(key@) is None,
        },
        r is Some <==> legacy_split(key@) is Some,
{
    let len = key.unicode_len();
    let mut i: usize = 0;
    while i < len
        invariant
            len == key@.len(),
            0 <= i <= len,
            forall|j: int| 0 <= j < i ==> key@[j] != '#',
        decreases len - i,
    {
        if key.get_char(i) == '#' {
            let ping = key.substring_char(0, i);
            let id = key.substring_char(i + 1, len);
            proof {
                assert(is_first_hash(key@, i as int));
                let h = choose|h: int| is_first_hash(key@, h);
                lemma_first_hash_unique(key@, h, i as int);
            }
            return Some((String::from_str(ping), String::from_str(id)));
        }
        i += 1;
    }
    proof {
        assert(forall|h: int| !is_first_hash(key@, h));
    }
    None
}

/// The first `#` of a composed key stands right after the ping name, so
/// splitting recovers both parts.
pub proof fn lemma_split_storage_key(ping: Seq<char>, id: Seq<char>)
    requires
        forall|j: int| 0 <= j < ping.len() ==> ping[j] != '#',
    ensures
        is_first_hash(storage_key_spec(ping, id), ping.len() as int),
        storage_key_spec(ping, id).subrange(0, ping.len() as int) == ping,
        storage_key_spec(ping, id).subrange(
            ping.len() as int + 1,
            storage_key_spec(ping, id).len() as int,
        ) == id,
{
    let k = storage_key_spec(ping, id);
    assert(k[ping.len() as int] == '#');
    assert(forall|j: int| 0 <= j < ping.len() ==> k[j] == ping[j]);
    assert(k.subrange(0, ping.len() as int) =~= ping);
    assert(k.subrange(ping.len() as int + 1, k.len() as int) =~= id);
}

/// There is only one first `#`.
pub proof fn lemma_first_hash_unique(k: Seq<char>, i1: int, i2: int)
    requires
        is_first_hash(k, i1),
        is_first_hash(k, i2),
    ensures
        i1 == i2,
{
}

} // verus!
