//! The storage engine's general laws, stated and proved once.
//!
//! Each law speaks over the same spec-level maps the store's contracts
//! use: [`Database::store_map`], [`Database::cache_map`] and
//! [`Database::merged_map`].

use vstd::prelude::*;

use crate::codec::{decode_spec, enc_metric};
use crate::database::{map_has, same_at, Database, MetricKey};
use crate::lifetime::Lifetime;
use crate::metric::{Metric, MetricView};

verus! {

/// Upsert idempotence: recording the same value twice under the same key
/// leaves exactly the state one record leaves.
pub proof fn lemma_upsert_idempotent(m: Map<MetricKey, Seq<u8>>, k: MetricKey, v: Seq<u8>)
    ensures
        m.insert(k, v).insert(k, v) == m.insert(k, v),
{
    assert(m.insert(k, v).insert(k, v) =~= m.insert(k, v));
}

/// Lifetime isolation: the same ping name and metric identifier name three
/// distinct keys under the three lifetimes, so recording under all three
/// yields three independent entries, each holding its own value.
pub proof fn lemma_lifetime_isolation(
    m: Map<MetricKey, Seq<u8>>,
    ping: Seq<char>,
    id: Seq<char>,
    v_ping: Seq<u8>,
    v_app: Seq<u8>,
    v_user: Seq<u8>,
)
    ensures
        ({
            let k_ping: MetricKey = (Lifetime::Ping, ping, id);
            let k_app: MetricKey = (Lifetime::Application, ping, id);
            let k_user: MetricKey = (Lifetime::User, ping, id);
            let m3 = m.insert(k_ping, v_ping).insert(k_app, v_app).insert(k_user, v_user);
            &&& k_ping != k_app && k_app != k_user && k_ping != k_user
            &&& map_has(m3, k_ping, v_ping)
            &&& map_has(m3, k_app, v_app)
            &&& map_has(m3, k_user, v_user)
        }),
{
}

/// The value the increment transform produces from a stored value: one
/// more than the stored counter, starting from zero when nothing (or
/// something other than a counter) is stored.
pub open spec fn counter_increment(prev: Option<MetricView>) -> MetricView {
    match prev {
        Some(MetricView::Counter(c)) => if c < i32::MAX {
            MetricView::Counter((c + 1) as i32)
        } else {
            MetricView::Counter(i32::MAX)
        },
        _ => MetricView::Counter(1),
    }
}

/// One atomic counter-increment step at key `k`: the map moves from `m1`
/// to `m2` by storing the increment of what `m1` held.
pub open spec fn increment_step(
    m1: Map<MetricKey, Seq<u8>>,
    m2: Map<MetricKey, Seq<u8>>,
    k: MetricKey,
) -> bool {
    let prev: Option<MetricView> = if m1.contains_key(k) {
        decode_spec(m1[k])
    } else {
        None
    };
    m2 == m1.insert(k, enc_metric(counter_increment(prev)))
}

/// The value-level part of an increment step at `k`: `m2` holds the
/// increment of what `m1` held there, whatever else the maps hold.
pub open spec fn increment_at(
    m1: Map<MetricKey, Seq<u8>>,
    m2: Map<MetricKey, Seq<u8>>,
    k: MetricKey,
) -> bool {
    let prev: Option<MetricView> = if m1.contains_key(k) {
        decode_spec(m1[k])
    } else {
        None
    };
    map_has(m2, k, enc_metric(counter_increment(prev)))
}

/// A full increment step performs a value-level increment.
pub proof fn lemma_increment_step_at(
    m1: Map<MetricKey, Seq<u8>>,
    m2: Map<MetricKey, Seq<u8>>,
    k: MetricKey,
)
    requires
        increment_step(m1, m2, k),
    ensures
        increment_at(m1, m2, k),
{
}

/// Atomic transform: starting from a state without the key, `n` sequential
/// counter-increment steps leave the counter at exactly `n`. Every
/// intermediate value observed by a step is the fully written previous
/// value, never a partial state.
pub proof fn lemma_atomic_transform(states: Seq<Map<MetricKey, Seq<u8>>>, k: MetricKey, n: int)
    requires
        0 <= n < states.len(),
        n <= i32::MAX,
        !states[0].contains_key(k),
        forall|i: int| 0 <= i < n ==> increment_at(#[trigger] states[i], states[i + 1], k),
    ensures
        n > 0 ==> map_has(states[n], k, enc_metric(MetricView::Counter(n as i32))),
    decreases n,
{
    if n > 0 {
        lemma_atomic_transform(states, k, n - 1);
        assert(increment_at(states[n - 1], states[n], k));
        if n == 1 {
            crate::codec::lemma_roundtrip(MetricView::Counter((n - 1) as i32));
            assert(!states[0].contains_key(k));
        } else {
            crate::codec::lemma_roundtrip(MetricView::Counter((n - 1) as i32));
            assert(decode_spec(states[n - 1][k]) == Some(MetricView::Counter((n - 1) as i32)));
        }
    }
}

/// The merged-view bridge from [`Database::record_with`]: a call whose
/// transform behaves as the counter increment performs a value-level
/// increment on the merged view, delayed stores included. `t_ens` stands
/// for what the transform's postcondition guarantees of its result, and
/// the hypothesis is what `record_with` promises for each ping of a
/// duplicate-free list.
pub proof fn lemma_applied_is_increment(
    pre: Database,
    m2: Map<MetricKey, Seq<u8>>,
    k: MetricKey,
    t_ens: spec_fn(Option<Metric>, Metric) -> bool,
)
    requires
        forall|p: Option<Metric>, o: Metric|
            #[trigger] t_ens(p, o) ==> o@ == counter_increment(opt_metric_view(p)),
        exists|prev: Option<Metric>, out: Metric|
            crate::database::prev_matches(pre, k, prev) && #[trigger] t_ens(prev, out) && map_has(
                m2,
                k,
                enc_metric(out@),
            ),
    ensures
        increment_at(pre.merged_map(), m2, k),
{
    let (prev, out) = choose|prev: Option<Metric>, out: Metric|
        crate::database::prev_matches(pre, k, prev) && #[trigger] t_ens(prev, out) && map_has(
            m2,
            k,
            enc_metric(out@),
        );
    let mprev: Option<MetricView> = if pre.merged_map().contains_key(k) {
        decode_spec(pre.merged_map()[k])
    } else {
        None
    };
    match prev {
        Some(m) => {
            assert(mprev == Some(m@));
        },
        None => {
            assert(counter_increment(mprev) == counter_increment(None));
        },
    }
    assert(out@ == counter_increment(mprev));
}

/// The value a recording transform was applied to, as a mathematical value.
pub open spec fn opt_metric_view(p: Option<Metric>) -> Option<MetricView> {
    match p {
        Some(m) => Some(m@),
        None => None,
    }
}

/// The bridge from [`Database::record_per_lifetime_with`] to
/// [`increment_step`]: a successful write-through call whose transform
/// behaves as the counter increment performs exactly one increment step on
/// the persistent table. `t_ens` stands for what the transform's
/// postcondition guarantees of its result.
pub proof fn lemma_record_with_increments(
    pre: Database,
    post: Database,
    k: MetricKey,
    t_ens: spec_fn(Option<Metric>, Metric) -> bool,
)
    requires
        pre.wf(),
        !pre.delayed(),
        forall|p: Option<Metric>, o: Metric|
            #[trigger] t_ens(p, o) ==> o@ == counter_increment(opt_metric_view(p)),
        exists|prev: Option<Metric>, out: Metric|
            crate::database::prev_matches(pre, k, prev) && #[trigger] t_ens(prev, out) && post.store_map()
                == pre.store_map().insert(k, enc_metric(out@)),
    ensures
        increment_step(pre.store_map(), post.store_map(), k),
{
    crate::database::lemma_merged_overlay(pre);
    crate::database::lemma_no_delayed_cache(pre);
    let (prev, out) = choose|prev: Option<Metric>, out: Metric|
        crate::database::prev_matches(pre, k, prev) && #[trigger] t_ens(prev, out)
            && post.store_map() == pre.store_map().insert(k, enc_metric(out@));
    let step_prev: Option<MetricView> = if pre.store_map().contains_key(k) {
        decode_spec(pre.store_map()[k])
    } else {
        None
    };
    match prev {
        Some(m) => {
            assert(pre.merged_map().contains_key(k));
            assert(pre.merged_map()[k] == pre.store_map()[k]);
            assert(step_prev == Some(m@));
        },
        None => {
            if pre.store_map().contains_key(k) {
                assert(pre.merged_map().contains_key(k));
                assert(pre.merged_map()[k] == pre.store_map()[k]);
                assert(decode_spec(pre.store_map()[k]) is None);
            }
            assert(counter_increment(step_prev) == counter_increment(None));
        },
    }
    assert(out@ == counter_increment(step_prev));
}

/// Delayed-cache merge: a Ping-lifetime record that went to the delayed
/// cache is immediately visible in the merged view, while the persistent
/// table does not yet contain it (unless it already did).
pub proof fn lemma_delayed_cache_merge(
    pre: Database,
    post: Database,
    ping: Seq<char>,
    id: Seq<char>,
    v: Seq<u8>,
)
    requires
        pre.wf(),
        post.wf(),
        post.cache_map() == pre.cache_map().insert((Lifetime::Ping, ping, id), v),
        post.store_map() == pre.store_map(),
    ensures
        map_has(post.merged_map(), (Lifetime::Ping, ping, id), v),
        !pre.store_map().contains_key((Lifetime::Ping, ping, id)) ==> !post.store_map()
            .contains_key((Lifetime::Ping, ping, id)),
{
    crate::database::lemma_merged_overlay(post);
}

} // verus!
