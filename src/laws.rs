//! Laws of the cache, stated over the index model that the server's and
//! the client's operations are specified with.
use crate::client::{client_get_result, MAX_VALUE_SIZE};
use crate::memory::footprint;
use crate::protocol::{elapsed_seconds, EntryView, MILLIS_PER_SECOND};
use crate::server::{footprints, lookup, SERVER_POOL_ALIGNMENT};
use crate::sums::{lemma_map_sum_insert, map_sum};
use vstd::arithmetic::div_mod::lemma_fundamental_div_mod;
use vstd::prelude::*;

verus! {

/// The index after a PUT of `value` under `key` at `now`, placed at `offset`.
pub open spec fn put_entry(
    m: Map<Seq<u8>, EntryView>,
    key: Seq<u8>,
    value: Seq<u8>,
    ttl_seconds: u64,
    now: u64,
    offset: u64,
) -> Map<Seq<u8>, EntryView> {
    m.insert(key, EntryView { data: value, offset, ttl_seconds, created_at: now })
}

/// The index after PUTs of each of `values` under `key`, in order, the i-th
/// placed at `offsets[i]`.
pub open spec fn put_all(
    m: Map<Seq<u8>, EntryView>,
    key: Seq<u8>,
    values: Seq<Seq<u8>>,
    ttl_seconds: u64,
    now: u64,
    offsets: Seq<u64>,
) -> Map<Seq<u8>, EntryView>
    decreases values.len(),
{
    if values.len() == 0 {
        m
    } else {
        put_entry(
            put_all(m, key, values.drop_last(), ttl_seconds, now, offsets),
            key,
            values.last(),
            ttl_seconds,
            now,
            offsets[values.len() - 1],
        )
    }
}

/// The footprint of a value in the server's pool.
pub open spec fn value_footprint(value: Seq<u8>) -> nat {
    footprint(value.len(), SERVER_POOL_ALIGNMENT as nat)
}

/// A GET after a PUT of the same key finds the value put, as long as the
/// entry has not expired; through a client, whose slot holds
/// `MAX_VALUE_SIZE` bytes, it returns that value.
pub proof fn lemma_get_after_put(
    m: Map<Seq<u8>, EntryView>,
    key: Seq<u8>,
    value: Seq<u8>,
    ttl_seconds: u64,
    now: u64,
    offset: u64,
    later: u64,
)
    requires
        !(ttl_seconds != 0 && elapsed_seconds(now, later) >= ttl_seconds),
    ensures
        lookup(put_entry(m, key, value, ttl_seconds, now, offset), key, later) == Some(value),
        value.len() <= MAX_VALUE_SIZE ==> client_get_result(
            put_entry(m, key, value, ttl_seconds, now, offset),
            key,
            later,
        ) == Ok::<Seq<u8>, crate::error::KvError>(value),
{
}

/// Of two PUTs of one key the second wins, and the pool bytes held change by
/// the difference of the two values' footprints: no more are held after the
/// second than after the first when the second value's footprint is no
/// larger.
pub proof fn lemma_second_put_wins(
    m: Map<Seq<u8>, EntryView>,
    key: Seq<u8>,
    v1: Seq<u8>,
    v2: Seq<u8>,
    ttl_seconds: u64,
    now1: u64,
    now2: u64,
    off1: u64,
    off2: u64,
    later: u64,
)
    requires
        m.dom().finite(),
        !(ttl_seconds != 0 && elapsed_seconds(now2, later) >= ttl_seconds),
    ensures
        ({
            let m1 = put_entry(m, key, v1, ttl_seconds, now1, off1);
            let m2 = put_entry(m1, key, v2, ttl_seconds, now2, off2);
            &&& lookup(m2, key, later) == Some(v2)
            &&& map_sum(footprints(m2)) + value_footprint(v1) == map_sum(footprints(m1)) + value_footprint(v2)
            &&& value_footprint(v2) <= value_footprint(v1) ==> map_sum(footprints(m2)) <= map_sum(footprints(m1))
        }),
{
    let m1 = put_entry(m, key, v1, ttl_seconds, now1, off1);
    let m2 = put_entry(m1, key, v2, ttl_seconds, now2, off2);
    assert(footprints(m1) =~= footprints(m).insert(key, value_footprint(v1)));
    assert(footprints(m2) =~= footprints(m1).insert(key, value_footprint(v2)));
    assert(footprints(m).dom() =~= m.dom());
    lemma_map_sum_insert(footprints(m), key, value_footprint(v1));
    lemma_map_sum_insert(footprints(m1), key, value_footprint(v2));
    assert(footprints(m1).remove(key) =~= footprints(m).remove(key));
}

/// A GET after a DELETE of the same key finds nothing.
pub proof fn lemma_get_after_delete(m: Map<Seq<u8>, EntryView>, key: Seq<u8>, now: u64)
    ensures
        lookup(m.remove(key), key, now) is None,
        client_get_result(m.remove(key), key, now) == Err::<Seq<u8>, crate::error::KvError>(
            crate::error::KvError::NotFound,
        ),
{
}

/// A DELETE of a key that is not there leaves the index as it was.
pub proof fn lemma_delete_absent(m: Map<Seq<u8>, EntryView>, key: Seq<u8>)
    requires
        !m.contains_key(key),
    ensures
        m.remove(key) == m,
{
    assert(m.remove(key) =~= m);
}

/// After PUTs of one key in any order of arrival, exactly the last value
/// survives, and the pool bytes held for that key are its footprint alone.
pub proof fn lemma_last_put_survives(
    m: Map<Seq<u8>, EntryView>,
    key: Seq<u8>,
    values: Seq<Seq<u8>>,
    ttl_seconds: u64,
    now: u64,
    offsets: Seq<u64>,
    later: u64,
)
    requires
        m.dom().finite(),
        values.len() > 0,
        offsets.len() >= values.len(),
        !(ttl_seconds != 0 && elapsed_seconds(now, later) >= ttl_seconds),
    ensures
        lookup(put_all(m, key, values, ttl_seconds, now, offsets), key, later) == Some(values.last()),
        map_sum(footprints(put_all(m, key, values, ttl_seconds, now, offsets))) == map_sum(
            footprints(m.remove(key)),
        ) + value_footprint(values.last()),
    decreases values.len(),
{
    let prev = put_all(m, key, values.drop_last(), ttl_seconds, now, offsets);
    let all = put_all(m, key, values, ttl_seconds, now, offsets);
    lemma_put_all_rest(m, key, values.drop_last(), ttl_seconds, now, offsets);
    assert(footprints(all) =~= footprints(prev).insert(key, value_footprint(values.last())));
    assert(footprints(prev).dom() =~= prev.dom());
    lemma_map_sum_insert(footprints(prev), key, value_footprint(values.last()));
    assert(footprints(prev).remove(key) =~= footprints(m.remove(key)));
}

/// PUTs of one key leave every other key as it was, and keep the index
/// finite.
proof fn lemma_put_all_rest(
    m: Map<Seq<u8>, EntryView>,
    key: Seq<u8>,
    values: Seq<Seq<u8>>,
    ttl_seconds: u64,
    now: u64,
    offsets: Seq<u64>,
)
    requires
        m.dom().finite(),
    ensures
        put_all(m, key, values, ttl_seconds, now, offsets).remove(key) == m.remove(key),
        put_all(m, key, values, ttl_seconds, now, offsets).dom().finite(),
    decreases values.len(),
{
    if values.len() > 0 {
        lemma_put_all_rest(m, key, values.drop_last(), ttl_seconds, now, offsets);
        let prev = put_all(m, key, values.drop_last(), ttl_seconds, now, offsets);
        assert(put_all(m, key, values, ttl_seconds, now, offsets).remove(key) =~= prev.remove(key));
    }
}

/// Time to live: a GET issued `ttl_seconds` seconds or more after a PUT
/// with a nonzero time to live finds nothing; one issued earlier finds the
/// value. Times are in milliseconds.
pub proof fn lemma_ttl_expiry(
    m: Map<Seq<u8>, EntryView>,
    key: Seq<u8>,
    value: Seq<u8>,
    ttl_seconds: u64,
    now: u64,
    offset: u64,
    later: u64,
)
    requires
        ttl_seconds > 0,
        later >= now,
    ensures
        later - now >= ttl_seconds * MILLIS_PER_SECOND ==> lookup(
            put_entry(m, key, value, ttl_seconds, now, offset),
            key,
            later,
        ) is None,
        later - now < ttl_seconds * MILLIS_PER_SECOND ==> lookup(
            put_entry(m, key, value, ttl_seconds, now, offset),
            key,
            later,
        ) == Some(value),
{
    let d = (later - now) as int;
    lemma_fundamental_div_mod(d, 1000);
    let q = d / 1000;
    let t = ttl_seconds as int;
    assert(d >= t * 1000 <==> q >= t) by (nonlinear_arith)
        requires
            d == 1000 * q + d % 1000,
            0 <= d % 1000 < 1000,
    ;
    assert(elapsed_seconds(now, later) == q);
}

} // verus!
