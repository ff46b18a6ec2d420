use vstd::prelude::*;
use crate::error::ContextError;
use crate::key::key_of;
use crate::store::{
    EntryView, context_object, empty_object, is_stale, open_outcome, opened, signed, unsigned,
    update_outcome,
};
use crate::value::{ValueView, field_value};

verus! {

/// The entries after a run of opens of the same lookup values, one after
/// another, with the given TTLs at the given seconds.
pub open spec fn open_all(
    m: Map<u64, EntryView>,
    keys: Seq<ValueView>,
    ttls: Seq<i64>,
    times: Seq<u64>,
) -> Map<u64, EntryView>
    decreases ttls.len(),
{
    if ttls.len() == 0 || times.len() == 0 {
        m
    } else {
        open_all(
            open_outcome(m, keys, ttls[0], times[0]).0,
            keys,
            ttls.drop_first(),
            times.drop_first(),
        )
    }
}

/// The results of that run, in order.
pub open spec fn open_all_results(
    m: Map<u64, EntryView>,
    keys: Seq<ValueView>,
    ttls: Seq<i64>,
    times: Seq<u64>,
) -> Seq<Result<ValueView, ContextError>>
    decreases ttls.len(),
{
    if ttls.len() == 0 || times.len() == 0 {
        Seq::empty()
    } else {
        let (after, r) = open_outcome(m, keys, ttls[0], times[0]);
        seq![r] + open_all_results(after, keys, ttls.drop_first(), times.drop_first())
    }
}

/// A key survives the trip through the integer that carries it.
pub proof fn key_round_trip(k: u64)
    ensures
        unsigned(signed(k)) == k,
{
}

/// Opening the same lookup values twice in a row at the same second returns
/// the same result both times, and the second call leaves the store as the
/// first left it. On a store without an entry for them, both return an empty
/// object as the data.
pub proof fn reopen_is_idempotent(
    m: Map<u64, EntryView>,
    keys: Seq<ValueView>,
    seconds: i64,
    now: u64,
)
    requires
        seconds >= 0,
    ensures
        ({
            let (m1, r1) = open_outcome(m, keys, seconds, now);
            let (m2, r2) = open_outcome(m1, keys, seconds, now);
            &&& r1 is Ok
            &&& m2 == m1
            &&& r2 == r1
            &&& !m.contains_key(key_of(keys)) ==> r1 == Ok::<ValueView, ContextError>(
                context_object(key_of(keys), empty_object()),
            )
        }),
{
}

/// An update that writes `data` under the key that an open returned is seen
/// by the next open of the same lookup values, as long as the entry is still
/// fresh then.
pub proof fn update_is_visible(
    m: Map<u64, EntryView>,
    keys: Seq<ValueView>,
    seconds: i64,
    opened_at: u64,
    data: ValueView,
    updated_at: u64,
    later_seconds: i64,
    reopened_at: u64,
)
    requires
        seconds >= 0,
        later_seconds >= 0,
        !is_stale(opened(m, key_of(keys), seconds, opened_at)[key_of(keys)], reopened_at),
    ensures
        ({
            let k = key_of(keys);
            let m1 = open_outcome(m, keys, seconds, opened_at).0;
            let m2 = update_outcome(m1, context_object(k, data), updated_at);
            &&& m2 is Ok
            &&& open_outcome(m2->Ok_0, keys, later_seconds, reopened_at).1 == Ok::<
                ValueView,
                ContextError,
            >(context_object(k, data))
        }),
{
    reveal_strlit("key");
    reveal_strlit("data");
    let k = key_of(keys);
    let fields = context_object(k, data)->Object_0;
    assert("key"@.len() == 3);
    assert("data"@.len() == 4);
    assert(fields[0].0 != "data"@);
    assert(fields.drop_first() =~= seq![("data"@, data)]);
    assert(field_value(fields, "key"@) == Some(ValueView::Integer(signed(k))));
    assert(field_value(fields.drop_first(), "data"@) == Some(data));
    assert(field_value(fields, "data"@) == Some(data));
    key_round_trip(k);
}

/// Opens of the same lookup values, however many and whatever their TTLs and
/// seconds, run one after another as the store's exclusive access orders
/// concurrent calls: every one returns the same derived key, and together
/// they add exactly that one key to the store.
pub proof fn opens_share_one_entry(
    m: Map<u64, EntryView>,
    keys: Seq<ValueView>,
    ttls: Seq<i64>,
    times: Seq<u64>,
)
    requires
        ttls.len() == times.len(),
        ttls.len() > 0,
        forall|i: int| 0 <= i < ttls.len() ==> #[trigger] ttls[i] >= 0,
    ensures
        open_all(m, keys, ttls, times).dom() == m.dom().insert(key_of(keys)),
        open_all_results(m, keys, ttls, times).len() == ttls.len(),
        forall|i: int|
            0 <= i < ttls.len() ==> {
                let r = #[trigger] open_all_results(m, keys, ttls, times)[i];
                &&& r is Ok
                &&& r->Ok_0->Object_0[0] == ("key"@, ValueView::Integer(signed(key_of(keys))))
            },
    decreases ttls.len(),
{
    let (m1, r1) = open_outcome(m, keys, ttls[0], times[0]);
    assert(m1.dom() =~= m.dom().insert(key_of(keys)));
    let rest = open_all_results(m1, keys, ttls.drop_first(), times.drop_first());
    assert(open_all(m, keys, ttls, times) == open_all(
        m1,
        keys,
        ttls.drop_first(),
        times.drop_first(),
    ));
    if ttls.len() > 1 {
        assert forall|i: int| 0 <= i < ttls.len() - 1 implies #[trigger] ttls.drop_first()[i]
            >= 0 by {
            assert(ttls.drop_first()[i] == ttls[i + 1]);
        }
        opens_share_one_entry(m1, keys, ttls.drop_first(), times.drop_first());
        assert(m1.dom().insert(key_of(keys)) =~= m1.dom());
    }
    let all = open_all_results(m, keys, ttls, times);
    assert(all == seq![r1] + rest);
    assert forall|i: int| 0 <= i < ttls.len() implies {
        let r = #[trigger] all[i];
        &&& r is Ok
        &&& r->Ok_0->Object_0[0] == ("key"@, ValueView::Integer(signed(key_of(keys))))
    } by {
        if i > 0 {
            assert(all[i] == rest[i - 1]);
        }
    }
}

} // verus!
