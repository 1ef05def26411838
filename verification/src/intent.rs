//! Order intents: when pending intents are flushed, and which of them are
//! merged into one order.
use vstd::prelude::*;
use crate::types::{InstrumentId, Side};

verus! {

/// Whether the aggregation window has elapsed at `ts_ms` since the last
/// flush; the window length is read as a signed number of milliseconds.
pub fn flush_due(aggregate_window_ms: u64, last_flush_ts: i64, ts_ms: i64) -> (r: bool)
    requires
        i64::MIN <= ts_ms - last_flush_ts <= i64::MAX,
    ensures
        r == (ts_ms - last_flush_ts >= aggregate_window_ms as i64),
{
    let window = aggregate_window_ms as i64;
    ts_ms - last_flush_ts >= window
}

/// Two intents go into one order: same instrument and same side.
pub open spec fn same_order(a: (InstrumentId, Side), b: (InstrumentId, Side)) -> bool {
    a.0.venue == b.0.venue && a.0.symbol@ == b.0.symbol@ && a.1 == b.1
}

/// `groups` partitions the positions of `keys` into orders: each group is
/// non-empty and ascending, its members share the order of its first member,
/// the first members of two groups belong to different orders and ascend from
/// group to group, and every position is in a group.
pub open spec fn order_groups(keys: Seq<(InstrumentId, Side)>, groups: Seq<Seq<usize>>) -> bool {
    &&& forall|g: int| 0 <= g < groups.len() ==> #[trigger] groups[g].len() > 0
    &&& forall|g: int, j: int|
        0 <= g < groups.len() && 0 <= j < groups[g].len() ==> #[trigger] groups[g][j] < keys.len()
    &&& forall|g: int, a: int, b: int|
        0 <= g < groups.len() && 0 <= a < b < groups[g].len() ==> #[trigger] groups[g][a] < #[trigger] groups[g][b]
    &&& forall|g: int, j: int|
        0 <= g < groups.len() && 0 <= j < groups[g].len() ==> same_order(
            keys[#[trigger] groups[g][j] as int],
            keys[groups[g][0] as int],
        )
    &&& forall|g: int, h: int|
        0 <= g < h < groups.len() ==> !same_order(keys[#[trigger] groups[g][0] as int], keys[#[trigger] groups[h][0] as int])
            && groups[g][0] < groups[h][0]
    &&& forall|m: int| 0 <= m < keys.len() ==> #[trigger] in_some_group(groups, m)
}

/// Position `m` is a member of one of `groups`.
pub open spec fn in_some_group(groups: Seq<Seq<usize>>, m: int) -> bool {
    exists|g: int, j: int| 0 <= g < groups.len() && 0 <= j < groups[g].len() && #[trigger] groups[g][j] == m
}

/// The views of a sequence of index vectors.
pub open spec fn group_views(v: Seq<Vec<usize>>) -> Seq<Seq<usize>> {
    Seq::new(v.len(), |i: int| v[i]@)
}

fn same_order_exec(a: &(InstrumentId, Side), b: &(InstrumentId, Side)) -> (r: bool)
    ensures
        r == same_order(*a, *b),
{
    a.0.venue == b.0.venue && a.0.symbol == b.0.symbol && a.1 == b.1
}

/// The positions of `keys` grouped into orders: intents with the same
/// instrument and side form one group, in input order; groups come in the
/// order of their first intent.
pub fn aggregation_groups(keys: &Vec<(InstrumentId, Side)>) -> (r: Vec<Vec<usize>>)
    ensures
        order_groups(keys@, group_views(r@)),
{
    let mut groups: Vec<Vec<usize>> = Vec::new();
    let mut i: usize = 0;
    assert(order_groups(keys@.take(0), group_views(groups@)));
    while i < keys.len()
        invariant
            0 <= i <= keys@.len(),
            order_groups(keys@.take(i as int), group_views(groups@)),
        decreases keys@.len() - i,
    {
        let ghost before = group_views(groups@);
        let ghost pre = keys@.take(i as int);
        let ghost next = keys@.take(i as int + 1);
        assert forall|m: int| 0 <= m < i implies next[m] == pre[m] by {}
        let mut g: usize = 0;
        let mut found = false;
        while g < groups.len() && !found
            invariant
                0 <= g <= groups@.len(),
                group_views(groups@) == before,
                order_groups(pre, before),
                i < keys@.len(),
                pre == keys@.take(i as int),
                found ==> g < groups@.len() && same_order(keys@[before[g as int][0] as int], keys@[i as int]),
                forall|h: int| 0 <= h < g ==> !same_order(#[trigger] keys@[before[h][0] as int], keys@[i as int]),
            decreases groups@.len() - g + (if found { 0int } else { 1int }),
        {
            assert(before[g as int].len() > 0);
            let first = groups[g][0];
            assert(first == before[g as int][0]);
            if same_order_exec(&keys[first], &keys[i]) {
                found = true;
            } else {
                g = g + 1;
            }
        }
        if found {
            let ghost old_groups = groups@;
            let mut grp = groups.remove(g);
            grp.push(i);
            groups.insert(g, grp);
            proof {
                assert(groups@ =~= old_groups.update(g as int, grp));
                assert(group_views(groups@) =~= before.update(g as int, before[g as int].push(i)));
                lemma_join_group(keys@, before, group_views(groups@), i, g as int);
            }
        } else {
            let mut grp: Vec<usize> = Vec::new();
            grp.push(i);
            groups.push(grp);
            proof {
                assert(grp@ =~= seq![i]);
                assert(group_views(groups@) =~= before.push(seq![i]));
                lemma_new_group(keys@, before, group_views(groups@), i);
            }
        }
        i = i + 1;
    }
    assert(keys@.take(keys@.len() as int) =~= keys@);
    groups
}

/// Adding position `i` to the group `g` of its order keeps the grouping.
proof fn lemma_join_group(
    keys: Seq<(InstrumentId, Side)>,
    before: Seq<Seq<usize>>,
    after: Seq<Seq<usize>>,
    i: usize,
    g: int,
)
    requires
        0 <= i < keys.len(),
        order_groups(keys.take(i as int), before),
        0 <= g < before.len(),
        same_order(keys[before[g][0] as int], keys[i as int]),
        after == before.update(g, before[g].push(i)),
    ensures
        order_groups(keys.take(i + 1), after),
{
    let pre = keys.take(i as int);
    let next = keys.take(i + 1);
    assert forall|m: int| 0 <= m < i implies next[m] == pre[m] by {}
    assert forall|h: int, j: int| 0 <= h < after.len() && 0 <= j < after[h].len() implies #[trigger] after[h][j] < next.len() by {
        if h == g && j == before[g].len() {
        } else {
            assert(after[h][j] == before[h][j]);
        }
    }
    assert forall|h: int, a: int, b: int| 0 <= h < after.len() && 0 <= a < b < after[h].len() implies #[trigger] after[h][a] < #[trigger] after[h][b] by {
        if h == g && b == before[g].len() {
            assert(after[h][a] == before[h][a]);
        } else {
            assert(after[h][a] == before[h][a]);
            assert(after[h][b] == before[h][b]);
        }
    }
    assert forall|h: int, j: int| 0 <= h < after.len() && 0 <= j < after[h].len() implies same_order(
        next[#[trigger] after[h][j] as int],
        next[after[h][0] as int],
    ) by {
        assert(after[h][0] == before[h][0]);
        if h == g && j == before[g].len() {
            assert(next[i as int] == keys[i as int]);
            assert(next[before[g][0] as int] == keys[before[g][0] as int]);
        } else {
            assert(after[h][j] == before[h][j]);
            assert(next[before[h][j] as int] == pre[before[h][j] as int]);
            assert(next[before[h][0] as int] == pre[before[h][0] as int]);
        }
    }
    assert forall|a: int, b: int| 0 <= a < b < after.len() implies !same_order(next[#[trigger] after[a][0] as int], next[#[trigger] after[b][0] as int])
        && after[a][0] < after[b][0] by {
        assert(after[a][0] == before[a][0]);
        assert(after[b][0] == before[b][0]);
        assert(next[before[a][0] as int] == pre[before[a][0] as int]);
        assert(next[before[b][0] as int] == pre[before[b][0] as int]);
    }
    assert forall|m: int| 0 <= m < next.len() implies #[trigger] in_some_group(after, m) by {
        if m == i {
            assert(after[g][before[g].len() as int] == m);
        } else {
            assert(in_some_group(before, m));
            let (h, j) = choose|h: int, j: int| 0 <= h < before.len() && 0 <= j < before[h].len() && #[trigger] before[h][j] == m;
            assert(after[h][j] == before[h][j]);
        }
    }
}

/// Position `i`, whose order no group has, opens a group of its own.
proof fn lemma_new_group(keys: Seq<(InstrumentId, Side)>, before: Seq<Seq<usize>>, after: Seq<Seq<usize>>, i: usize)
    requires
        0 <= i < keys.len(),
        order_groups(keys.take(i as int), before),
        forall|h: int| 0 <= h < before.len() ==> !same_order(#[trigger] keys[before[h][0] as int], keys[i as int]),
        after == before.push(seq![i]),
    ensures
        order_groups(keys.take(i + 1), after),
{
    let pre = keys.take(i as int);
    let next = keys.take(i + 1);
    let n = before.len() as int;
    assert forall|m: int| 0 <= m < i implies next[m] == pre[m] by {}
    assert forall|h: int| 0 <= h < after.len() implies #[trigger] after[h].len() > 0 by {
        if h < n {
            assert(after[h] == before[h]);
        }
    }
    assert forall|h: int, j: int| 0 <= h < after.len() && 0 <= j < after[h].len() implies #[trigger] after[h][j] < next.len() by {
        if h < n {
            assert(after[h] == before[h]);
        }
    }
    assert forall|h: int, a: int, b: int| 0 <= h < after.len() && 0 <= a < b < after[h].len() implies #[trigger] after[h][a] < #[trigger] after[h][b] by {
        if h < n {
            assert(after[h] == before[h]);
        }
    }
    assert forall|h: int, j: int| 0 <= h < after.len() && 0 <= j < after[h].len() implies same_order(
        next[#[trigger] after[h][j] as int],
        next[after[h][0] as int],
    ) by {
        if h < n {
            assert(after[h] == before[h]);
            assert(next[before[h][j] as int] == pre[before[h][j] as int]);
            assert(next[before[h][0] as int] == pre[before[h][0] as int]);
        }
    }
    assert forall|a: int, b: int| 0 <= a < b < after.len() implies !same_order(next[#[trigger] after[a][0] as int], next[#[trigger] after[b][0] as int])
        && after[a][0] < after[b][0] by {
        assert(after[a] == before[a]);
        assert(next[before[a][0] as int] == pre[before[a][0] as int]);
        if b < n {
            assert(after[b] == before[b]);
            assert(next[before[b][0] as int] == pre[before[b][0] as int]);
        } else {
            assert(after[b][0] == i);
            assert(next[i as int] == keys[i as int]);
            assert(next[before[a][0] as int] == keys[before[a][0] as int]);
        }
    }
    assert forall|m: int| 0 <= m < next.len() implies #[trigger] in_some_group(after, m) by {
        if m == i {
            assert(after[n][0] == m);
        } else {
            assert(in_some_group(before, m));
            let (h, j) = choose|h: int, j: int| 0 <= h < before.len() && 0 <= j < before[h].len() && #[trigger] before[h][j] == m;
            assert(after[h] == before[h]);
            assert(after[h][j] == m);
        }
    }
}

} // verus!
