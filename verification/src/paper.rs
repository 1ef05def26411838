//! Paper trading order book: orders get consecutive ids, wait out the fill
//! delay, and leave the book when they fill or are cancelled.
use vstd::prelude::*;

verus! {

/// A pending order: its id, the time from which it may fill, and the order.
pub struct PendingSlot<P> {
    pub id: u64,
    pub fill_after_ts_ms: i64,
    pub order: P,
}

/// Pending orders in submission order, and the id the next order gets.
pub struct OrderBook<P> {
    pending: Vec<PendingSlot<P>>,
    next_order_id: u64,
}

/// The slots of `s` that may fill at `ts`: due by then and marked fillable
/// (a slot's mark is at its position), in order.
pub open spec fn due_slots<P>(s: Seq<PendingSlot<P>>, fillable: Seq<bool>, ts: i64) -> Seq<PendingSlot<P>>
    decreases s.len(),
{
    if s.len() == 0 {
        Seq::empty()
    } else {
        let d = due_slots(s.drop_last(), fillable, ts);
        if s.last().fill_after_ts_ms <= ts && fillable[s.len() - 1] {
            d.push(s.last())
        } else {
            d
        }
    }
}

/// The slots of `s` that stay pending at `ts`, in order.
pub open spec fn kept_slots<P>(s: Seq<PendingSlot<P>>, fillable: Seq<bool>, ts: i64) -> Seq<PendingSlot<P>>
    decreases s.len(),
{
    if s.len() == 0 {
        Seq::empty()
    } else {
        let k = kept_slots(s.drop_last(), fillable, ts);
        if s.last().fill_after_ts_ms <= ts && fillable[s.len() - 1] {
            k
        } else {
            k.push(s.last())
        }
    }
}

/// The slots of `s` whose id is not `id`, in order.
pub open spec fn without_order<P>(s: Seq<PendingSlot<P>>, id: u64) -> Seq<PendingSlot<P>>
    decreases s.len(),
{
    if s.len() == 0 {
        Seq::empty()
    } else {
        let w = without_order(s.drop_last(), id);
        if s.last().id != id {
            w.push(s.last())
        } else {
            w
        }
    }
}

proof fn lemma_without_order_len<P>(s: Seq<PendingSlot<P>>, id: u64)
    ensures
        without_order(s, id).len() <= s.len(),
        without_order(s, id).len() == s.len() <==> forall|j: int| 0 <= j < s.len() ==> #[trigger] s[j].id != id,
    decreases s.len(),
{
    if s.len() > 0 {
        lemma_without_order_len(s.drop_last(), id);
        assert forall|j: int| 0 <= j < s.len() - 1 implies #[trigger] s.drop_last()[j] == s[j] by {}
        if forall|j: int| 0 <= j < s.len() ==> #[trigger] s[j].id != id {
            assert forall|j: int| 0 <= j < s.len() - 1 implies #[trigger] s.drop_last()[j].id != id by {
                assert(s.drop_last()[j] == s[j]);
            }
        } else {
            let j = choose|j: int| 0 <= j < s.len() && #[trigger] s[j].id == id;
            if j < s.len() - 1 {
                assert(s.drop_last()[j].id == id);
            }
        }
    }
}

/// Pending ids ascend in submission order and lie below the next id, so no
/// two pending orders share an id.
pub open spec fn ids_ascending<P>(s: Seq<PendingSlot<P>>, next: u64) -> bool {
    &&& forall|i: int, j: int| 0 <= i < j < s.len() ==> s[i].id < s[j].id
    &&& forall|i: int| 0 <= i < s.len() ==> #[trigger] s[i].id < next
}

/// `pos` places each slot of `sub` in `s`, in increasing positions.
pub open spec fn placed_in<P>(sub: Seq<PendingSlot<P>>, s: Seq<PendingSlot<P>>, pos: Seq<int>) -> bool {
    &&& pos.len() == sub.len()
    &&& forall|i: int| 0 <= i < sub.len() ==> 0 <= #[trigger] pos[i] < s.len() && sub[i] == s[pos[i]]
    &&& forall|i: int, j: int| 0 <= i < j < sub.len() ==> pos[i] < pos[j]
}

/// Each slot of `sub` is a slot of `s`, and `sub` keeps the order of `s`.
pub open spec fn ordered_sub<P>(sub: Seq<PendingSlot<P>>, s: Seq<PendingSlot<P>>) -> bool {
    exists|pos: Seq<int>| #[trigger] placed_in(sub, s, pos)
}

proof fn lemma_ordered_sub_keeps_ids<P>(sub: Seq<PendingSlot<P>>, s: Seq<PendingSlot<P>>, next: u64)
    requires
        ordered_sub(sub, s),
        ids_ascending(s, next),
    ensures
        ids_ascending(sub, next),
{
    let pos = choose|pos: Seq<int>| #[trigger] placed_in(sub, s, pos);
    assert forall|i: int, j: int| 0 <= i < j < sub.len() implies sub[i].id < sub[j].id by {
        assert(pos[i] < pos[j]);
        assert(sub[i] == s[pos[i]] && sub[j] == s[pos[j]]);
    }
    assert forall|i: int| 0 <= i < sub.len() implies #[trigger] sub[i].id < next by {
        assert(sub[i] == s[pos[i]]);
    }
}

proof fn lemma_ordered_sub_extend<P>(sub: Seq<PendingSlot<P>>, s: Seq<PendingSlot<P>>, keep: bool)
    requires
        s.len() > 0,
        ordered_sub(sub, s.drop_last()),
    ensures
        ordered_sub(if keep { sub.push(s.last()) } else { sub }, s),
{
    let d = s.drop_last();
    let pos = choose|pos: Seq<int>| #[trigger] placed_in(sub, d, pos);
    assert forall|i: int| 0 <= i < sub.len() implies 0 <= #[trigger] pos[i] < s.len() && sub[i] == s[pos[i]] by {
        assert(d[pos[i]] == s[pos[i]]);
    }
    if keep {
        let pos2 = pos.push(s.len() - 1);
        let sub2 = sub.push(s.last());
        assert forall|i: int| 0 <= i < sub2.len() implies 0 <= #[trigger] pos2[i] < s.len() && sub2[i] == s[pos2[i]] by {
            if i < sub.len() {
                assert(pos2[i] == pos[i]);
            }
        }
        assert forall|i: int, j: int| 0 <= i < j < sub2.len() implies pos2[i] < pos2[j] by {
            if j < sub.len() {
                assert(pos2[i] == pos[i] && pos2[j] == pos[j]);
            } else {
                assert(pos2[i] == pos[i]);
            }
        }
        assert(placed_in(sub2, s, pos2));
    } else {
        assert(placed_in(sub, s, pos));
    }
}

proof fn lemma_without_order_sub<P>(s: Seq<PendingSlot<P>>, id: u64)
    ensures
        ordered_sub(without_order(s, id), s),
    decreases s.len(),
{
    if s.len() == 0 {
        assert(placed_in(without_order(s, id), s, Seq::<int>::empty()));
    } else {
        lemma_without_order_sub(s.drop_last(), id);
        lemma_ordered_sub_extend(without_order(s.drop_last(), id), s, s.last().id != id);
    }
}

proof fn lemma_kept_slots_sub<P>(s: Seq<PendingSlot<P>>, fillable: Seq<bool>, ts: i64)
    ensures
        ordered_sub(kept_slots(s, fillable, ts), s),
    decreases s.len(),
{
    if s.len() == 0 {
        assert(placed_in(kept_slots(s, fillable, ts), s, Seq::<int>::empty()));
    } else {
        lemma_kept_slots_sub(s.drop_last(), fillable, ts);
        lemma_ordered_sub_extend(
            kept_slots(s.drop_last(), fillable, ts),
            s,
            !(s.last().fill_after_ts_ms <= ts && fillable[s.len() - 1]),
        );
    }
}

proof fn lemma_without_absent<P>(s: Seq<PendingSlot<P>>, id: u64)
    requires
        forall|j: int| 0 <= j < s.len() ==> #[trigger] s[j].id != id,
    ensures
        without_order(s, id) == s,
    decreases s.len(),
{
    if s.len() > 0 {
        assert forall|j: int| 0 <= j < s.len() - 1 implies #[trigger] s.drop_last()[j].id != id by {
            assert(s.drop_last()[j] == s[j]);
        }
        lemma_without_absent(s.drop_last(), id);
        assert(s.drop_last().push(s.last()) =~= s);
    }
}

/// Cancelling the order just submitted undoes the submission: the pending
/// orders are those from before it.
pub proof fn lemma_cancel_undoes_submit<P>(pending: Seq<PendingSlot<P>>, next: u64, slot: PendingSlot<P>)
    requires
        ids_ascending(pending, next),
        slot.id == next,
    ensures
        without_order(pending.push(slot), next) == pending,
{
    assert(pending.push(slot).drop_last() =~= pending);
    assert forall|j: int| 0 <= j < pending.len() implies #[trigger] pending[j].id != next by {}
    lemma_without_absent(pending, next);
}

impl<P> OrderBook<P> {
    /// The pending orders, in submission order.
    pub closed spec fn slots(self) -> Seq<PendingSlot<P>> {
        self.pending@
    }

    /// The id the next order gets.
    pub closed spec fn next_id(self) -> u64 {
        self.next_order_id
    }

    /// Pending ids ascend below the next id.
    pub closed spec fn wf(self) -> bool {
        ids_ascending(self.pending@, self.next_order_id)
    }

    /// An empty book whose first order gets id 1.
    pub fn new() -> (r: Self)
        ensures
            r.wf(),
            r.slots().len() == 0,
            r.next_id() == 1,
    {
        Self { pending: Vec::new(), next_order_id: 1 }
    }

    /// Queues `order`, submitted at `ts_ms`, to fill no earlier than
    /// `fill_delay_ms` later; returns its id.
    pub fn submit(&mut self, order: P, ts_ms: i64, fill_delay_ms: u64) -> (r: u64)
        requires
            old(self).next_id() < u64::MAX,
            i64::MIN <= ts_ms + (fill_delay_ms as i64) <= i64::MAX,
        ensures
            old(self).wf() ==> final(self).wf(),
            r == old(self).next_id(),
            final(self).next_id() == old(self).next_id() + 1,
            final(self).slots() == old(self).slots().push(
                PendingSlot { id: r, fill_after_ts_ms: (ts_ms + (fill_delay_ms as i64)) as i64, order },
            ),
    {
        let id = self.next_order_id;
        self.next_order_id = self.next_order_id + 1;
        let fill_after_ts_ms = ts_ms + fill_delay_ms as i64;
        self.pending.push(PendingSlot { id, fill_after_ts_ms, order });
        id
    }

    /// Removes the orders with id `order_id`; `true` when one was pending.
    pub fn cancel(&mut self, order_id: u64) -> (r: bool)
        ensures
            old(self).wf() ==> final(self).wf(),
            final(self).slots() == without_order(old(self).slots(), order_id),
            final(self).next_id() == old(self).next_id(),
            r == exists|j: int| 0 <= j < old(self).slots().len() && #[trigger] old(self).slots()[j].id == order_id,
    {
        let ghost all = self.pending@;
        let mut rest: Vec<PendingSlot<P>> = Vec::new();
        std::mem::swap(&mut rest, &mut self.pending);
        let mut k: usize = 0;
        let n = rest.len();
        assert(all.take(0) =~= Seq::<PendingSlot<P>>::empty());
        while rest.len() > 0
            invariant
                rest@.len() + k == n,
                n == all.len(),
                rest@ == all.skip(k as int),
                self.pending@ == without_order(all.take(k as int), order_id),
                self.next_order_id == old(self).next_order_id,
            decreases rest@.len(),
        {
            let slot = rest.remove(0);
            proof {
                assert(all.take(k + 1).drop_last() =~= all.take(k as int));
                assert(all.take(k + 1).last() == all[k as int]);
                assert(slot == all[k as int]);
                assert(rest@ =~= all.skip(k + 1));
            }
            if slot.id != order_id {
                self.pending.push(slot);
            }
            k = k + 1;
        }
        proof {
            assert(all.take(n as int) =~= all);
            lemma_without_order_len(all, order_id);
            lemma_without_order_sub(all, order_id);
            if old(self).wf() {
                lemma_ordered_sub_keeps_ids(self.pending@, all, self.next_order_id);
            }
        }
        self.pending.len() < n
    }

    /// Takes out the orders that may fill at `ts_ms`: due by then and marked
    /// in `fillable` (one mark per pending order, in order). The others stay
    /// pending, in order.
    pub fn take_due(&mut self, ts_ms: i64, fillable: &Vec<bool>) -> (r: Vec<PendingSlot<P>>)
        requires
            fillable@.len() == old(self).slots().len(),
        ensures
            old(self).wf() ==> final(self).wf(),
            r@ == due_slots(old(self).slots(), fillable@, ts_ms),
            final(self).slots() == kept_slots(old(self).slots(), fillable@, ts_ms),
            final(self).next_id() == old(self).next_id(),
    {
        let ghost all = self.pending@;
        let mut rest: Vec<PendingSlot<P>> = Vec::new();
        std::mem::swap(&mut rest, &mut self.pending);
        let mut due: Vec<PendingSlot<P>> = Vec::new();
        let mut k: usize = 0;
        let n = rest.len();
        assert(all.take(0) =~= Seq::<PendingSlot<P>>::empty());
        while rest.len() > 0
            invariant
                rest@.len() + k == n,
                n == all.len(),
                fillable@.len() == n,
                rest@ == all.skip(k as int),
                due@ == due_slots(all.take(k as int), fillable@, ts_ms),
                self.pending@ == kept_slots(all.take(k as int), fillable@, ts_ms),
                self.next_order_id == old(self).next_order_id,
            decreases rest@.len(),
        {
            let slot = rest.remove(0);
            proof {
                assert(all.take(k + 1).drop_last() =~= all.take(k as int));
                assert(all.take(k + 1).last() == all[k as int]);
                assert(all.take(k + 1).len() - 1 == k);
                assert(slot == all[k as int]);
                assert(rest@ =~= all.skip(k + 1));
            }
            if slot.fill_after_ts_ms <= ts_ms && fillable[k] {
                due.push(slot);
            } else {
                self.pending.push(slot);
            }
            k = k + 1;
        }
        proof {
            assert(all.take(n as int) =~= all);
            lemma_kept_slots_sub(all, fillable@, ts_ms);
            if old(self).wf() {
                lemma_ordered_sub_keeps_ids(self.pending@, all, self.next_order_id);
            }
        }
        due
    }

    /// The pending orders, in submission order.
    pub fn pending(&self) -> (r: &Vec<PendingSlot<P>>)
        ensures
            r@ == self.slots(),
    {
        &self.pending
    }

    /// The id the next order gets.
    pub fn next_order_id(&self) -> (r: u64)
        ensures
            r == self.next_id(),
    {
        self.next_order_id
    }
}

} // verus!
