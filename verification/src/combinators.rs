//! Ensemble voting over the sides that member strategies signal, in member
//! order, and the side filter.
use vstd::prelude::*;
use crate::types::Side;

verus! {

/// Voting policy of an ensemble.
#[derive(Debug, Clone, Copy, PartialEq, Eq)]
pub enum VotingPolicy {
    /// A signal only if every member signals, all on the same side.
    Unanimous,
    /// A signal on the side of more than half of the members that signal.
    Majority,
    /// The first member's signal that comes, in member order.
    AnyOne,
}

/// Number of votes for `side`.
pub open spec fn count_side(votes: Seq<Option<Side>>, side: Side) -> nat
    decreases votes.len(),
{
    if votes.len() == 0 {
        0
    } else {
        count_side(votes.drop_last(), side) + (if votes.last() == Some(side) {
            1nat
        } else {
            0nat
        })
    }
}

/// Position of the first signal at or after `from`, or `-1`.
pub open spec fn first_signal_from(votes: Seq<Option<Side>>, from: int) -> int
    decreases votes.len() - from,
{
    if from < 0 || from >= votes.len() {
        -1
    } else if votes[from] is Some {
        from
    } else {
        first_signal_from(votes, from + 1)
    }
}

/// Every vote is a signal on `side`.
pub open spec fn all_on(votes: Seq<Option<Side>>, side: Side) -> bool {
    forall|i: int| 0 <= i < votes.len() ==> votes[i] == Some(side)
}

/// The side an ensemble with `policy` signals when its members vote `votes`
/// (`None` for a member without a signal); no members, no signal.
pub open spec fn ensemble_side(policy: VotingPolicy, votes: Seq<Option<Side>>) -> Option<Side> {
    if votes.len() == 0 {
        None
    } else {
        match policy {
            VotingPolicy::AnyOne => {
                let i = first_signal_from(votes, 0);
                if i < 0 {
                    None
                } else {
                    votes[i]
                }
            },
            VotingPolicy::Unanimous => match votes[0] {
                Some(s) => if all_on(votes, s) {
                    Some(s)
                } else {
                    None
                },
                None => None,
            },
            VotingPolicy::Majority => {
                let b = count_side(votes, Side::Buy);
                let s = count_side(votes, Side::Sell);
                if b + s == 0 {
                    None
                } else if 2 * b > b + s {
                    Some(Side::Buy)
                } else if 2 * s > b + s {
                    Some(Side::Sell)
                } else {
                    None
                }
            },
        }
    }
}

/// Whether an ensemble with `policy` asks the next member after `votes`:
/// the first signal ends an `AnyOne` poll, a silent or dissenting member a
/// `Unanimous` one; a `Majority` poll asks every member.
pub open spec fn polls_on(policy: VotingPolicy, votes: Seq<Option<Side>>) -> bool {
    match policy {
        VotingPolicy::AnyOne => first_signal_from(votes, 0) == -1,
        VotingPolicy::Unanimous => votes.len() == 0 || (votes[0] matches Some(s) && all_on(votes, s)),
        VotingPolicy::Majority => true,
    }
}

proof fn lemma_first_signal_from(votes: Seq<Option<Side>>, from: int)
    requires
        0 <= from,
    ensures
        ({
            let k = first_signal_from(votes, from);
            &&& k == -1 ==> forall|j: int| from <= j < votes.len() ==> #[trigger] votes[j] is None
            &&& k != -1 ==> from <= k < votes.len() && votes[k] is Some
                && forall|j: int| from <= j < k ==> #[trigger] votes[j] is None
        }),
    decreases votes.len() - from,
{
    if from < votes.len() && votes[from] is None {
        lemma_first_signal_from(votes, from + 1);
    }
}

proof fn lemma_count_all_on(votes: Seq<Option<Side>>, s: Side, other: Side)
    requires
        all_on(votes, s),
        other != s,
    ensures
        count_side(votes, s) == votes.len(),
        count_side(votes, other) == 0,
    decreases votes.len(),
{
    if votes.len() > 0 {
        lemma_count_all_on(votes.drop_last(), s, other);
    }
}

/// An ensemble that stops asking its members has decided: no later votes
/// change the side it signals.
pub proof fn lemma_stopped_poll_is_decided(policy: VotingPolicy, votes: Seq<Option<Side>>, later: Seq<Option<Side>>)
    requires
        !polls_on(policy, votes),
    ensures
        ensemble_side(policy, votes + later) == ensemble_side(policy, votes),
{
    let all = votes + later;
    assert(forall|i: int| 0 <= i < votes.len() ==> #[trigger] all[i] == votes[i]);
    match policy {
        VotingPolicy::AnyOne => {
            lemma_first_signal_from(votes, 0);
            lemma_first_signal_from(all, 0);
            let k = first_signal_from(votes, 0);
            let m = first_signal_from(all, 0);
            assert(all[k] == votes[k]);
            assert(m == k) by {
                if m < k {
                    assert(all[m] == votes[m]);
                }
                if m == -1 || m > k {
                    assert(all[k] is None);
                }
            }
        },
        VotingPolicy::Unanimous => {
            assert(votes.len() > 0);
            assert(all[0] == votes[0]);
            match votes[0] {
                Some(s) => {
                    let i = choose|i: int| 0 <= i < votes.len() && votes[i] != Some(s);
                    assert(all[i] == votes[i]);
                },
                None => {},
            }
        },
        VotingPolicy::Majority => {},
    }
}

/// When an ensemble's members are unanimous, a majority and a first-signal
/// ensemble over the same votes signal the same side.
pub proof fn lemma_unanimity_carries(votes: Seq<Option<Side>>, side: Side)
    requires
        ensemble_side(VotingPolicy::Unanimous, votes) == Some(side),
    ensures
        ensemble_side(VotingPolicy::Majority, votes) == Some(side),
        ensemble_side(VotingPolicy::AnyOne, votes) == Some(side),
{
    let other = match side {
        Side::Buy => Side::Sell,
        Side::Sell => Side::Buy,
    };
    lemma_count_all_on(votes, side, other);
    lemma_first_signal_from(votes, 0);
    assert(votes[0] is Some);
}

impl VotingPolicy {
    /// The side an ensemble with this policy signals on member votes `votes`.
    pub fn tally(&self, votes: &Vec<Option<Side>>) -> (r: Option<Side>)
        ensures
            r == ensemble_side(*self, votes@),
    {
        if votes.len() == 0 {
            return None;
        }
        match self {
            VotingPolicy::AnyOne => {
                let mut i: usize = 0;
                while i < votes.len()
                    invariant
                        0 <= i <= votes@.len(),
                        votes@.len() > 0,
                        *self == VotingPolicy::AnyOne,
                        first_signal_from(votes@, 0) == first_signal_from(votes@, i as int),
                    decreases votes@.len() - i,
                {
                    if votes[i].is_some() {
                        return votes[i];
                    }
                    i = i + 1;
                }
                None
            },
            VotingPolicy::Unanimous => {
                let first = match votes[0] {
                    Some(s) => s,
                    None => {
                        return None;
                    },
                };
                let mut i: usize = 1;
                while i < votes.len()
                    invariant
                        1 <= i <= votes@.len(),
                        *self == VotingPolicy::Unanimous,
                        votes@[0] == Some(first),
                        forall|j: int| 0 <= j < i ==> votes@[j] == Some(first),
                    decreases votes@.len() - i,
                {
                    let same = match (votes[i], first) {
                        (Some(Side::Buy), Side::Buy) => true,
                        (Some(Side::Sell), Side::Sell) => true,
                        _ => false,
                    };
                    if !same {
                        proof {
                            assert(votes@[i as int] != Some(first));
                        }
                        return None;
                    }
                    i = i + 1;
                }
                Some(first)
            },
            VotingPolicy::Majority => {
                let mut buys: usize = 0;
                let mut sells: usize = 0;
                let mut i: usize = 0;
                while i < votes.len()
                    invariant
                        0 <= i <= votes@.len(),
                        buys == count_side(votes@.take(i as int), Side::Buy),
                        sells == count_side(votes@.take(i as int), Side::Sell),
                        buys + sells <= i,
                    decreases votes@.len() - i,
                {
                    proof {
                        assert(votes@.take(i as int + 1).drop_last() =~= votes@.take(i as int));
                    }
                    match votes[i] {
                        Some(Side::Buy) => {
                            buys = buys + 1;
                        },
                        Some(Side::Sell) => {
                            sells = sells + 1;
                        },
                        None => {},
                    }
                    i = i + 1;
                }
                proof {
                    assert(votes@.take(votes@.len() as int) =~= votes@);
                }
                let total = buys + sells;
                if total == 0 {
                    None
                } else if buys > total - buys {
                    Some(Side::Buy)
                } else if sells > total - sells {
                    Some(Side::Sell)
                } else {
                    None
                }
            },
        }
    }

    /// Whether an ensemble with this policy asks the member after those that
    /// voted `votes`.
    pub fn polls_on(&self, votes: &Vec<Option<Side>>) -> (r: bool)
        ensures
            r == polls_on(*self, votes@),
    {
        match self {
            VotingPolicy::AnyOne => {
                let mut i: usize = 0;
                while i < votes.len()
                    invariant
                        0 <= i <= votes@.len(),
                        *self == VotingPolicy::AnyOne,
                        first_signal_from(votes@, 0) == first_signal_from(votes@, i as int),
                    decreases votes@.len() - i,
                {
                    if votes[i].is_some() {
                        return false;
                    }
                    i = i + 1;
                }
                true
            },
            VotingPolicy::Unanimous => {
                if votes.len() == 0 {
                    return true;
                }
                match self.tally(votes) {
                    Some(_) => true,
                    None => false,
                }
            },
            VotingPolicy::Majority => true,
        }
    }
}

/// Passes only signals on one side.
pub struct SideFilter {
    pub allowed_side: Side,
    pub name: String,
}

impl SideFilter {
    pub fn new(allowed_side: Side, name: &str) -> (r: Self)
        ensures
            r.allowed_side == allowed_side,
            r.name@ == name@,
    {
        Self { allowed_side, name: name.to_owned() }
    }

    /// The signal side that passes: `side` when it is the allowed one.
    pub fn filter(&self, side: Option<Side>) -> (r: Option<Side>)
        ensures
            r == (if side == Some(self.allowed_side) {
                side
            } else {
                None
            }),
    {
        match (side, self.allowed_side) {
            (Some(Side::Buy), Side::Buy) => side,
            (Some(Side::Sell), Side::Sell) => side,
            _ => None,
        }
    }

    pub fn name(&self) -> (r: &str)
        ensures
            r@ == self.name@,
    {
        self.name.as_str()
    }
}

/// Rotation over the members of a round robin: each call goes to the next
/// member in the ring.
pub struct RotationCursor {
    calls: usize,
}

/// The call counter after one more call; it wraps around at the top of
/// `usize`.
pub open spec fn next_call(calls: usize) -> usize {
    if calls == usize::MAX {
        0
    } else {
        (calls + 1) as usize
    }
}

impl RotationCursor {
    /// Calls made so far, wrapping around at the top of `usize`.
    pub closed spec fn calls(self) -> usize {
        self.calls
    }

    pub fn new() -> (r: Self)
        ensures
            r.calls() == 0,
    {
        Self { calls: 0 }
    }

    /// The member, among `n`, that this call goes to: the call count modulo
    /// `n`. With no members there is none and no call is counted.
    pub fn pick(&mut self, n: usize) -> (r: Option<usize>)
        ensures
            n == 0 ==> r is None && final(self).calls() == old(self).calls(),
            n > 0 ==> r == Some((old(self).calls() % n) as usize) && final(self).calls() == next_call(
                old(self).calls(),
            ),
    {
        if n == 0 {
            return None;
        }
        let idx = self.calls % n;
        self.calls = self.calls.wrapping_add(1);
        Some(idx)
    }
}

/// Successive calls go to successive members of the ring: short of the
/// counter wrapping, the member after `k` is `(k + 1) % n`.
pub proof fn lemma_rotation_advances(calls: usize, n: usize)
    requires
        n > 0,
        calls < usize::MAX,
    ensures
        next_call(calls) % n == ((calls % n) + 1) % (n as int),
{
    vstd::arithmetic::div_mod::lemma_add_mod_noop(calls as int, 1, n as int);
    if n > 1 {
        vstd::arithmetic::div_mod::lemma_small_mod(1, n as nat);
    }
}

} // verus!
