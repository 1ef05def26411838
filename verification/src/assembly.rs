//! Strategy assembly: the identity a strategy instance is built with, and how
//! alpha components are grouped by category for category-majority voting.
use vstd::prelude::*;
use crate::options::StrategyRuntimeMode;
use crate::csv::{trim_text, trimmed};
use crate::text::{
    text_le, text_leq, string_views, lemma_text_le_antisymmetric, lemma_text_le_transitive, lemma_text_le_total, lemma_text_le_reflexive,
};
use crate::intent::group_views;

verus! {

/// Identity of a strategy instance: its id, the symbol it trades and where it
/// runs.
#[derive(Debug, Clone)]
pub struct StrategyContext {
    pub strategy_id: String,
    pub symbol: String,
    pub runtime_mode: StrategyRuntimeMode,
}

impl StrategyContext {
    pub fn new(strategy_id: String, symbol: String, runtime_mode: StrategyRuntimeMode) -> (r: Self)
        ensures
            r.strategy_id@ == strategy_id@,
            r.symbol@ == symbol@,
            r.runtime_mode == runtime_mode,
    {
        Self { strategy_id, symbol, runtime_mode }
    }
}

/// The category an alpha component is grouped under: its category with
/// surrounding whitespace trimmed, or its name when the category is missing
/// or blank.
pub open spec fn component_category(category: Option<Seq<char>>, name: Seq<char>) -> Seq<char> {
    match category {
        Some(c) => if trimmed(c).len() > 0 {
            trimmed(c)
        } else {
            name
        },
        None => name,
    }
}

/// The category of a component with category `category` and name `name`.
pub fn alpha_component_category(category: Option<&str>, name: &str) -> (r: String)
    ensures
        r@ == component_category(
            match category {
                Some(c) => Some(c@),
                None => None,
            },
            name@,
        ),
{
    match category {
        Some(c) => {
            let t = trim_text(c);
            if t.unicode_len() > 0 {
                t.to_string()
            } else {
                name.to_string()
            }
        },
        None => name.to_string(),
    }
}

/// `a` comes strictly before `b` in code-point order.
pub open spec fn text_lt(a: Seq<char>, b: Seq<char>) -> bool {
    text_le(a, b) && a != b
}

/// `groups` partitions the positions of `cats` by category: each group is
/// non-empty and ascending, its members share the category of its first
/// member, the groups' categories strictly ascend in code-point order, and
/// every position is in a group.
pub open spec fn category_partition(cats: Seq<Seq<char>>, groups: Seq<Seq<usize>>) -> bool {
    &&& forall|g: int| 0 <= g < groups.len() ==> #[trigger] groups[g].len() > 0
    &&& forall|g: int, j: int|
        0 <= g < groups.len() && 0 <= j < groups[g].len() ==> #[trigger] groups[g][j] < cats.len()
    &&& forall|g: int, a: int, b: int|
        0 <= g < groups.len() && 0 <= a < b < groups[g].len() ==> #[trigger] groups[g][a] < #[trigger] groups[g][b]
    &&& forall|g: int, j: int|
        0 <= g < groups.len() && 0 <= j < groups[g].len() ==> cats[#[trigger] groups[g][j] as int] == cats[groups[g][0] as int]
    &&& forall|g: int, h: int|
        0 <= g < h < groups.len() ==> text_lt(cats[#[trigger] groups[g][0] as int], cats[#[trigger] groups[h][0] as int])
    &&& forall|m: int| 0 <= m < cats.len() ==> #[trigger] in_a_group(groups, m)
}

/// Position `m` is a member of one of `groups`.
pub open spec fn in_a_group(groups: Seq<Seq<usize>>, m: int) -> bool {
    exists|g: int, j: int| 0 <= g < groups.len() && 0 <= j < groups[g].len() && #[trigger] groups[g][j] == m
}

/// Adding position `i` to the group `g` of its category keeps the partition.
proof fn lemma_join_category(cats: Seq<Seq<char>>, before: Seq<Seq<usize>>, after: Seq<Seq<usize>>, i: usize, g: int)
    requires
        0 <= i < cats.len(),
        category_partition(cats.take(i as int), before),
        0 <= g < before.len(),
        cats[before[g][0] as int] == cats[i as int],
        after == before.update(g, before[g].push(i)),
    ensures
        category_partition(cats.take(i + 1), after),
{
    let pre = cats.take(i as int);
    let next = cats.take(i + 1);
    assert forall|m: int| 0 <= m < i implies next[m] == pre[m] by {}
    assert forall|h: int, j: int| 0 <= h < after.len() && 0 <= j < after[h].len() implies #[trigger] after[h][j] < next.len() by {
        if !(h == g && j == before[g].len()) {
            assert(after[h][j] == before[h][j]);
        }
    }
    assert forall|h: int, a: int, b: int| 0 <= h < after.len() && 0 <= a < b < after[h].len() implies #[trigger] after[h][a] < #[trigger] after[h][b] by {
        assert(after[h][a] == before[h][a]);
        if !(h == g && b == before[g].len()) {
            assert(after[h][b] == before[h][b]);
        }
    }
    assert forall|h: int, j: int| 0 <= h < after.len() && 0 <= j < after[h].len() implies next[#[trigger] after[h][j] as int] == next[after[h][0] as int] by {
        assert(after[h][0] == before[h][0]);
        assert(next[before[h][0] as int] == pre[before[h][0] as int]);
        if h == g && j == before[g].len() {
            assert(next[i as int] == cats[i as int]);
            assert(pre[before[g][0] as int] == cats[before[g][0] as int]);
        } else {
            assert(after[h][j] == before[h][j]);
            assert(next[before[h][j] as int] == pre[before[h][j] as int]);
        }
    }
    assert forall|a: int, b: int| 0 <= a < b < after.len() implies text_lt(next[#[trigger] after[a][0] as int], next[#[trigger] after[b][0] as int]) by {
        assert(after[a][0] == before[a][0] && after[b][0] == before[b][0]);
        assert(next[before[a][0] as int] == pre[before[a][0] as int]);
        assert(next[before[b][0] as int] == pre[before[b][0] as int]);
    }
    assert forall|m: int| 0 <= m < next.len() implies #[trigger] in_a_group(after, m) by {
        if m == i {
            assert(after[g][before[g].len() as int] == m);
        } else {
            assert(in_a_group(before, m));
            let (h, j) = choose|h: int, j: int| 0 <= h < before.len() && 0 <= j < before[h].len() && #[trigger] before[h][j] == m;
            assert(after[h][j] == before[h][j]);
        }
    }
}

/// Position `i`, whose category falls strictly between the categories of the
/// groups before and after `p`, opens a group of its own at `p`.
proof fn lemma_new_category(cats: Seq<Seq<char>>, before: Seq<Seq<usize>>, after: Seq<Seq<usize>>, i: usize, p: int)
    requires
        0 <= i < cats.len(),
        category_partition(cats.take(i as int), before),
        0 <= p <= before.len(),
        forall|h: int| 0 <= h < p ==> text_lt(#[trigger] cats[before[h][0] as int], cats[i as int]),
        forall|h: int| p <= h < before.len() ==> text_lt(cats[i as int], #[trigger] cats[before[h][0] as int]),
        after == before.insert(p, seq![i]),
    ensures
        category_partition(cats.take(i + 1), after),
{
    let pre = cats.take(i as int);
    let next = cats.take(i + 1);
    assert forall|m: int| 0 <= m < i implies next[m] == pre[m] by {}
    assert(next[i as int] == cats[i as int]);
    assert forall|h: int| 0 <= h < after.len() implies #[trigger] after[h].len() > 0 by {
        if h < p {
            assert(after[h] == before[h]);
        } else if h > p {
            assert(after[h] == before[h - 1]);
        }
    }
    assert forall|h: int, j: int| 0 <= h < after.len() && 0 <= j < after[h].len() implies #[trigger] after[h][j] < next.len() by {
        if h < p {
            assert(after[h] == before[h]);
        } else if h > p {
            assert(after[h] == before[h - 1]);
        }
    }
    assert forall|h: int, a: int, b: int| 0 <= h < after.len() && 0 <= a < b < after[h].len() implies #[trigger] after[h][a] < #[trigger] after[h][b] by {
        if h < p {
            assert(after[h] == before[h]);
        } else if h > p {
            assert(after[h] == before[h - 1]);
        }
    }
    assert forall|h: int, j: int| 0 <= h < after.len() && 0 <= j < after[h].len() implies next[#[trigger] after[h][j] as int] == next[after[h][0] as int] by {
        if h != p {
            let k = if h < p { h } else { h - 1 };
            assert(after[h] == before[k]);
            assert(next[before[k][j] as int] == pre[before[k][j] as int]);
            assert(next[before[k][0] as int] == pre[before[k][0] as int]);
        }
    }
    assert forall|a: int, b: int| 0 <= a < b < after.len() implies text_lt(next[#[trigger] after[a][0] as int], next[#[trigger] after[b][0] as int]) by {
        let ka = if a < p { a } else { a - 1 };
        let kb = if b < p { b } else { b - 1 };
        if a != p {
            assert(after[a] == before[ka]);
            assert(next[before[ka][0] as int] == pre[before[ka][0] as int]);
            assert(pre[before[ka][0] as int] == cats[before[ka][0] as int]);
        }
        if b != p {
            assert(after[b] == before[kb]);
            assert(next[before[kb][0] as int] == pre[before[kb][0] as int]);
            assert(pre[before[kb][0] as int] == cats[before[kb][0] as int]);
        }
        if a != p && b != p {
            assert(ka < kb);
        } else if a == p {
            assert(after[a][0] == i);
        } else {
            assert(after[b][0] == i);
        }
    }
    assert forall|m: int| 0 <= m < next.len() implies #[trigger] in_a_group(after, m) by {
        if m == i {
            assert(after[p][0] == m);
        } else {
            assert(in_a_group(before, m));
            let (h, j) = choose|h: int, j: int| 0 <= h < before.len() && 0 <= j < before[h].len() && #[trigger] before[h][j] == m;
            if h < p {
                assert(after[h] == before[h]);
                assert(after[h][j] == m);
            } else {
                assert(after[h + 1] == before[h]);
                assert(after[h + 1][j] == m);
            }
        }
    }
}

/// The positions of `categories` grouped by category: categories in
/// code-point order, each group in input order.
pub fn category_groups(categories: &Vec<String>) -> (r: Vec<Vec<usize>>)
    ensures
        category_partition(string_views(categories@), group_views(r@)),
{
    let ghost cats = string_views(categories@);
    let mut groups: Vec<Vec<usize>> = Vec::new();
    let mut i: usize = 0;
    assert(category_partition(cats.take(0), group_views(groups@)));
    while i < categories.len()
        invariant
            0 <= i <= categories@.len(),
            cats == string_views(categories@),
            category_partition(cats.take(i as int), group_views(groups@)),
        decreases categories@.len() - i,
    {
        let ghost before = group_views(groups@);
        let cat = &categories[i];
        assert(cats[i as int] == cat@);
        let mut p: usize = 0;
        let mut equal = false;
        let mut stop = false;
        while p < groups.len() && !equal && !stop
            invariant
                0 <= p <= groups@.len(),
                group_views(groups@) == before,
                cats == string_views(categories@),
                category_partition(cats.take(i as int), before),
                i < categories@.len(),
                cat@ == cats[i as int],
                equal ==> !stop && p < groups@.len() && cats[before[p as int][0] as int] == cat@,
                stop ==> p < groups@.len() && text_lt(cat@, cats[before[p as int][0] as int]),
                forall|h: int| 0 <= h < p ==> text_lt(#[trigger] cats[before[h][0] as int], cat@),
            decreases groups@.len() - p + (if equal || stop { 0int } else { 1int }),
        {
            assert(before[p as int].len() > 0);
            let first = groups[p][0];
            assert(first == before[p as int][0]);
            let other = &categories[first];
            assert(cats[first as int] == other@);
            proof {
                lemma_text_le_reflexive(cat@);
                lemma_text_le_total(cat@, other@);
            }
            if text_leq(other.as_str(), cat.as_str()) {
                if text_leq(cat.as_str(), other.as_str()) {
                    proof {
                        lemma_text_le_antisymmetric(other@, cat@);
                    }
                    equal = true;
                } else {
                    p = p + 1;
                }
            } else {
                stop = true;
            }
        }
        if equal {
            let ghost old_groups = groups@;
            let mut grp = groups.remove(p);
            grp.push(i);
            groups.insert(p, grp);
            proof {
                assert(groups@ =~= old_groups.update(p as int, grp));
                assert(group_views(groups@) =~= before.update(p as int, before[p as int].push(i)));
                lemma_join_category(cats, before, group_views(groups@), i, p as int);
            }
        } else {
            proof {
                assert forall|h: int| p <= h < before.len() implies text_lt(cats[i as int], #[trigger] cats[before[h][0] as int]) by {
                    let pre = cats.take(i as int);
                    if h > p {
                        let cp = cats[before[p as int][0] as int];
                        let ch = cats[before[h][0] as int];
                        assert(text_lt(pre[before[p as int][0] as int], pre[before[h][0] as int]));
                        assert(pre[before[p as int][0] as int] == cp);
                        assert(pre[before[h][0] as int] == ch);
                        lemma_text_le_transitive(cats[i as int], cp, ch);
                        if cats[i as int] == ch {
                            lemma_text_le_antisymmetric(cp, ch);
                        }
                    }
                }
            }
            let mut grp: Vec<usize> = Vec::new();
            grp.push(i);
            let ghost old_groups = groups@;
            groups.insert(p, grp);
            proof {
                assert(grp@ =~= seq![i]);
                assert(groups@ =~= old_groups.insert(p as int, grp));
                assert(group_views(groups@) =~= before.insert(p as int, seq![i]));
                lemma_new_category(cats, before, group_views(groups@), i, p as int);
            }
        }
        i = i + 1;
    }
    assert(cats.take(categories@.len() as int) =~= cats);
    groups
}

} // verus!
