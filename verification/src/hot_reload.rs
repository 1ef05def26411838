//! Field-level differences between two JSON configs, and the errors of a
//! config reload.
use vstd::prelude::*;
use crate::registry::RegistryError;
use crate::json::{object_keys, values_equal, members_equal, json_object_keys, json_equal, member_same};
use crate::text::{string_views, sort_strings, text_le, lemma_text_order};

verus! {

/// Failure while applying a pushed config.
#[derive(Debug)]
pub enum HotReloadError {
    RegistryError(RegistryError),
    BuildError(String),
    WatcherClosed,
}

/// Structural diff between two JSON objects, each list in code-point order.
#[derive(Debug, Clone)]
pub struct ConfigDiff {
    pub added: Vec<String>,
    pub removed: Vec<String>,
    pub changed: Vec<String>,
}

impl Default for ConfigDiff {
    fn default() -> (r: Self)
        ensures
            r.added@.len() == 0,
            r.removed@.len() == 0,
            r.changed@.len() == 0,
    {
        ConfigDiff { added: Vec::new(), removed: Vec::new(), changed: Vec::new() }
    }
}

/// The keys among the first `n` of `keys` whose position satisfies `keep`,
/// in order.
pub open spec fn kept(keys: Seq<Seq<char>>, keep: spec_fn(int) -> bool, n: int) -> Seq<Seq<char>>
    decreases n,
{
    if n <= 0 {
        Seq::empty()
    } else if keep(n - 1) {
        kept(keys, keep, n - 1).push(keys[n - 1])
    } else {
        kept(keys, keep, n - 1)
    }
}

/// `keys` in code-point order.
pub open spec fn in_text_order(keys: Seq<Seq<char>>) -> Seq<Seq<char>> {
    keys.sort_by(|a: Seq<char>, b: Seq<char>| text_le(a, b))
}

/// Keys of the new object that the old one lacks.
pub open spec fn added_keys(old: Seq<Seq<char>>, new: Seq<Seq<char>>) -> Seq<Seq<char>> {
    in_text_order(kept(new, |i: int| !old.contains(new[i]), new.len() as int))
}

/// Keys of the old object that the new one lacks.
pub open spec fn removed_keys(old: Seq<Seq<char>>, new: Seq<Seq<char>>) -> Seq<Seq<char>> {
    in_text_order(kept(old, |i: int| !new.contains(old[i]), old.len() as int))
}

/// Keys in both objects whose values differ; `same[i]` tells whether the
/// value of `new[i]` is the same in both.
pub open spec fn changed_keys(old: Seq<Seq<char>>, new: Seq<Seq<char>>, same: Seq<bool>) -> Seq<Seq<char>> {
    in_text_order(kept(new, |i: int| old.contains(new[i]) && !same[i], new.len() as int))
}

/// For each member name of `keys`, whether that member is the same in `old`
/// and `new`.
pub open spec fn member_sameness(old: serde_json::Value, new: serde_json::Value, keys: Seq<Seq<char>>) -> Seq<bool> {
    Seq::new(keys.len(), |i: int| member_same(old, new, keys[i]))
}

/// The added, removed and changed member names between two configs: nothing
/// when they are equal; the member-wise diff when both are objects; else the
/// single name `<root>`.
pub open spec fn config_diff(old: serde_json::Value, new: serde_json::Value) -> (Seq<Seq<char>>, Seq<Seq<char>>, Seq<Seq<char>>) {
    if json_equal(old, new) {
        (Seq::empty(), Seq::empty(), Seq::empty())
    } else {
        match (json_object_keys(old), json_object_keys(new)) {
            (Some(o), Some(n)) => (
                added_keys(o, n),
                removed_keys(o, n),
                changed_keys(o, n, member_sameness(old, new, n)),
            ),
            _ => (Seq::empty(), Seq::empty(), seq!["<root>"@]),
        }
    }
}

/// Putting keys in text order keeps how many there are.
proof fn lemma_in_text_order_len(keys: Seq<Seq<char>>)
    ensures
        in_text_order(keys).len() == keys.len(),
{
    lemma_text_order();
    keys.lemma_sort_by_ensures(|a: Seq<char>, b: Seq<char>| text_le(a, b));
    vstd::seq_lib::to_multiset_len(keys);
    vstd::seq_lib::to_multiset_len(in_text_order(keys));
}

/// No position below `n` is kept when nothing was kept.
proof fn lemma_kept_none(keys: Seq<Seq<char>>, keep: spec_fn(int) -> bool, n: int)
    requires
        kept(keys, keep, n).len() == 0,
    ensures
        forall|i: int| 0 <= i < n ==> !#[trigger] keep(i),
    decreases n,
{
    if n > 0 {
        if !keep(n - 1) {
            lemma_kept_none(keys, keep, n - 1);
        }
    }
}

/// When no key was added, removed or changed, both objects have the same
/// member names and every member of the new one is marked the same.
proof fn lemma_empty_diff_same_members(o: Seq<Seq<char>>, n: Seq<Seq<char>>, same: Seq<bool>)
    requires
        same.len() == n.len(),
        added_keys(o, n).len() == 0,
        removed_keys(o, n).len() == 0,
        changed_keys(o, n, same).len() == 0,
    ensures
        o.to_set() == n.to_set(),
        forall|i: int| 0 <= i < n.len() ==> same[i],
{
    let add_f = |i: int| !o.contains(n[i]);
    let rem_f = |i: int| !n.contains(o[i]);
    let chg_f = |i: int| o.contains(n[i]) && !same[i];
    lemma_in_text_order_len(kept(n, add_f, n.len() as int));
    lemma_in_text_order_len(kept(o, rem_f, o.len() as int));
    lemma_in_text_order_len(kept(n, chg_f, n.len() as int));
    lemma_kept_none(n, add_f, n.len() as int);
    lemma_kept_none(o, rem_f, o.len() as int);
    lemma_kept_none(n, chg_f, n.len() as int);
    assert forall|i: int| 0 <= i < n.len() implies same[i] by {
        assert(!add_f(i));
        assert(!chg_f(i));
    }
    assert forall|k: Seq<char>| o.to_set().contains(k) == n.to_set().contains(k) by {
        if o.contains(k) {
            let i = choose|i: int| 0 <= i < o.len() && o[i] == k;
            assert(!rem_f(i));
        }
        if n.contains(k) {
            let i = choose|i: int| 0 <= i < n.len() && n[i] == k;
            assert(!add_f(i));
        }
    }
    assert(o.to_set() =~= n.to_set());
}

/// Whether `keys` holds a string with the text of `k`.
fn contains_key(keys: &Vec<String>, k: &String) -> (r: bool)
    ensures
        r == string_views(keys@).contains(k@),
{
    let mut i: usize = 0;
    while i < keys.len()
        invariant
            0 <= i <= keys@.len(),
            forall|j: int| 0 <= j < i ==> keys@[j]@ != k@,
        decreases keys@.len() - i,
    {
        if keys[i] == *k {
            proof {
                assert(string_views(keys@)[i as int] == k@);
            }
            return true;
        }
        i = i + 1;
    }
    proof {
        if string_views(keys@).contains(k@) {
            let j = choose|j: int| 0 <= j < keys@.len() && string_views(keys@)[j] == k@;
            assert(keys@[j]@ == k@);
        }
    }
    false
}

impl ConfigDiff {
    /// No key was added, removed or changed.
    pub fn is_empty(&self) -> (r: bool)
        ensures
            r == (self.added@.len() == 0 && self.removed@.len() == 0 && self.changed@.len() == 0),
    {
        self.added.len() == 0 && self.removed.len() == 0 && self.changed.len() == 0
    }

    /// The diff of two objects with member names `old_keys` and `new_keys`,
    /// where `same[i]` tells whether member `new_keys[i]` has the same value
    /// in both.
    pub fn diff_members(old_keys: &Vec<String>, new_keys: &Vec<String>, same: &Vec<bool>) -> (r: ConfigDiff)
        requires
            same@.len() == new_keys@.len(),
        ensures
            string_views(r.added@) == added_keys(string_views(old_keys@), string_views(new_keys@)),
            string_views(r.removed@) == removed_keys(string_views(old_keys@), string_views(new_keys@)),
            string_views(r.changed@) == changed_keys(string_views(old_keys@), string_views(new_keys@), same@),
    {
        let ghost o = string_views(old_keys@);
        let ghost n = string_views(new_keys@);
        let ghost add_f = |i: int| !o.contains(n[i]);
        let ghost chg_f = |i: int| o.contains(n[i]) && !same@[i];
        let ghost rem_f = |i: int| !n.contains(o[i]);
        let mut added: Vec<String> = Vec::new();
        let mut changed: Vec<String> = Vec::new();
        let mut i: usize = 0;
        while i < new_keys.len()
            invariant
                0 <= i <= new_keys@.len(),
                same@.len() == new_keys@.len(),
                o == string_views(old_keys@),
                n == string_views(new_keys@),
                add_f == (|j: int| !o.contains(n[j])),
                chg_f == (|j: int| o.contains(n[j]) && !same@[j]),
                string_views(added@) == kept(n, add_f, i as int),
                string_views(changed@) == kept(n, chg_f, i as int),
            decreases new_keys@.len() - i,
        {
            let k = &new_keys[i];
            let present = contains_key(old_keys, k);
            if !present {
                let ghost before = added@;
                added.push(k.clone());
                proof {
                    assert(string_views(added@) =~= string_views(before).push(n[i as int]));
                }
            } else if !same[i] {
                let ghost before = changed@;
                changed.push(k.clone());
                proof {
                    assert(string_views(changed@) =~= string_views(before).push(n[i as int]));
                }
            }
            i = i + 1;
        }
        let mut removed: Vec<String> = Vec::new();
        let mut j: usize = 0;
        while j < old_keys.len()
            invariant
                0 <= j <= old_keys@.len(),
                o == string_views(old_keys@),
                n == string_views(new_keys@),
                rem_f == (|t: int| !n.contains(o[t])),
                string_views(removed@) == kept(o, rem_f, j as int),
            decreases old_keys@.len() - j,
        {
            let k = &old_keys[j];
            if !contains_key(new_keys, k) {
                let ghost before = removed@;
                removed.push(k.clone());
                proof {
                    assert(string_views(removed@) =~= string_views(before).push(o[j as int]));
                }
            }
            j = j + 1;
        }
        ConfigDiff { added: sort_strings(&added), removed: sort_strings(&removed), changed: sort_strings(&changed) }
    }

    /// Field-level diff of two configs. Only top-level members are compared;
    /// when either config is not an object, the whole value counts as one
    /// changed member named `<root>` if the two differ. Identical configs
    /// give an empty diff.
    pub fn diff(old: &serde_json::Value, new: &serde_json::Value) -> (r: ConfigDiff)
        ensures
            string_views(r.added@) == config_diff(*old, *new).0,
            string_views(r.removed@) == config_diff(*old, *new).1,
            string_views(r.changed@) == config_diff(*old, *new).2,
            *old == *new ==> r.added@.len() == 0 && r.removed@.len() == 0 && r.changed@.len() == 0,
            (r.added@.len() == 0 && r.removed@.len() == 0 && r.changed@.len() == 0) <==> json_equal(*old, *new),
    {
        if values_equal(old, new) {
            let r = ConfigDiff::default();
            proof {
                assert(string_views(r.added@) =~= Seq::<Seq<char>>::empty());
                assert(string_views(r.removed@) =~= Seq::<Seq<char>>::empty());
                assert(string_views(r.changed@) =~= Seq::<Seq<char>>::empty());
            }
            return r;
        }
        match (object_keys(old), object_keys(new)) {
            (Some(old_keys), Some(new_keys)) => {
                let ghost n = string_views(new_keys@);
                let mut same: Vec<bool> = Vec::new();
                let mut i: usize = 0;
                while i < new_keys.len()
                    invariant
                        0 <= i <= new_keys@.len(),
                        n == string_views(new_keys@),
                        same@.len() == i,
                        forall|j: int| 0 <= j < i ==> same@[j] == member_same(*old, *new, n[j]),
                    decreases new_keys@.len() - i,
                {
                    same.push(members_equal(old, new, new_keys[i].as_str()));
                    i = i + 1;
                }
                proof {
                    assert(same@ =~= member_sameness(*old, *new, n));
                }
                let r = ConfigDiff::diff_members(&old_keys, &new_keys, &same);
                proof {
                    let o = string_views(old_keys@);
                    if r.added@.len() == 0 && r.removed@.len() == 0 && r.changed@.len() == 0 {
                        lemma_empty_diff_same_members(o, n, same@);
                        assert forall|k: Seq<char>| o.contains(k) implies member_same(*old, *new, k) by {
                            assert(o.to_set().contains(k));
                            assert(n.to_set().contains(k));
                            let i = choose|i: int| 0 <= i < n.len() && n[i] == k;
                            assert(same@[i]);
                        }
                    }
                }
                r
            },
            _ => {
                let root = String::from_str("<root>");
                let r = ConfigDiff { added: Vec::new(), removed: Vec::new(), changed: vec![root] };
                proof {
                    assert(string_views(r.added@) =~= Seq::<Seq<char>>::empty());
                    assert(string_views(r.removed@) =~= Seq::<Seq<char>>::empty());
                    assert(string_views(r.changed@) =~= seq!["<root>"@]);
                }
                r
            },
        }
    }
}

} // verus!
