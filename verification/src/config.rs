//! Config overlays: a partial JSON document laid over a base document, member
//! by member, where null overlay values leave the base as it is.
use vstd::prelude::*;

verus! {

/// A JSON value as an overlay merge reads it: null, an object with its
/// members, or any other value, carried through as it is.
pub enum JsonTree {
    Null,
    Object(Vec<(String, JsonTree)>),
    Other(serde_json::Value),
}

/// What a JSON tree is, with object members as a sequence of named values.
pub enum JsonModel {
    Null,
    Object(Seq<(Seq<char>, JsonModel)>),
    Other(serde_json::Value),
}

/// The model of a tree.
pub open spec fn model(t: JsonTree) -> JsonModel
    decreases t,
{
    match t {
        JsonTree::Null => JsonModel::Null,
        JsonTree::Object(members) => JsonModel::Object(member_models(members@)),
        JsonTree::Other(v) => JsonModel::Other(v),
    }
}

/// The models of object members.
pub open spec fn member_models(members: Seq<(String, JsonTree)>) -> Seq<(Seq<char>, JsonModel)>
    decreases members,
{
    if members.len() == 0 {
        Seq::empty()
    } else {
        member_models(members.drop_last()).push((members.last().0@, model(members.last().1)))
    }
}

/// Position of the member named `key`, or `-1`.
pub open spec fn key_slot(members: Seq<(Seq<char>, JsonModel)>, key: Seq<char>) -> int
    decreases members.len(),
{
    if members.len() == 0 {
        -1
    } else if members.last().0 == key {
        members.len() - 1
    } else {
        key_slot(members.drop_last(), key)
    }
}

/// `overlay` laid over `base`: two objects merge member by member; otherwise
/// a non-null overlay replaces the base and a null one leaves it.
pub open spec fn merged(base: JsonModel, overlay: JsonModel) -> JsonModel
    decreases overlay,
{
    match overlay {
        JsonModel::Object(o) => match base {
            JsonModel::Object(b) => JsonModel::Object(merged_members(b, o)),
            _ => overlay,
        },
        JsonModel::Null => base,
        JsonModel::Other(_) => overlay,
    }
}

/// The members of `b` after laying each non-null member of `o` over them, in
/// order: a member under a present name is merged into it, one under a new
/// name is added at the end.
pub open spec fn merged_members(b: Seq<(Seq<char>, JsonModel)>, o: Seq<(Seq<char>, JsonModel)>) -> Seq<
    (Seq<char>, JsonModel),
>
    decreases o,
{
    if o.len() == 0 {
        b
    } else {
        let before = merged_members(b, o.drop_last());
        let k = o.last().0;
        let v = o.last().1;
        if v is Null {
            before
        } else {
            let i = key_slot(before, k);
            if i >= 0 {
                before.update(i, (k, merged(before[i].1, v)))
            } else {
                before.push((k, merged(JsonModel::Null, v)))
            }
        }
    }
}

/// Object members and their models correspond position by position.
proof fn lemma_member_models(members: Seq<(String, JsonTree)>)
    ensures
        member_models(members).len() == members.len(),
        forall|i: int| 0 <= i < members.len() ==> #[trigger] member_models(members)[i] == (members[i].0@, model(members[i].1)),
    decreases members.len(),
{
    if members.len() > 0 {
        lemma_member_models(members.drop_last());
        assert forall|i: int| 0 <= i < members.len() - 1 implies #[trigger] members.drop_last()[i] == members[i] by {}
    }
}

/// The models of members with one member replaced.
proof fn lemma_member_models_update(members: Seq<(String, JsonTree)>, i: int, m: (String, JsonTree))
    requires
        0 <= i < members.len(),
    ensures
        member_models(members.update(i, m)) == member_models(members).update(i, (m.0@, model(m.1))),
{
    lemma_member_models(members);
    lemma_member_models(members.update(i, m));
    assert(member_models(members.update(i, m)) =~= member_models(members).update(i, (m.0@, model(m.1))));
}

/// The models of members with one member added at the end.
proof fn lemma_member_models_push(members: Seq<(String, JsonTree)>, m: (String, JsonTree))
    ensures
        member_models(members.push(m)) == member_models(members).push((m.0@, model(m.1))),
{
    assert(members.push(m).drop_last() =~= members);
}

/// `key_slot` is the last position holding `key`.
proof fn lemma_key_slot(members: Seq<(Seq<char>, JsonModel)>, key: Seq<char>)
    ensures
        -1 <= key_slot(members, key) < members.len(),
        key_slot(members, key) >= 0 ==> members[key_slot(members, key)].0 == key && forall|j: int|
            key_slot(members, key) < j < members.len() ==> #[trigger] members[j].0 != key,
        key_slot(members, key) < 0 ==> forall|j: int| 0 <= j < members.len() ==> #[trigger] members[j].0 != key,
    decreases members.len(),
{
    if members.len() > 0 {
        let n = members.len() as int;
        if members[n - 1].0 == key {
            assert(key_slot(members, key) == n - 1);
        } else {
            let d = members.drop_last();
            lemma_key_slot(d, key);
            assert(key_slot(members, key) == key_slot(d, key));
            assert forall|j: int| 0 <= j < n - 1 implies #[trigger] d[j] == members[j] by {}
            let s = key_slot(d, key);
            if s >= 0 {
                assert(members[s] == d[s]);
                assert forall|j: int| s < j < n implies #[trigger] members[j].0 != key by {
                    if j < n - 1 {
                        assert(members[j] == d[j]);
                    }
                }
            } else {
                assert forall|j: int| 0 <= j < n implies #[trigger] members[j].0 != key by {
                    if j < n - 1 {
                        assert(members[j] == d[j]);
                    }
                }
            }
        }
    }
}

/// Position of the last member named `key`.
fn find_member(members: &Vec<(String, JsonTree)>, key: &String) -> (r: Option<usize>)
    ensures
        match r {
            Some(i) => i as int == key_slot(member_models(members@), key@),
            None => key_slot(member_models(members@), key@) < 0,
        },
{
    proof {
        lemma_member_models(members@);
        lemma_key_slot(member_models(members@), key@);
    }
    let mut i: usize = members.len();
    while i > 0
        invariant
            0 <= i <= members@.len(),
            member_models(members@).len() == members@.len(),
            forall|j: int| 0 <= j < members@.len() ==> #[trigger] member_models(members@)[j] == (members@[j].0@, model(members@[j].1)),
            forall|j: int| i <= j < members@.len() ==> #[trigger] members@[j].0@ != key@,
        decreases i,
    {
        if members[i - 1].0 == *key {
            proof {
                lemma_key_slot(member_models(members@), key@);
                let ms = member_models(members@);
                let s = key_slot(ms, key@);
                assert(ms[i - 1] == (members@[i - 1].0@, model(members@[i - 1].1)));
                assert(ms[i - 1].0 == key@);
                if s > i - 1 {
                    assert(ms[s] == (members@[s].0@, model(members@[s].1)));
                } else if s < i - 1 {
                    assert(ms[i - 1].0 != key@);
                }
            }
            return Some(i - 1);
        }
        i = i - 1;
    }
    proof {
        lemma_key_slot(member_models(members@), key@);
        let ms = member_models(members@);
        let s = key_slot(ms, key@);
        if s >= 0 {
            assert(ms[s] == (members@[s].0@, model(members@[s].1)));
        }
    }
    None
}

/// No two members share a name.
pub open spec fn unique_keys(members: Seq<(Seq<char>, JsonModel)>) -> bool {
    forall|i: int, j: int| 0 <= i < j < members.len() ==> members[i].0 != members[j].0
}

/// The value of the member named `key`, if there is one.
pub open spec fn value_at(members: Seq<(Seq<char>, JsonModel)>, key: Seq<char>) -> Option<JsonModel> {
    let i = key_slot(members, key);
    if i >= 0 {
        Some(members[i].1)
    } else {
        None
    }
}

/// The value expected under `key` after laying `o` over `b`.
pub open spec fn laid_over(b: Seq<(Seq<char>, JsonModel)>, o: Seq<(Seq<char>, JsonModel)>, key: Seq<char>) -> Option<JsonModel> {
    match value_at(o, key) {
        Some(v) => if v is Null {
            value_at(b, key)
        } else {
            Some(
                merged(
                    match value_at(b, key) {
                        Some(bv) => bv,
                        None => JsonModel::Null,
                    },
                    v,
                ),
            )
        },
        None => value_at(b, key),
    }
}

proof fn lemma_value_at_push(s: Seq<(Seq<char>, JsonModel)>, k: Seq<char>, v: JsonModel, key: Seq<char>)
    ensures
        value_at(s.push((k, v)), key) == if key == k {
            Some(v)
        } else {
            value_at(s, key)
        },
{
    let t = s.push((k, v));
    assert(t.drop_last() =~= s);
    assert(t.last() == (k, v));
    lemma_key_slot(s, key);
    if key != k {
        assert(key_slot(t, key) == key_slot(s, key));
        let i = key_slot(s, key);
        if i >= 0 {
            assert(t[i] == s[i]);
        }
    }
}

proof fn lemma_value_at_update(s: Seq<(Seq<char>, JsonModel)>, i: int, v: JsonModel, key: Seq<char>)
    requires
        unique_keys(s),
        0 <= i < s.len(),
    ensures
        unique_keys(s.update(i, (s[i].0, v))),
        value_at(s.update(i, (s[i].0, v)), key) == if key == s[i].0 {
            Some(v)
        } else {
            value_at(s, key)
        },
{
    let t = s.update(i, (s[i].0, v));
    assert forall|a: int, b: int| 0 <= a < b < t.len() implies t[a].0 != t[b].0 by {
        assert(s[a].0 != s[b].0);
    }
    lemma_key_slot(s, key);
    lemma_key_slot(t, key);
    let ks = key_slot(s, key);
    let kt = key_slot(t, key);
    if key == s[i].0 {
        if kt != i {
            if kt > i {
                assert(t[kt].0 == s[kt].0);
                assert(s[i].0 != s[kt].0);
            } else {
                assert(t[i].0 == key);
            }
        }
    } else {
        if ks >= 0 {
            assert(ks != i);
            assert(t[ks] == s[ks]);
            if kt != ks {
                if kt > ks {
                    assert(t[kt].0 == s[kt].0);
                } else {
                    assert(t[ks].0 == key);
                }
            }
        } else {
            if kt >= 0 {
                assert(t[kt].0 == s[kt].0);
            }
        }
    }
}

/// Laying an object over an object, member by member: each overlay member
/// that is not null is laid over the base member of its name (over null when
/// the base has none), every other base member stays as it is, and names
/// stay unique.
pub proof fn lemma_overlay_members(b: Seq<(Seq<char>, JsonModel)>, o: Seq<(Seq<char>, JsonModel)>)
    requires
        unique_keys(b),
        unique_keys(o),
    ensures
        unique_keys(merged_members(b, o)),
        forall|key: Seq<char>| #[trigger] value_at(merged_members(b, o), key) == laid_over(b, o, key),
    decreases o.len(),
{
    if o.len() == 0 {
        assert forall|key: Seq<char>| #[trigger] value_at(merged_members(b, o), key) == laid_over(b, o, key) by {
            assert(key_slot(o, key) == -1);
        }
    } else {
        let p = o.drop_last();
        let k0 = o.last().0;
        let v0 = o.last().1;
        assert(p.push((k0, v0)) =~= o);
        assert(unique_keys(p)) by {
            assert forall|a: int, c: int| 0 <= a < c < p.len() implies p[a].0 != p[c].0 by {
                assert(o[a].0 != o[c].0);
            }
        }
        lemma_overlay_members(b, p);
        let r = merged_members(b, p);
        lemma_key_slot(p, k0);
        assert(key_slot(p, k0) < 0) by {
            let s = key_slot(p, k0);
            if s >= 0 {
                assert(o[s].0 == p[s].0);
                assert(o[o.len() - 1].0 == k0);
            }
        }
        assert(value_at(r, k0) == value_at(b, k0)) by {
            assert(laid_over(b, p, k0) == value_at(b, k0));
        }
        if v0 is Null {
            assert(merged_members(b, o) == r);
            assert forall|key: Seq<char>| #[trigger] value_at(merged_members(b, o), key) == laid_over(b, o, key) by {
                lemma_value_at_push(p, k0, v0, key);
                assert(laid_over(b, p, key) == value_at(r, key));
            }
        } else {
            let i = key_slot(r, k0);
            lemma_key_slot(r, k0);
            if i >= 0 {
                assert(merged_members(b, o) == r.update(i, (k0, merged(r[i].1, v0))));
                assert(r[i].0 == k0);
                lemma_value_at_update(r, i, merged(r[i].1, v0), k0);
                assert forall|key: Seq<char>| #[trigger] value_at(merged_members(b, o), key) == laid_over(b, o, key) by {
                    lemma_value_at_update(r, i, merged(r[i].1, v0), key);
                    lemma_value_at_push(p, k0, v0, key);
                    assert(laid_over(b, p, key) == value_at(r, key));
                }
            } else {
                assert(merged_members(b, o) == r.push((k0, merged(JsonModel::Null, v0))));
                let t = r.push((k0, merged(JsonModel::Null, v0)));
                assert forall|a: int, c: int| 0 <= a < c < t.len() implies t[a].0 != t[c].0 by {
                    if c == r.len() {
                        assert(t[a] == r[a]);
                    } else {
                        assert(t[a] == r[a] && t[c] == r[c]);
                    }
                }
                assert forall|key: Seq<char>| #[trigger] value_at(merged_members(b, o), key) == laid_over(b, o, key) by {
                    lemma_value_at_push(r, k0, merged(JsonModel::Null, v0), key);
                    lemma_value_at_push(p, k0, v0, key);
                    assert(laid_over(b, p, key) == value_at(r, key));
                }
            }
        }
    }
}

/// Loading of the application config; overlays are laid over a base here.
pub struct ConfigLoader;

impl ConfigLoader {
    /// Lays `overlay` over `base`: two objects merge member by member, in the
    /// overlay's order, skipping null overlay members; otherwise a non-null
    /// overlay replaces the base and a null one leaves it.
    pub fn merge_json(base: &mut JsonTree, overlay: JsonTree)
        ensures
            model(*final(base)) == merged(model(*old(base)), model(overlay)),
        decreases overlay,
    {
        match overlay {
            JsonTree::Null => {},
            JsonTree::Other(v) => {
                *base = JsonTree::Other(v);
            },
            JsonTree::Object(o) => {
                let mut current = JsonTree::Null;
                std::mem::swap(base, &mut current);
                match current {
                    JsonTree::Object(mut b) => {
                        let ghost b0 = b@;
                        let ghost all = o@;
                        let mut rest = o;
                        let mut k: usize = 0;
                        let n = rest.len();
                        proof {
                            assert(all.take(0) =~= Seq::<(String, JsonTree)>::empty());
                            assert(all.skip(0) =~= all);
                        }
                        while rest.len() > 0
                            invariant
                                rest@.len() + k == n,
                                n == all.len(),
                                rest@ == all.skip(k as int),
                                member_models(b@) == merged_members(member_models(b0), member_models(all.take(k as int))),
                                decreases_to!(overlay => all),
                            decreases rest@.len(),
                        {
                            let (key, value) = rest.remove(0);
                            let ghost o1 = member_models(all.take(k as int));
                            let ghost o2 = member_models(all.take(k + 1));
                            proof {
                                assert(rest@ =~= all.skip(k + 1));
                                assert((key, value) == all[k as int]);
                                lemma_member_models_push(all.take(k as int), all[k as int]);
                                assert(all.take(k as int).push(all[k as int]) =~= all.take(k + 1));
                                assert(o2 == o1.push((key@, model(value))));
                                assert(o2.drop_last() =~= o1);
                                assert(o2.last() == (key@, model(value)));
                                assert(decreases_to!(all => all[k as int]));
                                assert(decreases_to!(all[k as int] => all[k as int].1));
                            }
                            let ghost before = member_models(b@);
                            match value {
                                JsonTree::Null => {},
                                _ => {
                                    match find_member(&b, &key) {
                                        Some(i) => {
                                            let ghost old_b = b@;
                                            proof {
                                                lemma_key_slot(member_models(b@), key@);
                                                lemma_member_models(b@);
                                            }
                                            let (name, mut entry) = b.remove(i);
                                            proof {
                                                lemma_member_models(old_b);
                                            }
                                            ConfigLoader::merge_json(&mut entry, value);
                                            b.insert(i, (name, entry));
                                            proof {
                                                assert(b@ =~= old_b.update(i as int, (name, entry)));
                                                lemma_member_models_update(old_b, i as int, (name, entry));
                                            }
                                        },
                                        None => {
                                            let mut entry = JsonTree::Null;
                                            ConfigLoader::merge_json(&mut entry, value);
                                            let ghost old_b = b@;
                                            b.push((key, entry));
                                            proof {
                                                lemma_member_models_push(old_b, (key, entry));
                                            }
                                        },
                                    }
                                },
                            }
                            proof {
                                assert(member_models(b@) == merged_members(member_models(b0), o2));
                            }
                            k = k + 1;
                        }
                        proof {
                            assert(all.take(n as int) =~= all);
                        }
                        *base = JsonTree::Object(b);
                    },
                    _ => {
                        *base = JsonTree::Object(o);
                    },
                }
            },
        }
    }
}

} // verus!
