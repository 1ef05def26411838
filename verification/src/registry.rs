//! Versioned strategy registry: a hot swap keeps the replaced strategy in the
//! entry's history, from which a rollback restores it by version number.
use vstd::prelude::*;
use crate::trait_def::Strategy;
use crate::json::{JsonKind, object_keys, member, kind_of, json_object_keys, json_member, json_kind};
use crate::text::{string_views, decimal, decimal_string};

verus! {

/// Registry failure.
#[derive(Debug)]
pub enum RegistryError {
    NotFound(String),
    InvalidConfig(String),
    VersionNotFound(u32),
    BuildFailed(String),
}

/// The text a registry error is shown with.
pub open spec fn registry_error_text(e: RegistryError) -> Seq<char> {
    match e {
        RegistryError::NotFound(s) => "Strategy not found: "@ + s@,
        RegistryError::InvalidConfig(s) => "Invalid config: "@ + s@,
        RegistryError::VersionNotFound(v) => "Version not found: "@ + decimal(v as nat),
        RegistryError::BuildFailed(s) => "Build failed: "@ + s@,
    }
}

impl RegistryError {
    /// The error's text.
    pub fn message(&self) -> (r: String)
        ensures
            r@ == registry_error_text(*self),
    {
        match self {
            RegistryError::NotFound(s) => {
                let mut out = String::from_str("Strategy not found: ");
                out.append(s.as_str());
                out
            },
            RegistryError::InvalidConfig(s) => {
                let mut out = String::from_str("Invalid config: ");
                out.append(s.as_str());
                out
            },
            RegistryError::VersionNotFound(v) => {
                let mut out = String::from_str("Version not found: ");
                let digits = decimal_string(*v as usize);
                out.append(digits.as_str());
                out
            },
            RegistryError::BuildFailed(s) => {
                let mut out = String::from_str("Build failed: ");
                out.append(s.as_str());
                out
            },
        }
    }
}

/// A record of a replaced strategy in an entry's history.
#[derive(Debug, Clone)]
pub struct StrategyVersion {
    pub version: u32,
    pub name: String,
    pub created_at_ms: i64,
}

/// The current strategy of one id, the strategies it replaced, and its config.
pub struct RegistryEntry<S, C> {
    pub current: S,
    pub versions: Vec<(StrategyVersion, S)>,
    pub config: C,
}

/// What an entry holds, with its history as a sequence.
pub struct EntryState<S, C> {
    pub current: S,
    pub versions: Seq<(StrategyVersion, S)>,
    pub config: C,
}

impl<S, C> RegistryEntry<S, C> {
    pub open spec fn state(self) -> EntryState<S, C> {
        EntryState { current: self.current, versions: self.versions@, config: self.config }
    }
}

/// The entry after a hot swap to `new` with `config`: the replaced strategy
/// joins the end of the history under `record`.
pub open spec fn swapped<S, C>(e: EntryState<S, C>, record: StrategyVersion, new: S, config: C) -> EntryState<S, C> {
    EntryState { current: new, versions: e.versions.push((record, e.current)), config }
}

/// Position of the first history record at or after `from` with version `v`,
/// or `-1`.
pub open spec fn version_slot_from<S>(versions: Seq<(StrategyVersion, S)>, v: u32, from: int) -> int
    decreases versions.len() - from,
{
    if from < 0 || from >= versions.len() {
        -1
    } else if versions[from].0.version == v {
        from
    } else {
        version_slot_from(versions, v, from + 1)
    }
}

/// Position of the first history record with version `v`, or `-1`.
pub open spec fn version_slot<S>(versions: Seq<(StrategyVersion, S)>, v: u32) -> int {
    version_slot_from(versions, v, 0)
}

proof fn lemma_version_slot_from<S>(versions: Seq<(StrategyVersion, S)>, v: u32, from: int)
    requires
        0 <= from,
    ensures
        ({
            let k = version_slot_from(versions, v, from);
            &&& k == -1 ==> forall|j: int| from <= j < versions.len() ==> #[trigger] versions[j].0.version != v
            &&& k != -1 ==> from <= k < versions.len() && versions[k].0.version == v
                && forall|j: int| from <= j < k ==> #[trigger] versions[j].0.version != v
        }),
    decreases versions.len() - from,
{
    if from < versions.len() && versions[from].0.version != v {
        lemma_version_slot_from(versions, v, from + 1);
    }
}

/// The entry after rolling back to the history record at `pos`: that strategy
/// becomes current and leaves the history; the config stays.
pub open spec fn rolled_back<S, C>(e: EntryState<S, C>, pos: int) -> EntryState<S, C> {
    EntryState { current: e.versions[pos].1, versions: e.versions.remove(pos), config: e.config }
}

/// Rolling back to the version recorded by a hot swap, when no earlier record
/// carries that version, restores the replaced strategy and the history it
/// had; the config of the swap stays.
pub proof fn lemma_rollback_undoes_hot_swap<S, C>(e: EntryState<S, C>, record: StrategyVersion, new: S, config: C)
    requires
        version_slot(e.versions, record.version) == -1,
    ensures
        version_slot(swapped(e, record, new, config).versions, record.version) == e.versions.len(),
        rolled_back(swapped(e, record, new, config), e.versions.len() as int)
            == (EntryState { current: e.current, versions: e.versions, config }),
{
    let s = swapped(e, record, new, config).versions;
    let n = e.versions.len() as int;
    lemma_version_slot_from(e.versions, record.version, 0);
    lemma_version_slot_from(s, record.version, 0);
    assert(s[n].0.version == record.version);
    assert(forall|j: int| 0 <= j < n ==> #[trigger] s[j] == e.versions[j]);
    let k = version_slot(s, record.version);
    assert(k == n) by {
        if k < n {
            assert(s[k] == e.versions[k]);
        }
    }
    assert(s.remove(n) =~= e.versions);
}

/// What a schema's `required` member is, as config validation reads it.
pub enum RequiredFields {
    /// The schema has no `required` member.
    Absent,
    /// The `required` member is not an array.
    NotAnArray,
    /// The entries of the `required` array, in order: a field name, or `None`
    /// for an entry that is not a string.
    Entries(Vec<Option<String>>),
}

/// The texts of required entries, `None` for an entry that is not a name.
pub open spec fn entry_texts(entries: Seq<Option<String>>) -> Seq<Option<Seq<char>>> {
    entries.map_values(|e: Option<String>| match e {
        Some(k) => Some(k@),
        None => None,
    })
}

/// The field a required entry of a schema names: its text when it is a JSON
/// string.
pub open spec fn entry_name(entry: serde_json::Value) -> Option<Seq<char>> {
    match json_kind(entry) {
        JsonKind::Text(k) => Some(k@),
        _ => None,
    }
}

/// Position of the first required entry at or after `from` that is not a
/// name, or names a field missing from `keys`; `-1` when all are met.
pub open spec fn first_unmet(names: Seq<Option<Seq<char>>>, keys: Seq<Seq<char>>, from: int) -> int
    decreases names.len() - from,
{
    if from < 0 || from >= names.len() {
        -1
    } else if names[from] is None || !keys.contains(names[from]->0) {
        from
    } else {
        first_unmet(names, keys, from + 1)
    }
}

/// The top-level member names of a config, none when it is not an object.
pub open spec fn top_level_keys(config: serde_json::Value) -> Seq<Seq<char>> {
    match json_object_keys(config) {
        Some(ks) => ks,
        None => Seq::empty(),
    }
}

/// The outcome of checking required entries `names` against a config with
/// top-level fields `keys`: the first entry that is not a name or names a
/// missing field is reported.
pub open spec fn names_outcome(names: Seq<Option<Seq<char>>>, keys: Seq<Seq<char>>) -> Result<(), Seq<char>> {
    let i = first_unmet(names, keys, 0);
    if i == -1 {
        Ok(())
    } else {
        match names[i] {
            None => Err("required entry must be a string"@),
            Some(k) => Err("missing required field: "@ + k),
        }
    }
}

/// The outcome of checking `required` against a config with top-level
/// fields `keys`.
pub open spec fn required_outcome(required: RequiredFields, keys: Seq<Seq<char>>) -> Result<(), Seq<char>> {
    match required {
        RequiredFields::Absent => Ok(()),
        RequiredFields::NotAnArray => Err("schema `required` field must be an array"@),
        RequiredFields::Entries(es) => names_outcome(entry_texts(es@), keys),
    }
}

/// The outcome of validating a config whose top-level fields are `keys`
/// against `schema`: no `required` member passes, one that is not an array
/// fails, and otherwise its entries are checked in order.
pub open spec fn schema_outcome(schema: serde_json::Value, keys: Seq<Seq<char>>) -> Result<(), Seq<char>> {
    match json_member(schema, "required"@) {
        None => Ok(()),
        Some(req) => match json_kind(req) {
            JsonKind::Array(items) => names_outcome(items@.map_values(|e: serde_json::Value| entry_name(e)), keys),
            _ => Err("schema `required` field must be an array"@),
        },
    }
}

/// Thread-free registry mapping strategy ids to their current and historical
/// versions; ids are kept in registration order.
pub struct StrategyRegistry<S, C> {
    entries: Vec<(String, RegistryEntry<S, C>)>,
}

/// Position of `id` among `entries`, or `-1`.
pub open spec fn id_slot<S, C>(entries: Seq<(String, RegistryEntry<S, C>)>, id: Seq<char>) -> int {
    if exists|i: int| 0 <= i < entries.len() && entries[i].0@ == id {
        choose|i: int| 0 <= i < entries.len() && entries[i].0@ == id
    } else {
        -1
    }
}

impl<S, C> StrategyRegistry<S, C> {
    /// The registered ids, in registration order.
    pub closed spec fn ids(self) -> Seq<Seq<char>> {
        Seq::new(self.entries@.len(), |i: int| self.entries@[i].0@)
    }

    /// What is registered under `id`.
    pub closed spec fn entry(self, id: Seq<char>) -> Option<EntryState<S, C>> {
        let i = id_slot(self.entries@, id);
        if i >= 0 {
            Some(self.entries@[i].1.state())
        } else {
            None
        }
    }

    /// No id is registered twice.
    pub closed spec fn wf(self) -> bool {
        forall|i: int, j: int|
            0 <= i < j < self.entries@.len() ==> self.entries@[i].0@ != self.entries@[j].0@
    }

    proof fn lemma_slot(self, i: int)
        requires
            self.wf(),
            0 <= i < self.entries@.len(),
        ensures
            id_slot(self.entries@, self.entries@[i].0@) == i,
    {
        let id = self.entries@[i].0@;
        assert(0 <= i < self.entries@.len() && self.entries@[i].0@ == id);
        let k = id_slot(self.entries@, id);
        assert(k == i) by {
            if k != i {
                if k < i {
                    assert(self.entries@[k].0@ != self.entries@[i].0@);
                } else {
                    assert(self.entries@[i].0@ != self.entries@[k].0@);
                }
            }
        }
    }

    proof fn lemma_entry_at(self, i: int)
        requires
            self.wf(),
            0 <= i < self.entries@.len(),
        ensures
            self.entry(self.entries@[i].0@) == Some(self.entries@[i].1.state()),
            self.ids()[i] == self.entries@[i].0@,
    {
        self.lemma_slot(i);
    }

    proof fn lemma_entry_absent(self, id: Seq<char>)
        requires
            forall|j: int| 0 <= j < self.entries@.len() ==> self.entries@[j].0@ != id,
        ensures
            self.entry(id) is None,
            !self.ids().contains(id),
    {
        if self.ids().contains(id) {
            let j = choose|j: int| 0 <= j < self.ids().len() && self.ids()[j] == id;
            assert(self.entries@[j].0@ == id);
        }
    }

    /// Replacing the entry at `i` by one under the same id changes only what
    /// that id maps to.
    proof fn lemma_update_at(self, other: Self, i: int)
        requires
            self.wf(),
            0 <= i < self.entries@.len(),
            other.entries@.len() == self.entries@.len(),
            other.entries@[i].0@ == self.entries@[i].0@,
            forall|j: int| 0 <= j < self.entries@.len() && j != i ==> other.entries@[j] == self.entries@[j],
        ensures
            other.wf(),
            other.ids() == self.ids(),
            other.entry(self.entries@[i].0@) == Some(other.entries@[i].1.state()),
            forall|k: Seq<char>| k != self.entries@[i].0@ ==> #[trigger] other.entry(k) == self.entry(k),
    {
        let key = self.entries@[i].0@;
        assert forall|a: int, b: int| 0 <= a < b < other.entries@.len() implies other.entries@[a].0@ != other.entries@[b].0@ by {
            assert(self.entries@[a].0@ != self.entries@[b].0@);
        }
        other.lemma_entry_at(i);
        assert(other.ids() =~= self.ids()) by {
            assert forall|j: int| 0 <= j < self.entries@.len() implies other.ids()[j] == self.ids()[j] by {
                if j != i {
                    assert(other.entries@[j] == self.entries@[j]);
                }
            }
        }
        assert forall|k: Seq<char>| k != key implies #[trigger] other.entry(k) == self.entry(k) by {
            let ok = id_slot(self.entries@, k);
            if ok >= 0 {
                assert(self.entries@[ok].0@ == k);
                assert(ok != i);
                other.lemma_entry_at(ok);
                self.lemma_entry_at(ok);
            } else {
                assert forall|j: int| 0 <= j < other.entries@.len() implies other.entries@[j].0@ != k by {
                    if j != i {
                        if self.entries@[j].0@ == k {
                            assert(0 <= j < self.entries@.len() && self.entries@[j].0@ == k);
                        }
                    }
                }
                other.lemma_entry_absent(k);
            }
        }
    }

    /// Finds the position of `id`.
    fn find(&self, id: &str) -> (r: Option<usize>)
        requires
            self.wf(),
        ensures
            match r {
                Some(i) => i < self.entries@.len() && self.entries@[i as int].0@ == id@
                    && self.entry(id@) == Some(self.entries@[i as int].1.state()),
                None => self.entry(id@) is None && !self.ids().contains(id@)
                    && forall|j: int| 0 <= j < self.entries@.len() ==> self.entries@[j].0@ != id@,
            },
    {
        let key = id.to_owned();
        let mut i: usize = 0;
        while i < self.entries.len()
            invariant
                self.wf(),
                key@ == id@,
                0 <= i <= self.entries@.len(),
                forall|j: int| 0 <= j < i ==> self.entries@[j].0@ != id@,
            decreases self.entries@.len() - i,
        {
            if self.entries[i].0 == key {
                proof {
                    self.lemma_entry_at(i as int);
                }
                return Some(i);
            }
            i = i + 1;
        }
        proof {
            self.lemma_entry_absent(id@);
        }
        None
    }

    pub fn new() -> (r: Self)
        ensures
            r.wf(),
            r.ids() == Seq::<Seq<char>>::empty(),
            forall|id: Seq<char>| #[trigger] r.entry(id) is None,
    {
        let r = Self { entries: Vec::new() };
        proof {
            assert(r.ids() =~= Seq::<Seq<char>>::empty());
            assert forall|id: Seq<char>| #[trigger] r.entry(id) is None by {
                r.lemma_entry_absent(id);
            }
        }
        r
    }

    /// Registers `strategy` under `id` with an empty history, replacing any
    /// entry that id had.
    pub fn register(&mut self, id: String, strategy: S, config: C)
        requires
            old(self).wf(),
        ensures
            final(self).wf(),
            final(self).entry(id@) == Some(
                EntryState { current: strategy, versions: Seq::<(StrategyVersion, S)>::empty(), config },
            ),
            forall|k: Seq<char>| k != id@ ==> #[trigger] final(self).entry(k) == old(self).entry(k),
            final(self).ids() == (if old(self).ids().contains(id@) {
                old(self).ids()
            } else {
                old(self).ids().push(id@)
            }),
    {
        let ghost old_self = *self;
        let ghost key = id@;
        let found = self.find(id.as_str());
        let entry = RegistryEntry { current: strategy, versions: Vec::new(), config };
        match found {
            Some(i) => {
                let _ = self.entries.remove(i);
                self.entries.insert(i, (id, entry));
                proof {
                    old_self.lemma_update_at(*self, i as int);
                    old_self.lemma_entry_at(i as int);
                    assert(old_self.ids()[i as int] == key);
                }
            },
            None => {
                self.entries.push((id, entry));
                proof {
                    let n = old_self.entries@.len() as int;
                    assert(self.entries@ =~= old_self.entries@.push(self.entries@[n]));
                    assert(self.wf());
                    self.lemma_entry_at(n);
                    assert(self.ids() =~= old_self.ids().push(key));
                    assert forall|k: Seq<char>| k != key implies #[trigger] self.entry(k) == old_self.entry(k) by {
                        let ok = id_slot(old_self.entries@, k);
                        if ok >= 0 {
                            assert(old_self.entries@[ok].0@ == k);
                            self.lemma_entry_at(ok);
                            old_self.lemma_entry_at(ok);
                        } else {
                            assert forall|j: int| 0 <= j < self.entries@.len() implies self.entries@[j].0@ != k by {
                                if j < n {
                                    if old_self.entries@[j].0@ == k {
                                        assert(0 <= j < old_self.entries@.len() && old_self.entries@[j].0@ == k);
                                    }
                                }
                            }
                            self.lemma_entry_absent(k);
                        }
                    }
                }
            },
        }
    }

    /// Replaces the strategy of `id` by `new_strategy` and its config by
    /// `new_config`; the replaced strategy joins the end of the history under
    /// the version and name it reports.
    pub fn hot_swap(&mut self, id: &str, new_strategy: S, new_config: C) -> (r: Result<(), RegistryError>)
        where S: Strategy,
        requires
            old(self).wf(),
        ensures
            final(self).wf(),
            final(self).ids() == old(self).ids(),
            forall|k: Seq<char>| k != id@ ==> #[trigger] final(self).entry(k) == old(self).entry(k),
            match old(self).entry(id@) {
                None => (r matches Err(RegistryError::NotFound(s)) && s@ == id@)
                    && final(self).entry(id@) is None,
                Some(e) => r is Ok && (final(self).entry(id@) matches Some(n)
                    && n.versions.len() == e.versions.len() + 1
                    && n == swapped(e, n.versions.last().0, new_strategy, new_config)
                    && n.versions.last().0.created_at_ms == 0),
            },
    {
        let ghost old_self = *self;
        match self.find(id) {
            None => Err(RegistryError::NotFound(id.to_owned())),
            Some(i) => {
                let (key, entry) = self.entries.remove(i);
                let record = StrategyVersion {
                    version: entry.current.version(),
                    name: entry.current.name().to_owned(),
                    created_at_ms: 0,
                };
                let RegistryEntry { current, mut versions, config: _ } = entry;
                versions.push((record, current));
                self.entries.insert(i, (key, RegistryEntry { current: new_strategy, versions, config: new_config }));
                proof {
                    old_self.lemma_update_at(*self, i as int);
                    let e = old_self.entries@[i as int].1.state();
                    let n = self.entries@[i as int].1.state();
                    assert(n.versions == e.versions.push((n.versions.last().0, e.current)));
                }
                Ok(())
            },
        }
    }

    /// Makes the first history record of `id` with version `version` the
    /// current strategy, taking it out of the history; the config stays.
    pub fn rollback(&mut self, id: &str, version: u32) -> (r: Result<(), RegistryError>)
        requires
            old(self).wf(),
        ensures
            final(self).wf(),
            final(self).ids() == old(self).ids(),
            forall|k: Seq<char>| k != id@ ==> #[trigger] final(self).entry(k) == old(self).entry(k),
            match old(self).entry(id@) {
                None => (r matches Err(RegistryError::NotFound(s)) && s@ == id@)
                    && final(self).entry(id@) is None,
                Some(e) => if version_slot(e.versions, version) == -1 {
                    (r matches Err(RegistryError::VersionNotFound(v)) && v == version)
                        && final(self).entry(id@) == Some(e)
                } else {
                    r is Ok && final(self).entry(id@) == Some(rolled_back(e, version_slot(e.versions, version)))
                },
            },
    {
        let ghost old_self = *self;
        match self.find(id) {
            None => Err(RegistryError::NotFound(id.to_owned())),
            Some(i) => {
                let ghost hist = self.entries@[i as int].1.versions@;
                let mut p: usize = 0;
                let mut found = false;
                while p < self.entries[i].1.versions.len()
                    invariant_except_break
                        !found,
                        0 <= p <= hist.len(),
                        version_slot(hist, version) == version_slot_from(hist, version, p as int),
                    invariant
                        i < self.entries@.len(),
                        hist == self.entries@[i as int].1.versions@,
                    ensures
                        found ==> p < hist.len() && version_slot(hist, version) == p,
                        !found ==> version_slot(hist, version) == -1,
                    decreases hist.len() - p,
                {
                    if self.entries[i].1.versions[p].0.version == version {
                        found = true;
                        break;
                    }
                    p = p + 1;
                }
                if !found {
                    return Err(RegistryError::VersionNotFound(version));
                }
                let (key, entry) = self.entries.remove(i);
                let RegistryEntry { current: _, mut versions, config } = entry;
                let (_, restored) = versions.remove(p);
                self.entries.insert(i, (key, RegistryEntry { current: restored, versions, config }));
                proof {
                    old_self.lemma_update_at(*self, i as int);
                }
                Ok(())
            },
        }
    }

    /// Checks that every field `required` names is among `config_keys`,
    /// entry by entry; the first entry that is not a name or names a missing
    /// field is reported.
    pub fn check_required(required: &RequiredFields, config_keys: &Vec<String>) -> (r: Result<(), RegistryError>)
        ensures
            match required_outcome(*required, string_views(config_keys@)) {
                Ok(()) => r is Ok,
                Err(m) => r matches Err(RegistryError::InvalidConfig(s)) && s@ == m,
            },
    {
        let ghost keys = string_views(config_keys@);
        match required {
            RequiredFields::Absent => Ok(()),
            RequiredFields::NotAnArray => {
                Err(RegistryError::InvalidConfig(String::from_str("schema `required` field must be an array")))
            },
            RequiredFields::Entries(es) => {
                let mut i: usize = 0;
                while i < es.len()
                    invariant
                        0 <= i <= es@.len(),
                        *required == RequiredFields::Entries(*es),
                        keys == string_views(config_keys@),
                        first_unmet(entry_texts(es@), keys, 0) == first_unmet(entry_texts(es@), keys, i as int),
                    decreases es@.len() - i,
                {
                    match &es[i] {
                        None => {
                            return Err(RegistryError::InvalidConfig(String::from_str("required entry must be a string")));
                        },
                        Some(k) => {
                            let mut j: usize = 0;
                            let mut present = false;
                            while j < config_keys.len()
                                invariant_except_break
                                    !present,
                                invariant
                                    0 <= j <= config_keys@.len(),
                                    keys == string_views(config_keys@),
                                    forall|t: int| 0 <= t < j ==> config_keys@[t]@ != k@,
                                ensures
                                    present <==> keys.contains(k@),
                                decreases config_keys@.len() - j,
                            {
                                if config_keys[j] == *k {
                                    present = true;
                                    proof {
                                        assert(keys[j as int] == k@);
                                    }
                                    break;
                                }
                                j = j + 1;
                            }
                            proof {
                                if !present && keys.contains(k@) {
                                    let t = choose|t: int| 0 <= t < keys.len() && keys[t] == k@;
                                    assert(config_keys@[t]@ == k@);
                                }
                            }
                            if !present {
                                let mut msg = String::from_str("missing required field: ");
                                msg.append(k.as_str());
                                return Err(RegistryError::InvalidConfig(msg));
                            }
                        },
                    }
                    i = i + 1;
                }
                Ok(())
            },
        }
    }

    /// Checks that every field named in `schema["required"]` is a top-level
    /// member of `config`.
    pub fn validate_config(config: &serde_json::Value, schema: &serde_json::Value) -> (r: Result<(), RegistryError>)
        ensures
            match schema_outcome(*schema, top_level_keys(*config)) {
                Ok(()) => r is Ok,
                Err(m) => r matches Err(RegistryError::InvalidConfig(s)) && s@ == m,
            },
    {
        let keys = match object_keys(config) {
            Some(ks) => ks,
            None => {
                let empty: Vec<String> = Vec::new();
                assert(string_views(empty@) =~= Seq::<Seq<char>>::empty());
                empty
            },
        };
        let required = Self::required_fields(schema);
        Self::check_required(&required, &keys)
    }

    /// Reads a schema's `required` member: absent, not an array, or the
    /// array's entries, each a field name when it is a string.
    pub fn required_fields(schema: &serde_json::Value) -> (r: RequiredFields)
        ensures
            match json_member(*schema, "required"@) {
                None => r is Absent,
                Some(req) => match json_kind(req) {
                    JsonKind::Array(items) => r matches RequiredFields::Entries(es)
                        && entry_texts(es@) == items@.map_values(|e: serde_json::Value| entry_name(e)),
                    _ => r is NotAnArray,
                },
            },
    {
        match member(schema, "required") {
            None => RequiredFields::Absent,
            Some(req) => match kind_of(req) {
                JsonKind::Array(items) => {
                    let mut names: Vec<Option<String>> = Vec::new();
                    let mut i: usize = 0;
                    while i < items.len()
                        invariant
                            0 <= i <= items@.len(),
                            names@.len() == i,
                            forall|j: int| 0 <= j < i ==> entry_texts(names@)[j] == entry_name(#[trigger] items@[j]),
                        decreases items@.len() - i,
                    {
                        let name = match kind_of(&items[i]) {
                            JsonKind::Text(k) => Some(k),
                            _ => None,
                        };
                        names.push(name);
                        i = i + 1;
                    }
                    assert(entry_texts(names@) =~= items@.map_values(|e: serde_json::Value| entry_name(e)));
                    RequiredFields::Entries(names)
                },
                _ => RequiredFields::NotAnArray,
            },
        }
    }

    /// The current strategy of `id`.
    pub fn get(&self, id: &str) -> (r: Option<&S>)
        requires
            self.wf(),
        ensures
            match self.entry(id@) {
                Some(e) => r == Some(&e.current),
                None => r is None,
            },
    {
        match self.find(id) {
            Some(i) => Some(&self.entries[i].1.current),
            None => None,
        }
    }

    /// The config of `id`.
    pub fn get_config(&self, id: &str) -> (r: Option<&C>)
        requires
            self.wf(),
        ensures
            match self.entry(id@) {
                Some(e) => r == Some(&e.config),
                None => r is None,
            },
    {
        match self.find(id) {
            Some(i) => Some(&self.entries[i].1.config),
            None => None,
        }
    }

    /// All registered ids, in registration order.
    pub fn list(&self) -> (r: Vec<String>)
        ensures
            r@.len() == self.ids().len(),
            forall|i: int| 0 <= i < r@.len() ==> #[trigger] r@[i]@ == self.ids()[i],
    {
        let mut out: Vec<String> = Vec::new();
        let mut i: usize = 0;
        while i < self.entries.len()
            invariant
                0 <= i <= self.entries@.len(),
                out@.len() == i,
                forall|j: int| 0 <= j < i ==> #[trigger] out@[j]@ == self.entries@[j].0@,
            decreases self.entries@.len() - i,
        {
            out.push(self.entries[i].0.clone());
            i = i + 1;
        }
        out
    }
}

impl<S, C> Default for StrategyRegistry<S, C> {
    fn default() -> (r: Self)
        ensures
            r.wf(),
            r.ids() == Seq::<Seq<char>>::empty(),
            forall|id: Seq<char>| #[trigger] r.entry(id) is None,
    {
        Self::new()
    }
}

/// Position of the latest builder registered under `name` among the first
/// `upto`, or `-1`.
pub open spec fn builder_slot<B>(builders: Seq<(String, B)>, name: Seq<char>, upto: int) -> int
    decreases upto,
{
    if upto <= 0 || upto > builders.len() {
        -1
    } else if builders[upto - 1].0@ == name {
        upto - 1
    } else {
        builder_slot(builders, name, upto - 1)
    }
}

/// Builds strategies from a type name and a config, through the builder
/// registered last under that name.
pub struct StrategyFactory<B> {
    builders: Vec<(String, B)>,
}

impl<B> StrategyFactory<B> {
    /// The builder that `create` uses for `name`.
    pub closed spec fn builder(self, name: Seq<char>) -> Option<B> {
        let i = builder_slot(self.builders@, name, self.builders@.len() as int);
        if i >= 0 {
            Some(self.builders@[i].1)
        } else {
            None
        }
    }

    /// Every registered builder.
    pub closed spec fn all_builders(self) -> Seq<B> {
        Seq::new(self.builders@.len(), |i: int| self.builders@[i].1)
    }

    pub fn new() -> (r: Self)
        ensures
            forall|name: Seq<char>| #[trigger] r.builder(name) is None,
            r.all_builders() == Seq::<B>::empty(),
    {
        let r = Self { builders: Vec::new() };
        proof {
            assert(r.all_builders() =~= Seq::<B>::empty());
        }
        r
    }

    /// Registers `builder` for `strategy_type`, in place of any earlier one.
    pub fn register_builder(&mut self, strategy_type: String, builder: B)
        ensures
            final(self).builder(strategy_type@) == Some(builder),
            forall|name: Seq<char>| name != strategy_type@ ==> #[trigger] final(self).builder(name) == old(self).builder(name),
            final(self).all_builders() == old(self).all_builders().push(builder),
    {
        let ghost before = self.builders@;
        let ghost key = strategy_type@;
        self.builders.push((strategy_type, builder));
        proof {
            let after = self.builders@;
            assert(after.last().0@ == key);
            assert forall|name: Seq<char>| name != key implies #[trigger] self.builder(name) == old(self).builder(name) by {
                lemma_builder_slot_prefix(before, after, name, before.len() as int);
                lemma_builder_slot_range(before, name, before.len() as int);
                assert(after[before.len() as int].0@ != name);
                assert(builder_slot(after, name, after.len() as int) == builder_slot(after, name, before.len() as int));
            }
            assert(self.all_builders() =~= old(self).all_builders().push(builder));
        }
    }

    /// Builds a strategy with the builder registered for `strategy_type`.
    pub fn create<C, S>(&self, strategy_type: &str, config: C) -> (r: Result<S, RegistryError>)
        where B: Fn(C) -> Result<S, RegistryError>,
        requires
            forall|b: B, c: C| self.all_builders().contains(b) ==> #[trigger] b.requires((c,)),
        ensures
            match self.builder(strategy_type@) {
                None => r matches Err(RegistryError::NotFound(s)) && s@ == strategy_type@,
                Some(b) => b.ensures((config,), r),
            },
    {
        let name = strategy_type.to_owned();
        let mut k: usize = self.builders.len();
        while k > 0
            invariant
                k <= self.builders@.len(),
                name@ == strategy_type@,
                forall|b: B, c: C| self.all_builders().contains(b) ==> #[trigger] b.requires((c,)),
                builder_slot(self.builders@, strategy_type@, self.builders@.len() as int)
                    == builder_slot(self.builders@, strategy_type@, k as int),
            decreases k,
        {
            if self.builders[k - 1].0 == name {
                proof {
                    assert(builder_slot(self.builders@, strategy_type@, k as int) == k - 1);
                    assert(self.all_builders()[k - 1] == self.builders@[k - 1].1);
                }
                let builder = &self.builders[k - 1].1;
                return builder(config);
            }
            k = k - 1;
        }
        Err(RegistryError::NotFound(name))
    }
}

impl<B> Default for StrategyFactory<B> {
    fn default() -> (r: Self)
        ensures
            forall|name: Seq<char>| #[trigger] r.builder(name) is None,
            r.all_builders() == Seq::<B>::empty(),
    {
        Self::new()
    }
}

proof fn lemma_builder_slot_range<B>(builders: Seq<(String, B)>, name: Seq<char>, upto: int)
    ensures
        ({
            let i = builder_slot(builders, name, upto);
            i == -1 || (0 <= i < upto && i < builders.len() && builders[i].0@ == name)
        }),
    decreases upto,
{
    if upto > 0 && upto <= builders.len() && builders[upto - 1].0@ != name {
        lemma_builder_slot_range(builders, name, upto - 1);
    }
}

proof fn lemma_builder_slot_prefix<B>(before: Seq<(String, B)>, after: Seq<(String, B)>, name: Seq<char>, upto: int)
    requires
        before.len() <= after.len(),
        0 <= upto <= before.len(),
        forall|i: int| 0 <= i < before.len() ==> after[i] == before[i],
    ensures
        builder_slot(after, name, upto) == builder_slot(before, name, upto),
    decreases upto,
{
    if upto > 0 {
        lemma_builder_slot_prefix(before, after, name, upto - 1);
    }
}

} // verus!
