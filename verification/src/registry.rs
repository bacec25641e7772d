//! The registry: models by name and version.

use std::sync::Arc;

use vstd::prelude::*;
use vstd::string::*;

use crate::config::ModelConfig;
use crate::ort_bridge::session::TensorMetaView;
use crate::ort_bridge::{ModelBridge, TensorMeta};
use crate::text;
use crate::views;

verus! {

/// A served model. `handle` is what the server keeps beside it, such as the way to its queue.
#[derive(Debug)]
pub struct ModelEntry<H> {
    pub name: String,
    pub version: String,
    pub input_meta: TensorMeta,
    pub output_meta: Vec<TensorMeta>,
    pub handle: H,
}

impl<H> ModelEntry<H> {
    /// The pair by which the model is registered.
    pub open spec fn key(&self) -> (Seq<char>, Seq<char>) {
        (self.name@, self.version@)
    }

    /// The entry of a configured model that has been loaded.
    pub fn new(config: &ModelConfig, bridge: &ModelBridge, handle: H) -> (entry: ModelEntry<H>)
        ensures
            entry.name@ == config@.name,
            entry.version@ == config@.version,
            entry.input_meta@ == bridge@.input_meta,
            views::view_all(entry.output_meta@) == bridge@.output_meta,
            entry.handle == handle,
    {
        let metas = bridge.output_meta();
        let mut output_meta: Vec<TensorMeta> = Vec::new();
        let mut i: usize = 0;
        while i < metas.len()
            invariant
                i <= metas.len(),
                views::view_all(output_meta@) == views::view_all(metas@).take(i as int),
            decreases metas.len() - i,
        {
            let ghost before = views::view_all(output_meta@);
            let meta = metas[i].clone();
            output_meta.push(meta);
            proof {
                assert(views::view_all(output_meta@) == before.push(meta@));
                assert(views::view_all(metas@)[i as int] == meta@);
                assert(views::view_all(metas@).take(i + 1) == before.push(meta@));
            }
            i = i + 1;
        }
        assert(views::view_all(metas@).take(i as int) == views::view_all(metas@));
        ModelEntry {
            name: config.name.clone(),
            version: config.version.clone(),
            input_meta: bridge.input_meta().clone(),
            output_meta,
            handle,
        }
    }
}

/// Whether a model takes requests.
#[derive(Debug, Clone, Copy, PartialEq, Eq, Structural)]
pub enum EntryState {
    Loaded,
    Draining,
}

/// The state of a model, kept as one byte: 0 while it is loaded.
#[derive(Debug)]
pub struct AtomicEntryState {
    inner: u8,
}

impl View for AtomicEntryState {
    type V = EntryState;

    closed spec fn view(&self) -> EntryState {
        if self.inner == 0 {
            EntryState::Loaded
        } else {
            EntryState::Draining
        }
    }
}

impl AtomicEntryState {
    pub fn new(state: EntryState) -> (this: AtomicEntryState)
        ensures
            this@ == state,
    {
        AtomicEntryState { inner: AtomicEntryState::code(state) }
    }

    fn code(state: EntryState) -> (code: u8)
        ensures
            code == 0 <==> state == EntryState::Loaded,
    {
        match state {
            EntryState::Loaded => 0,
            EntryState::Draining => 1,
        }
    }

    /// The state last stored.
    pub fn load(&self) -> (state: EntryState)
        ensures
            state == self@,
    {
        match self.inner {
            0 => EntryState::Loaded,
            _ => EntryState::Draining,
        }
    }

    pub fn store(&mut self, state: EntryState)
        ensures
            final(self)@ == state,
    {
        self.inner = AtomicEntryState::code(state);
    }

    /// Whether the model takes requests.
    pub fn is_loaded(&self) -> (loaded: bool)
        ensures
            loaded == (self@ == EntryState::Loaded),
    {
        match self.load() {
            EntryState::Loaded => true,
            EntryState::Draining => false,
        }
    }
}

/// Entry `i` of a list is the one that a request selects among versions `keys`: the first with
/// the requested version, or with the last version in character order where the request names
/// none.
pub open spec fn selects(keys: Seq<Seq<char>>, requested: Option<Seq<char>>, i: int) -> bool {
    &&& 0 <= i < keys.len()
    &&& forall|j: int| 0 <= j < i ==> keys[j] != keys[i]
    &&& match requested {
        Some(version) if version.len() > 0 => keys[i] == version,
        _ => forall|j: int| 0 <= j < keys.len() ==> !text::text_less(keys[i], #[trigger] keys[j]),
    }
}

/// The versions of a list of versioned items.
pub open spec fn version_keys<E>(versions: Seq<(String, E)>) -> Seq<Seq<char>> {
    versions.map_values(|item: (String, E)| item.0@)
}

/// The index of the first item with version `version`.
fn index_of_version<E>(versions: &Vec<(String, E)>, version: &str) -> (found: Option<usize>)
    ensures
        match found {
            Some(i) => {
                &&& i < versions.len()
                &&& version_keys(versions@)[i as int] == version@
                &&& forall|j: int| 0 <= j < i ==> version_keys(versions@)[j] != version@
            },
            None => forall|j: int|
                0 <= j < versions.len() ==> version_keys(versions@)[j] != version@,
        },
{
    let mut i: usize = 0;
    while i < versions.len()
        invariant
            i <= versions.len(),
            forall|j: int| 0 <= j < i ==> version_keys(versions@)[j] != version@,
        decreases versions.len() - i,
    {
        assert(version_keys(versions@)[i as int] == versions@[i as int].0@);
        if text::text_eq(&versions[i].0, version) {
            return Some(i);
        }
        i = i + 1;
    }
    None
}

/// The index of the first item with the last version.
fn index_of_last_version<E>(versions: &Vec<(String, E)>) -> (found: Option<usize>)
    ensures
        match found {
            Some(i) => selects(version_keys(versions@), None, i as int),
            None => versions.len() == 0,
        },
{
    if versions.len() == 0 {
        return None;
    }
    let ghost keys = version_keys(versions@);
    let mut best: usize = 0;
    let mut i: usize = 1;
    assert forall|j: int| 0 <= j < 1 implies !text::text_less(keys[0], #[trigger] keys[j]) by {
        text::lemma_text_less_irreflexive(keys[0]);
    }
    while i < versions.len()
        invariant
            keys == version_keys(versions@),
            best < i <= versions.len(),
            forall|j: int| 0 <= j < best ==> keys[j] != keys[best as int],
            forall|j: int|
                0 <= j < i ==> !text::text_less(keys[best as int], #[trigger] keys[j]),
        decreases versions.len() - i,
    {
        assert(keys[i as int] == versions@[i as int].0@);
        assert(keys[best as int] == versions@[best as int].0@);
        if text::text_before(&versions[best].0, &versions[i].0) {
            proof {
                let old_best = keys[best as int];
                let new_best = keys[i as int];
                text::lemma_text_less_irreflexive(new_best);
                assert forall|j: int| 0 <= j < i + 1 implies !text::text_less(
                    new_best,
                    #[trigger] keys[j],
                ) by {
                    if j < i && text::text_less(new_best, keys[j]) {
                        if text::text_less(new_best, old_best) {
                            text::lemma_text_less_asymmetric(old_best, new_best);
                        }
                        text::lemma_text_less_transitive(old_best, new_best, keys[j]);
                    }
                }
                assert forall|j: int| 0 <= j < i implies keys[j] != new_best by {
                    assert(!text::text_less(old_best, keys[j]));
                }
            }
            best = i;
        }
        i = i + 1;
    }
    Some(best)
}

/// The item that a request selects: the one with the requested version, or the one whose
/// version comes last in character order where the request names none or an empty one.
pub fn lookup_version<'a, E>(versions: &'a Vec<(String, E)>, requested: Option<&str>) -> (found:
    Option<&'a E>)
    ensures
        match found {
            Some(item) => exists|i: int|
                selects(version_keys(versions@), views::view_option(requested), i) && *item
                    == #[trigger] versions@[i].1,
            None => forall|i: int|
                !selects(version_keys(versions@), views::view_option(requested), i),
        },
        (requested matches Some(version) && version@.len() > 0) ==> match found {
            Some(item) => exists|i: int|
                0 <= i < versions@.len() && versions@[i].0@ == requested->0@ && *item
                    == #[trigger] versions@[i].1,
            None => forall|i: int|
                0 <= i < versions@.len() ==> (#[trigger] versions@[i]).0@ != requested->0@,
        },
        (requested matches Some(version) ==> version@.len() == 0) ==> match found {
            Some(item) => exists|i: int|
                {
                    &&& 0 <= i < versions@.len()
                    &&& *item == #[trigger] versions@[i].1
                    &&& forall|j: int|
                        0 <= j < versions@.len() ==> !text::text_less(
                            versions@[i].0@,
                            (#[trigger] versions@[j]).0@,
                        )
                },
            None => versions@.len() == 0,
        },
{
    let index = match requested {
        Some(version) => {
            if version.is_empty() {
                index_of_last_version(versions)
            } else {
                index_of_version(versions, version)
            }
        },
        None => index_of_last_version(versions),
    };
    proof {
        let keys = version_keys(versions@);
        assert forall|j: int| 0 <= j < versions@.len() implies (#[trigger] versions@[j]).0@
            == keys[j] by {}
    }
    match index {
        Some(i) => {
            assert(selects(
                version_keys(versions@),
                views::view_option(requested),
                i as int,
            ));
            Some(&versions[i].1)
        },
        None => None,
    }
}

/// No two entries of a list share name and version.
pub open spec fn distinct_keys<H>(entries: Seq<Arc<ModelEntry<H>>>) -> bool {
    forall|i: int, j: int|
        0 <= i < j < entries.len() ==> #[trigger] entries[i].key() != #[trigger] entries[j].key()
}

/// The entries of a list by name and version; a later entry takes the place of an earlier one.
pub open spec fn entries_map<H>(entries: Seq<Arc<ModelEntry<H>>>) -> Map<
    (Seq<char>, Seq<char>),
    Arc<ModelEntry<H>>,
>
    decreases entries.len(),
{
    if entries.len() == 0 {
        Map::empty()
    } else {
        entries_map(entries.drop_last()).insert(entries.last().key(), entries.last())
    }
}

/// `version` is registered for `name`, and no registered version of `name` comes after it.
pub open spec fn is_last_version<E>(
    map: Map<(Seq<char>, Seq<char>), E>,
    name: Seq<char>,
    version: Seq<char>,
) -> bool {
    &&& map.contains_key((name, version))
    &&& forall|other: Seq<char>|
        #[trigger] map.contains_key((name, other)) ==> !text::text_less(version, other)
}

/// What a request for `name` finds: the entry with the requested version, or the one with the
/// last version of `name` where the request names none or an empty one.
pub open spec fn resolve<E>(
    map: Map<(Seq<char>, Seq<char>), E>,
    name: Seq<char>,
    requested: Option<Seq<char>>,
) -> Option<E> {
    match requested {
        Some(version) if version.len() > 0 => if map.contains_key((name, version)) {
            Some(map[(name, version)])
        } else {
            None
        },
        _ => if exists|version: Seq<char>| is_last_version(map, name, version) {
            Some(map[(name, choose|version: Seq<char>| is_last_version(map, name, version))])
        } else {
            None
        },
    }
}

/// At most one version of a name is its last.
pub proof fn lemma_last_version_unique<E>(
    map: Map<(Seq<char>, Seq<char>), E>,
    name: Seq<char>,
    a: Seq<char>,
    b: Seq<char>,
)
    requires
        is_last_version(map, name, a),
        is_last_version(map, name, b),
    ensures
        a == b,
{
    text::lemma_text_order_total(a, b);
}

/// Every entry stands under its own name and version.
pub proof fn lemma_entry_stands_under_its_key<H>(
    entries: Seq<Arc<ModelEntry<H>>>,
    key: (Seq<char>, Seq<char>),
)
    requires
        entries_map(entries).contains_key(key),
    ensures
        entries_map(entries)[key].key() == key,
        entries.contains(entries_map(entries)[key]),
    decreases entries.len(),
{
    let init = entries.drop_last();
    let last = entries.last();
    if key == last.key() {
        assert(entries[entries.len() - 1] == last);
    } else {
        lemma_entry_stands_under_its_key(init, key);
        let i = choose|i: int| 0 <= i < init.len() && init[i] == entries_map(init)[key];
        assert(entries[i] == entries_map(entries)[key]);
    }
}

proof fn lemma_last_version_exists<H>(
    entries: Seq<Arc<ModelEntry<H>>>,
    name: Seq<char>,
    version: Seq<char>,
) -> (last: Seq<char>)
    requires
        entries_map(entries).contains_key((name, version)),
    ensures
        is_last_version(entries_map(entries), name, last),
    decreases entries.len(),
{
    let map = entries_map(entries);
    let init = entries_map(entries.drop_last());
    let added = entries.last();
    if exists|v: Seq<char>| init.contains_key((name, v)) {
        let v = choose|v: Seq<char>| init.contains_key((name, v));
        let before = lemma_last_version_exists(entries.drop_last(), name, v);
        if added.name@ == name && text::text_less(before, added.version@) {
            text::lemma_text_less_irreflexive(added.version@);
            assert forall|other: Seq<char>| #[trigger] map.contains_key((name, other)) implies
                !text::text_less(added.version@, other) by {
                if other != added.version@ {
                    assert(init.contains_key((name, other)));
                    if text::text_less(added.version@, other) {
                        text::lemma_text_less_asymmetric(before, added.version@);
                        text::lemma_text_less_transitive(before, added.version@, other);
                    }
                }
            }
            added.version@
        } else {
            assert forall|other: Seq<char>| #[trigger] map.contains_key((name, other)) implies
                !text::text_less(before, other) by {
                if (name, other) != added.key() {
                    assert(init.contains_key((name, other)));
                }
            }
            before
        }
    } else {
        text::lemma_text_less_irreflexive(added.version@);
        assert(map.contains_key((name, version)));
        assert(added.key() == (name, version));
        assert forall|other: Seq<char>| #[trigger] map.contains_key((name, other)) implies
            !text::text_less(added.version@, other) by {
            if (name, other) != added.key() {
                assert(init.contains_key((name, other)));
            }
        }
        added.version@
    }
}

/// A request without a version finds a model whenever one of that name is registered: the one
/// whose version no other version of the name comes after.
pub proof fn lemma_unversioned_request_finds_last<H>(
    entries: Seq<Arc<ModelEntry<H>>>,
    name: Seq<char>,
    version: Seq<char>,
)
    requires
        entries_map(entries).contains_key((name, version)),
    ensures
        resolve(entries_map(entries), name, None) is Some,
        resolve(entries_map(entries), name, None)->0.name@ == name,
        is_last_version(
            entries_map(entries),
            name,
            resolve(entries_map(entries), name, None)->0.version@,
        ),
        resolve(entries_map(entries), name, Some(Seq::empty())) == resolve(
            entries_map(entries),
            name,
            None,
        ),
{
    let map = entries_map(entries);
    let last = lemma_last_version_exists(entries, name, version);
    let chosen = choose|v: Seq<char>| is_last_version(map, name, v);
    assert(is_last_version(map, name, chosen));
    lemma_entry_stands_under_its_key(entries, (name, chosen));
}

/// A request for a version that is registered finds exactly that version, and one for a version
/// that is not finds nothing.
pub proof fn lemma_versioned_request_is_exact<H>(
    entries: Seq<Arc<ModelEntry<H>>>,
    name: Seq<char>,
    version: Seq<char>,
)
    requires
        version.len() > 0,
    ensures
        resolve(entries_map(entries), name, Some(version)) is Some <==> entries_map(
            entries,
        ).contains_key((name, version)),
        resolve(entries_map(entries), name, Some(version)) matches Some(entry) ==> entry.key() == (
            name,
            version,
        ),
{
    if entries_map(entries).contains_key((name, version)) {
        lemma_entry_stands_under_its_key(entries, (name, version));
    }
}

/// A name and version is in the map of a list exactly when an entry of the list has it.
pub proof fn lemma_entries_map_keys<H>(
    entries: Seq<Arc<ModelEntry<H>>>,
    key: (Seq<char>, Seq<char>),
)
    ensures
        entries_map(entries).contains_key(key) <==> exists|i: int|
            0 <= i < entries.len() && #[trigger] entries[i].key() == key,
    decreases entries.len(),
{
    if entries.len() > 0 {
        let init = entries.drop_last();
        lemma_entries_map_keys(init, key);
        assert(entries[entries.len() - 1] == entries.last());
        if entries_map(init).contains_key(key) {
            let i = choose|i: int| 0 <= i < init.len() && #[trigger] init[i].key() == key;
            assert(entries[i].key() == key);
        }
        if exists|i: int| 0 <= i < entries.len() && #[trigger] entries[i].key() == key {
            let i = choose|i: int| 0 <= i < entries.len() && #[trigger] entries[i].key() == key;
            if i < init.len() {
                assert(init[i].key() == key);
            }
        }
    }
}

/// What the map of a list of distinct entries holds.
pub proof fn lemma_entries_map_distinct<H>(entries: Seq<Arc<ModelEntry<H>>>)
    requires
        distinct_keys(entries),
    ensures
        forall|i: int|
            0 <= i < entries.len() ==> {
                &&& entries_map(entries).contains_key(#[trigger] entries[i].key())
                &&& entries_map(entries)[entries[i].key()] == entries[i]
            },
        forall|k: (Seq<char>, Seq<char>)| #[trigger]
            entries_map(entries).contains_key(k) ==> exists|i: int|
                0 <= i < entries.len() && #[trigger] entries[i].key() == k,
        entries_map(entries).dom().finite(),
        entries_map(entries).len() == entries.len(),
    decreases entries.len(),
{
    if entries.len() > 0 {
        let init = entries.drop_last();
        let last = entries.last();
        assert forall|i: int, j: int| 0 <= i < j < init.len() implies #[trigger] init[i].key()
            != #[trigger] init[j].key() by {
            assert(entries[i].key() != entries[j].key());
        }
        lemma_entries_map_distinct(init);
        assert(!entries_map(init).contains_key(last.key())) by {
            if entries_map(init).contains_key(last.key()) {
                let i = choose|i: int| 0 <= i < init.len() && #[trigger] init[i].key() == last.key();
                assert(entries[i].key() == entries[entries.len() - 1].key());
            }
        }
        assert forall|i: int| 0 <= i < entries.len() implies {
            &&& entries_map(entries).contains_key(#[trigger] entries[i].key())
            &&& entries_map(entries)[entries[i].key()] == entries[i]
        } by {
            if i < init.len() {
                assert(init[i] == entries[i]);
                assert(entries_map(init).contains_key(init[i].key()));
            }
        }
        assert forall|k: (Seq<char>, Seq<char>)| #[trigger]
            entries_map(entries).contains_key(k) implies exists|i: int|
            0 <= i < entries.len() && #[trigger] entries[i].key() == k by {
            if k == last.key() {
                assert(entries[entries.len() - 1].key() == k);
            } else {
                assert(entries_map(init).contains_key(k));
                let i = choose|i: int| 0 <= i < init.len() && #[trigger] init[i].key() == k;
                assert(entries[i].key() == k);
            }
        }
    }
}

proof fn lemma_entries_map_replace<H>(
    entries: Seq<Arc<ModelEntry<H>>>,
    at: int,
    added: Arc<ModelEntry<H>>,
)
    requires
        distinct_keys(entries),
        0 <= at < entries.len(),
        entries[at].key() == added.key(),
    ensures
        distinct_keys(entries.update(at, added)),
        entries_map(entries.update(at, added)) == entries_map(entries).insert(added.key(), added),
{
    let list = entries.update(at, added);
    assert forall|a: int, b: int| 0 <= a < b < list.len() implies #[trigger] list[a].key()
        != #[trigger] list[b].key() by {
        assert(entries[a].key() != entries[b].key());
    }
    lemma_entries_map_distinct(entries);
    lemma_entries_map_distinct(list);
    let new_map = entries_map(list);
    let expected = entries_map(entries).insert(added.key(), added);
    assert forall|k: (Seq<char>, Seq<char>)| #[trigger] new_map.contains_key(k) implies
        expected.contains_key(k) && new_map[k] == expected[k] by {
        let a = choose|a: int| 0 <= a < list.len() && #[trigger] list[a].key() == k;
        if a != at {
            assert(entries[a].key() == k);
            assert(entries[a].key() != entries[at].key());
        }
    }
    assert forall|k: (Seq<char>, Seq<char>)| #[trigger] expected.contains_key(k) implies
        new_map.contains_key(k) by {
        if k == added.key() {
            assert(list[at].key() == k);
        } else {
            assert(entries_map(entries).contains_key(k));
            let a = choose|a: int| 0 <= a < entries.len() && #[trigger] entries[a].key() == k;
            assert(list[a].key() == k);
        }
    }
    assert(new_map.dom() =~= expected.dom());
    assert(new_map =~= expected);
}

/// `versions` holds each registered version of `name` with what is registered for it.
spec fn lists_versions<E>(
    map: Map<(Seq<char>, Seq<char>), E>,
    name: Seq<char>,
    versions: Seq<(String, E)>,
) -> bool {
    let keys = version_keys(versions);
    &&& forall|k: int|
        0 <= k < keys.len() ==> {
            &&& map.contains_key((name, #[trigger] keys[k]))
            &&& map[(name, keys[k])] == versions[k].1
        }
    &&& forall|v: Seq<char>| #[trigger]
        map.contains_key((name, v)) ==> exists|k: int|
            0 <= k < keys.len() && #[trigger] keys[k] == v
}

proof fn lemma_selected_is_resolved<E>(
    map: Map<(Seq<char>, Seq<char>), E>,
    name: Seq<char>,
    versions: Seq<(String, E)>,
    requested: Option<Seq<char>>,
    k: int,
)
    requires
        lists_versions(map, name, versions),
        selects(version_keys(versions), requested, k),
    ensures
        resolve(map, name, requested) == Some(versions[k].1),
{
    let keys = version_keys(versions);
    assert(map.contains_key((name, keys[k])));
    match requested {
        Some(v) if v.len() > 0 => {},
        _ => {
            assert(is_last_version(map, name, keys[k]));
            let last = choose|v: Seq<char>| is_last_version(map, name, v);
            lemma_last_version_unique(map, name, keys[k], last);
        },
    }
}

proof fn lemma_none_selected_none_resolved<E>(
    map: Map<(Seq<char>, Seq<char>), E>,
    name: Seq<char>,
    versions: Seq<(String, E)>,
    requested: Option<Seq<char>>,
)
    requires
        lists_versions(map, name, versions),
        forall|k: int| !selects(version_keys(versions), requested, k),
    ensures
        resolve(map, name, requested) is None,
{
    let keys = version_keys(versions);
    if resolve(map, name, requested) is Some {
        let v = match requested {
            Some(v) if v.len() > 0 => v,
            _ => choose|v: Seq<char>| is_last_version(map, name, v),
        };
        assert(map.contains_key((name, v)));
        let k = choose|k: int| 0 <= k < keys.len() && #[trigger] keys[k] == v;
        let first = lemma_first_of_key(keys, k);
        assert forall|j: int|
            !(requested is Some && requested->0.len() > 0) && 0 <= j < keys.len() implies
            !text::text_less(keys[first], #[trigger] keys[j]) by {
            assert(map.contains_key((name, keys[j])));
        }
        assert(selects(keys, requested, first));
    }
}

/// The models in service, by name and version.
#[derive(Debug)]
pub struct ModelRegistry<H> {
    entries: Vec<Arc<ModelEntry<H>>>,
}

impl<H> View for ModelRegistry<H> {
    type V = Map<(Seq<char>, Seq<char>), Arc<ModelEntry<H>>>;

    open spec fn view(&self) -> Self::V {
        entries_map(self.list())
    }
}

impl<H> ModelRegistry<H> {
    /// The entries in the order in which the registry walks them.
    pub closed spec fn list(self) -> Seq<Arc<ModelEntry<H>>> {
        self.entries@
    }

    #[verifier::type_invariant]
    spec fn inv(self) -> bool {
        distinct_keys(self.entries@)
    }

    /// A registry without models.
    pub fn empty() -> (registry: ModelRegistry<H>)
        ensures
            registry@ == Map::<(Seq<char>, Seq<char>), Arc<ModelEntry<H>>>::empty(),
    {
        ModelRegistry { entries: Vec::new() }
    }

    /// A registry of these entries; of several with the same name and version the last stays.
    pub fn from_entries(entries: Vec<Arc<ModelEntry<H>>>) -> (registry: ModelRegistry<H>)
        ensures
            registry@ == entries_map(entries@),
    {
        let mut list: Vec<Arc<ModelEntry<H>>> = Vec::new();
        let mut i: usize = 0;
        assert(entries@.take(0) == Seq::<Arc<ModelEntry<H>>>::empty());
        while i < entries.len()
            invariant
                i <= entries.len(),
                distinct_keys(list@),
                entries_map(list@) == entries_map(entries@.take(i as int)),
            decreases entries.len() - i,
        {
            let entry = entries[i].clone();
            let ghost added = entry;
            proof {
                let next = entries@.take(i + 1);
                assert(next.drop_last() == entries@.take(i as int));
                assert(next.last() == entry);
                lemma_entries_map_distinct(list@);
            }
            match index_of_entry(&list, &entry.name, &entry.version) {
                Some(at) => {
                    let ghost before = list@;
                    list.set(at, entry);
                    proof {
                        lemma_entries_map_replace(before, at as int, added);
                    }
                },
                None => {
                    let ghost before = list@;
                    list.push(entry);
                    proof {
                        assert(list@.drop_last() == before);
                        assert forall|a: int, b: int| 0 <= a < b < list@.len() implies
                            #[trigger] list@[a].key() != #[trigger] list@[b].key() by {
                            if b < before.len() {
                                assert(before[a].key() != before[b].key());
                            } else {
                                assert(before[a].key() != added.key());
                            }
                        }
                    }
                },
            }
            i = i + 1;
        }
        assert(entries@.take(i as int) == entries@);
        ModelRegistry { entries: list }
    }

    /// The versions of `name`, each with its entry.
    fn versions_of(&self, name: &str) -> (versions: Vec<(String, Arc<ModelEntry<H>>)>)
        ensures
            lists_versions(self@, name@, versions@),
    {
        proof {
            use_type_invariant(self);
            lemma_entries_map_distinct(self.entries@);
        }
        let mut versions: Vec<(String, Arc<ModelEntry<H>>)> = Vec::new();
        let mut i: usize = 0;
        while i < self.entries.len()
            invariant
                i <= self.entries.len(),
                forall|k: int|
                    0 <= k < versions.len() ==> {
                        &&& versions@[k].0@ == (#[trigger] versions@[k]).1.version@
                        &&& versions@[k].1.name@ == name@
                        &&& exists|a: int| 0 <= a < i && self.entries@[a] == versions@[k].1
                    },
                forall|a: int|
                    0 <= a < i && (#[trigger] self.entries@[a]).name@ == name@ ==> exists|k: int|
                        0 <= k < versions.len() && #[trigger] versions@[k].1 == self.entries@[a],
            decreases self.entries.len() - i,
        {
            let entry = &self.entries[i];
            if text::text_eq(&entry.name, name) {
                let ghost before = versions@;
                versions.push((entry.version.clone(), entry.clone()));
                proof {
                    assert forall|a: int|
                        0 <= a < i + 1 && (#[trigger] self.entries@[a]).name@ == name@ implies
                        exists|k: int|
                        0 <= k < versions.len() && #[trigger] versions@[k].1
                            == self.entries@[a] by {
                        if a < i {
                            let k = choose|k: int|
                                0 <= k < before.len() && #[trigger] before[k].1
                                    == self.entries@[a];
                            assert(versions@[k].1 == self.entries@[a]);
                        } else {
                            assert(versions@[before.len() as int].1 == self.entries@[a]);
                        }
                    }
                }
            }
            i = i + 1;
        }
        proof {
            let keys = version_keys(versions@);
            assert forall|k: int| 0 <= k < keys.len() implies {
                &&& self@.contains_key((name@, #[trigger] keys[k]))
                &&& self@[(name@, keys[k])] == versions@[k].1
            } by {
                let a = choose|a: int|
                    0 <= a < self.entries.len() && self.entries@[a] == versions@[k].1;
                assert(self.entries@[a].key() == (name@, keys[k]));
            }
            assert forall|v: Seq<char>| #[trigger] self@.contains_key((name@, v)) implies exists|
                k: int,
            |
                0 <= k < keys.len() && #[trigger] keys[k] == v by {
                let a = choose|a: int|
                    0 <= a < self.entries.len() && #[trigger] self.entries@[a].key() == (name@, v);
                let k = choose|k: int|
                    0 <= k < versions.len() && #[trigger] versions@[k].1 == self.entries@[a];
                assert(keys[k] == v);
            }
        }
        versions
    }

    /// The entry that a request for `name` finds.
    pub fn get(&self, name: &str, version: Option<&str>) -> (found: Option<Arc<ModelEntry<H>>>)
        ensures
            found == resolve(self@, name@, views::view_option(version)),
    {
        let versions = self.versions_of(name);
        let found = lookup_version(&versions, version);
        proof {
            let requested = views::view_option(version);
            match found {
                Some(entry) => {
                    let k = choose|k: int|
                        selects(version_keys(versions@), requested, k) && *entry
                            == #[trigger] versions@[k].1;
                    lemma_selected_is_resolved(self@, name@, versions@, requested, k);
                },
                None => {
                    lemma_none_selected_none_resolved(self@, name@, versions@, requested);
                },
            }
        }
        match found {
            Some(entry) => Some(entry.clone()),
            None => None,
        }
    }

    /// Whether this very version of `name` is registered.
    pub fn contains(&self, name: &str, version: &str) -> (found: bool)
        ensures
            found == self@.contains_key((name@, version@)),
    {
        proof {
            use_type_invariant(self);
            lemma_entries_map_distinct(self.entries@);
        }
        index_of_entry(&self.entries, name, version).is_some()
    }

    /// The number of models.
    pub fn count(&self) -> (count: usize)
        ensures
            self@.dom().finite(),
            count == self@.len(),
    {
        proof {
            use_type_invariant(self);
            lemma_entries_map_distinct(self.entries@);
        }
        self.entries.len()
    }

    /// All models, each once.
    pub fn all_entries(&self) -> (entries: &Vec<Arc<ModelEntry<H>>>)
        ensures
            entries@ == self.list(),
            distinct_keys(entries@),
            entries_map(entries@) == self@,
    {
        proof {
            use_type_invariant(self);
        }
        &self.entries
    }
}

proof fn lemma_first_of_key(keys: Seq<Seq<char>>, k: int) -> (first: int)
    requires
        0 <= k < keys.len(),
    ensures
        0 <= first <= k,
        keys[first] == keys[k],
        forall|j: int| 0 <= j < first ==> keys[j] != keys[first],
    decreases k,
{
    if exists|j: int| 0 <= j < k && keys[j] == keys[k] {
        let j = choose|j: int| 0 <= j < k && keys[j] == keys[k];
        lemma_first_of_key(keys, j)
    } else {
        k
    }
}

/// The index of the entry with this name and version.
fn index_of_entry<H>(entries: &Vec<Arc<ModelEntry<H>>>, name: &str, version: &str) -> (found:
    Option<usize>)
    ensures
        match found {
            Some(i) => i < entries.len() && entries@[i as int].key() == (name@, version@),
            None => forall|i: int|
                0 <= i < entries.len() ==> #[trigger] entries@[i].key() != (name@, version@),
        },
{
    let mut i: usize = 0;
    while i < entries.len()
        invariant
            i <= entries.len(),
            forall|j: int| 0 <= j < i ==> #[trigger] entries@[j].key() != (name@, version@),
        decreases entries.len() - i,
    {
        if text::text_eq(&entries[i].name, name) && text::text_eq(&entries[i].version, version) {
            return Some(i);
        }
        i = i + 1;
    }
    None
}

/// An entry is registered under its name and its version.
pub proof fn lemma_key_of_an_entry<H>(entry: ModelEntry<H>)
    ensures
        entry.key() == (entry.name@, entry.version@),
{
}

/// Of several entries of a list with the same name and version the last one is registered.
pub proof fn lemma_last_entry_is_registered<H>(entries: Seq<Arc<ModelEntry<H>>>, i: int)
    requires
        0 <= i < entries.len(),
        forall|j: int|
            i < j < entries.len() ==> (#[trigger] entries[j]).name@ != entries[i].name@
                || entries[j].version@ != entries[i].version@,
    ensures
        entries_map(entries).contains_key((entries[i].name@, entries[i].version@)),
        entries_map(entries)[(entries[i].name@, entries[i].version@)] == entries[i],
    decreases entries.len(),
{
    let init = entries.drop_last();
    if i < init.len() {
        assert forall|j: int| i < j < init.len() implies (#[trigger] init[j]).name@
            != init[i].name@ || init[j].version@ != init[i].version@ by {
            assert(init[j] == entries[j]);
        }
        lemma_last_entry_is_registered(init, i);
        assert(entries[entries.len() - 1] == entries.last());
    }
}

/// Nothing is registered that is not in the list.
pub proof fn lemma_only_listed_entries_are_registered<H>(
    entries: Seq<Arc<ModelEntry<H>>>,
    name: Seq<char>,
    version: Seq<char>,
)
    ensures
        entries_map(entries).contains_key((name, version)) <==> exists|i: int|
            0 <= i < entries.len() && (#[trigger] entries[i]).name@ == name && entries[i].version@
                == version,
{
    lemma_entries_map_keys(entries, (name, version));
    if exists|i: int|
        0 <= i < entries.len() && (#[trigger] entries[i]).name@ == name && entries[i].version@
            == version {
        let i = choose|i: int|
            0 <= i < entries.len() && (#[trigger] entries[i]).name@ == name && entries[i].version@
                == version;
        assert(entries[i].key() == (name, version));
    }
    if exists|i: int| 0 <= i < entries.len() && #[trigger] entries[i].key() == (name, version) {
        let i = choose|i: int|
            0 <= i < entries.len() && #[trigger] entries[i].key() == (name, version);
        assert(entries[i].name@ == name);
    }
}

/// What a request finds. With a version, the entry of that name and version, if it is registered.
/// Without one, or with an empty one, an entry of that name such that no registered version of
/// the name comes after its own, if any version of the name is registered.
pub proof fn lemma_what_a_request_finds<H>(
    entries: Seq<Arc<ModelEntry<H>>>,
    name: Seq<char>,
    version: Seq<char>,
)
    ensures
        ({
            let map = entries_map(entries);
            let none = resolve(map, name, None);
            &&& version.len() > 0 && map.contains_key((name, version)) ==> resolve(
                map,
                name,
                Some(version),
            ) == Some(map[(name, version)])
            &&& version.len() > 0 && !map.contains_key((name, version)) ==> resolve(
                map,
                name,
                Some(version),
            ) is None
            &&& version.len() == 0 ==> resolve(map, name, Some(version)) == none
            &&& none is Some <==> exists|v: Seq<char>| map.contains_key((name, v))
            &&& none matches Some(entry) ==> {
                &&& entry.name@ == name
                &&& map.contains_key((name, entry.version@))
                &&& map[(name, entry.version@)] == entry
                &&& map.contains_key((name, version)) ==> !text::text_less(entry.version@, version)
            }
        }),
{
    let map = entries_map(entries);
    let none = resolve(map, name, None);
    if exists|v: Seq<char>| map.contains_key((name, v)) {
        let v = choose|v: Seq<char>| map.contains_key((name, v));
        let last = lemma_last_version_exists(entries, name, v);
    }
    if none is Some {
        let last = choose|v: Seq<char>| is_last_version(map, name, v);
        assert(is_last_version(map, name, last));
        lemma_entry_stands_under_its_key(entries, (name, last));
        assert(none->0.key() == (name, last));
    }
}

} // verus!
