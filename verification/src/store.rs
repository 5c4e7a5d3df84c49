//! The server's state: the key/value data, the configuration strings and
//! whether the replica handshake has been acknowledged.

use crate::types::{Value, ValueView};
use vstd::hash_map::StringHashMap;
use vstd::prelude::*;

verus! {

/// The abstract state of a `Store`.
pub struct StoreModel {
    /// The stored values by key.
    pub data: Map<Seq<char>, ValueView>,
    /// The keys of `data`, each once, in the order they were first set.
    pub order: Seq<Seq<char>>,
    /// The configuration strings by name.
    pub config: Map<Seq<char>, Seq<char>>,
    /// Whether the master's first `+OK` has been answered.
    pub handshake_ok: bool,
}

impl StoreModel {
    /// The state after `key` is set to `value`.
    pub open spec fn insert(self, key: Seq<char>, value: ValueView) -> StoreModel {
        StoreModel {
            data: self.data.insert(key, value),
            order: if self.data.contains_key(key) {
                self.order
            } else {
                self.order.push(key)
            },
            config: self.config,
            handshake_ok: self.handshake_ok,
        }
    }

    /// The state after configuration entry `key` is set to `value`.
    pub open spec fn config_insert(self, key: Seq<char>, value: Seq<char>) -> StoreModel {
        StoreModel {
            data: self.data,
            order: self.order,
            config: self.config.insert(key, value),
            handshake_ok: self.handshake_ok,
        }
    }

    /// The state with the handshake flag set.
    pub open spec fn acknowledge(self) -> StoreModel {
        StoreModel {
            data: self.data,
            order: self.order,
            config: self.config,
            handshake_ok: true,
        }
    }

    /// Every key of `data` appears in `order` exactly once, and nothing else does.
    pub open spec fn wf(self) -> bool {
        &&& self.order.no_duplicates()
        &&& forall|k: Seq<char>| #[trigger] self.data.contains_key(k) <==> self.order.contains(k)
    }
}

/// Setting a key keeps the store well formed, makes the key read back the
/// value set, leaves every other key as it was, and lists the key once.
pub proof fn theorem_insert_read_after_write(s: StoreModel, k: Seq<char>, v: ValueView)
    requires
        s.wf(),
    ensures
        s.insert(k, v).wf(),
        s.insert(k, v).data.contains_key(k),
        s.insert(k, v).data[k] == v,
        forall|k2: Seq<char>|
            k2 != k ==> #[trigger] s.insert(k, v).data.contains_key(k2) == s.data.contains_key(k2)
                && (s.data.contains_key(k2) ==> s.insert(k, v).data[k2] == s.data[k2]),
        s.insert(k, v).config == s.config,
{
    let n = s.insert(k, v);
    if !s.data.contains_key(k) {
        assert(n.order.no_duplicates()) by {
            assert forall|i: int, j: int|
                0 <= i < n.order.len() && 0 <= j < n.order.len() && i != j implies n.order[i]
                != n.order[j] by {
                if i == s.order.len() as int {
                    assert(s.order.contains(n.order[j]));
                } else if j == s.order.len() as int {
                    assert(s.order.contains(n.order[i]));
                }
            }
        }
        assert forall|x: Seq<char>| #[trigger] n.data.contains_key(x) <==> n.order.contains(x) by {
            if n.order.contains(x) && x != k {
                let i = choose|i: int| 0 <= i < n.order.len() && n.order[i] == x;
                assert(s.order[i] == x);
            }
            if s.order.contains(x) {
                let i = choose|i: int| 0 <= i < s.order.len() && s.order[i] == x;
                assert(n.order[i] == x);
            }
            if x == k {
                assert(n.order[s.order.len() as int] == x);
            }
        }
    }
}

/// Setting a configuration entry makes it read back the value set and
/// leaves the data, the other entries and well-formedness as they were.
pub proof fn theorem_config_read_after_write(s: StoreModel, k: Seq<char>, v: Seq<char>)
    ensures
        s.config_insert(k, v).config.contains_key(k),
        s.config_insert(k, v).config[k] == v,
        forall|k2: Seq<char>|
            k2 != k ==> #[trigger] s.config_insert(k, v).config.contains_key(k2) == s.config.contains_key(
                k2,
            ) && (s.config.contains_key(k2) ==> s.config_insert(k, v).config[k2] == s.config[k2]),
        s.config_insert(k, v).data == s.data,
        s.config_insert(k, v).order == s.order,
        s.wf() ==> s.config_insert(k, v).wf(),
{
}

/// One write to the store: setting a key or a configuration entry.
pub enum StoreWrite {
    Data(Seq<char>, ValueView),
    Config(Seq<char>, Seq<char>),
}

impl StoreModel {
    /// The state after one write.
    pub open spec fn apply(self, w: StoreWrite) -> StoreModel {
        match w {
            StoreWrite::Data(k, v) => self.insert(k, v),
            StoreWrite::Config(k, v) => self.config_insert(k, v),
        }
    }
}

/// The state after the writes, in order.
pub open spec fn apply_writes(s: StoreModel, ws: Seq<StoreWrite>) -> StoreModel
    decreases ws.len(),
{
    if ws.len() == 0 {
        s
    } else {
        apply_writes(s, ws.drop_last()).apply(ws.last())
    }
}

/// Whether `w` sets the key `k`.
pub open spec fn writes_key(w: StoreWrite, k: Seq<char>) -> bool {
    w matches StoreWrite::Data(k2, _) && k2 == k
}

/// Whether `w` sets the configuration entry `k`.
pub open spec fn writes_config(w: StoreWrite, k: Seq<char>) -> bool {
    w matches StoreWrite::Config(k2, _) && k2 == k
}

/// A key keeps the value it was set to, and a key never set stays absent,
/// across any writes that do not set that key; the store stays well formed.
pub proof fn theorem_read_after_writes(s: StoreModel, k: Seq<char>, ws: Seq<StoreWrite>)
    requires
        forall|i: int| 0 <= i < ws.len() ==> !writes_key(#[trigger] ws[i], k),
    ensures
        apply_writes(s, ws).data.contains_key(k) == s.data.contains_key(k),
        s.data.contains_key(k) ==> apply_writes(s, ws).data[k] == s.data[k],
        s.wf() ==> apply_writes(s, ws).wf(),
    decreases ws.len(),
{
    if ws.len() > 0 {
        let ws0 = ws.drop_last();
        assert forall|i: int| 0 <= i < ws0.len() implies !writes_key(#[trigger] ws0[i], k) by {
            assert(ws0[i] == ws[i]);
        }
        theorem_read_after_writes(s, k, ws0);
        let t = apply_writes(s, ws0);
        assert(!writes_key(ws[ws.len() - 1], k));
        match ws.last() {
            StoreWrite::Data(k2, v) => {
                if t.wf() {
                    theorem_insert_read_after_write(t, k2, v);
                }
            },
            StoreWrite::Config(k2, v) => {},
        }
    }
}

/// A configuration entry keeps the value it was set to, and an entry
/// never set stays absent, across any writes that do not set that entry.
pub proof fn theorem_config_read_after_writes(s: StoreModel, k: Seq<char>, ws: Seq<StoreWrite>)
    requires
        forall|i: int| 0 <= i < ws.len() ==> !writes_config(#[trigger] ws[i], k),
    ensures
        apply_writes(s, ws).config.contains_key(k) == s.config.contains_key(k),
        s.config.contains_key(k) ==> apply_writes(s, ws).config[k] == s.config[k],
    decreases ws.len(),
{
    if ws.len() > 0 {
        let ws0 = ws.drop_last();
        assert forall|i: int| 0 <= i < ws0.len() implies !writes_config(#[trigger] ws0[i], k) by {
            assert(ws0[i] == ws[i]);
        }
        theorem_config_read_after_writes(s, k, ws0);
        assert(!writes_config(ws[ws.len() - 1], k));
    }
}

/// The texts of a sequence of strings.
pub open spec fn string_views(s: Seq<String>) -> Seq<Seq<char>> {
    s.map_values(|x: String| x@)
}

/// The key/value data, the configuration and the handshake flag that the
/// server shares between its connections.
pub struct Store {
    data: StringHashMap<Value>,
    keys: Vec<String>,
    config: StringHashMap<String>,
    handshake_ok: bool,
}

impl View for Store {
    type V = StoreModel;

    closed spec fn view(&self) -> StoreModel {
        StoreModel {
            data: self.data@.map_values(|v: Value| v@),
            order: string_views(self.keys@),
            config: self.config@.map_values(|s: String| s@),
            handshake_ok: self.handshake_ok,
        }
    }
}

impl Store {
    /// The well-formedness of the store: its view satisfies `StoreModel::wf`.
    pub open spec fn wf(&self) -> bool {
        self@.wf()
    }

    /// An empty store with no configuration.
    pub fn new() -> (s: Store)
        ensures
            s.wf(),
            s@.data == Map::<Seq<char>, ValueView>::empty(),
            s@.order == Seq::<Seq<char>>::empty(),
            s@.config == Map::<Seq<char>, Seq<char>>::empty(),
            !s@.handshake_ok,
    {
        let s = Store {
            data: StringHashMap::new(),
            keys: Vec::new(),
            config: StringHashMap::new(),
            handshake_ok: false,
        };
        assert(s@.data =~= Map::<Seq<char>, ValueView>::empty());
        assert(s@.order =~= Seq::<Seq<char>>::empty());
        assert(s@.config =~= Map::<Seq<char>, Seq<char>>::empty());
        s
    }

    /// The keys in the order they were first set.
    pub fn keys(&self) -> (r: Vec<String>)
        ensures
            string_views(r@) == self@.order,
    {
        let mut r: Vec<String> = Vec::new();
        let mut i: usize = 0;
        while i < self.keys.len()
            invariant
                i <= self.keys@.len(),
                string_views(r@) =~= string_views(self.keys@.take(i as int)),
            decreases self.keys@.len() - i,
        {
            let ghost old_r = r@;
            r.push(self.keys[i].clone());
            assert(self.keys@.take(i + 1) =~= self.keys@.take(i as int).push(self.keys@[i as int]));
            assert(string_views(r@) =~= string_views(old_r).push(self.keys@[i as int]@));
            assert(string_views(self.keys@.take(i + 1)) =~= string_views(self.keys@.take(i as int)).push(self.keys@[i as int]@));
            i = i + 1;
        }
        assert(self.keys@.take(i as int) =~= self.keys@);
        r
    }

    /// Whether the configuration has an entry named `key`.
    pub fn config_contains(&self, key: &str) -> (r: bool)
        ensures
            r == self@.config.contains_key(key@),
    {
        self.config.contains_key(key)
    }

    /// Whether the master's first `+OK` has been answered.
    pub fn handshake_ok(&self) -> (r: bool)
        ensures
            r == self@.handshake_ok,
    {
        self.handshake_ok
    }

    /// Records that the master's first `+OK` has been answered.
    pub fn acknowledge(&mut self)
        requires
            old(self).wf(),
        ensures
            final(self).wf(),
            final(self)@ == old(self)@.acknowledge(),
    {
        self.handshake_ok = true;
        assert(self@.data == old(self)@.data);
        assert(self@.order == old(self)@.order);
    }
}

/// Sets `key` to `value`, replacing what it held.
pub fn map_insert(store: &mut Store, key: String, value: Value)
    requires
        old(store).wf(),
    ensures
        final(store).wf(),
        final(store)@ == old(store)@.insert(key@, value@),
{
    let ghost o = store@;
    let present = store.data.contains_key(key.as_str());
    if !present {
        let k = key.clone();
        store.keys.push(k);
        assert(string_views(store.keys@) =~= o.order.push(key@));
    }
    store.data.insert(key, value);
    proof {
        assert(store@.data =~= o.data.insert(key@, value@));
        theorem_insert_read_after_write(o, key@, value@);
        assert(store@ == o.insert(key@, value@));
    }
}

/// The value stored under `key`, if any.
pub fn map_get(store: &Store, key: String) -> (r: Option<Value>)
    ensures
        match r {
            Some(v) => store@.data.contains_key(key@) && v@ == store@.data[key@],
            None => !store@.data.contains_key(key@),
        },
{
    match store.data.get(key.as_str()) {
        Some(v) => Some(v.clone()),
        None => None,
    }
}

/// Sets the configuration entry `key` to `value`.
pub fn map_config_insert(store: &mut Store, key: String, value: String)
    requires
        old(store).wf(),
    ensures
        final(store).wf(),
        final(store)@ == old(store)@.config_insert(key@, value@),
{
    store.config.insert(key, value);
    proof {
        assert(store@.config =~= old(store)@.config.insert(key@, value@));
        assert(store@.data == old(store)@.data);
        assert(store@.order == old(store)@.order);
    }
}

/// The configuration entry `key`, if any.
pub fn map_config_get(store: &Store, key: String) -> (r: Option<String>)
    ensures
        match r {
            Some(v) => store@.config.contains_key(key@) && v@ == store@.config[key@],
            None => !store@.config.contains_key(key@),
        },
{
    match store.config.get(key.as_str()) {
        Some(v) => Some(v.clone()),
        None => None,
    }
}

} // verus!
