//! Launcher settings: the selected client, the default hotel, the installed
//! version of each client and whether launcher updates install themselves.
use vstd::prelude::*;
use crate::clients::ClientId;
use crate::text::opt_view;

verus! {

/// A map from client key to installed version, with each key at most once.
pub struct VersionMap {
    entries: Vec<(String, String)>,
}

impl VersionMap {
    #[verifier::type_invariant]
    spec fn keys_unique(self) -> bool {
        forall|i: int, j: int|
            0 <= i < j < self.entries@.len() ==> #[trigger] self.entries@[i].0@
                != #[trigger] self.entries@[j].0@
    }

    /// The version stored under key `k`, if any.
    pub closed spec fn lookup(self, k: Seq<char>) -> Option<Seq<char>> {
        if exists|i: int| 0 <= i < self.entries@.len() && #[trigger] self.entries@[i].0@ == k {
            let i = choose|i: int| 0 <= i < self.entries@.len() && #[trigger] self.entries@[i].0@ == k;
            Some(self.entries@[i].1@)
        } else {
            None
        }
    }

    /// The number of keys.
    pub closed spec fn size(self) -> nat {
        self.entries@.len()
    }

    /// The key at position `i`, for `0 <= i < size()`.
    pub closed spec fn key_at(self, i: int) -> Seq<char> {
        self.entries@[i].0@
    }

    proof fn lemma_lookup_at(self, i: int)
        requires
            self.keys_unique(),
            0 <= i < self.entries@.len(),
        ensures
            self.lookup(self.entries@[i].0@) == Some(self.entries@[i].1@),
    {
        let k = self.entries@[i].0@;
        assert(0 <= i < self.entries@.len() && self.entries@[i].0@ == k);
        let j = choose|j: int| 0 <= j < self.entries@.len() && #[trigger] self.entries@[j].0@ == k;
        if j < i {
            assert(self.entries@[j].0@ != self.entries@[i].0@);
        } else if i < j {
            assert(self.entries@[i].0@ != self.entries@[j].0@);
        }
    }

    /// An empty map.
    pub fn new() -> (m: Self)
        ensures
            forall|k: Seq<char>| m.lookup(k) is None,
            m.size() == 0,
    {
        VersionMap { entries: Vec::new() }
    }

    /// The version stored under `key`.
    pub fn get(&self, key: &str) -> (r: Option<String>)
        ensures
            opt_view(r) == self.lookup(key@),
    {
        proof {
            use_type_invariant(self);
        }
        let wanted = key.to_owned();
        let mut i: usize = 0;
        while i < self.entries.len()
            invariant
                self.keys_unique(),
                wanted@ == key@,
                i <= self.entries@.len(),
                forall|j: int| 0 <= j < i ==> self.entries@[j].0@ != key@,
            decreases self.entries@.len() - i,
        {
            if self.entries[i].0 == wanted {
                proof {
                    self.lemma_lookup_at(i as int);
                }
                return Some(self.entries[i].1.clone());
            }
            i += 1;
        }
        None
    }

    /// Stores `value` under `key`, replacing what was there.
    pub fn insert(&mut self, key: String, value: String)
        ensures
            final(self).size() == old(self).size() + if old(self).lookup(key@) is Some {
                0nat
            } else {
                1nat
            },
            forall|k: Seq<char>|
                #[trigger] final(self).lookup(k) == if k == key@ {
                    Some(value@)
                } else {
                    old(self).lookup(k)
                },
    {
        proof {
            use_type_invariant(&*self);
        }
        let ghost old_map = *self;
        let mut entries: Vec<(String, String)> = Vec::new();
        std::mem::swap(&mut entries, &mut self.entries);
        assert(entries@ == old_map.entries@);
        let mut i: usize = 0;
        while i < entries.len()
            invariant
                entries@ == old_map.entries@,
                i <= entries@.len(),
                forall|j: int| 0 <= j < i ==> entries@[j].0@ != key@,
            ensures
                entries@ == old_map.entries@,
                i <= entries@.len(),
                forall|j: int| 0 <= j < i ==> entries@[j].0@ != key@,
                i < entries@.len() ==> entries@[i as int].0@ == key@,
            decreases entries@.len() - i,
        {
            if entries[i].0 == key {
                break;
            }
            i += 1;
        }
        let ghost n = entries@.len();
        proof {
            if i < n {
                old_map.lemma_lookup_at(i as int);
            }
        }
        if i < entries.len() {
            entries.set(i, (key, value));
        } else {
            entries.push((key, value));
        }
        let ghost new_entries = entries@;
        assert forall|a: int, b: int| 0 <= a < b < new_entries.len() implies #[trigger] new_entries[a].0@
            != #[trigger] new_entries[b].0@ by {
            if a != i && b != i {
                assert(old_map.entries@[a].0@ != old_map.entries@[b].0@);
            }
        }
        self.entries = entries;
        proof {
            let m = *self;
            assert forall|k: Seq<char>| #[trigger] m.lookup(k) == if k == key@ {
                Some(value@)
            } else {
                old_map.lookup(k)
            } by {
                if k == key@ {
                    m.lemma_lookup_at(i as int);
                } else {
                    if exists|j: int| 0 <= j < m.entries@.len() && #[trigger] m.entries@[j].0@ == k {
                        let j = choose|j: int| 0 <= j < m.entries@.len() && #[trigger] m.entries@[j].0@ == k;
                        m.lemma_lookup_at(j);
                        assert(j != i);
                        old_map.lemma_lookup_at(j);
                    } else {
                        assert forall|j: int| 0 <= j < old_map.entries@.len() implies #[trigger] old_map.entries@[j].0@ != k by {
                            if j != i {
                                assert(m.entries@[j] == old_map.entries@[j]);
                            }
                        }
                    }
                }
            }
        }
    }

    /// The number of keys. The positions `0..len()` hold each stored key
    /// exactly once.
    pub fn len(&self) -> (r: usize)
        ensures
            r == self.size(),
            forall|i: int, j: int|
                0 <= i < j < self.size() ==> #[trigger] self.key_at(i) != #[trigger] self.key_at(j),
            forall|k: Seq<char>|
                #[trigger] self.lookup(k) is Some <==> exists|i: int|
                    0 <= i < self.size() && #[trigger] self.key_at(i) == k,
    {
        proof {
            use_type_invariant(self);
            assert forall|k: Seq<char>|
                #[trigger] self.lookup(k) is Some <==> exists|i: int|
                    0 <= i < self.size() && #[trigger] self.key_at(i) == k by {
                if exists|i: int| 0 <= i < self.size() && #[trigger] self.key_at(i) == k {
                    let i = choose|i: int| 0 <= i < self.size() && #[trigger] self.key_at(i) == k;
                    assert(self.entries@[i].0@ == k);
                }
                if self.lookup(k) is Some {
                    let i = choose|i: int|
                        0 <= i < self.entries@.len() && #[trigger] self.entries@[i].0@ == k;
                    assert(self.key_at(i) == k);
                }
            }
        }
        self.entries.len()
    }

    /// The key at position `i` and the version stored under it.
    pub fn entry(&self, i: usize) -> (r: (String, String))
        requires
            i < self.size(),
        ensures
            r.0@ == self.key_at(i as int),
            self.lookup(r.0@) == Some(r.1@),
    {
        proof {
            use_type_invariant(self);
            self.lemma_lookup_at(i as int);
        }
        (self.entries[i].0.clone(), self.entries[i].1.clone())
    }
}

/// The settings file's contents.
pub struct Settings {
    pub selected: ClientId,
    /// Default hotel host for Classic client urls when no ticket is known yet.
    pub default_hotel_host: String,
    /// Last known installed version per client key.
    pub versions: VersionMap,
    /// Whether launcher updates are downloaded and installed automatically.
    pub auto_download_updates: bool,
}

/// The value a settings file without `autoDownloadUpdates` gets.
pub fn default_true() -> (r: bool)
    ensures
        r,
{
    true
}

/// The key under which a client's version is stored.
pub open spec fn settings_key(id: ClientId) -> Seq<char> {
    match id {
        ClientId::Classic => "classic"@,
        ClientId::AirPlus => "airPlus"@,
        ClientId::AirBobba => "airBobba"@,
    }
}

impl Default for Settings {
    fn default() -> (r: Self)
        ensures
            r.selected == ClientId::AirPlus,
            r.default_hotel_host@ == "www.habbo.com"@,
            forall|k: Seq<char>| r.versions.lookup(k) is None,
            r.auto_download_updates,
    {
        Settings {
            selected: ClientId::AirPlus,
            default_hotel_host: "www.habbo.com".to_owned(),
            versions: VersionMap::new(),
            auto_download_updates: true,
        }
    }
}

impl Settings {
    /// The key under which `id`'s version is stored.
    pub fn key(id: ClientId) -> (r: &'static str)
        ensures
            r@ == settings_key(id),
    {
        match id {
            ClientId::Classic => "classic",
            ClientId::AirPlus => "airPlus",
            ClientId::AirBobba => "airBobba",
        }
    }

    /// The installed version recorded for `id`.
    pub fn version_of(&self, id: ClientId) -> (r: Option<String>)
        ensures
            opt_view(r) == self.versions.lookup(settings_key(id)),
    {
        self.versions.get(Self::key(id))
    }

    /// Records `version` as the installed version of `id`; the versions of
    /// the other clients and all other settings stay as they were.
    pub fn set_version(&mut self, id: ClientId, version: String)
        ensures
            final(self).versions.lookup(settings_key(id)) == Some(version@),
            forall|other: ClientId|
                other != id ==> #[trigger] final(self).versions.lookup(settings_key(other)) == old(
                    self,
                ).versions.lookup(settings_key(other)),
            forall|k: Seq<char>|
                k != settings_key(id) ==> #[trigger] final(self).versions.lookup(k) == old(
                    self,
                ).versions.lookup(k),
            final(self).selected == old(self).selected,
            final(self).default_hotel_host@ == old(self).default_hotel_host@,
            final(self).auto_download_updates == old(self).auto_download_updates,
    {
        proof {
            law_settings_keys_distinct();
        }
        self.versions.insert(Self::key(id).to_owned(), version);
    }
}

impl Settings {
    /// Sets the default hotel host to `host` without surrounding whitespace.
    pub fn set_default_hotel(&mut self, host: &str)
        ensures
            final(self).default_hotel_host@ == crate::text::trim(host@),
            final(self).selected == old(self).selected,
            forall|k: Seq<char>| #[trigger] final(self).versions.lookup(k) == old(self).versions.lookup(k),
            final(self).auto_download_updates == old(self).auto_download_updates,
    {
        self.default_hotel_host = crate::text::trim_str(host);
    }

    /// Records a finished install of `version` of `id`, fetched from the
    /// hotel `host`, which becomes the default hotel.
    pub fn record_install(&mut self, id: ClientId, version: String, host: String)
        ensures
            final(self).versions.lookup(settings_key(id)) == Some(version@),
            forall|k: Seq<char>|
                k != settings_key(id) ==> #[trigger] final(self).versions.lookup(k) == old(
                    self,
                ).versions.lookup(k),
            final(self).default_hotel_host@ == host@,
            final(self).selected == old(self).selected,
            final(self).auto_download_updates == old(self).auto_download_updates,
    {
        self.set_version(id, version);
        self.default_hotel_host = host;
    }
}

/// Law: different clients are stored under different keys, so recording
/// one client's version never touches another's.
pub proof fn law_settings_keys_distinct()
    ensures
        forall|a: ClientId, b: ClientId| a != b ==> settings_key(a) != settings_key(b),
{
    reveal_strlit("classic");
    reveal_strlit("airPlus");
    reveal_strlit("airBobba");
    assert(settings_key(ClientId::Classic)[0] != settings_key(ClientId::AirPlus)[0]);
    assert(settings_key(ClientId::Classic)[0] != settings_key(ClientId::AirBobba)[0]);
    assert(settings_key(ClientId::AirPlus)[3] != settings_key(ClientId::AirBobba)[3]);
}

} // verus!
