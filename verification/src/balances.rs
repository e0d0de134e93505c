//! Users' balances by asset: a map from user to a map from asset to an
//! available and a locked amount, kept as lists of entries whose keys are
//! all distinct.

use vstd::prelude::*;

verus! {

/// What a user holds of one asset: the amount free to use and the amount
/// locked by open orders, in the asset's smallest unit.
#[derive(Clone, Copy, Debug, PartialEq, Eq, Structural)]
pub struct UserBalances {
    pub available: i64,
    pub locked: i64,
}

/// A user's balances, keyed by asset.
pub type AssetMap = Map<Seq<char>, UserBalances>;

/// All users' balances, keyed by user and then by asset.
pub type BalanceMap = Map<Seq<char>, AssetMap>;

/// Whether no two entries of `s` share a key.
pub open spec fn keys_unique<V>(s: Seq<(String, V)>) -> bool {
    forall|i: int, j: int|
        0 <= i < s.len() && 0 <= j < s.len() && i != j ==> (#[trigger] s[i]).0@ != (#[trigger] s[j]).0@
}

/// Whether some entry of `s` has the key `k`.
pub open spec fn has_key<V>(s: Seq<(String, V)>, k: Seq<char>) -> bool {
    exists|i: int| 0 <= i < s.len() && (#[trigger] s[i]).0@ == k
}

/// The position of an entry of `s` with the key `k`.
pub open spec fn key_index<V>(s: Seq<(String, V)>, k: Seq<char>) -> int {
    choose|i: int| 0 <= i < s.len() && (#[trigger] s[i]).0@ == k
}

/// The map that a list of (asset, balances) entries stands for.
pub open spec fn asset_map_of(s: Seq<(String, UserBalances)>) -> AssetMap {
    Map::new(|k: Seq<char>| has_key(s, k), |k: Seq<char>| s[key_index(s, k)].1)
}

proof fn lemma_key_index<V>(s: Seq<(String, V)>, i: int)
    requires
        keys_unique(s),
        0 <= i < s.len(),
    ensures
        has_key(s, s[i].0@),
        key_index(s, s[i].0@) == i,
{
    assert(has_key(s, s[i].0@));
    let j = key_index(s, s[i].0@);
    assert(s[j].0@ == s[i].0@);
}

proof fn lemma_update_keys<V>(s: Seq<(String, V)>, i: int, v: V)
    requires
        keys_unique(s),
        0 <= i < s.len(),
    ensures
        keys_unique(s.update(i, (s[i].0, v))),
        forall|k: Seq<char>| #[trigger] has_key(s.update(i, (s[i].0, v)), k) == has_key(s, k),
        forall|k: Seq<char>| has_key(s, k) ==> #[trigger] key_index(s.update(i, (s[i].0, v)), k) == key_index(s, k),
{
    let t = s.update(i, (s[i].0, v));
    assert forall|a: int, b: int|
        0 <= a < t.len() && 0 <= b < t.len() && a != b implies (#[trigger] t[a]).0@ != (#[trigger] t[b]).0@ by {
        assert(t[a].0 == s[a].0 && t[b].0 == s[b].0);
    }
    assert forall|k: Seq<char>| #[trigger] has_key(t, k) == has_key(s, k) by {
        if has_key(s, k) {
            let j = choose|j: int| 0 <= j < s.len() && (#[trigger] s[j]).0@ == k;
            assert(t[j].0@ == k);
        }
        if has_key(t, k) {
            let j = choose|j: int| 0 <= j < t.len() && (#[trigger] t[j]).0@ == k;
            assert(s[j].0@ == k);
        }
    }
    assert forall|k: Seq<char>| has_key(s, k) implies #[trigger] key_index(t, k) == key_index(s, k) by {
        let j = key_index(s, k);
        let jt = key_index(t, k);
        assert(has_key(t, k));
        assert(t[jt].0@ == k);
        assert(s[jt].0@ == k);
    }
}

proof fn lemma_push_keys<V>(s: Seq<(String, V)>, key: String, v: V)
    requires
        keys_unique(s),
        !has_key(s, key@),
    ensures
        keys_unique(s.push((key, v))),
        forall|k: Seq<char>| #[trigger] has_key(s.push((key, v)), k) == (has_key(s, k) || k == key@),
        forall|k: Seq<char>| has_key(s, k) ==> #[trigger] key_index(s.push((key, v)), k) == key_index(s, k),
        key_index(s.push((key, v)), key@) == s.len(),
{
    let t = s.push((key, v));
    assert forall|a: int, b: int|
        0 <= a < t.len() && 0 <= b < t.len() && a != b implies (#[trigger] t[a]).0@ != (#[trigger] t[b]).0@ by {
        if a < s.len() && b < s.len() {
            assert(t[a] == s[a] && t[b] == s[b]);
        } else if a < s.len() {
            assert(t[a] == s[a]);
            assert(s[a].0@ != key@);
        } else {
            assert(t[b] == s[b]);
            assert(s[b].0@ != key@);
        }
    }
    assert forall|k: Seq<char>| #[trigger] has_key(t, k) == (has_key(s, k) || k == key@) by {
        if has_key(s, k) {
            let j = choose|j: int| 0 <= j < s.len() && (#[trigger] s[j]).0@ == k;
            assert(t[j].0@ == k);
        }
        if k == key@ {
            assert(t[s.len() as int].0@ == k);
        }
        if has_key(t, k) && k != key@ {
            let j = choose|j: int| 0 <= j < t.len() && (#[trigger] t[j]).0@ == k;
            assert(j < s.len());
            assert(s[j].0@ == k);
        }
    }
    assert forall|k: Seq<char>| has_key(s, k) implies #[trigger] key_index(t, k) == key_index(s, k) by {
        let j = key_index(s, k);
        assert(t[j].0@ == k);
        lemma_key_index(t, j);
    }
    assert(t[s.len() as int].0@ == key@);
    lemma_key_index(t, s.len() as int);
}

/// The position of the entry with key `key`, if there is one.
fn find_key<V>(entries: &Vec<(String, V)>, key: &String) -> (r: Option<usize>)
    requires
        keys_unique(entries@),
    ensures
        match r {
            Some(i) => i < entries@.len() && entries@[i as int].0@ == key@ && key_index(entries@, key@) == i,
            None => !has_key(entries@, key@),
        },
{
    let n = entries.len();
    let mut i: usize = 0;
    while i < n
        invariant
            n == entries@.len(),
            i <= n,
            keys_unique(entries@),
            forall|j: int| 0 <= j < i ==> (#[trigger] entries@[j]).0@ != key@,
        decreases n - i,
    {
        if entries[i].0 == *key {
            proof {
                lemma_key_index(entries@, i as int);
            }
            return Some(i);
        }
        i = i + 1;
    }
    None
}

/// Sets the value of `key` in a list of entries, adding an entry where
/// there is none.
fn set_entry<V>(entries: &mut Vec<(String, V)>, key: String, v: V)
    requires
        keys_unique(old(entries)@),
    ensures
        keys_unique(final(entries)@),
        forall|k: Seq<char>| #[trigger] has_key(final(entries)@, k) == (has_key(old(entries)@, k) || k == key@),
        final(entries)@[key_index(final(entries)@, key@)].1 == v,
        forall|k: Seq<char>| has_key(old(entries)@, k) && k != key@ ==>
            final(entries)@[key_index(final(entries)@, k)].1 == old(entries)@[key_index(old(entries)@, k)].1,
{
    let ghost s = entries@;
    match find_key(entries, &key) {
        Some(i) => {
            proof {
                lemma_update_keys(s, i as int, v);
            }
            let k = entries[i].0.clone();
            entries.set(i, (k, v));
            proof {
                let t = s.update(i as int, (s[i as int].0, v));
                assert(entries@ == t);
                lemma_key_index(t, i as int);
                assert forall|kk: Seq<char>| has_key(s, kk) && kk != key@ implies
                    t[key_index(t, kk)].1 == s[key_index(s, kk)].1 by {
                    assert(key_index(t, kk) == key_index(s, kk));
                    assert(s[key_index(s, kk)].0@ == kk);
                }
            }
        },
        None => {
            proof {
                lemma_push_keys(s, key, v);
            }
            entries.push((key, v));
            proof {
                let t = entries@;
                assert forall|kk: Seq<char>| has_key(s, kk) && kk != key@ implies
                    t[key_index(t, kk)].1 == s[key_index(s, kk)].1 by {
                    assert(key_index(t, kk) == key_index(s, kk));
                    let j = key_index(s, kk);
                    assert(s[j].0@ == kk);
                    assert(t[j] == s[j]);
                }
            }
        },
    }
}

fn copy_asset_entries(v: &Vec<(String, UserBalances)>) -> (r: Vec<(String, UserBalances)>)
    ensures
        r@ == v@,
{
    let n = v.len();
    let mut r: Vec<(String, UserBalances)> = Vec::new();
    let mut i: usize = 0;
    while i < n
        invariant
            n == v@.len(),
            i <= n,
            r@ == v@.take(i as int),
        decreases n - i,
    {
        r.push((v[i].0.clone(), v[i].1));
        assert(r@ =~= v@.take(i + 1));
        i = i + 1;
    }
    assert(v@.take(n as int) =~= v@);
    r
}

/// One user's balances, keyed by asset.
pub struct AssetBalances {
    entries: Vec<(String, UserBalances)>,
}

impl View for AssetBalances {
    type V = AssetMap;

    closed spec fn view(&self) -> AssetMap {
        asset_map_of(self.entries@)
    }
}

impl AssetBalances {
    #[verifier::type_invariant]
    closed spec fn inv(&self) -> bool {
        keys_unique(self.entries@)
    }

    /// No balances.
    pub fn new() -> (r: AssetBalances)
        ensures
            r@ == AssetMap::empty(),
    {
        let r = AssetBalances { entries: Vec::new() };
        assert(r@ =~= AssetMap::empty());
        r
    }

    /// The balances of `asset`, if the user holds an entry for it.
    pub fn get(&self, asset: &String) -> (r: Option<UserBalances>)
        ensures
            r == (if self@.contains_key(asset@) { Some(self@[asset@]) } else { None }),
    {
        proof { use_type_invariant(self); }
        match find_key(&self.entries, asset) {
            Some(i) => Some(self.entries[i].1),
            None => None,
        }
    }

    /// Sets the balances of `asset`, adding an entry for it where there is none.
    pub fn insert(&mut self, asset: String, b: UserBalances)
        ensures
            final(self)@ == old(self)@.insert(asset@, b),
    {
        proof { use_type_invariant(&*self); }
        let ghost s = self.entries@;
        let mut entries: Vec<(String, UserBalances)> = Vec::new();
        std::mem::swap(&mut entries, &mut self.entries);
        set_entry(&mut entries, asset, b);
        self.entries = entries;
    }

    /// The entries, one per asset.
    pub fn entries(&self) -> (r: Vec<(String, UserBalances)>)
        ensures
            keys_unique(r@),
            asset_map_of(r@) == self@,
    {
        proof { use_type_invariant(self); }
        copy_asset_entries(&self.entries)
    }

    /// A copy of these balances.
    pub fn duplicate(&self) -> (r: AssetBalances)
        ensures
            r@ == self@,
    {
        proof { use_type_invariant(self); }
        AssetBalances { entries: copy_asset_entries(&self.entries) }
    }
}

/// The map that a list of (user, balances) entries stands for.
pub open spec fn user_map_of(s: Seq<(String, AssetBalances)>) -> BalanceMap {
    Map::new(|k: Seq<char>| has_key(s, k), |k: Seq<char>| s[key_index(s, k)].1@)
}

/// Every user's balances, keyed by user.
pub struct Balances {
    entries: Vec<(String, AssetBalances)>,
}

impl View for Balances {
    type V = BalanceMap;

    closed spec fn view(&self) -> BalanceMap {
        user_map_of(self.entries@)
    }
}

/// The balances of `asset` held by `user` in `m`, if there are any.
pub open spec fn balance_of(m: BalanceMap, user: Seq<char>, asset: Seq<char>) -> Option<UserBalances> {
    if m.contains_key(user) && m[user].contains_key(asset) {
        Some(m[user][asset])
    } else {
        None
    }
}

/// `m` with the balances of `asset` held by `user` set to `b`, adding the
/// user and the asset where they are missing.
pub open spec fn set_balance_spec(m: BalanceMap, user: Seq<char>, asset: Seq<char>, b: UserBalances) -> BalanceMap {
    let assets = if m.contains_key(user) { m[user] } else { AssetMap::empty() };
    m.insert(user, assets.insert(asset, b))
}

impl Balances {
    #[verifier::type_invariant]
    closed spec fn inv(&self) -> bool {
        keys_unique(self.entries@)
    }

    /// No users.
    pub fn new() -> (r: Balances)
        ensures
            r@ == BalanceMap::empty(),
    {
        let r = Balances { entries: Vec::new() };
        assert(r@ =~= BalanceMap::empty());
        r
    }

    /// The balances of `user`, if there is an entry for them.
    pub fn get_user(&self, user: &String) -> (r: Option<&AssetBalances>)
        ensures
            match r {
                Some(a) => self@.contains_key(user@) && a@ == self@[user@],
                None => !self@.contains_key(user@),
            },
    {
        proof { use_type_invariant(self); }
        match find_key(&self.entries, user) {
            Some(i) => Some(&self.entries[i].1),
            None => None,
        }
    }

    /// The balances of `asset` held by `user`, if there are any.
    pub fn get_balance(&self, user: &String, asset: &String) -> (r: Option<UserBalances>)
        ensures
            r == balance_of(self@, user@, asset@),
    {
        match self.get_user(user) {
            Some(a) => a.get(asset),
            None => None,
        }
    }

    /// Sets all balances of `user`, replacing any that they had.
    pub fn insert_user(&mut self, user: String, assets: AssetBalances)
        ensures
            final(self)@ == old(self)@.insert(user@, assets@),
    {
        proof { use_type_invariant(&*self); }
        let ghost s = self.entries@;
        let ghost av = assets@;
        let mut entries: Vec<(String, AssetBalances)> = Vec::new();
        std::mem::swap(&mut entries, &mut self.entries);
        set_entry(&mut entries, user, assets);
        proof {
            assert(user_map_of(entries@) =~= user_map_of(s).insert(user@, av));
        }
        self.entries = entries;
    }

    /// Sets the balances of `asset` held by `user`, adding the user and the
    /// asset where they are missing.
    pub fn set_balance(&mut self, user: &String, asset: &String, b: UserBalances)
        ensures
            final(self)@ == set_balance_spec(old(self)@, user@, asset@, b),
    {
        let mut assets = match self.get_user(user) {
            Some(a) => a.duplicate(),
            None => AssetBalances::new(),
        };
        assets.insert(asset.clone(), b);
        self.insert_user(user.clone(), assets);
    }

    /// A copy of these balances.
    pub fn duplicate(&self) -> (r: Balances)
        ensures
            r@ == self@,
    {
        Balances { entries: self.entries() }
    }

    /// The entries, one per user, each copied.
    pub fn entries(&self) -> (r: Vec<(String, AssetBalances)>)
        ensures
            keys_unique(r@),
            user_map_of(r@) == self@,
    {
        proof { use_type_invariant(self); }
        let n = self.entries.len();
        let mut r: Vec<(String, AssetBalances)> = Vec::new();
        let mut i: usize = 0;
        while i < n
            invariant
                n == self.entries@.len(),
                i <= n,
                keys_unique(self.entries@),
                r@.len() == i,
                forall|j: int| 0 <= j < i ==> (#[trigger] r@[j]).0 == self.entries@[j].0 && r@[j].1@ == self.entries@[j].1@,
            decreases n - i,
        {
            let k = self.entries[i].0.clone();
            let a = self.entries[i].1.duplicate();
            r.push((k, a));
            i = i + 1;
        }
        proof {
            let s = self.entries@;
            assert forall|a: int, b: int| 0 <= a < r@.len() && 0 <= b < r@.len() && a != b implies
                (#[trigger] r@[a]).0@ != (#[trigger] r@[b]).0@ by {
                assert(s[a].0@ != s[b].0@);
            }
            assert forall|k: Seq<char>| #[trigger] has_key(r@, k) == has_key(s, k) by {
                if has_key(s, k) {
                    let j = choose|j: int| 0 <= j < s.len() && (#[trigger] s[j]).0@ == k;
                    assert(r@[j].0@ == k);
                }
                if has_key(r@, k) {
                    let j = choose|j: int| 0 <= j < r@.len() && (#[trigger] r@[j]).0@ == k;
                    assert(s[j].0@ == k);
                }
            }
            assert forall|k: Seq<char>| has_key(s, k) implies r@[key_index(r@, k)].1@ == s[key_index(s, k)].1@ by {
                let j = key_index(s, k);
                assert(s[j].0@ == k);
                lemma_key_index(s, j);
                assert(r@[j].0@ == k);
                lemma_key_index(r@, j);
            }
            assert(user_map_of(r@) =~= user_map_of(s));
        }
        r
    }
}

} // verus!
