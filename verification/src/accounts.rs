//! The account writes buffered for one slot: a map from account key to the
//! latest payload, held as a list that is always ascending by key.

use vstd::prelude::*;
use crate::key_order::{key_less, key_lt, lemma_key_lt_asymmetric, lemma_key_lt_irreflexive,
    lemma_key_lt_total, lemma_key_lt_transitive};
use crate::records::{account_views, Account, AccountView};

verus! {

/// Every entry's key sorts strictly before the keys of all later entries.
pub open spec fn keys_ascending(s: Seq<AccountView>) -> bool {
    forall|i: int, j: int|
        #![trigger s[i], s[j]]
        0 <= i < j < s.len() ==> key_lt(s[i].address, s[j].address)
}

/// Some entry of `s` has the key `key`.
pub open spec fn listing_holds(s: Seq<AccountView>, key: Seq<u8>) -> bool {
    exists|i: int| 0 <= i < s.len() && #[trigger] s[i].address == key
}

/// The position of an entry of `s` with the key `key`.
pub open spec fn listing_index(s: Seq<AccountView>, key: Seq<u8>) -> int {
    choose|i: int| 0 <= i < s.len() && #[trigger] s[i].address == key
}

/// The map that a list of entries stands for: each key to its entry's data.
pub open spec fn listing_map(s: Seq<AccountView>) -> Map<Seq<u8>, Seq<u8>> {
    Map::new(
        |key: Seq<u8>| listing_holds(s, key),
        |key: Seq<u8>| s[listing_index(s, key)].data,
    )
}

/// `s` lists exactly the entries of `m`, ascending by key.
pub open spec fn is_sorted_listing(s: Seq<AccountView>, m: Map<Seq<u8>, Seq<u8>>) -> bool {
    keys_ascending(s) && listing_map(s) == m
}

/// The entries of `m` in ascending key order.
pub open spec fn sorted_listing(m: Map<Seq<u8>, Seq<u8>>) -> Seq<AccountView> {
    choose|s: Seq<AccountView>| is_sorted_listing(s, m)
}

/// In an ascending list no key occurs twice.
pub proof fn lemma_ascending_keys_distinct(s: Seq<AccountView>, i: int, j: int)
    requires
        keys_ascending(s),
        0 <= i < s.len(),
        0 <= j < s.len(),
        s[i].address == s[j].address,
    ensures
        i == j,
{
    if i < j {
        lemma_key_lt_irreflexive(s[i].address);
    } else if j < i {
        lemma_key_lt_irreflexive(s[j].address);
    }
}

/// The map of an ascending list sends each entry's key to that entry's data.
pub proof fn lemma_listing_entry(s: Seq<AccountView>, i: int)
    requires
        keys_ascending(s),
        0 <= i < s.len(),
    ensures
        listing_map(s).contains_key(s[i].address),
        listing_map(s)[s[i].address] == s[i].data,
{
    let key = s[i].address;
    assert(listing_holds(s, key));
    lemma_ascending_keys_distinct(s, i, listing_index(s, key));
}

/// An ascending list is as long as its map has keys, and the map is finite.
pub proof fn lemma_listing_len(s: Seq<AccountView>)
    requires
        keys_ascending(s),
    ensures
        listing_map(s).dom().finite(),
        listing_map(s).dom().len() == s.len(),
    decreases s.len(),
{
    if s.len() == 0 {
        assert(listing_map(s).dom() =~= Set::<Seq<u8>>::empty());
    } else {
        let front = s.drop_last();
        let last = s.last();
        assert forall|i: int, j: int|
            #![trigger front[i], front[j]]
            0 <= i < j < front.len() implies key_lt(front[i].address, front[j].address) by {
            assert(front[i] == s[i] && front[j] == s[j]);
        }
        lemma_listing_len(front);
        assert(!listing_holds(front, last.address)) by {
            if listing_holds(front, last.address) {
                let i = listing_index(front, last.address);
                assert(front[i] == s[i]);
                lemma_ascending_keys_distinct(s, i, s.len() - 1);
            }
        }
        assert(listing_map(s).dom() =~= listing_map(front).dom().insert(last.address)) by {
            assert forall|key: Seq<u8>| listing_holds(s, key) <==> (listing_holds(front, key)
                || key == last.address) by {
                if listing_holds(s, key) {
                    let i = listing_index(s, key);
                    if i < front.len() {
                        assert(front[i].address == key);
                    }
                }
                if listing_holds(front, key) {
                    let i = listing_index(front, key);
                    assert(s[i].address == key);
                }
                if key == last.address {
                    assert(s[s.len() - 1].address == key);
                }
            }
        }
    }
}

/// Two ascending lists that stand for the same map are the same list: the
/// order of the entries is fixed by the map alone.
pub proof fn lemma_sorted_listing_unique(a: Seq<AccountView>, b: Seq<AccountView>)
    requires
        keys_ascending(a),
        keys_ascending(b),
        listing_map(a) == listing_map(b),
    ensures
        a == b,
{
    lemma_listing_len(a);
    lemma_listing_len(b);
    assert(a.len() == b.len());
    assert forall|i: int| 0 <= i < a.len() implies a[i] == b[i] by {
        lemma_same_position(a, b, i);
    }
    assert(a =~= b);
}

/// How many entries of an ascending list sort strictly before `key`.
spec fn rank(s: Seq<AccountView>, key: Seq<u8>) -> int
    decreases s.len(),
{
    if s.len() == 0 {
        0
    } else if key_lt(s.last().address, key) {
        s.len() as int
    } else {
        rank(s.drop_last(), key)
    }
}

proof fn lemma_drop_last_ascending(s: Seq<AccountView>)
    requires
        keys_ascending(s),
        s.len() > 0,
    ensures
        keys_ascending(s.drop_last()),
{
    let front = s.drop_last();
    assert forall|i: int, j: int|
        #![trigger front[i], front[j]]
        0 <= i < j < front.len() implies key_lt(front[i].address, front[j].address) by {
        assert(front[i] == s[i] && front[j] == s[j]);
    }
}

/// In an ascending list the entry at position `i` has exactly `i` entries
/// before it, and those are the entries with smaller keys.
proof fn lemma_rank_of_entry(s: Seq<AccountView>, i: int)
    requires
        keys_ascending(s),
        0 <= i < s.len(),
    ensures
        rank(s, s[i].address) == i,
    decreases s.len(),
{
    let key = s[i].address;
    if i == s.len() - 1 {
        lemma_key_lt_irreflexive(key);
        if i > 0 {
            lemma_drop_last_ascending(s);
            let front = s.drop_last();
            assert(front.last() == s[i - 1]);
            assert(key_lt(s[i - 1].address, s[i].address));
            assert(rank(front, key) == front.len());
        } else {
            assert(rank(s.drop_last(), key) == 0);
        }
    } else {
        assert(key_lt(s[i].address, s[s.len() - 1].address));
        lemma_key_lt_asymmetric(s[i].address, s.last().address);
        lemma_drop_last_ascending(s);
        assert(s.drop_last()[i] == s[i]);
        lemma_rank_of_entry(s.drop_last(), i);
    }
}

/// The rank of a key counts the keys of the map that sort before it, so it is
/// the same in any two ascending lists of one map.
proof fn lemma_rank_by_map(a: Seq<AccountView>, b: Seq<AccountView>, key: Seq<u8>)
    requires
        keys_ascending(a),
        keys_ascending(b),
        listing_map(a) == listing_map(b),
    ensures
        rank(a, key) == rank(b, key),
{
    lemma_rank_is_count(a, key);
    lemma_rank_is_count(b, key);
}

/// The keys of `m` that sort strictly before `key`.
spec fn keys_below(m: Map<Seq<u8>, Seq<u8>>, key: Seq<u8>) -> Set<Seq<u8>> {
    m.dom().filter(|k: Seq<u8>| key_lt(k, key))
}

proof fn lemma_rank_is_count(s: Seq<AccountView>, key: Seq<u8>)
    requires
        keys_ascending(s),
    ensures
        keys_below(listing_map(s), key).finite(),
        rank(s, key) == keys_below(listing_map(s), key).len(),
    decreases s.len(),
{
    lemma_listing_len(s);
    let below = keys_below(listing_map(s), key);
    if s.len() == 0 {
        assert(below =~= Set::<Seq<u8>>::empty());
    } else {
        let front = s.drop_last();
        let last = s.last();
        lemma_drop_last_ascending(s);
        lemma_listing_len(front);
        if key_lt(last.address, key) {
            assert(below =~= listing_map(s).dom()) by {
                assert forall|k: Seq<u8>| listing_map(s).dom().contains(k) implies key_lt(
                    k,
                    key,
                ) by {
                    let i = listing_index(s, k);
                    if i < s.len() - 1 {
                        assert(key_lt(s[i].address, s[s.len() - 1].address));
                        lemma_key_lt_transitive(k, last.address, key);
                    }
                }
            }
        } else {
            lemma_rank_is_count(front, key);
            assert(below =~= keys_below(listing_map(front), key)) by {
                assert forall|k: Seq<u8>| below.contains(k) <==> keys_below(
                    listing_map(front),
                    key,
                ).contains(k) by {
                    if below.contains(k) {
                        let i = listing_index(s, k);
                        assert(i < s.len() - 1);
                        assert(front[i].address == k);
                    }
                    if keys_below(listing_map(front), key).contains(k) {
                        let i = listing_index(front, k);
                        assert(s[i].address == k);
                    }
                }
            }
        }
    }
}

proof fn lemma_same_position(a: Seq<AccountView>, b: Seq<AccountView>, i: int)
    requires
        keys_ascending(a),
        keys_ascending(b),
        listing_map(a) == listing_map(b),
        a.len() == b.len(),
        0 <= i < a.len(),
    ensures
        a[i] == b[i],
{
    let key = a[i].address;
    lemma_listing_entry(a, i);
    assert(listing_holds(b, key));
    let j = listing_index(b, key);
    lemma_listing_entry(b, j);
    lemma_rank_of_entry(a, i);
    lemma_rank_of_entry(b, j);
    lemma_rank_by_map(a, b, key);
    assert(i == j);
    assert(a[i].data == b[i].data);
}

/// A list is the ascending listing of `m` as soon as every entry is found in `m`
/// and every key of `m` is found in the list.
proof fn lemma_listing_map_is(s: Seq<AccountView>, m: Map<Seq<u8>, Seq<u8>>)
    requires
        keys_ascending(s),
        forall|i: int|
            0 <= i < s.len() ==> m.contains_key(#[trigger] s[i].address) && m[s[i].address]
                == s[i].data,
        forall|key: Seq<u8>| #[trigger] m.contains_key(key) ==> listing_holds(s, key),
    ensures
        listing_map(s) == m,
{
    assert forall|key: Seq<u8>| listing_map(s).contains_key(key) implies m.contains_key(key)
        && listing_map(s)[key] == m[key] by {
        let i = listing_index(s, key);
        assert(m.contains_key(s[i].address));
    }
    assert(listing_map(s) =~= m);
}

/// Putting a new key at its place in an ascending list adds it to the map.
proof fn lemma_listing_insert(s: Seq<AccountView>, p: int, e: AccountView)
    requires
        keys_ascending(s),
        0 <= p <= s.len(),
        forall|i: int| 0 <= i < p ==> key_lt(#[trigger] s[i].address, e.address),
        forall|i: int| p <= i < s.len() ==> key_lt(e.address, #[trigger] s[i].address),
    ensures
        keys_ascending(s.insert(p, e)),
        listing_map(s.insert(p, e)) == listing_map(s).insert(e.address, e.data),
{
    let t = s.insert(p, e);
    let m = listing_map(s).insert(e.address, e.data);
    assert forall|i: int, j: int|
        #![trigger t[i], t[j]]
        0 <= i < j < t.len() implies key_lt(t[i].address, t[j].address) by {
        if j < p {
            assert(t[i] == s[i] && t[j] == s[j]);
        } else if j == p {
            assert(t[i] == s[i]);
        } else if i < p {
            assert(t[i] == s[i] && t[j] == s[j - 1]);
            if i < j - 1 {
            } else {
                lemma_key_lt_transitive(s[i].address, e.address, s[j - 1].address);
            }
        } else if i == p {
            assert(t[j] == s[j - 1]);
        } else {
            assert(t[i] == s[i - 1] && t[j] == s[j - 1]);
        }
    }
    assert forall|i: int| 0 <= i < t.len() implies m.contains_key(#[trigger] t[i].address)
        && m[t[i].address] == t[i].data by {
        if i < p {
            assert(t[i] == s[i]);
            lemma_listing_entry(s, i);
            lemma_key_lt_irreflexive(e.address);
        } else if i > p {
            assert(t[i] == s[i - 1]);
            lemma_listing_entry(s, i - 1);
            lemma_key_lt_irreflexive(e.address);
        }
    }
    assert forall|key: Seq<u8>| #[trigger] m.contains_key(key) implies listing_holds(t, key) by {
        if key == e.address {
            assert(t[p].address == key);
        } else {
            let i = listing_index(s, key);
            if i < p {
                assert(t[i].address == key);
            } else {
                assert(t[i + 1].address == key);
            }
        }
    }
    lemma_listing_map_is(t, m);
}

/// Replacing the entry of a key that is already listed overwrites its data.
proof fn lemma_listing_update(s: Seq<AccountView>, p: int, e: AccountView)
    requires
        keys_ascending(s),
        0 <= p < s.len(),
        s[p].address == e.address,
    ensures
        keys_ascending(s.update(p, e)),
        listing_map(s.update(p, e)) == listing_map(s).insert(e.address, e.data),
{
    let t = s.update(p, e);
    let m = listing_map(s).insert(e.address, e.data);
    assert forall|i: int, j: int|
        #![trigger t[i], t[j]]
        0 <= i < j < t.len() implies key_lt(t[i].address, t[j].address) by {
        assert(t[i].address == s[i].address && t[j].address == s[j].address);
    }
    assert forall|i: int| 0 <= i < t.len() implies m.contains_key(#[trigger] t[i].address)
        && m[t[i].address] == t[i].data by {
        if i != p {
            assert(t[i] == s[i]);
            lemma_listing_entry(s, i);
            if s[i].address == e.address {
                lemma_ascending_keys_distinct(s, i, p);
            }
        }
    }
    assert forall|key: Seq<u8>| #[trigger] m.contains_key(key) implies listing_holds(t, key) by {
        if key == e.address {
            assert(t[p].address == key);
        } else {
            let i = listing_index(s, key);
            assert(t[i].address == key);
        }
    }
    lemma_listing_map_is(t, m);
}

/// The account writes of one slot. Writing a key again replaces what was
/// written before; nothing else is ever dropped.
#[derive(Debug)]
pub struct AccountChanges {
    entries: Vec<Account>,
}

impl View for AccountChanges {
    type V = Map<Seq<u8>, Seq<u8>>;

    /// The logical map: each written key to the data last written to it.
    closed spec fn view(&self) -> Map<Seq<u8>, Seq<u8>> {
        listing_map(account_views(self.entries@))
    }
}

impl AccountChanges {
    /// The entries are held ascending by key, so no key is held twice.
    #[verifier::type_invariant]
    pub closed spec fn wf(&self) -> bool {
        keys_ascending(account_views(self.entries@))
    }

    /// The entries in the order they are held.
    pub closed spec fn listing(&self) -> Seq<AccountView> {
        account_views(self.entries@)
    }

    /// What is held is the one ascending listing of the logical map.
    pub proof fn lemma_listing(&self)
        requires
            self.wf(),
        ensures
            is_sorted_listing(self.listing(), self@),
            self.listing() == sorted_listing(self@),
            self@.dom().finite(),
            self@.len() == self.listing().len(),
    {
        let s = self.listing();
        let t = sorted_listing(self@);
        assert(is_sorted_listing(s, self@));
        lemma_sorted_listing_unique(s, t);
        lemma_listing_len(s);
    }

    /// No writes yet.
    pub fn new() -> (changes: Self)
        ensures
            changes@ == Map::<Seq<u8>, Seq<u8>>::empty(),
    {
        let changes = AccountChanges { entries: Vec::new() };
        assert(changes@ =~= Map::<Seq<u8>, Seq<u8>>::empty());
        changes
    }

    /// The number of accounts written.
    pub fn len(&self) -> (n: usize)
        ensures
            n == self@.len(),
    {
        proof {
            use_type_invariant(self);
            self.lemma_listing();
        }
        self.entries.len()
    }

    /// Whether no account was written.
    pub fn is_empty(&self) -> (empty: bool)
        ensures
            empty == (self@.len() == 0),
    {
        proof {
            use_type_invariant(self);
            self.lemma_listing();
        }
        self.entries.len() == 0
    }

    /// The first position whose key does not sort before `key`.
    fn lower_bound(&self, key: &Vec<u8>) -> (p: usize)
        ensures
            p <= self.listing().len(),
            forall|i: int| 0 <= i < p ==> key_lt(#[trigger] self.listing()[i].address, key@),
            forall|i: int|
                p <= i < self.listing().len() ==> !key_lt(
                    #[trigger] self.listing()[i].address,
                    key@,
                ),
    {
        proof {
            use_type_invariant(self);
        }
        let ghost s = self.listing();
        let mut lo: usize = 0;
        let mut hi: usize = self.entries.len();
        while lo < hi
            invariant
                keys_ascending(s),
                s == self.listing(),
                lo <= hi <= s.len(),
                s.len() == self.entries.len(),
                forall|i: int| 0 <= i < lo ==> key_lt(#[trigger] s[i].address, key@),
                forall|i: int| hi <= i < s.len() ==> !key_lt(#[trigger] s[i].address, key@),
            decreases hi - lo,
        {
            let mid = lo + (hi - lo) / 2;
            assert(s[mid as int].address == self.entries[mid as int].address@);
            if key_less(&self.entries[mid].address, key) {
                assert forall|i: int| 0 <= i < mid + 1 implies key_lt(
                    #[trigger] s[i].address,
                    key@,
                ) by {
                    if i < mid {
                        assert(key_lt(s[i].address, s[mid as int].address));
                        lemma_key_lt_transitive(s[i].address, s[mid as int].address, key@);
                    }
                }
                lo = mid + 1;
            } else {
                assert forall|i: int| mid <= i < s.len() implies !key_lt(
                    #[trigger] s[i].address,
                    key@,
                ) by {
                    if mid < i && key_lt(s[i].address, key@) {
                        assert(key_lt(s[mid as int].address, s[i].address));
                        lemma_key_lt_transitive(s[mid as int].address, s[i].address, key@);
                    }
                }
                hi = mid;
            }
        }
        lo
    }

    /// The data last written to `key`, if it was written at all.
    pub fn get(&self, key: &Vec<u8>) -> (data: Option<&Vec<u8>>)
        ensures
            match data {
                Some(d) => self@.contains_key(key@) && d@ == self@[key@],
                None => !self@.contains_key(key@),
            },
    {
        proof {
            use_type_invariant(self);
        }
        let ghost s = self.listing();
        let p = self.lower_bound(key);
        if p < self.entries.len() && !key_less(key, &self.entries[p].address) {
            proof {
                assert(s[p as int].address == self.entries[p as int].address@);
                lemma_key_lt_total(key@, s[p as int].address);
                lemma_listing_entry(s, p as int);
            }
            Some(&self.entries[p].data)
        } else {
            proof {
                if listing_holds(s, key@) {
                    let i = listing_index(s, key@);
                    lemma_key_lt_irreflexive(key@);
                    if i >= p {
                        assert(p < s.len());
                        assert(s[p as int].address == self.entries[p as int].address@);
                        if i > p {
                            assert(key_lt(s[p as int].address, s[i].address));
                        }
                    }
                }
            }
            None
        }
    }

    /// Writes `data` to `key`: the last write to a key wins, and no other key
    /// is touched.
    pub fn insert(&mut self, key: Vec<u8>, data: Vec<u8>)
        ensures
            final(self)@ == old(self)@.insert(key@, data@),
    {
        proof {
            use_type_invariant(&*self);
        }
        let ghost s = self.listing();
        let ghost e = AccountView { address: key@, data: data@ };
        let p = self.lower_bound(&key);
        let account = Account { address: key, data };
        let replaces = p < self.entries.len() && !key_less(
            &account.address,
            &self.entries[p].address,
        );
        proof {
            if replaces {
                assert(s[p as int].address == self.entries[p as int].address@);
                lemma_key_lt_total(e.address, s[p as int].address);
                lemma_listing_update(s, p as int, e);
                assert(account_views(self.entries@.update(p as int, account)) =~= s.update(
                    p as int,
                    e,
                ));
            } else {
                assert forall|i: int| p <= i < s.len() implies key_lt(
                    e.address,
                    #[trigger] s[i].address,
                ) by {
                    assert(s[p as int].address == self.entries[p as int].address@);
                    if i > p {
                        assert(key_lt(s[p as int].address, s[i].address));
                        lemma_key_lt_transitive(e.address, s[p as int].address, s[i].address);
                    }
                }
                lemma_listing_insert(s, p as int, e);
                assert(account_views(self.entries@.insert(p as int, account)) =~= s.insert(
                    p as int,
                    e,
                ));
            }
        }
        // The list leaves `self` while it is changed, and comes back in order.
        let mut entries: Vec<Account> = Vec::new();
        core::mem::swap(&mut self.entries, &mut entries);
        if replaces {
            entries.set(p, account);
        } else {
            entries.insert(p, account);
        }
        self.entries = entries;
    }

    /// Every account written, ascending by key.
    pub fn accounts(&self) -> (list: Vec<Account>)
        ensures
            account_views(list@) == sorted_listing(self@),
            is_sorted_listing(account_views(list@), self@),
    {
        let mut list: Vec<Account> = Vec::new();
        let mut i: usize = 0;
        while i < self.entries.len()
            invariant
                i <= self.entries.len(),
                list.len() == i,
                forall|j: int| 0 <= j < i ==> list@[j]@ == self.entries@[j]@,
            decreases self.entries.len() - i,
        {
            list.push(self.entries[i].clone());
            i += 1;
        }
        proof {
            use_type_invariant(self);
            assert(account_views(list@) =~= self.listing());
            self.lemma_listing();
        }
        list
    }
}

/// The logical map after the writes `writes` have been applied to `m`, the
/// first write first.
pub open spec fn written(m: Map<Seq<u8>, Seq<u8>>, writes: Seq<AccountView>) -> Map<
    Seq<u8>,
    Seq<u8>,
>
    decreases writes.len(),
{
    if writes.len() == 0 {
        m
    } else {
        written(m, writes.drop_last()).insert(writes.last().address, writes.last().data)
    }
}

/// No two of the writes go to the same key.
pub open spec fn keys_distinct(writes: Seq<AccountView>) -> bool {
    forall|i: int, j: int|
        #![trigger writes[i], writes[j]]
        0 <= i < j < writes.len() ==> writes[i].address != writes[j].address
}

/// After writes to distinct keys, a key holds what was written to it, or else
/// what it held before.
proof fn lemma_written_holds(m: Map<Seq<u8>, Seq<u8>>, writes: Seq<AccountView>, key: Seq<u8>)
    requires
        keys_distinct(writes),
    ensures
        written(m, writes).contains_key(key) <==> m.contains_key(key) || listing_holds(writes, key),
        forall|i: int|
            0 <= i < writes.len() && #[trigger] writes[i].address == key ==> written(m, writes)[key]
                == writes[i].data,
        !listing_holds(writes, key) && m.contains_key(key) ==> written(m, writes)[key] == m[key],
    decreases writes.len(),
{
    if writes.len() > 0 {
        let earlier = writes.drop_last();
        assert forall|i: int, j: int|
            #![trigger earlier[i], earlier[j]]
            0 <= i < j < earlier.len() implies earlier[i].address != earlier[j].address by {
            assert(earlier[i] == writes[i] && earlier[j] == writes[j]);
        }
        lemma_written_holds(m, earlier, key);
        if listing_holds(earlier, key) {
            let i = listing_index(earlier, key);
            assert(writes[i].address == key);
        }
        if listing_holds(writes, key) {
            let i = listing_index(writes, key);
            if i < earlier.len() {
                assert(earlier[i].address == key);
            }
        }
        assert forall|i: int|
            0 <= i < writes.len() && #[trigger] writes[i].address == key implies written(
            m,
            writes,
        )[key] == writes[i].data by {
            if i < earlier.len() {
                assert(earlier[i] == writes[i]);
                assert(writes[i].address != writes[writes.len() - 1].address);
            }
        }
    }
}

proof fn lemma_same_writes_same_key(
    m: Map<Seq<u8>, Seq<u8>>,
    a: Seq<AccountView>,
    b: Seq<AccountView>,
    key: Seq<u8>,
)
    requires
        keys_distinct(a),
        keys_distinct(b),
        a.to_set() == b.to_set(),
    ensures
        written(m, a).contains_key(key) == written(m, b).contains_key(key),
        written(m, a).contains_key(key) ==> written(m, a)[key] == written(m, b)[key],
{
    lemma_written_holds(m, a, key);
    lemma_written_holds(m, b, key);
    if listing_holds(a, key) {
        let i = listing_index(a, key);
        assert(a.to_set().contains(a[i]));
        assert(b.contains(a[i]));
        let j = choose|j: int| 0 <= j < b.len() && b[j] == a[i];
        assert(b[j].address == key);
    }
    if listing_holds(b, key) {
        let j = listing_index(b, key);
        assert(b.to_set().contains(b[j]));
        assert(a.contains(b[j]));
        let i = choose|i: int| 0 <= i < a.len() && a[i] == b[j];
        assert(a[i].address == key);
    }
}

/// Writes to distinct keys may arrive in any order: two runs of the same
/// writes, however arranged, leave the same logical map, and so the same
/// ascending listing.
pub proof fn lemma_write_order_is_immaterial(
    m: Map<Seq<u8>, Seq<u8>>,
    a: Seq<AccountView>,
    b: Seq<AccountView>,
)
    requires
        keys_distinct(a),
        keys_distinct(b),
        a.to_set() == b.to_set(),
    ensures
        written(m, a) == written(m, b),
        sorted_listing(written(m, a)) == sorted_listing(written(m, b)),
{
    let wa = written(m, a);
    let wb = written(m, b);
    assert forall|key: Seq<u8>| #[trigger] wa.dom().contains(key) == wb.dom().contains(key) by {
        lemma_same_writes_same_key(m, a, b, key);
    }
    assert forall|key: Seq<u8>| wa.dom().contains(key) implies #[trigger] wa[key] == wb[key] by {
        lemma_same_writes_same_key(m, a, b, key);
    }
    assert(written(m, a) =~= written(m, b));
}

} // verus!
