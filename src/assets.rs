use vstd::prelude::*;

use crate::types::{AssetIdentifier, AssetKey, Error, PrincipalData, PrincipalKey, Value};

verus! {

/// A ledger entry is addressed by the principal and the asset.
pub type LedgerKey = (PrincipalKey, AssetKey);

pub open spec fn entry_key<T>(e: (PrincipalData, AssetIdentifier, T)) -> LedgerKey {
    (e.0.key(), e.1.key())
}

pub open spec fn keys_unique<T>(s: Seq<(PrincipalData, AssetIdentifier, T)>) -> bool {
    forall|i: int, j: int|
        0 <= i < s.len() && 0 <= j < s.len() && i != j ==> #[trigger] entry_key(s[i])
            != #[trigger] entry_key(s[j])
}

pub open spec fn has_key<T>(s: Seq<(PrincipalData, AssetIdentifier, T)>, k: LedgerKey) -> bool {
    exists|i: int| 0 <= i < s.len() && #[trigger] entry_key(s[i]) == k
}

/// The payload stored under `k`, if any entry has that key.
pub open spec fn lookup<T>(s: Seq<(PrincipalData, AssetIdentifier, T)>, k: LedgerKey) -> Option<T> {
    if has_key(s, k) {
        Some(s[choose|i: int| 0 <= i < s.len() && #[trigger] entry_key(s[i]) == k].2)
    } else {
        None
    }
}

pub proof fn lemma_lookup_at<T>(s: Seq<(PrincipalData, AssetIdentifier, T)>, i: int)
    requires
        keys_unique(s),
        0 <= i < s.len(),
    ensures
        lookup(s, entry_key(s[i])) == Some(s[i].2),
{
    let k = entry_key(s[i]);
    assert(has_key(s, k));
    let j = choose|j: int| 0 <= j < s.len() && #[trigger] entry_key(s[j]) == k;
    assert(i == j);
}

pub proof fn lemma_lookup_update<T>(
    s: Seq<(PrincipalData, AssetIdentifier, T)>,
    i: int,
    e: (PrincipalData, AssetIdentifier, T),
)
    requires
        keys_unique(s),
        0 <= i < s.len(),
        entry_key(e) == entry_key(s[i]),
    ensures
        keys_unique(s.update(i, e)),
        forall|k: LedgerKey|
            #[trigger] lookup(s.update(i, e), k) == if k == entry_key(e) {
                Some(e.2)
            } else {
                lookup(s, k)
            },
{
    let t = s.update(i, e);
    assert forall|a: int, b: int|
        0 <= a < t.len() && 0 <= b < t.len() && a != b implies #[trigger] entry_key(t[a])
        != #[trigger] entry_key(t[b]) by {
        assert(entry_key(t[a]) == entry_key(s[a]));
        assert(entry_key(t[b]) == entry_key(s[b]));
    }
    assert forall|k: LedgerKey|
        #[trigger] lookup(t, k) == if k == entry_key(e) {
            Some(e.2)
        } else {
            lookup(s, k)
        } by {
        if k == entry_key(e) {
            lemma_lookup_at(t, i);
        } else if has_key(s, k) {
            let j = choose|j: int| 0 <= j < s.len() && #[trigger] entry_key(s[j]) == k;
            lemma_lookup_at(s, j);
            lemma_lookup_at(t, j);
        } else {
            assert(!has_key(t, k)) by {
                if has_key(t, k) {
                    let j = choose|j: int| 0 <= j < t.len() && #[trigger] entry_key(t[j]) == k;
                    assert(entry_key(s[j]) == k);
                }
            }
        }
    }
}

pub proof fn lemma_lookup_push<T>(
    s: Seq<(PrincipalData, AssetIdentifier, T)>,
    e: (PrincipalData, AssetIdentifier, T),
)
    requires
        keys_unique(s),
        !has_key(s, entry_key(e)),
    ensures
        keys_unique(s.push(e)),
        forall|k: LedgerKey|
            #[trigger] lookup(s.push(e), k) == if k == entry_key(e) {
                Some(e.2)
            } else {
                lookup(s, k)
            },
{
    let t = s.push(e);
    assert forall|a: int, b: int|
        0 <= a < t.len() && 0 <= b < t.len() && a != b implies #[trigger] entry_key(t[a])
        != #[trigger] entry_key(t[b]) by {
        if a < s.len() && b < s.len() {
            assert(t[a] == s[a] && t[b] == s[b]);
        } else if a < s.len() {
            assert(t[a] == s[a]);
        } else {
            assert(t[b] == s[b]);
        }
    }
    assert forall|k: LedgerKey|
        #[trigger] lookup(t, k) == if k == entry_key(e) {
            Some(e.2)
        } else {
            lookup(s, k)
        } by {
        if k == entry_key(e) {
            lemma_lookup_at(t, s.len() as int);
        } else if has_key(s, k) {
            let j = choose|j: int| 0 <= j < s.len() && #[trigger] entry_key(s[j]) == k;
            lemma_lookup_at(s, j);
            assert(t[j] == s[j]);
            lemma_lookup_at(t, j);
        } else {
            assert(!has_key(t, k)) by {
                if has_key(t, k) {
                    let j = choose|j: int| 0 <= j < t.len() && #[trigger] entry_key(t[j]) == k;
                    assert(j < s.len());
                    assert(t[j] == s[j]);
                }
            }
        }
    }
}

pub open spec fn transfers_of(s: Seq<(PrincipalData, AssetIdentifier, Vec<Value>)>, k: LedgerKey) -> Seq<Value> {
    match lookup(s, k) {
        Some(v) => v@,
        None => Seq::empty(),
    }
}

pub open spec fn amount_of(s: Seq<(PrincipalData, AssetIdentifier, i128)>, k: LedgerKey) -> int {
    match lookup(s, k) {
        Some(v) => v as int,
        None => 0,
    }
}

pub proof fn lemma_prefix_unique<T>(s: Seq<(PrincipalData, AssetIdentifier, T)>, j: int)
    requires
        keys_unique(s),
        0 <= j <= s.len(),
    ensures
        keys_unique(s.subrange(0, j)),
        j < s.len() ==> s.subrange(0, j + 1) == s.subrange(0, j).push(s[j]),
        j < s.len() ==> !has_key(s.subrange(0, j), entry_key(s[j])),
{
    let p = s.subrange(0, j);
    assert forall|a: int, b: int|
        0 <= a < p.len() && 0 <= b < p.len() && a != b implies #[trigger] entry_key(p[a])
        != #[trigger] entry_key(p[b]) by {
        assert(p[a] == s[a] && p[b] == s[b]);
    }
    if j < s.len() {
        assert(s.subrange(0, j + 1) =~= p.push(s[j]));
        if has_key(p, entry_key(s[j])) {
            let i = choose|i: int| 0 <= i < p.len() && #[trigger] entry_key(p[i]) == entry_key(s[j]);
            assert(p[i] == s[i]);
        }
    }
}

/// Under a key, a token table holds an entry exactly when the lookup finds
/// one, and its total is what the entry holds, or zero.
pub proof fn lemma_token_entry(s: Seq<(PrincipalData, AssetIdentifier, i128)>, k: LedgerKey)
    ensures
        has_key(s, k) == (lookup(s, k) is Some),
        amount_of(s, k) == match lookup(s, k) {
            Some(v) => v as int,
            None => 0,
        },
{
}

/// Under a key, a transfer table holds an entry exactly when the lookup
/// finds one, and its transfers are what the entry holds, or none.
pub proof fn lemma_asset_entry(s: Seq<(PrincipalData, AssetIdentifier, Vec<Value>)>, k: LedgerKey)
    ensures
        has_key(s, k) == (lookup(s, k) is Some),
        transfers_of(s, k) == match lookup(s, k) {
            Some(v) => v@,
            None => Seq::<Value>::empty(),
        },
{
}

/// One entry of a ledger snapshot.
#[derive(Debug, PartialEq, Eq)]
pub enum AssetMapEntry {
    Token(i128),
    Asset(Vec<Value>),
}

/// The asset movements of one frame of a transaction: the fungible tokens
/// spent by each principal, and the non-fungible assets it transferred, in
/// the order of transfer.
#[derive(Debug)]
pub struct AssetMap {
    token_map: Vec<(PrincipalData, AssetIdentifier, i128)>,
    asset_map: Vec<(PrincipalData, AssetIdentifier, Vec<Value>)>,
}

pub open spec fn fits_i128(x: int) -> bool {
    i128::MIN <= x <= i128::MAX
}

impl AssetMap {
    pub closed spec fn token_entries(&self) -> Seq<(PrincipalData, AssetIdentifier, i128)> {
        self.token_map@
    }

    pub closed spec fn asset_entries(&self) -> Seq<(PrincipalData, AssetIdentifier, Vec<Value>)> {
        self.asset_map@
    }

    /// Each (principal, asset) pair is recorded at most once in each table.
    pub open spec fn well_formed(&self) -> bool {
        keys_unique(self.token_entries()) && keys_unique(self.asset_entries())
    }

    /// The total of tokens spent under `k`, zero where nothing was recorded.
    pub open spec fn token_amount(&self, k: LedgerKey) -> int {
        amount_of(self.token_entries(), k)
    }

    /// Whether any token transfer was recorded under `k`.
    pub open spec fn has_tokens(&self, k: LedgerKey) -> bool {
        has_key(self.token_entries(), k)
    }

    /// The values transferred under `k`, in the order of transfer.
    pub open spec fn transfers(&self, k: LedgerKey) -> Seq<Value> {
        transfers_of(self.asset_entries(), k)
    }

    pub open spec fn has_transfers(&self, k: LedgerKey) -> bool {
        has_key(self.asset_entries(), k)
    }

    /// Whether adding the totals of `other` to those of `self` overflows for some key.
    pub open spec fn merge_overflows(&self, other: &AssetMap) -> bool {
        exists|k: LedgerKey|
            #[trigger] other.has_tokens(k) && !fits_i128(
                self.token_amount(k) + other.token_amount(k),
            )
    }

    /// `self` holds what `before` held with `other` folded in: totals added,
    /// and under each key the transfers of `other` after those of `before`.
    pub open spec fn is_merge_of(&self, before: &AssetMap, other: &AssetMap) -> bool {
        &&& forall|k: LedgerKey|
            #[trigger] self.token_amount(k) == before.token_amount(k) + other.token_amount(k)
        &&& forall|k: LedgerKey|
            #[trigger] self.has_tokens(k) == (before.has_tokens(k) || other.has_tokens(k))
        &&& forall|k: LedgerKey|
            #[trigger] self.transfers(k) == before.transfers(k) + other.transfers(k)
        &&& forall|k: LedgerKey|
            #[trigger] self.has_transfers(k) == (before.has_transfers(k) || other.has_transfers(k))
    }

    /// `self` is `before` with `amount` more tokens spent under `k0`.
    pub open spec fn is_token_added(&self, before: &AssetMap, k0: LedgerKey, amount: int) -> bool {
        &&& self.asset_entries() == before.asset_entries()
        &&& forall|k: LedgerKey|
            #[trigger] self.token_amount(k) == if k == k0 {
                before.token_amount(k) + amount
            } else {
                before.token_amount(k)
            }
        &&& forall|k: LedgerKey| #[trigger] self.has_tokens(k) == (before.has_tokens(k) || k == k0)
    }

    /// `self` is `before` with one more transfer of `v` under `k0`.
    pub open spec fn is_transfer_added(&self, before: &AssetMap, k0: LedgerKey, v: Value) -> bool {
        &&& self.token_entries() == before.token_entries()
        &&& forall|k: LedgerKey|
            #[trigger] self.transfers(k) == if k == k0 {
                before.transfers(k).push(v)
            } else {
                before.transfers(k)
            }
        &&& forall|k: LedgerKey| #[trigger] self.has_transfers(k) == (before.has_transfers(k) || k == k0)
    }

    pub fn new() -> (r: AssetMap)
        ensures
            r.well_formed(),
            forall|k: LedgerKey| !r.has_tokens(k) && !r.has_transfers(k),
            forall|k: LedgerKey| #[trigger] r.token_amount(k) == 0 && r.transfers(k) == Seq::<Value>::empty(),
    {
        AssetMap { token_map: Vec::new(), asset_map: Vec::new() }
    }

    fn find_token(&self, principal: &PrincipalData, asset: &AssetIdentifier) -> (r: Option<usize>)
        ensures
            match r {
                Some(i) => i < self.token_map@.len() && entry_key(self.token_map@[i as int])
                    == (principal.key(), asset.key()),
                None => !has_key(self.token_map@, (principal.key(), asset.key())),
            },
    {
        let mut i: usize = 0;
        while i < self.token_map.len()
            invariant
                i <= self.token_map@.len(),
                forall|j: int|
                    0 <= j < i ==> #[trigger] entry_key(self.token_map@[j]) != (
                        principal.key(),
                        asset.key(),
                    ),
            decreases self.token_map@.len() - i,
        {
            if self.token_map[i].0.same_as(principal) && self.token_map[i].1.same_as(asset) {
                return Some(i);
            }
            i = i + 1;
        }
        None
    }

    fn find_asset(&self, principal: &PrincipalData, asset: &AssetIdentifier) -> (r: Option<usize>)
        ensures
            match r {
                Some(i) => i < self.asset_map@.len() && entry_key(self.asset_map@[i as int])
                    == (principal.key(), asset.key()),
                None => !has_key(self.asset_map@, (principal.key(), asset.key())),
            },
    {
        let mut i: usize = 0;
        while i < self.asset_map.len()
            invariant
                i <= self.asset_map@.len(),
                forall|j: int|
                    0 <= j < i ==> #[trigger] entry_key(self.asset_map@[j]) != (
                        principal.key(),
                        asset.key(),
                    ),
            decreases self.asset_map@.len() - i,
        {
            if self.asset_map[i].0.same_as(principal) && self.asset_map[i].1.same_as(asset) {
                return Some(i);
            }
            i = i + 1;
        }
        None
    }

    /// The current total under (principal, asset) plus `amount`, or an
    /// overflow error.
    fn get_next_amount(&self, principal: &PrincipalData, asset: &AssetIdentifier, amount: i128)
        -> (r: Result<i128, Error>)
        requires
            self.well_formed(),
        ensures
            match r {
                Ok(v) => v == self.token_amount((principal.key(), asset.key())) + amount,
                Err(e) => e == Error::ArithmeticOverflow && !fits_i128(
                    self.token_amount((principal.key(), asset.key())) + amount,
                ),
            },
    {
        let current: i128 = match self.find_token(principal, asset) {
            Some(i) => {
                proof {
                    lemma_lookup_at(self.token_map@, i as int);
                }
                self.token_map[i].2
            },
            None => 0,
        };
        match current.checked_add(amount) {
            Some(v) => Ok(v),
            None => Err(Error::ArithmeticOverflow),
        }
    }

    /// Stores `amount` as the total under (principal, asset).
    fn set_token(&mut self, principal: &PrincipalData, asset: &AssetIdentifier, amount: i128)
        requires
            old(self).well_formed(),
        ensures
            final(self).well_formed(),
            final(self).asset_map@ == old(self).asset_map@,
            forall|k: LedgerKey|
                #[trigger] lookup(final(self).token_map@, k) == if k == (
                    principal.key(),
                    asset.key(),
                ) {
                    Some(amount)
                } else {
                    lookup(old(self).token_map@, k)
                },
    {
        let e = (principal.duplicate(), asset.duplicate(), amount);
        match self.find_token(principal, asset) {
            Some(i) => {
                proof {
                    lemma_lookup_update(self.token_map@, i as int, e);
                }
                self.token_map.set(i, e);
            },
            None => {
                proof {
                    lemma_lookup_push(self.token_map@, e);
                }
                self.token_map.push(e);
            },
        }
    }

    /// Appends `transfers` to the values transferred under (principal, asset).
    fn append_transfers(
        &mut self,
        principal: &PrincipalData,
        asset: &AssetIdentifier,
        transfers: Vec<Value>,
    )
        requires
            old(self).well_formed(),
        ensures
            final(self).well_formed(),
            final(self).token_map@ == old(self).token_map@,
            forall|k: LedgerKey|
                #[trigger] transfers_of(final(self).asset_map@, k) == if k == (
                    principal.key(),
                    asset.key(),
                ) {
                    transfers_of(old(self).asset_map@, k) + transfers@
                } else {
                    transfers_of(old(self).asset_map@, k)
                },
            forall|k: LedgerKey|
                #[trigger] has_key(final(self).asset_map@, k) == (has_key(old(self).asset_map@, k)
                    || k == (principal.key(), asset.key())),
    {
        match self.find_asset(principal, asset) {
            Some(i) => {
                let ghost before = self.asset_map@;
                let mut transfers = transfers;
                self.asset_map[i].2.append(&mut transfers);
                proof {
                    lemma_lookup_at(before, i as int);
                    lemma_lookup_update(before, i as int, self.asset_map@[i as int]);
                    assert(self.asset_map@ == before.update(i as int, self.asset_map@[i as int]));
                    assert forall|k: LedgerKey| #[trigger] has_key(self.asset_map@, k) == (has_key(before, k)
                        || k == (principal.key(), asset.key())) by {
                        lemma_asset_entry(self.asset_map@, k);
                        if k == (principal.key(), asset.key()) {
                            assert(has_key(before, k));
                        }
                    }
                }
            },
            None => {
                let e = (principal.duplicate(), asset.duplicate(), transfers);
                proof {
                    lemma_lookup_push(self.asset_map@, e);
                }
                self.asset_map.push(e);
                proof {
                    assert forall|k: LedgerKey| k == (principal.key(), asset.key()) implies
                        #[trigger] transfers_of(old(self).asset_map@, k) == Seq::<Value>::empty() by {}
                    assert forall|k: LedgerKey| #[trigger] has_key(self.asset_map@, k) == (has_key(old(self).asset_map@, k)
                        || k == (principal.key(), asset.key())) by {
                        lemma_asset_entry(self.asset_map@, k);
                    }
                }
            },
        }
    }

    /// Records that `principal` transferred the non-fungible `transfered` of `asset`.
    pub fn add_asset_transfer(
        &mut self,
        principal: &PrincipalData,
        asset: AssetIdentifier,
        transfered: Value,
    )
        requires
            old(self).well_formed(),
        ensures
            final(self).well_formed(),
            final(self).is_transfer_added(old(self), (principal.key(), asset.key()), transfered),
    {
        let ghost v = transfered;
        let mut one: Vec<Value> = Vec::new();
        one.push(transfered);
        self.append_transfers(principal, &asset, one);
        proof {
            assert forall|k: LedgerKey| #[trigger] final(self).transfers(k) == if k == (principal.key(), asset.key()) {
                    old(self).transfers(k).push(v)
                } else {
                    old(self).transfers(k)
                } by {
                assert(old(self).transfers(k).push(v) =~= old(self).transfers(k) + seq![v]);
            }
            assert forall|k: LedgerKey| #[trigger] final(self).has_transfers(k) == (old(self).has_transfers(k) || k == (
                    principal.key(),
                    asset.key(),
                )) by {
                lemma_asset_entry(final(self).asset_map@, k);
            }
        }
    }

    /// Adds `amount` to the tokens of `asset` spent by `principal`, failing
    /// with `ArithmeticOverflow` (and changing nothing) where the total would
    /// not fit.
    pub fn add_token_transfer(
        &mut self,
        principal: &PrincipalData,
        asset: AssetIdentifier,
        amount: i128,
    ) -> (r: Result<(), Error>)
        requires
            old(self).well_formed(),
            amount >= 0,
        ensures
            final(self).well_formed(),
            r is Ok <==> fits_i128(old(self).token_amount((principal.key(), asset.key())) + amount),
            r is Err ==> r == Err::<(), Error>(Error::ArithmeticOverflow) && *final(self) == *old(self),
            r is Ok ==> final(self).is_token_added(old(self), (principal.key(), asset.key()), amount as int),
    {
        let next = self.get_next_amount(principal, &asset, amount);
        match next {
            Ok(v) => {
                self.set_token(principal, &asset, v);
                proof {
                    assert forall|k: LedgerKey| #[trigger] final(self).has_tokens(k) == (old(self).has_tokens(k) || k == (
                            principal.key(),
                            asset.key(),
                        )) by {
                        lemma_token_entry(final(self).token_map@, k);
                    }
                    assert forall|k: LedgerKey| #[trigger] final(self).token_amount(k) == if k == (principal.key(), asset.key()) {
                            old(self).token_amount(k) + amount
                        } else {
                            old(self).token_amount(k)
                        } by {
                        lemma_token_entry(final(self).token_map@, k);
                    }
                }
                Ok(())
            },
            Err(e) => Err(e),
        }
    }

    /// Folds `other` into `self`: token totals are added, and the transfers
    /// of `other` follow those of `self` under each key. Where some total
    /// would overflow, nothing changes and `ArithmeticOverflow` is returned.
    pub fn commit_other(&mut self, other: AssetMap) -> (r: Result<(), Error>)
        requires
            old(self).well_formed(),
            other.well_formed(),
        ensures
            final(self).well_formed(),
            r is Err <==> old(self).merge_overflows(&other),
            r is Err ==> r == Err::<(), Error>(Error::ArithmeticOverflow) && *final(self) == *old(self),
            r is Ok ==> final(self).is_merge_of(old(self), &other),
    {
        let AssetMap { token_map: other_tokens, asset_map: mut other_assets } = other;
        let ghost ot = other_tokens@;
        let ghost oa = other_assets@;
        // Every new total is computed before anything is written.
        let mut next: Vec<i128> = Vec::new();
        let mut j: usize = 0;
        while j < other_tokens.len()
            invariant
                self.well_formed(),
                *self == *old(self),
                ot == other_tokens@,
                other.token_entries() == ot,
                keys_unique(ot),
                j <= ot.len(),
                next@.len() == j,
                forall|i: int|
                    0 <= i < j ==> #[trigger] next@[i] == amount_of(self.token_map@, entry_key(ot[i]))
                        + ot[i].2,
            decreases ot.len() - j,
        {
            match self.get_next_amount(&other_tokens[j].0, &other_tokens[j].1, other_tokens[j].2) {
                Ok(v) => next.push(v),
                Err(e) => {
                    proof {
                        lemma_lookup_at(ot, j as int);
                        let k = entry_key(ot[j as int]);
                        assert(other.token_entries() == ot);
                        assert(entry_key(ot[j as int]) == k);
                        assert(other.has_tokens(k));
                        assert(!fits_i128(old(self).token_amount(k) + other.token_amount(k)));
                    }
                    return Err(e);
                },
            }
            j = j + 1;
        }
        proof {
            assert(other.token_entries() == ot);
            assert(other.asset_entries() == oa);
            assert forall|k: LedgerKey| #[trigger] other.has_tokens(k) implies fits_i128(
                old(self).token_amount(k) + other.token_amount(k),
            ) by {
                let i = choose|i: int| 0 <= i < ot.len() && #[trigger] entry_key(ot[i]) == k;
                lemma_lookup_at(ot, i);
                assert(next@[i] == amount_of(self.token_map@, k) + ot[i].2);
            }
        }
        // From here on the merge cannot fail.
        let mut j: usize = 0;
        while j < other_assets.len()
            invariant
                self.well_formed(),
                self.token_map@ == old(self).token_map@,
                keys_unique(oa),
                other_assets@.len() == oa.len(),
                forall|i: int| j <= i < oa.len() ==> #[trigger] other_assets@[i] == oa[i],
                j <= oa.len(),
                forall|k: LedgerKey|
                    #[trigger] transfers_of(self.asset_map@, k) == transfers_of(old(self).asset_map@, k)
                        + transfers_of(oa.subrange(0, j as int), k),
                forall|k: LedgerKey|
                    #[trigger] has_key(self.asset_map@, k) == (has_key(old(self).asset_map@, k)
                        || has_key(oa.subrange(0, j as int), k)),
            decreases oa.len() - j,
        {
            let mut taken: Vec<Value> = Vec::new();
            std::mem::swap(&mut other_assets[j].2, &mut taken);
            let ghost before = self.asset_map@;
            proof {
                lemma_prefix_unique(oa, j as int);
                lemma_lookup_push(oa.subrange(0, j as int), oa[j as int]);
            }
            self.append_transfers(&other_assets[j].0, &other_assets[j].1, taken);
            proof {
                let pre = oa.subrange(0, j as int);
                let post = oa.subrange(0, j as int + 1);
                assert forall|k: LedgerKey|
                    #[trigger] transfers_of(self.asset_map@, k) == transfers_of(old(self).asset_map@, k)
                        + transfers_of(post, k) by {
                    lemma_asset_entry(post, k);
                    if k == entry_key(oa[j as int]) {
                        assert(transfers_of(pre, k) =~= Seq::<Value>::empty());
                        assert(transfers_of(old(self).asset_map@, k) + transfers_of(pre, k)
                            =~= transfers_of(old(self).asset_map@, k));
                    } else {
                        assert(transfers_of(self.asset_map@, k) == transfers_of(before, k));
                    }
                }
                assert forall|k: LedgerKey|
                    #[trigger] has_key(self.asset_map@, k) == (has_key(old(self).asset_map@, k)
                        || has_key(post, k)) by {
                    lemma_asset_entry(post, k);
                    lemma_asset_entry(before, k);
                }
            }
            j = j + 1;
        }
        proof {
            assert(oa.subrange(0, oa.len() as int) =~= oa);
        }
        let mut j: usize = 0;
        while j < other_tokens.len()
            invariant
                self.well_formed(),
                ot == other_tokens@,
                keys_unique(ot),
                j <= ot.len(),
                next@.len() == ot.len(),
                forall|i: int|
                    0 <= i < ot.len() ==> #[trigger] next@[i] == amount_of(old(self).token_map@, entry_key(ot[i]))
                        + ot[i].2,
                forall|k: LedgerKey|
                    #[trigger] transfers_of(self.asset_map@, k) == transfers_of(old(self).asset_map@, k)
                        + transfers_of(oa, k),
                forall|k: LedgerKey|
                    #[trigger] has_key(self.asset_map@, k) == (has_key(old(self).asset_map@, k) || has_key(oa, k)),
                forall|k: LedgerKey|
                    #[trigger] amount_of(self.token_map@, k) == amount_of(old(self).token_map@, k)
                        + amount_of(ot.subrange(0, j as int), k),
                forall|k: LedgerKey|
                    #[trigger] has_key(self.token_map@, k) == (has_key(old(self).token_map@, k)
                        || has_key(ot.subrange(0, j as int), k)),
            decreases ot.len() - j,
        {
            proof {
                lemma_prefix_unique(ot, j as int);
                lemma_lookup_push(ot.subrange(0, j as int), ot[j as int]);
            }
            let ghost before = self.token_map@;
            self.set_token(&other_tokens[j].0, &other_tokens[j].1, next[j]);
            proof {
                let pre = ot.subrange(0, j as int);
                let post = ot.subrange(0, j as int + 1);
                assert forall|k: LedgerKey|
                    #[trigger] amount_of(self.token_map@, k) == amount_of(old(self).token_map@, k)
                        + amount_of(post, k) by {
                    lemma_token_entry(post, k);
                    lemma_token_entry(self.token_map@, k);
                    assert(amount_of(before, k) == amount_of(old(self).token_map@, k)
                        + amount_of(pre, k));
                    lemma_token_entry(pre, k);
                }
                assert forall|k: LedgerKey|
                    #[trigger] has_key(self.token_map@, k) == (has_key(old(self).token_map@, k)
                        || has_key(post, k)) by {
                    lemma_token_entry(post, k);
                    lemma_token_entry(self.token_map@, k);
                    lemma_token_entry(before, k);
                }
            }
            j = j + 1;
        }
        proof {
            assert(ot.subrange(0, ot.len() as int) =~= ot);
        }
        Ok(())
    }

    /// The ledger as one list: an entry per key with a token total, then an
    /// entry per key with transfers.
    pub fn to_table(self) -> (r: Vec<(PrincipalData, AssetIdentifier, AssetMapEntry)>)
        requires
            self.well_formed(),
        ensures
            forall|i: int|
                0 <= i < r@.len() ==> match (#[trigger] r@[i]).2 {
                    AssetMapEntry::Token(v) => self.has_tokens(entry_key(r@[i])) && v
                        == self.token_amount(entry_key(r@[i])),
                    AssetMapEntry::Asset(v) => self.has_transfers(entry_key(r@[i])) && v@
                        == self.transfers(entry_key(r@[i])),
                },
            forall|k: LedgerKey|
                #[trigger] self.has_tokens(k) ==> exists|i: int|
                    0 <= i < r@.len() && #[trigger] entry_key(r@[i]) == k && r@[i].2 is Token,
            forall|k: LedgerKey|
                #[trigger] self.has_transfers(k) ==> exists|i: int|
                    0 <= i < r@.len() && #[trigger] entry_key(r@[i]) == k && r@[i].2 is Asset,
    {
        let ghost tm = self.token_map@;
        let ghost am = self.asset_map@;
        let AssetMap { token_map, asset_map } = self;
        let mut asset_map = asset_map;
        let mut out: Vec<(PrincipalData, AssetIdentifier, AssetMapEntry)> = Vec::new();
        let mut i: usize = 0;
        while i < token_map.len()
            invariant
                tm == token_map@,
                i <= tm.len(),
                out@.len() == i,
                forall|j: int|
                    0 <= j < i ==> #[trigger] out@[j] == (tm[j].0, tm[j].1, AssetMapEntry::Token(tm[j].2)),
            decreases tm.len() - i,
        {
            out.push(
                (
                    token_map[i].0.duplicate(),
                    token_map[i].1.duplicate(),
                    AssetMapEntry::Token(token_map[i].2),
                ),
            );
            i = i + 1;
        }
        let nt = out.len();
        let mut i: usize = 0;
        while i < asset_map.len()
            invariant
                nt == tm.len(),
                asset_map@.len() == am.len(),
                forall|j: int| i <= j < am.len() ==> #[trigger] asset_map@[j] == am[j],
                i <= am.len(),
                out@.len() == nt + i,
                forall|j: int|
                    0 <= j < nt ==> #[trigger] out@[j] == (tm[j].0, tm[j].1, AssetMapEntry::Token(tm[j].2)),
                forall|j: int|
                    0 <= j < i ==> #[trigger] out@[nt + j] == (am[j].0, am[j].1, AssetMapEntry::Asset(am[j].2)),
            decreases am.len() - i,
        {
            let mut taken: Vec<Value> = Vec::new();
            std::mem::swap(&mut asset_map[i].2, &mut taken);
            out.push((asset_map[i].0.duplicate(), asset_map[i].1.duplicate(), AssetMapEntry::Asset(taken)));
            proof {
                assert(out@[nt + i as int] == (am[i as int].0, am[i as int].1, AssetMapEntry::Asset(am[i as int].2)));
            }
            i = i + 1;
        }
        proof {
            assert forall|i: int|
                0 <= i < out@.len() implies match (#[trigger] out@[i]).2 {
                    AssetMapEntry::Token(v) => self.has_tokens(entry_key(out@[i])) && v
                        == self.token_amount(entry_key(out@[i])),
                    AssetMapEntry::Asset(v) => self.has_transfers(entry_key(out@[i])) && v@
                        == self.transfers(entry_key(out@[i])),
                } by {
                if i < nt {
                    lemma_lookup_at(tm, i);
                    assert(entry_key(out@[i]) == entry_key(tm[i]));
                } else {
                    let j = i - nt;
                    assert(out@[nt + j] == (am[j].0, am[j].1, AssetMapEntry::Asset(am[j].2)));
                    lemma_lookup_at(am, j);
                    assert(entry_key(out@[i]) == entry_key(am[j]));
                }
            }
            assert forall|k: LedgerKey| #[trigger] self.has_tokens(k) implies exists|i: int|
                0 <= i < out@.len() && #[trigger] entry_key(out@[i]) == k && out@[i].2 is Token by {
                let j = choose|j: int| 0 <= j < tm.len() && #[trigger] entry_key(tm[j]) == k;
                assert(entry_key(out@[j]) == k);
            }
            assert forall|k: LedgerKey| #[trigger] self.has_transfers(k) implies exists|i: int|
                0 <= i < out@.len() && #[trigger] entry_key(out@[i]) == k && out@[i].2 is Asset by {
                let j = choose|j: int| 0 <= j < am.len() && #[trigger] entry_key(am[j]) == k;
                assert(out@[nt + j] == (am[j].0, am[j].1, AssetMapEntry::Asset(am[j].2)));
                assert(entry_key(out@[nt + j]) == k);
            }
        }
        out
    }
}

} // verus!
