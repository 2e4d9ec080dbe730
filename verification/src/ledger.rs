//! The multi-asset ledger: per-(asset, account) balances and per-asset total
//! issuance, with atomic deposit, withdraw and transfer built on checked
//! 256-bit arithmetic. The central law is conservation: for every asset the
//! recorded issuance equals the sum of all recorded balances, and every
//! committed operation preserves it. A zero balance is a valid, present
//! entry, not an absence.

use vstd::prelude::*;
use vstd::pervasive::VecAdditionalExecFns;
use crate::types::{AccountId, AssetId, LedgerError};
use crate::uint256::{max_val, Uint256};

verus! {

/// One balance record: the holding of one account in one asset class.
#[derive(Clone, Copy, PartialEq, Eq, Structural, Debug)]
pub struct BalanceEntry {
    pub asset: AssetId,
    pub account: AccountId,
    pub amount: Uint256,
}

/// One issuance record: the recorded total supply of one asset class.
#[derive(Clone, Copy, PartialEq, Eq, Structural, Debug)]
pub struct IssuanceEntry {
    pub asset: AssetId,
    pub amount: Uint256,
}

/// What one balance record contributes to an asset's total.
pub open spec fn balance_contrib(e: BalanceEntry, asset: AssetId) -> nat {
    if e.asset == asset {
        e.amount.val()
    } else {
        0
    }
}

/// The sum of all recorded balances of one asset class.
pub open spec fn asset_sum(s: Seq<BalanceEntry>, asset: AssetId) -> nat
    decreases s.len(),
{
    if s.len() == 0 {
        0
    } else {
        balance_contrib(s.first(), asset) + asset_sum(s.drop_first(), asset)
    }
}

/// The balance recorded for one (asset, account) key: the first matching
/// record, or zero where none exists.
pub open spec fn balance_in(s: Seq<BalanceEntry>, asset: AssetId, account: AccountId) -> nat
    decreases s.len(),
{
    if s.len() == 0 {
        0
    } else if s.first().asset == asset && s.first().account == account {
        s.first().amount.val()
    } else {
        balance_in(s.drop_first(), asset, account)
    }
}

/// Whether some record carries the (asset, account) key.
pub open spec fn has_balance_key(s: Seq<BalanceEntry>, asset: AssetId, account: AccountId) -> bool
    decreases s.len(),
{
    if s.len() == 0 {
        false
    } else if s.first().asset == asset && s.first().account == account {
        true
    } else {
        has_balance_key(s.drop_first(), asset, account)
    }
}

/// The issuance recorded for one asset: the first matching record, or zero.
pub open spec fn issuance_in(s: Seq<IssuanceEntry>, asset: AssetId) -> nat
    decreases s.len(),
{
    if s.len() == 0 {
        0
    } else if s.first().asset == asset {
        s.first().amount.val()
    } else {
        issuance_in(s.drop_first(), asset)
    }
}

/// Whether some record carries the asset key.
pub open spec fn has_issuance_key(s: Seq<IssuanceEntry>, asset: AssetId) -> bool
    decreases s.len(),
{
    if s.len() == 0 {
        false
    } else if s.first().asset == asset {
        true
    } else {
        has_issuance_key(s.drop_first(), asset)
    }
}

proof fn lemma_balance_first_match(s: Seq<BalanceEntry>, asset: AssetId, account: AccountId, i: int)
    requires
        0 <= i < s.len(),
        s[i].asset == asset,
        s[i].account == account,
        forall|k: int| 0 <= k < i ==> !(s[k].asset == asset && s[k].account == account),
    ensures
        has_balance_key(s, asset, account),
        balance_in(s, asset, account) == s[i].amount.val(),
    decreases s.len(),
{
    if i == 0 {
    } else {
        lemma_balance_first_match(s.drop_first(), asset, account, i - 1);
    }
}

proof fn lemma_balance_no_match(s: Seq<BalanceEntry>, asset: AssetId, account: AccountId)
    requires
        forall|k: int| 0 <= k < s.len() ==> !(s[k].asset == asset && s[k].account == account),
    ensures
        !has_balance_key(s, asset, account),
        balance_in(s, asset, account) == 0,
    decreases s.len(),
{
    if s.len() == 0 {
    } else {
        lemma_balance_no_match(s.drop_first(), asset, account);
    }
}

proof fn lemma_balance_in_update(
    s: Seq<BalanceEntry>,
    i: int,
    e: BalanceEntry,
    a2: AssetId,
    c2: AccountId,
)
    requires
        0 <= i < s.len(),
        s[i].asset == e.asset,
        s[i].account == e.account,
        !(a2 == e.asset && c2 == e.account),
    ensures
        balance_in(s.update(i, e), a2, c2) == balance_in(s, a2, c2),
    decreases s.len(),
{
    let t = s.update(i, e);
    if i == 0 {
        assert(t.drop_first() =~= s.drop_first());
    } else {
        assert(t.first() == s.first());
        if s.first().asset == a2 && s.first().account == c2 {
        } else {
            assert(t.drop_first() =~= s.drop_first().update(i - 1, e));
            lemma_balance_in_update(s.drop_first(), i - 1, e, a2, c2);
        }
    }
}

proof fn lemma_balance_in_update_at_first(s: Seq<BalanceEntry>, i: int, e: BalanceEntry)
    requires
        0 <= i < s.len(),
        s[i].asset == e.asset,
        s[i].account == e.account,
        forall|k: int| 0 <= k < i ==> !(s[k].asset == e.asset && s[k].account == e.account),
    ensures
        balance_in(s.update(i, e), e.asset, e.account) == e.amount.val(),
    decreases s.len(),
{
    let t = s.update(i, e);
    if i == 0 {
        assert(t.first() == e);
    } else {
        assert(t.first() == s.first());
        assert(t.drop_first() =~= s.drop_first().update(i - 1, e));
        lemma_balance_in_update_at_first(s.drop_first(), i - 1, e);
    }
}

proof fn lemma_balance_in_push(s: Seq<BalanceEntry>, e: BalanceEntry, a2: AssetId, c2: AccountId)
    ensures
        !has_balance_key(s, e.asset, e.account) ==> balance_in(s.push(e), e.asset, e.account)
            == e.amount.val(),
        (!(a2 == e.asset && c2 == e.account) || has_balance_key(s, a2, c2)) ==> balance_in(
            s.push(e),
            a2,
            c2,
        ) == balance_in(s, a2, c2),
    decreases s.len(),
{
    let t = s.push(e);
    if s.len() == 0 {
        assert(t.first() == e);
        assert(t.drop_first() =~= Seq::<BalanceEntry>::empty());
        assert(balance_in(t.drop_first(), a2, c2) == 0);
        assert(balance_in(s, a2, c2) == 0);
    } else {
        assert(t.first() == s.first());
        assert(t.drop_first() =~= s.drop_first().push(e));
        lemma_balance_in_push(s.drop_first(), e, a2, c2);
        if s.first().asset == a2 && s.first().account == c2 {
            assert(balance_in(t, a2, c2) == t.first().amount.val());
            assert(balance_in(s, a2, c2) == s.first().amount.val());
        } else {
            assert(balance_in(t, a2, c2) == balance_in(t.drop_first(), a2, c2));
            assert(balance_in(s, a2, c2) == balance_in(s.drop_first(), a2, c2));
        }
    }
}

proof fn lemma_asset_sum_update(s: Seq<BalanceEntry>, i: int, e: BalanceEntry, asset: AssetId)
    requires
        0 <= i < s.len(),
    ensures
        asset_sum(s.update(i, e), asset) + balance_contrib(s[i], asset) == asset_sum(s, asset)
            + balance_contrib(e, asset),
    decreases s.len(),
{
    let t = s.update(i, e);
    if i == 0 {
        assert(t.first() == e);
        assert(t.drop_first() =~= s.drop_first());
    } else {
        assert(t.first() == s.first());
        assert(t.drop_first() =~= s.drop_first().update(i - 1, e));
        lemma_asset_sum_update(s.drop_first(), i - 1, e, asset);
    }
}

proof fn lemma_asset_sum_push(s: Seq<BalanceEntry>, e: BalanceEntry, asset: AssetId)
    ensures
        asset_sum(s.push(e), asset) == asset_sum(s, asset) + balance_contrib(e, asset),
    decreases s.len(),
{
    let t = s.push(e);
    if s.len() == 0 {
        assert(t.first() == e);
        assert(t.drop_first() =~= Seq::<BalanceEntry>::empty());
        assert(t.len() == 1);
        assert(asset_sum(t.drop_first(), asset) == 0);
        assert(asset_sum(t, asset) == balance_contrib(e, asset) + asset_sum(t.drop_first(), asset));
        assert(asset_sum(s, asset) == 0);
    } else {
        assert(t.first() == s.first());
        assert(t.drop_first() =~= s.drop_first().push(e));
        lemma_asset_sum_push(s.drop_first(), e, asset);
        assert(asset_sum(t, asset) == balance_contrib(s.first(), asset) + asset_sum(
            t.drop_first(),
            asset,
        ));
        assert(asset_sum(s, asset) == balance_contrib(s.first(), asset) + asset_sum(
            s.drop_first(),
            asset,
        ));
    }
}

proof fn lemma_issuance_first_match(s: Seq<IssuanceEntry>, asset: AssetId, i: int)
    requires
        0 <= i < s.len(),
        s[i].asset == asset,
        forall|k: int| 0 <= k < i ==> s[k].asset != asset,
    ensures
        has_issuance_key(s, asset),
        issuance_in(s, asset) == s[i].amount.val(),
    decreases s.len(),
{
    if i == 0 {
    } else {
        lemma_issuance_first_match(s.drop_first(), asset, i - 1);
    }
}

proof fn lemma_issuance_no_match(s: Seq<IssuanceEntry>, asset: AssetId)
    requires
        forall|k: int| 0 <= k < s.len() ==> s[k].asset != asset,
    ensures
        !has_issuance_key(s, asset),
        issuance_in(s, asset) == 0,
    decreases s.len(),
{
    if s.len() == 0 {
    } else {
        lemma_issuance_no_match(s.drop_first(), asset);
    }
}

proof fn lemma_issuance_in_update(s: Seq<IssuanceEntry>, i: int, e: IssuanceEntry, a2: AssetId)
    requires
        0 <= i < s.len(),
        s[i].asset == e.asset,
        a2 != e.asset,
    ensures
        issuance_in(s.update(i, e), a2) == issuance_in(s, a2),
    decreases s.len(),
{
    let t = s.update(i, e);
    if i == 0 {
        assert(t.drop_first() =~= s.drop_first());
    } else {
        assert(t.first() == s.first());
        if s.first().asset == a2 {
        } else {
            assert(t.drop_first() =~= s.drop_first().update(i - 1, e));
            lemma_issuance_in_update(s.drop_first(), i - 1, e, a2);
        }
    }
}

proof fn lemma_issuance_in_update_at_first(s: Seq<IssuanceEntry>, i: int, e: IssuanceEntry)
    requires
        0 <= i < s.len(),
        s[i].asset == e.asset,
        forall|k: int| 0 <= k < i ==> s[k].asset != e.asset,
    ensures
        issuance_in(s.update(i, e), e.asset) == e.amount.val(),
    decreases s.len(),
{
    let t = s.update(i, e);
    if i == 0 {
        assert(t.first() == e);
    } else {
        assert(t.first() == s.first());
        assert(t.drop_first() =~= s.drop_first().update(i - 1, e));
        lemma_issuance_in_update_at_first(s.drop_first(), i - 1, e);
    }
}

proof fn lemma_issuance_in_push(s: Seq<IssuanceEntry>, e: IssuanceEntry, a2: AssetId)
    ensures
        !has_issuance_key(s, e.asset) ==> issuance_in(s.push(e), e.asset) == e.amount.val(),
        (a2 != e.asset || has_issuance_key(s, a2)) ==> issuance_in(s.push(e), a2) == issuance_in(
            s,
            a2,
        ),
    decreases s.len(),
{
    let t = s.push(e);
    if s.len() == 0 {
        assert(t.first() == e);
        assert(t.drop_first() =~= Seq::<IssuanceEntry>::empty());
        assert(issuance_in(t.drop_first(), a2) == 0);
        assert(issuance_in(s, a2) == 0);
    } else {
        assert(t.first() == s.first());
        assert(t.drop_first() =~= s.drop_first().push(e));
        lemma_issuance_in_push(s.drop_first(), e, a2);
        if s.first().asset == a2 {
            assert(issuance_in(t, a2) == t.first().amount.val());
            assert(issuance_in(s, a2) == s.first().amount.val());
        } else {
            assert(issuance_in(t, a2) == issuance_in(t.drop_first(), a2));
            assert(issuance_in(s, a2) == issuance_in(s.drop_first(), a2));
        }
    }
}

/// The keyed persistent store of the ledger: balances per (asset, account)
/// and total issuance per asset. Entries are created implicitly on first
/// write and never removed; a missing entry reads as zero.
pub struct Ledger {
    balances: Vec<BalanceEntry>,
    issuances: Vec<IssuanceEntry>,
}

impl Ledger {
    /// The recorded balance entries, in storage order.
    pub closed spec fn balance_entries(self) -> Seq<BalanceEntry> {
        self.balances@
    }

    /// The recorded issuance entries, in storage order.
    pub closed spec fn issuance_entries(self) -> Seq<IssuanceEntry> {
        self.issuances@
    }

    /// The balance of (asset, account); zero where no entry exists.
    pub open spec fn balance_of(self, asset: AssetId, account: AccountId) -> nat {
        balance_in(self.balance_entries(), asset, account)
    }

    /// The sum of all recorded balances of the asset.
    pub open spec fn balance_sum_of(self, asset: AssetId) -> nat {
        asset_sum(self.balance_entries(), asset)
    }

    /// The recorded total issuance of the asset; zero where no entry exists.
    pub open spec fn issuance_of(self, asset: AssetId) -> nat {
        issuance_in(self.issuance_entries(), asset)
    }

    /// Conservation of value: for every asset class, the recorded issuance
    /// equals the sum of all recorded balances. Deposits, withdrawals and
    /// transfers preserve this; see their contracts.
    pub open spec fn conserves(self) -> bool {
        forall|a: AssetId| #[trigger] self.issuance_of(a) == self.balance_sum_of(a)
    }

    pub fn new() -> (r: Ledger)
        ensures
            forall|a: AssetId, c: AccountId| #[trigger] r.balance_of(a, c) == 0,
            forall|a: AssetId| #[trigger] r.issuance_of(a) == 0,
            forall|a: AssetId| #[trigger] r.balance_sum_of(a) == 0,
            r.conserves(),
    {
        Ledger { balances: Vec::new(), issuances: Vec::new() }
    }

    /// The index of the first balance entry for (asset, account), if any.
    fn find_balance(&self, asset: AssetId, account: AccountId) -> (r: Option<usize>)
        ensures
            match r {
                Some(i) => {
                    &&& i < self.balance_entries().len()
                    &&& self.balance_entries()[i as int].asset == asset
                    &&& self.balance_entries()[i as int].account == account
                    &&& forall|k: int|
                        0 <= k < i ==> !(#[trigger] self.balance_entries()[k].asset == asset
                            && self.balance_entries()[k].account == account)
                    &&& has_balance_key(self.balance_entries(), asset, account)
                    &&& self.balance_of(asset, account) == self.balance_entries()[
                        i as int
                    ].amount.val()
                },
                None => {
                    &&& !has_balance_key(self.balance_entries(), asset, account)
                    &&& self.balance_of(asset, account) == 0
                },
            },
    {
        let mut i: usize = 0;
        while i < self.balances.len()
            invariant
                i <= self.balances.len(),
                forall|k: int|
                    0 <= k < i ==> !(#[trigger] self.balances@[k].asset == asset
                        && self.balances@[k].account == account),
            decreases self.balances.len() - i,
        {
            let matches_key = self.balances[i].asset == asset && self.balances[i].account
                == account;
            if matches_key {
                proof {
                    lemma_balance_first_match(self.balances@, asset, account, i as int);
                }
                return Some(i);
            }
            i = i + 1;
        }
        proof {
            lemma_balance_no_match(self.balances@, asset, account);
        }
        None
    }

    /// The index of the first issuance entry for the asset, if any.
    fn find_issuance(&self, asset: AssetId) -> (r: Option<usize>)
        ensures
            match r {
                Some(i) => {
                    &&& i < self.issuance_entries().len()
                    &&& self.issuance_entries()[i as int].asset == asset
                    &&& forall|k: int|
                        0 <= k < i ==> #[trigger] self.issuance_entries()[k].asset != asset
                    &&& has_issuance_key(self.issuance_entries(), asset)
                    &&& self.issuance_of(asset) == self.issuance_entries()[i as int].amount.val()
                },
                None => {
                    &&& !has_issuance_key(self.issuance_entries(), asset)
                    &&& self.issuance_of(asset) == 0
                },
            },
    {
        let mut i: usize = 0;
        while i < self.issuances.len()
            invariant
                i <= self.issuances.len(),
                forall|k: int| 0 <= k < i ==> #[trigger] self.issuances@[k].asset != asset,
            decreases self.issuances.len() - i,
        {
            if self.issuances[i].asset == asset {
                proof {
                    lemma_issuance_first_match(self.issuances@, asset, i as int);
                }
                return Some(i);
            }
            i = i + 1;
        }
        proof {
            lemma_issuance_no_match(self.issuances@, asset);
        }
        None
    }

    /// Read one balance, zero where no entry exists.
    pub fn balance(&self, asset: AssetId, account: AccountId) -> (r: Uint256)
        ensures
            r.val() == self.balance_of(asset, account),
    {
        match self.find_balance(asset, account) {
            Some(i) => self.balances[i].amount,
            None => Uint256::zero(),
        }
    }

    /// Read one asset's total issuance, zero where no entry exists.
    pub fn total_issuance(&self, asset: AssetId) -> (r: Uint256)
        ensures
            r.val() == self.issuance_of(asset),
    {
        match self.find_issuance(asset) {
            Some(i) => self.issuances[i].amount,
            None => Uint256::zero(),
        }
    }

    /// Storage primitive: overwrite (or create) the balance entry of one
    /// (asset, account) key. No business rule is enforced here; in
    /// particular this may break conservation, which only the composite
    /// operations promise to preserve.
    pub fn insert_balance(&mut self, asset: AssetId, account: AccountId, value: Uint256)
        ensures
            final(self).balance_of(asset, account) == value.val(),
            forall|a2: AssetId, c2: AccountId|
                !(a2 == asset && c2 == account) ==> #[trigger] final(self).balance_of(a2, c2)
                    == old(self).balance_of(a2, c2),
            forall|a2: AssetId|
                a2 != asset ==> #[trigger] final(self).balance_sum_of(a2) == old(
                    self,
                ).balance_sum_of(a2),
            final(self).balance_sum_of(asset) + old(self).balance_of(asset, account) == old(
                self,
            ).balance_sum_of(asset) + value.val(),
            forall|a2: AssetId| #[trigger]
                final(self).issuance_of(a2) == old(self).issuance_of(a2),
    {
        let e = BalanceEntry { asset, account, amount: value };
        match self.find_balance(asset, account) {
            Some(i) => {
                let ghost s = self.balances@;
                self.balances.set(i, e);
                proof {
                    lemma_balance_in_update_at_first(s, i as int, e);
                    assert forall|a2: AssetId, c2: AccountId|
                        !(a2 == asset && c2 == account) implies #[trigger] self.balance_of(a2, c2)
                        == old(self).balance_of(a2, c2) by {
                        lemma_balance_in_update(s, i as int, e, a2, c2);
                    }
                    assert forall|a2: AssetId| a2 != asset implies #[trigger] self.balance_sum_of(
                        a2,
                    ) == old(self).balance_sum_of(a2) by {
                        lemma_asset_sum_update(s, i as int, e, a2);
                    }
                    lemma_asset_sum_update(s, i as int, e, asset);
                }
            },
            None => {
                let ghost s = self.balances@;
                self.balances.push(e);
                proof {
                    assert forall|a2: AssetId, c2: AccountId|
                        !(a2 == asset && c2 == account) implies #[trigger] self.balance_of(a2, c2)
                        == old(self).balance_of(a2, c2) by {
                        lemma_balance_in_push(s, e, a2, c2);
                    }
                    lemma_balance_in_push(s, e, asset, account);
                    assert forall|a2: AssetId| a2 != asset implies #[trigger] self.balance_sum_of(
                        a2,
                    ) == old(self).balance_sum_of(a2) by {
                        lemma_asset_sum_push(s, e, a2);
                    }
                    lemma_asset_sum_push(s, e, asset);
                }
            },
        }
    }

    /// Storage primitive: overwrite (or create) the issuance entry of one
    /// asset. As with `insert_balance`, no business rule is enforced.
    pub fn insert_issuance(&mut self, asset: AssetId, value: Uint256)
        ensures
            final(self).issuance_of(asset) == value.val(),
            forall|a2: AssetId|
                a2 != asset ==> #[trigger] final(self).issuance_of(a2) == old(self).issuance_of(
                    a2,
                ),
            forall|a2: AssetId, c2: AccountId| #[trigger]
                final(self).balance_of(a2, c2) == old(self).balance_of(a2, c2),
            forall|a2: AssetId| #[trigger]
                final(self).balance_sum_of(a2) == old(self).balance_sum_of(a2),
    {
        let e = IssuanceEntry { asset, amount: value };
        match self.find_issuance(asset) {
            Some(i) => {
                let ghost s = self.issuances@;
                self.issuances.set(i, e);
                proof {
                    lemma_issuance_in_update_at_first(s, i as int, e);
                    assert forall|a2: AssetId| a2 != asset implies #[trigger] self.issuance_of(
                        a2,
                    ) == old(self).issuance_of(a2) by {
                        lemma_issuance_in_update(s, i as int, e, a2);
                    }
                }
            },
            None => {
                let ghost s = self.issuances@;
                self.issuances.push(e);
                proof {
                    lemma_issuance_in_push(s, e, asset);
                    assert forall|a2: AssetId| a2 != asset implies #[trigger] self.issuance_of(
                        a2,
                    ) == old(self).issuance_of(a2) by {
                        lemma_issuance_in_push(s, e, a2);
                    }
                }
            },
        }
    }

    /// Add `amount` to the account's balance and to the asset's issuance.
    /// Fails with `BalanceOverflow` when the balance would exceed the
    /// representable maximum, and with `TotalIssuanceOverflow` when the
    /// issuance would; a failed deposit mutates nothing. A committed deposit
    /// preserves conservation.
    pub fn deposit(&mut self, asset: AssetId, account: AccountId, amount: Uint256) -> (r: Result<
        (),
        LedgerError,
    >)
        ensures
            r is Ok <==> (old(self).balance_of(asset, account) + amount.val() <= max_val() && old(
                self,
            ).issuance_of(asset) + amount.val() <= max_val()),
            match r {
                Ok(()) => {
                    &&& final(self).balance_of(asset, account) == old(self).balance_of(
                        asset,
                        account,
                    ) + amount.val()
                    &&& final(self).issuance_of(asset) == old(self).issuance_of(asset)
                        + amount.val()
                    &&& final(self).balance_sum_of(asset) == old(self).balance_sum_of(asset)
                        + amount.val()
                },
                Err(e) => {
                    &&& *final(self) == *old(self)
                    &&& (e == LedgerError::BalanceOverflow <==> old(self).balance_of(asset, account)
                        + amount.val() > max_val())
                    &&& (e == LedgerError::TotalIssuanceOverflow <==> (old(self).balance_of(
                        asset,
                        account,
                    ) + amount.val() <= max_val() && old(self).issuance_of(asset) + amount.val()
                        > max_val()))
                },
            },
            forall|a2: AssetId, c2: AccountId|
                !(a2 == asset && c2 == account) ==> #[trigger] final(self).balance_of(a2, c2)
                    == old(self).balance_of(a2, c2),
            forall|a2: AssetId|
                a2 != asset ==> #[trigger] final(self).issuance_of(a2) == old(self).issuance_of(
                    a2,
                ),
            forall|a2: AssetId|
                a2 != asset ==> #[trigger] final(self).balance_sum_of(a2) == old(
                    self,
                ).balance_sum_of(a2),
            old(self).conserves() ==> final(self).conserves(),
    {
        let current_balance = self.balance(asset, account);
        let new_balance = match current_balance.checked_add(amount) {
            Some(v) => v,
            None => {
                return Err(LedgerError::BalanceOverflow);
            },
        };
        let current_issuance = self.total_issuance(asset);
        let new_issuance = match current_issuance.checked_add(amount) {
            Some(v) => v,
            None => {
                return Err(LedgerError::TotalIssuanceOverflow);
            },
        };
        self.insert_balance(asset, account, new_balance);
        self.insert_issuance(asset, new_issuance);
        proof {
            if old(self).conserves() {
                assert forall|a: AssetId| #[trigger] self.issuance_of(a) == self.balance_sum_of(
                    a,
                ) by {
                    assert(old(self).issuance_of(a) == old(self).balance_sum_of(a));
                }
            }
        }
        Ok(())
    }

    /// Subtract `amount` from the account's balance and from the asset's
    /// issuance. Fails with `InsufficientBalance` when the account holds
    /// less than `amount` (checked before touching issuance), and with
    /// `TotalIssuanceUnderflow` when, despite a sufficient balance, the
    /// recorded issuance would underflow (an internal-consistency guard that
    /// cannot trigger while conservation holds); a failed withdrawal mutates
    /// nothing. A committed withdrawal preserves conservation.
    pub fn withdraw(&mut self, asset: AssetId, account: AccountId, amount: Uint256) -> (r: Result<
        (),
        LedgerError,
    >)
        ensures
            r is Ok <==> (amount.val() <= old(self).balance_of(asset, account) && amount.val()
                <= old(self).issuance_of(asset)),
            match r {
                Ok(()) => {
                    &&& final(self).balance_of(asset, account) + amount.val() == old(
                        self,
                    ).balance_of(asset, account)
                    &&& final(self).issuance_of(asset) + amount.val() == old(self).issuance_of(
                        asset,
                    )
                    &&& final(self).balance_sum_of(asset) + amount.val() == old(
                        self,
                    ).balance_sum_of(asset)
                },
                Err(e) => {
                    &&& *final(self) == *old(self)
                    &&& (e == LedgerError::InsufficientBalance <==> amount.val() > old(
                        self,
                    ).balance_of(asset, account))
                    &&& (e == LedgerError::TotalIssuanceUnderflow <==> (amount.val() <= old(
                        self,
                    ).balance_of(asset, account) && amount.val() > old(self).issuance_of(asset)))
                },
            },
            forall|a2: AssetId, c2: AccountId|
                !(a2 == asset && c2 == account) ==> #[trigger] final(self).balance_of(a2, c2)
                    == old(self).balance_of(a2, c2),
            forall|a2: AssetId|
                a2 != asset ==> #[trigger] final(self).issuance_of(a2) == old(self).issuance_of(
                    a2,
                ),
            forall|a2: AssetId|
                a2 != asset ==> #[trigger] final(self).balance_sum_of(a2) == old(
                    self,
                ).balance_sum_of(a2),
            old(self).conserves() ==> final(self).conserves(),
    {
        let current_balance = self.balance(asset, account);
        let new_balance = match current_balance.checked_sub(amount) {
            Some(v) => v,
            None => {
                return Err(LedgerError::InsufficientBalance);
            },
        };
        let current_issuance = self.total_issuance(asset);
        let new_issuance = match current_issuance.checked_sub(amount) {
            Some(v) => v,
            None => {
                return Err(LedgerError::TotalIssuanceUnderflow);
            },
        };
        self.insert_balance(asset, account, new_balance);
        self.insert_issuance(asset, new_issuance);
        proof {
            if old(self).conserves() {
                assert forall|a: AssetId| #[trigger] self.issuance_of(a) == self.balance_sum_of(
                    a,
                ) by {
                    assert(old(self).issuance_of(a) == old(self).balance_sum_of(a));
                }
            }
        }
        Ok(())
    }

    /// Move `amount` from one account to another within one asset class,
    /// leaving every issuance figure untouched (the net effect on the
    /// asset's total is zero). Fails with `InsufficientBalance` when the
    /// sender holds less than `amount`, and with `BalanceOverflow` when the
    /// recipient's balance would exceed the representable maximum (possible
    /// only while conservation is broken); either failure leaves both
    /// balances — indeed the whole ledger — unchanged. A committed transfer
    /// preserves conservation.
    pub fn transfer(
        &mut self,
        asset: AssetId,
        from: AccountId,
        to: AccountId,
        amount: Uint256,
    ) -> (r: Result<(), LedgerError>)
        ensures
            r is Ok <==> (amount.val() <= old(self).balance_of(asset, from) && (from == to || old(
                self,
            ).balance_of(asset, to) + amount.val() <= max_val())),
            match r {
                Ok(()) => {
                    &&& (from != to ==> final(self).balance_of(asset, from) + amount.val() == old(
                        self,
                    ).balance_of(asset, from))
                    &&& (from != to ==> final(self).balance_of(asset, to) == old(self).balance_of(
                        asset,
                        to,
                    ) + amount.val())
                    &&& (from == to ==> *final(self) == *old(self))
                },
                Err(e) => {
                    &&& *final(self) == *old(self)
                    &&& (e == LedgerError::InsufficientBalance <==> amount.val() > old(
                        self,
                    ).balance_of(asset, from))
                    &&& (e == LedgerError::BalanceOverflow <==> (amount.val() <= old(
                        self,
                    ).balance_of(asset, from) && from != to && old(self).balance_of(asset, to)
                        + amount.val() > max_val()))
                },
            },
            forall|a2: AssetId, c2: AccountId|
                !(a2 == asset && (c2 == from || c2 == to)) ==> #[trigger] final(self).balance_of(
                    a2,
                    c2,
                ) == old(self).balance_of(a2, c2),
            forall|a2: AssetId| #[trigger]
                final(self).issuance_of(a2) == old(self).issuance_of(a2),
            forall|a2: AssetId| #[trigger]
                final(self).balance_sum_of(a2) == old(self).balance_sum_of(a2),
            old(self).conserves() ==> final(self).conserves(),
    {
        let current_from = self.balance(asset, from);
        if current_from.lt(amount) {
            return Err(LedgerError::InsufficientBalance);
        }
        if from == to {
            return Ok(());
        }
        let current_to = self.balance(asset, to);
        let new_to = match current_to.checked_add(amount) {
            Some(v) => v,
            None => {
                return Err(LedgerError::BalanceOverflow);
            },
        };
        let new_from = match current_from.checked_sub(amount) {
            Some(v) => v,
            None => {
                // unreachable: the sufficiency check above already passed
                return Err(LedgerError::InsufficientBalance);
            },
        };
        self.insert_balance(asset, from, new_from);
        self.insert_balance(asset, to, new_to);
        proof {
            if old(self).conserves() {
                assert forall|a: AssetId| #[trigger] self.issuance_of(a) == self.balance_sum_of(
                    a,
                ) by {
                    assert(old(self).issuance_of(a) == old(self).balance_sum_of(a));
                }
            }
        }
        Ok(())
    }
}

proof fn lemma_balance_le_sum(s: Seq<BalanceEntry>, asset: AssetId, account: AccountId)
    ensures
        balance_in(s, asset, account) <= asset_sum(s, asset),
    decreases s.len(),
{
    if s.len() > 0 {
        lemma_balance_le_sum(s.drop_first(), asset, account);
    }
}

/// Law (conservation of value): in a conserving ledger the recorded
/// issuance of every asset class equals the sum of all recorded balances of
/// that asset class. Together with the contracts of `deposit`, `withdraw`
/// and `transfer` — each of which preserves `conserves`, also when it fails —
/// this holds after every sequence of those operations on a fresh ledger.
pub proof fn lemma_conservation(l: Ledger, asset: AssetId)
    requires
        l.conserves(),
    ensures
        l.issuance_of(asset) == l.balance_sum_of(asset),
{
}

/// Law: while conservation holds, no single balance exceeds its asset's
/// recorded issuance. In particular `withdraw`'s internal-consistency guard
/// (`TotalIssuanceUnderflow`) cannot trip on an amount within the account's
/// balance, and a transfer between distinct accounts cannot overflow the
/// recipient: correct bookkeeping keeps those error paths unreachable.
pub proof fn lemma_balance_within_issuance(l: Ledger, asset: AssetId, account: AccountId)
    requires
        l.conserves(),
    ensures
        l.balance_of(asset, account) <= l.issuance_of(asset),
{
    lemma_balance_le_sum(l.balance_entries(), asset, account);
}

} // verus!
