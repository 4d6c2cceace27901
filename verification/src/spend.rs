use vstd::prelude::*;

use crate::notes::{
    SpendableNote, SpendableV, select_count, select_count_from, selection, spendables,
    spendables_seq_view, sum_upto, sum_values,
};
use crate::reads::target_anchor_spec;
use crate::store::WalletStore;
use crate::types::{OvkPolicy, Recipient, WalletError, clone_bytes};

verus! {

/// Network fee a spend pays by default, in the smallest unit of value.
pub const DEFAULT_FEE: u64 = 10000;

/// Everything the external transaction builder and prover need to construct a
/// spend, decided against one snapshot of the store: the notes to consume
/// (with their witness paths at the anchor), the heights to build against, the
/// resolved outgoing viewing key, and the amounts.
pub struct SpendPlan {
    pub target_height: u32,
    pub anchor_height: u32,
    pub notes: Vec<SpendableNote>,
    pub ovk: Option<Vec<u8>>,
    pub recipient: Recipient,
    pub value: u64,
    pub fee: u64,
    pub change: u64,
    pub memo: Option<Vec<u8>>,
}

/// The resolved outgoing viewing key matches the policy: the account's own
/// key, a caller-supplied one, or none at all.
pub open spec fn ovk_resolved(
    policy: OvkPolicy,
    account_ovk: Seq<u8>,
    r: Option<Vec<u8>>,
) -> bool {
    match policy {
        OvkPolicy::Sender => r matches Some(o) && o@ == account_ovk,
        OvkPolicy::Custom(k) => r matches Some(o) && o@ == k@,
        OvkPolicy::Discard => r is None,
    }
}

/// Every entry of a well-formed selection carries a value a note can hold.
pub proof fn lemma_selection_values(s: Seq<SpendableNote>)
    ensures
        forall|i: int|
            0 <= i < s.len() ==> 0 <= #[trigger] spendables_seq_view(s)[i].value <= u64::MAX,
{
}

/// Selection takes at least the entries whose running sum still falls short,
/// and its own running sum falls short right up to its last entry.
pub proof fn lemma_select_count_props(s: Seq<SpendableV>, target: int, k: int)
    requires
        0 <= k <= s.len(),
    ensures
        k <= select_count_from(s, target, k) <= s.len(),
        select_count_from(s, target, k) > k ==> sum_upto(
            s,
            select_count_from(s, target, k) - 1,
        ) < target,
        select_count_from(s, target, k) < s.len() ==> sum_upto(
            s,
            select_count_from(s, target, k),
        ) >= target,
    decreases s.len() - k,
{
    if k < s.len() && sum_upto(s, k) < target {
        lemma_select_count_props(s, target, k + 1);
    }
}

/// Equal prefixes sum equally.
pub proof fn lemma_sum_upto_prefix(s1: Seq<SpendableV>, s2: Seq<SpendableV>, n: int)
    requires
        0 <= n,
        forall|j: int| 0 <= j < n ==> s1[j] == s2[j],
    ensures
        sum_upto(s1, n) == sum_upto(s2, n),
    decreases n,
{
    if n > 0 {
        lemma_sum_upto_prefix(s1, s2, n - 1);
    }
}

impl WalletStore {
    /// Decide a spend of `value` from `account` to `recipient`, paying `fee`:
    /// checks that `extfvk` is the viewing key registered for the account,
    /// resolves the outgoing-viewing-key policy, takes the target and anchor
    /// heights from the scanned chain, and selects notes worth at least
    /// `value + fee`. Fails with `InvalidAuthorization` on a key mismatch,
    /// `ScanRequired` before any block is scanned, and
    /// `InsufficientBalance(selected, required)` when the spendable notes at
    /// the anchor sum below the requirement. The plan is decided by the store
    /// alone: nothing here changes it.
    #[verifier::loop_isolation(false)]
    pub fn plan_spend(
        &self,
        account: u32,
        extfvk: &Vec<u8>,
        recipient: Recipient,
        value: u64,
        memo: Option<Vec<u8>>,
        ovk_policy: OvkPolicy,
        fee: u64,
    ) -> (r: Result<SpendPlan, WalletError>)
        requires
            value + fee <= u64::MAX,
            self@.tip() matches Some(t) ==> t < u32::MAX,
        ensures
            !(account < self@.accounts.len() && self@.accounts[account as int].extfvk == extfvk@)
                <==> (r matches Err(WalletError::InvalidAuthorization)),
            account < self@.accounts.len() && self@.accounts[account as int].extfvk == extfvk@
                && self@.blocks.len() == 0 <==> (r matches Err(WalletError::ScanRequired)),
            account < self@.accounts.len() && self@.accounts[account as int].extfvk == extfvk@
                && self@.blocks.len() > 0 ==> ({
                let ta = target_anchor_spec(self@);
                let anchor = ta->Some_0.1;
                let target = value + fee;
                let sel = selection(self@, account as int, target as int, anchor);
                if sum_values(sel) < target as int {
                    r matches Err(WalletError::InsufficientBalance(got, want)) && got as int
                        == sum_values(sel) && want == target
                } else {
                    r matches Ok(plan) && plan.target_height as int == ta->Some_0.0
                        && plan.anchor_height as int == anchor && spendables_seq_view(plan.notes@)
                        == sel && ovk_resolved(ovk_policy, self@.accounts[account as int].ovk, plan.ovk)
                        && plan.value == value && plan.fee == fee && plan.change as int
                        == sum_values(sel) - target && plan.recipient == recipient && plan.memo
                        == memo
                }
            }),
    {
        if !self.is_valid_account_extfvk(account, extfvk) {
            return Err(WalletError::InvalidAuthorization);
        }
        let ovk: Option<Vec<u8>> = match ovk_policy {
            OvkPolicy::Sender => Some(clone_bytes(&self.accounts[account as usize].ovk)),
            OvkPolicy::Custom(k) => Some(k),
            OvkPolicy::Discard => None,
        };
        let (target_height, anchor_height) = match self.get_target_and_anchor_heights() {
            Some(pair) => pair,
            None => {
                return Err(WalletError::ScanRequired);
            },
        };
        let target = value + fee;
        let picked = self.select_spendable_notes(account, target, anchor_height);
        let ghost sel = selection(self@, account as int, target as int, anchor_height as int);
        assert(spendables_seq_view(picked@) == sel);

        let ghost all = spendables(self@, account as int, anchor_height as int);
        let mut sum: u128 = 0;
        let mut i: usize = 0;
        while i < picked.len()
            invariant
                0 <= i <= picked.len(),
                sum == sum_upto(spendables_seq_view(picked@), i as int),
                sum <= (i as int) * (u64::MAX as int),
            decreases picked.len() - i,
        {
            proof {
                lemma_selection_values(picked@);
                assert((i as int + 1) * (u64::MAX as int) == (i as int) * (u64::MAX as int)
                    + u64::MAX) by (nonlinear_arith);
                assert((i as int) * (u64::MAX as int) <= (usize::MAX as int) * (u64::MAX as int))
                    by (nonlinear_arith)
                    requires
                        0 <= i as int <= usize::MAX as int,
                ;
            }
            sum = sum + picked[i].value as u128;
            i += 1;
        }
        proof {
            lemma_sum_upto_prefix(spendables_seq_view(picked@), sel, sel.len() as int);
            assert(sum == sum_values(sel));
        }
        if sum < target as u128 {
            assert(sum_values(sel) < target as int);
            return Err(WalletError::InsufficientBalance(sum as u64, target));
        }
        let change: u64 = (sum - target as u128) as u64;
        proof {
            lemma_selection_values(picked@);
            lemma_select_count_props(all, target as int, 0);
            lemma_sum_upto_prefix(sel, all, select_count(all, target as int));
            if sel.len() > 0 {
                assert(sum_upto(all, sel.len() - 1) < target as int);
                assert(sum_upto(sel, sel.len() - 1) == sum_upto(all, sel.len() - 1));
                assert(sum as int == sum_upto(sel, sel.len() - 1) + sel[sel.len() - 1].value);
            }
            assert(sum as int - target as int <= u64::MAX);
        }
        Ok(
            SpendPlan {
                target_height: target_height,
                anchor_height: anchor_height,
                notes: picked,
                ovk: ovk,
                recipient: recipient,
                value: value,
                fee: fee,
                change: change,
                memo: memo,
            },
        )
    }
}

} // verus!
