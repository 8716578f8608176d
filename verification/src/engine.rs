//! The position lifecycle manager: a keyed store of per-holder positions
//! together with the two pooled balances, the stake vault and the reward
//! reserve. The engine keeps the checked invariant that the stake vault
//! equals the sum of all holders' staked principal, and applies every
//! operation atomically: on any error nothing changes.

use vstd::prelude::*;

use crate::errors::ErrorCode;
use crate::position::StakePosition;
use crate::position::claim_position;
use crate::position::spec_claim;
use crate::position::spec_stake;
use crate::position::spec_unstake;
use crate::position::stake_position;
use crate::position::unstake_position;

verus! {

/// No two records of the store carry the same holder.
pub open spec fn unique_holders(s: Seq<(u64, StakePosition)>) -> bool {
    forall|i: int, j: int| 0 <= i < j < s.len() ==> s[i].0 != s[j].0
}

/// Whether the store holds a record for `holder`.
pub open spec fn holder_present(s: Seq<(u64, StakePosition)>, holder: u64) -> bool {
    exists|i: int| 0 <= i < s.len() && s[i].0 == holder
}

/// The position of `holder` in the store: the recorded one, or the inactive
/// record for a holder who never staked.
pub open spec fn spec_lookup(s: Seq<(u64, StakePosition)>, holder: u64) -> StakePosition
    decreases s.len(),
{
    if s.len() == 0 {
        StakePosition::spec_inactive()
    } else if s[0].0 == holder {
        s[0].1
    } else {
        spec_lookup(s.drop_first(), holder)
    }
}

/// The sum of all recorded holders' staked principal.
pub open spec fn sum_staked(s: Seq<(u64, StakePosition)>) -> int
    decreases s.len(),
{
    if s.len() == 0 {
        0
    } else {
        sum_staked(s.drop_last()) + s.last().1.staked_amount
    }
}

/// With unique holders, the lookup yields exactly the record at any index
/// whose key matches.
proof fn lemma_lookup_present(s: Seq<(u64, StakePosition)>, holder: u64, i: int)
    requires
        unique_holders(s),
        0 <= i < s.len(),
        s[i].0 == holder,
    ensures
        spec_lookup(s, holder) == s[i].1,
        holder_present(s, holder),
    decreases s.len(),
{
    if s[0].0 == holder {
        assert(i == 0);
    } else {
        assert(unique_holders(s.drop_first()));
        lemma_lookup_present(s.drop_first(), holder, i - 1);
    }
}

/// A holder without a record looks up to the inactive position.
proof fn lemma_lookup_absent(s: Seq<(u64, StakePosition)>, holder: u64)
    requires
        !holder_present(s, holder),
    ensures
        spec_lookup(s, holder) == StakePosition::spec_inactive(),
    decreases s.len(),
{
    if s.len() > 0 {
        assert(s[0].0 != holder);
        assert(!holder_present(s.drop_first(), holder)) by {
            if holder_present(s.drop_first(), holder) {
                let j = choose|j: int|
                    0 <= j < s.drop_first().len() && s.drop_first()[j].0 == holder;
                assert(s[j + 1].0 == holder);
            }
        }
        lemma_lookup_absent(s.drop_first(), holder);
    }
}

/// Replacing the record at `i` by one under the same holder keeps the
/// holders unique, rebinds that holder to the new record, and leaves every
/// other holder's lookup unchanged.
proof fn lemma_lookup_update(s: Seq<(u64, StakePosition)>, i: int, v: (u64, StakePosition))
    requires
        unique_holders(s),
        0 <= i < s.len(),
        v.0 == s[i].0,
    ensures
        unique_holders(s.update(i, v)),
        spec_lookup(s.update(i, v), v.0) == v.1,
        forall|h: u64| h != v.0 ==> spec_lookup(s.update(i, v), h) == spec_lookup(s, h),
{
    let s2 = s.update(i, v);
    assert forall|a: int, b: int| 0 <= a < b < s2.len() implies s2[a].0 != s2[b].0 by {
        assert(s2[a].0 == s[a].0);
        assert(s2[b].0 == s[b].0);
    }
    lemma_lookup_present(s2, v.0, i);
    assert forall|h: u64| h != v.0 implies spec_lookup(s2, h) == spec_lookup(s, h) by {
        if holder_present(s, h) {
            let j = choose|j: int| 0 <= j < s.len() && s[j].0 == h;
            assert(j != i);
            lemma_lookup_present(s, h, j);
            lemma_lookup_present(s2, h, j);
        } else {
            assert(!holder_present(s2, h)) by {
                if holder_present(s2, h) {
                    let k = choose|k: int| 0 <= k < s2.len() && s2[k].0 == h;
                    assert(s[k].0 == h);
                }
            }
            lemma_lookup_absent(s, h);
            lemma_lookup_absent(s2, h);
        }
    }
}

/// Appending a record for a holder the store does not know keeps the
/// holders unique, binds that holder to the new record, and leaves every
/// other holder's lookup unchanged.
proof fn lemma_lookup_push(s: Seq<(u64, StakePosition)>, x: (u64, StakePosition))
    requires
        unique_holders(s),
        !holder_present(s, x.0),
    ensures
        unique_holders(s.push(x)),
        spec_lookup(s.push(x), x.0) == x.1,
        forall|h: u64| h != x.0 ==> spec_lookup(s.push(x), h) == spec_lookup(s, h),
{
    let s2 = s.push(x);
    assert forall|a: int, b: int| 0 <= a < b < s2.len() implies s2[a].0 != s2[b].0 by {
        if b == s.len() {
            assert(s2[a].0 == s[a].0);
            assert(s[a].0 != x.0) by {
                if s[a].0 == x.0 {
                    assert(holder_present(s, x.0));
                }
            }
        } else {
            assert(s2[a].0 == s[a].0);
            assert(s2[b].0 == s[b].0);
        }
    }
    lemma_lookup_present(s2, x.0, s.len() as int);
    assert forall|h: u64| h != x.0 implies spec_lookup(s2, h) == spec_lookup(s, h) by {
        if holder_present(s, h) {
            let j = choose|j: int| 0 <= j < s.len() && s[j].0 == h;
            lemma_lookup_present(s, h, j);
            lemma_lookup_present(s2, h, j);
        } else {
            assert(!holder_present(s2, h)) by {
                if holder_present(s2, h) {
                    let k = choose|k: int| 0 <= k < s2.len() && s2[k].0 == h;
                    assert(k < s.len());
                    assert(s[k].0 == h);
                }
            }
            lemma_lookup_absent(s, h);
            lemma_lookup_absent(s2, h);
        }
    }
}

/// Replacing the record at `i` moves the principal sum by the difference of
/// the two staked amounts.
proof fn lemma_sum_update(s: Seq<(u64, StakePosition)>, i: int, v: (u64, StakePosition))
    requires
        0 <= i < s.len(),
    ensures
        sum_staked(s.update(i, v)) == sum_staked(s) - s[i].1.staked_amount + v.1.staked_amount,
    decreases s.len(),
{
    let s2 = s.update(i, v);
    if i == s.len() - 1 {
        assert(s2.drop_last() =~= s.drop_last());
    } else {
        assert(s2.drop_last() =~= s.drop_last().update(i, v));
        lemma_sum_update(s.drop_last(), i, v);
    }
}

/// Appending a record grows the principal sum by its staked amount.
proof fn lemma_sum_push(s: Seq<(u64, StakePosition)>, x: (u64, StakePosition))
    ensures
        sum_staked(s.push(x)) == sum_staked(s) + x.1.staked_amount,
{
    assert(s.push(x).drop_last() =~= s);
}

/// The staking engine: every holder's position, keyed by holder identity,
/// and the two pooled balances. The stake vault holds aggregate staked
/// principal; the reward reserve, funded from outside, is the sole source
/// of reward payouts.
pub struct StakingEngine {
    /// One record per holder, created lazily on the first stake.
    pub positions: Vec<(u64, StakePosition)>,
    /// Pooled balance of staked principal.
    pub stake_vault: u64,
    /// Pooled balance available for reward payouts.
    pub reward_reserve: u64,
}

impl StakingEngine {
    /// Well-formedness: holders are unique, every record is well-formed,
    /// and the stake vault equals the sum of all staked principal.
    pub open spec fn wf(self) -> bool {
        &&& unique_holders(self.positions@)
        &&& forall|i: int|
            0 <= i < self.positions@.len() ==> (#[trigger] self.positions@[i]).1.wf()
        &&& self.stake_vault as int == sum_staked(self.positions@)
    }

    /// The position of `holder`: the recorded one, or the inactive record
    /// for a holder who never staked.
    pub open spec fn spec_position(self, holder: u64) -> StakePosition {
        spec_lookup(self.positions@, holder)
    }

    /// Creates the engine with empty custody: no positions, an empty stake
    /// vault and an empty reward reserve.
    pub fn initialize() -> (engine: StakingEngine)
        ensures
            engine.wf(),
            engine.positions@.len() == 0,
            engine.stake_vault == 0,
            engine.reward_reserve == 0,
            forall|h: u64| engine.spec_position(h) == StakePosition::spec_inactive(),
    {
        StakingEngine { positions: Vec::new(), stake_vault: 0, reward_reserve: 0 }
    }

    /// Adds externally supplied funds to the reward reserve, the only way
    /// the reserve grows. Fails only when the balance would overflow, and
    /// then changes nothing.
    pub fn fund_reserve(&mut self, amount: u64) -> (r: Result<(), ErrorCode>)
        requires
            old(self).wf(),
        ensures
            final(self).wf(),
            final(self).positions@ == old(self).positions@,
            final(self).stake_vault == old(self).stake_vault,
            old(self).reward_reserve + amount <= u64::MAX ==> r == Ok::<(), ErrorCode>(())
                && final(self).reward_reserve == old(self).reward_reserve + amount,
            old(self).reward_reserve + amount > u64::MAX ==> r == Err::<(), ErrorCode>(
                ErrorCode::ArithmeticOverflow,
            ) && final(self).reward_reserve == old(self).reward_reserve,
    {
        match self.reward_reserve.checked_add(amount) {
            Some(v) => {
                self.reward_reserve = v;
                Ok(())
            },
            None => Err(ErrorCode::ArithmeticOverflow),
        }
    }

    /// The index of `holder`'s record, if the store has one.
    fn find_index(&self, holder: u64) -> (r: Option<usize>)
        ensures
            (match r {
                Some(i) => i < self.positions@.len() && self.positions@[i as int].0 == holder,
                None => !holder_present(self.positions@, holder),
            }),
    {
        let n = self.positions.len();
        let mut k: usize = 0;
        while k < n
            invariant
                k <= n,
                n == self.positions@.len(),
                forall|j: int| 0 <= j < k ==> self.positions@[j].0 != holder,
            decreases n - k,
        {
            if self.positions[k].0 == holder {
                return Some(k);
            }
            k += 1;
        }
        None
    }

    /// Reads `holder`'s position; a holder without a record is inactive.
    pub fn get_position(&self, holder: u64) -> (p: StakePosition)
        requires
            self.wf(),
        ensures
            p == self.spec_position(holder),
    {
        match self.find_index(holder) {
            Some(i) => {
                proof {
                    lemma_lookup_present(self.positions@, holder, i as int);
                }
                self.positions[i].1
            },
            None => {
                proof {
                    lemma_lookup_absent(self.positions@, holder);
                }
                StakePosition::inactive()
            },
        }
    }

    /// Stakes `amount` under `tier` for `holder` at time `now`: the
    /// position follows `spec_stake` on its current value, the deposited
    /// amount enters the stake vault, and no other holder's position nor
    /// the reward reserve moves. On any error the whole engine is left
    /// untouched.
    pub fn stake(&mut self, holder: u64, amount: u64, tier: u8, now: u64) -> (r: Result<
        (),
        ErrorCode,
    >)
        requires
            old(self).wf(),
            now >= old(self).spec_position(holder).last_claim_time,
        ensures
            final(self).wf(),
            final(self).reward_reserve == old(self).reward_reserve,
            (match spec_stake(
                old(self).spec_position(holder),
                old(self).stake_vault,
                amount,
                tier,
                now,
            ) {
                Ok((np, nv)) => r == Ok::<(), ErrorCode>(()) && final(self).spec_position(holder)
                    == np && final(self).stake_vault == nv,
                Err(e) => r == Err::<(), ErrorCode>(e) && final(self).positions@ == old(self).positions@ && final(self).stake_vault == old(self).stake_vault,
            }),
            forall|h: u64|
                h != holder ==> final(self).spec_position(h) == old(self).spec_position(h),
    {
        match self.find_index(holder) {
            Some(i) => {
                proof {
                    lemma_lookup_present(self.positions@, holder, i as int);
                }
                let mut pos = self.positions[i].1;
                let mut vault = self.stake_vault;
                match stake_position(&mut pos, &mut vault, amount, tier, now) {
                    Ok(()) => {
                        let ghost before = self.positions@;
                        self.positions[i] = (holder, pos);
                        self.stake_vault = vault;
                        proof {
                            lemma_lookup_update(before, i as int, (holder, pos));
                            lemma_sum_update(before, i as int, (holder, pos));
                        }
                        Ok(())
                    },
                    Err(e) => Err(e),
                }
            },
            None => {
                proof {
                    lemma_lookup_absent(self.positions@, holder);
                }
                let mut pos = StakePosition::inactive();
                let mut vault = self.stake_vault;
                match stake_position(&mut pos, &mut vault, amount, tier, now) {
                    Ok(()) => {
                        let ghost before = self.positions@;
                        self.positions.push((holder, pos));
                        self.stake_vault = vault;
                        proof {
                            lemma_lookup_push(before, (holder, pos));
                            lemma_sum_push(before, (holder, pos));
                        }
                        Ok(())
                    },
                    Err(e) => Err(e),
                }
            },
        }
    }

    /// Pays `holder`'s whole outstanding reward out of the reward reserve
    /// at time `now`: the position follows `spec_claim` on its current
    /// value, and no other holder's position nor the stake vault moves. On
    /// any error the whole engine is left untouched. Returns the amount
    /// paid.
    pub fn claim_reward(&mut self, holder: u64, now: u64) -> (r: Result<u64, ErrorCode>)
        requires
            old(self).wf(),
            now >= old(self).spec_position(holder).last_claim_time,
        ensures
            final(self).wf(),
            final(self).stake_vault == old(self).stake_vault,
            (match spec_claim(old(self).spec_position(holder), old(self).reward_reserve, now) {
                Ok((np, paid, nr)) => r == Ok::<u64, ErrorCode>(paid) && final(self).spec_position(
                    holder,
                ) == np && final(self).reward_reserve == nr,
                Err(e) => r == Err::<u64, ErrorCode>(e) && final(self).positions@ == old(self).positions@ && final(self).reward_reserve == old(self).reward_reserve,
            }),
            forall|h: u64|
                h != holder ==> final(self).spec_position(h) == old(self).spec_position(h),
    {
        match self.find_index(holder) {
            Some(i) => {
                proof {
                    lemma_lookup_present(self.positions@, holder, i as int);
                }
                let mut pos = self.positions[i].1;
                let mut reserve = self.reward_reserve;
                match claim_position(&mut pos, &mut reserve, now) {
                    Ok(paid) => {
                        let ghost before = self.positions@;
                        self.positions[i] = (holder, pos);
                        self.reward_reserve = reserve;
                        proof {
                            lemma_lookup_update(before, i as int, (holder, pos));
                            lemma_sum_update(before, i as int, (holder, pos));
                        }
                        Ok(paid)
                    },
                    Err(e) => Err(e),
                }
            },
            None => {
                proof {
                    lemma_lookup_absent(self.positions@, holder);
                }
                Err(ErrorCode::NotStaked)
            },
        }
    }

    /// Releases `amount` of `holder`'s principal from the stake vault and
    /// pays the outstanding reward from the reward reserve at time `now`:
    /// the position follows `spec_unstake` on its current value, and no
    /// other holder's position moves. A full unstake leaves the inactive
    /// record behind. On any error the whole engine is left untouched.
    /// Returns the reward paid; the principal released is `amount` itself.
    pub fn unstake(&mut self, holder: u64, amount: u64, now: u64) -> (r: Result<u64, ErrorCode>)
        requires
            old(self).wf(),
            now >= old(self).spec_position(holder).last_claim_time,
        ensures
            final(self).wf(),
            (match spec_unstake(
                old(self).spec_position(holder),
                old(self).stake_vault,
                old(self).reward_reserve,
                amount,
                now,
            ) {
                Ok((np, paid, nv, nr)) => r == Ok::<u64, ErrorCode>(paid) && final(self).spec_position(holder) == np && final(self).stake_vault == nv && final(self).reward_reserve == nr,
                Err(e) => r == Err::<u64, ErrorCode>(e) && final(self).positions@ == old(self).positions@ && final(self).stake_vault == old(self).stake_vault && final(self).reward_reserve == old(self).reward_reserve,
            }),
            forall|h: u64|
                h != holder ==> final(self).spec_position(h) == old(self).spec_position(h),
    {
        match self.find_index(holder) {
            Some(i) => {
                proof {
                    lemma_lookup_present(self.positions@, holder, i as int);
                }
                let mut pos = self.positions[i].1;
                let mut vault = self.stake_vault;
                let mut reserve = self.reward_reserve;
                match unstake_position(&mut pos, &mut vault, &mut reserve, amount, now) {
                    Ok(paid) => {
                        let ghost before = self.positions@;
                        self.positions[i] = (holder, pos);
                        self.stake_vault = vault;
                        self.reward_reserve = reserve;
                        proof {
                            lemma_lookup_update(before, i as int, (holder, pos));
                            lemma_sum_update(before, i as int, (holder, pos));
                        }
                        Ok(paid)
                    },
                    Err(e) => Err(e),
                }
            },
            None => {
                proof {
                    lemma_lookup_absent(self.positions@, holder);
                }
                Err(ErrorCode::NotStaked)
            },
        }
    }
}

} // verus!
