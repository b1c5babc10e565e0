use vstd::prelude::*;

use crate::accounting::{
    deposit_of, deposit_sum, lemma_sum_nonneg, lemma_sum_scaled_bound, lemma_sum_take_step,
    lemma_sum_update, mean, member_count, member_of, prediction_of, prediction_sum, sum_over,
    weight,
};
use crate::pools::{Pools, NUM_POOLS};
use crate::records::{Game, Pool, RoundPhase, User};

verus! {

/// The persistent store of the engine: the four pools in canonical order, the
/// users, addressed by their position, and the current round.
pub struct Ledger {
    pub pools: Vec<Pool>,
    pub users: Vec<User>,
    pub game: Game,
}

/// The pools are the four of `Pools`, each at its canonical position.
pub open spec fn pools_canonical(pools: Seq<Pool>) -> bool {
    &&& pools.len() == NUM_POOLS
    &&& forall|i: int| 0 <= i < NUM_POOLS ==> (#[trigger] pools[i]).name == Pools::at(i)
}

/// Each pool's total deposit is the sum of the balances of the users
/// attributed to it.
pub open spec fn deposits_balanced(pools: Seq<Pool>, users: Seq<User>) -> bool {
    forall|i: int|
        0 <= i < pools.len() ==> (#[trigger] pools[i]).total_deposit == deposit_sum(
            users,
            pools[i].name,
        )
}

/// Each pool's user count is the number of users attributed to it with a
/// positive balance.
pub open spec fn members_counted(pools: Seq<Pool>, users: Seq<User>) -> bool {
    forall|i: int|
        0 <= i < pools.len() ==> (#[trigger] pools[i]).user_count == member_count(
            users,
            pools[i].name,
        )
}

/// Each pool's prediction total is the sum of its users' last predictions,
/// and its average prediction is their mean.
pub open spec fn predictions_summed(pools: Seq<Pool>, users: Seq<User>) -> bool {
    forall|i: int|
        0 <= i < pools.len() ==> {
            &&& (#[trigger] pools[i]).prediction_total == prediction_sum(users, pools[i].name)
            &&& pools[i].average_prediction == mean(
                pools[i].prediction_total as int,
                pools[i].user_count as int,
            )
        }
}

/// A user belongs to a pool exactly when its balance is positive, and its
/// weighted average always has a positive weight.
pub open spec fn user_wf(u: User) -> bool {
    &&& (u.pool is Some <==> u.balance > 0)
    &&& u.current_weighted_days > 0
}

/// Every user is well formed and belongs only to a pool that was created.
pub open spec fn users_wf(pools: Seq<Pool>, users: Seq<User>) -> bool {
    forall|j: int|
        0 <= j < users.len() ==> {
            &&& user_wf(#[trigger] users[j])
            &&& (users[j].pool matches Some(q) ==> pools[q.index() as int].is_initialized)
        }
}

/// The invariant that ties the pools' aggregates to the users.
pub open spec fn accounts_consistent(pools: Seq<Pool>, users: Seq<User>) -> bool {
    &&& pools_canonical(pools)
    &&& deposits_balanced(pools, users)
    &&& members_counted(pools, users)
    &&& predictions_summed(pools, users)
    &&& users_wf(pools, users)
}

/// The current round is open or resolving, and a resolving round has a winner.
pub open spec fn game_wf(g: Game) -> bool {
    &&& g.phase != RoundPhase::Settled
    &&& (g.phase == RoundPhase::Resolving ==> g.winning_pool is Some)
}

/// The pools with the contribution of `u` taken out of its pool.
pub open spec fn detach(pools: Seq<Pool>, u: User) -> Seq<Pool> {
    match u.pool {
        Some(q) => pools.update(q.index() as int, pools[q.index() as int].without(u)),
        None => pools,
    }
}

/// The pools with the contribution of `u` added to its pool.
pub open spec fn attach(pools: Seq<Pool>, u: User) -> Seq<Pool> {
    match u.pool {
        Some(q) => pools.update(q.index() as int, pools[q.index() as int].with(u)),
        None => pools,
    }
}

/// The pools after the user `old_u` has become `new_u`.
pub open spec fn reattribute(pools: Seq<Pool>, old_u: User, new_u: User) -> Seq<Pool> {
    attach(detach(pools, old_u), new_u)
}

/// Whether the pools' aggregates stay in range when `old_u` becomes `new_u`.
pub open spec fn can_reattribute(pools: Seq<Pool>, old_u: User, new_u: User) -> bool {
    match new_u.pool {
        Some(q) => detach(pools, old_u)[q.index() as int].can_take(new_u),
        None => true,
    }
}

/// Each pool's total deposit and user count move by exactly what the user
/// `old_u` took out of it and what `new_u` puts in.
pub open spec fn aggregates_moved(
    old_pools: Seq<Pool>,
    new_pools: Seq<Pool>,
    old_u: User,
    new_u: User,
) -> bool {
    forall|k: int|
        0 <= k < NUM_POOLS ==> {
            &&& (#[trigger] new_pools[k]).total_deposit == old_pools[k].total_deposit
                - deposit_of(Pools::at(k))(old_u) + deposit_of(Pools::at(k))(new_u)
            &&& new_pools[k].user_count == old_pools[k].user_count - member_of(Pools::at(k))(
                old_u,
            ) + member_of(Pools::at(k))(new_u)
        }
}

/// A user that contributes nothing to any pool.
pub open spec fn detached(u: User) -> User {
    User { pool: None, balance: 0, last_prediction: 0, ..u }
}

impl Ledger {
    /// The invariant that every operation of the engine requires and keeps.
    pub open spec fn wf(self) -> bool {
        &&& accounts_consistent(self.pools@, self.users@)
        &&& game_wf(self.game)
    }

    /// A store with the four pools not yet created, no users, and round 0
    /// open from `start_time` until `end_time`.
    pub fn new(start_time: i64, end_time: i64) -> (r: Ledger)
        ensures
            r.wf(),
            r.users@.len() == 0,
            forall|i: int| 0 <= i < NUM_POOLS ==> !(#[trigger] r.pools@[i]).is_initialized,
            r.game == (Game {
                game_id: 0,
                start_time,
                end_time,
                phase: RoundPhase::Open,
                winning_pool: None,
                winning_amount: 0,
                jackpot_paid: false,
                total_prize: 0,
            }),
    {
        let mut pools: Vec<Pool> = Vec::new();
        let mut i: usize = 0;
        while i < NUM_POOLS
            invariant
                0 <= i <= NUM_POOLS,
                pools@.len() == i,
                forall|j: int|
                    0 <= j < i ==> #[trigger] pools@[j] == (Pool {
                        is_initialized: false,
                        last_update_timestamp: 0,
                        total_deposit: 0,
                        user_count: 0,
                        name: Pools::at(j),
                        prediction_total: 0,
                        average_prediction: 0,
                    }),
            decreases NUM_POOLS - i,
        {
            pools.push(
                Pool {
                    is_initialized: false,
                    last_update_timestamp: 0,
                    total_deposit: 0,
                    user_count: 0,
                    name: Pools::from_index(i),
                    prediction_total: 0,
                    average_prediction: 0,
                },
            );
            i = i + 1;
        }
        let r = Ledger {
            pools,
            users: Vec::new(),
            game: Game {
                game_id: 0,
                start_time,
                end_time,
                phase: RoundPhase::Open,
                winning_pool: None,
                winning_amount: 0,
                jackpot_paid: false,
                total_prize: 0,
            },
        };
        proof {
            assert(accounts_consistent(r.pools@, r.users@));
        }
        r
    }
}

/// The mean of the predictions of a pool's members fits in a `u64`.
proof fn lemma_mean_fits(users: Seq<User>, p: Pools)
    requires
        forall|j: int| 0 <= j < users.len() ==> user_wf(#[trigger] users[j]),
    ensures
        0 <= mean(prediction_sum(users, p), member_count(users, p)) <= u64::MAX,
        member_count(users, p) == 0 ==> prediction_sum(users, p) == 0,
        member_count(users, p) >= 0,
{
    let f = prediction_of(p);
    let g = member_of(p);
    let c = u64::MAX as int;
    assert forall|j: int| 0 <= j < users.len() implies #[trigger] f(users[j]) <= c * g(users[j]) by {
        assert(user_wf(users[j]));
    }
    lemma_sum_scaled_bound(users, f, g, c);
    lemma_sum_nonneg(users, f);
    lemma_sum_nonneg(users, g);
    let t = sum_over(users, f);
    let n = sum_over(users, g);
    if n > 0 {
        assert(t / n <= c) by (nonlinear_arith)
            requires
                0 <= t <= c * n,
                n > 0,
        ;
        assert(t / n >= 0) by (nonlinear_arith)
            requires
                0 <= t,
                n > 0,
        ;
    }
}

/// Taking a user's contribution out of its pool leaves the accounts
/// consistent with that user detached, and needs no subtraction below zero.
proof fn lemma_detach(pools: Seq<Pool>, users: Seq<User>, i: int)
    requires
        accounts_consistent(pools, users),
        0 <= i < users.len(),
    ensures
        accounts_consistent(detach(pools, users[i]), users.update(i, detached(users[i]))),
        users[i].pool matches Some(q) ==> {
            let p = pools[q.index() as int];
            let u = users[i];
            &&& p.total_deposit >= u.balance
            &&& p.user_count >= weight(u)
            &&& p.prediction_total >= u.last_prediction
            &&& mean(p.prediction_total - u.last_prediction, p.user_count - weight(u))
                <= u64::MAX
        },
{
    let u = users[i];
    let b = detached(u);
    let v = users.update(i, b);
    let np = detach(pools, u);
    assert(user_wf(u));
    assert forall|k: int| 0 <= k < NUM_POOLS implies {
        &&& (#[trigger] np[k]).total_deposit == deposit_sum(v, np[k].name)
        &&& np[k].user_count == member_count(v, np[k].name)
        &&& np[k].prediction_total == prediction_sum(v, np[k].name)
        &&& np[k].average_prediction == mean(
            np[k].prediction_total as int,
            np[k].user_count as int,
        )
        &&& np[k].name == Pools::at(k)
        &&& np[k].is_initialized == pools[k].is_initialized
    } by {
        let p = Pools::at(k);
        assert(pools[k].name == p);
        lemma_sum_update(users, i, b, deposit_of(p));
        lemma_sum_update(users, i, b, member_of(p));
        lemma_sum_update(users, i, b, prediction_of(p));
        assert forall|j: int| 0 <= j < v.len() implies user_wf(#[trigger] v[j]) by {
            if j != i {
                assert(user_wf(users[j]));
            }
        }
        lemma_mean_fits(v, p);
        lemma_sum_nonneg(v, deposit_of(p));
        lemma_sum_nonneg(v, prediction_of(p));
        if let Some(q) = u.pool {
            q.lemma_index_at();
        }
    }
    if let Some(q) = u.pool {
        q.lemma_index_at();
        let k = q.index() as int;
        assert(pools[k].name == q);
        lemma_sum_update(users, i, b, deposit_of(q));
        lemma_sum_update(users, i, b, member_of(q));
        lemma_sum_update(users, i, b, prediction_of(q));
        lemma_sum_nonneg(v, deposit_of(q));
        lemma_sum_nonneg(v, prediction_of(q));
        lemma_mean_fits(v, q);
    }
    assert forall|j: int| 0 <= j < v.len() implies {
        &&& user_wf(#[trigger] v[j])
        &&& (v[j].pool matches Some(q) ==> np[q.index() as int].is_initialized)
    } by {
        if j != i {
            assert(user_wf(users[j]));
            if let Some(q) = users[j].pool {
                q.lemma_index_at();
            }
        }
    }
}

/// Adding the contribution of a user that had none keeps the accounts
/// consistent, and the new mean fits in a `u64`.
proof fn lemma_attach(pools: Seq<Pool>, users: Seq<User>, i: int, u: User)
    requires
        accounts_consistent(pools, users),
        0 <= i < users.len(),
        users[i].pool is None,
        user_wf(u),
        u.pool matches Some(q) ==> pools[q.index() as int].is_initialized && pools[q.index() as int].can_take(u),
    ensures
        accounts_consistent(attach(pools, u), users.update(i, u)),
        u.pool matches Some(q) ==> {
            let p = pools[q.index() as int];
            mean(p.prediction_total + u.last_prediction, p.user_count + weight(u)) <= u64::MAX
        },
{
    let old_u = users[i];
    let v = users.update(i, u);
    let np = attach(pools, u);
    assert(user_wf(old_u));
    assert forall|j: int| 0 <= j < v.len() implies user_wf(#[trigger] v[j]) by {
        if j != i {
            assert(user_wf(users[j]));
        }
    }
    assert forall|k: int| 0 <= k < NUM_POOLS implies {
        &&& (#[trigger] np[k]).total_deposit == deposit_sum(v, np[k].name)
        &&& np[k].user_count == member_count(v, np[k].name)
        &&& np[k].prediction_total == prediction_sum(v, np[k].name)
        &&& np[k].average_prediction == mean(
            np[k].prediction_total as int,
            np[k].user_count as int,
        )
        &&& np[k].name == Pools::at(k)
        &&& np[k].is_initialized == pools[k].is_initialized
    } by {
        let p = Pools::at(k);
        assert(pools[k].name == p);
        lemma_sum_update(users, i, u, deposit_of(p));
        lemma_sum_update(users, i, u, member_of(p));
        lemma_sum_update(users, i, u, prediction_of(p));
        lemma_mean_fits(v, p);
    }
    if let Some(q) = u.pool {
        let k = q.index() as int;
        q.lemma_index_at();
        assert(np[k].name == q);
    }
    assert forall|j: int| 0 <= j < v.len() implies {
        &&& user_wf(#[trigger] v[j])
        &&& (v[j].pool matches Some(q) ==> np[q.index() as int].is_initialized)
    } by {
        if j != i {
            assert(user_wf(users[j]));
            if let Some(q) = users[j].pool {
                q.lemma_index_at();
            }
        } else {
            if let Some(q) = u.pool {
                q.lemma_index_at();
            }
        }
    }
}

impl Ledger {
    /// Whether the pools' aggregates stay in range when user `i` becomes `new_u`.
    pub fn can_replace_user(&self, i: usize, new_u: &User) -> (r: bool)
        requires
            self.wf(),
            i < self.users@.len(),
        ensures
            r == can_reattribute(self.pools@, self.users@[i as int], *new_u),
    {
        let old_u = self.users[i];
        proof {
            lemma_detach(self.pools@, self.users@, i as int);
        }
        match new_u.pool {
            None => true,
            Some(q) => {
                let k = q.to_index();
                let p = self.pools[k];
                let p = match old_u.pool {
                    Some(o) => {
                        if o.to_index() == k {
                            p.remove_member(&old_u)
                        } else {
                            p
                        }
                    },
                    None => p,
                };
                p.fits(new_u)
            },
        }
    }

    /// Replaces user `i` by `new_u` and moves its contribution between the
    /// pools' aggregates accordingly.
    pub(crate) fn replace_user(&mut self, i: usize, new_u: User)
        requires
            old(self).wf(),
            i < old(self).users@.len(),
            user_wf(new_u),
            new_u.pool matches Some(q) ==> old(self).pools@[q.index() as int].is_initialized,
            can_reattribute(old(self).pools@, old(self).users@[i as int], new_u),
        ensures
            final(self).wf(),
            final(self).pools@ == reattribute(
                old(self).pools@,
                old(self).users@[i as int],
                new_u,
            ),
            final(self).users@ == old(self).users@.update(i as int, new_u),
            final(self).game == old(self).game,
            aggregates_moved(
                old(self).pools@,
                final(self).pools@,
                old(self).users@[i as int],
                new_u,
            ),
    {
        let old_u = self.users[i];
        let ghost pools0 = self.pools@;
        let ghost users0 = self.users@;
        proof {
            lemma_detach(pools0, users0, i as int);
        }
        if let Some(q) = old_u.pool {
            let k = q.to_index();
            let p = self.pools[k].remove_member(&old_u);
            self.pools.set(k, p);
        }
        let ghost users1 = users0.update(i as int, detached(old_u));
        proof {
            assert(self.pools@ =~= detach(pools0, old_u));
            assert(users1[i as int].pool is None);
            lemma_attach(self.pools@, users1, i as int, new_u);
            assert(users1.update(i as int, new_u) =~= users0.update(i as int, new_u));
        }
        if let Some(q) = new_u.pool {
            let k = q.to_index();
            let p = self.pools[k].add_member(&new_u);
            self.pools.set(k, p);
        }
        self.users.set(i, new_u);
        proof {
            assert(self.pools@ =~= reattribute(pools0, old_u, new_u));
            let pools1 = self.pools@;
            assert forall|k: int| 0 <= k < NUM_POOLS implies {
                &&& (#[trigger] pools1[k]).total_deposit == pools0[k].total_deposit
                    - deposit_of(Pools::at(k))(old_u) + deposit_of(Pools::at(k))(new_u)
                &&& pools1[k].user_count == pools0[k].user_count - member_of(Pools::at(k))(
                    old_u,
                ) + member_of(Pools::at(k))(new_u)
            } by {
                lemma_sum_update(users0, i as int, new_u, deposit_of(Pools::at(k)));
                lemma_sum_update(users0, i as int, new_u, member_of(Pools::at(k)));
                assert(pools0[k].name == Pools::at(k));
                assert(pools1[k].name == Pools::at(k));
            }
        }
    }
}

/// The three aggregates of pool `p` over `users`: total deposit, member count
/// and prediction total.
fn pool_sums(users: &Vec<User>, p: Pools) -> (r: (u128, u128, u128))
    ensures
        r.0 == deposit_sum(users@, p),
        r.1 == member_count(users@, p),
        r.2 == prediction_sum(users@, p),
{
    let mut deposits: u128 = 0;
    let mut members: u128 = 0;
    let mut predictions: u128 = 0;
    let mut j: usize = 0;
    while j < users.len()
        invariant
            0 <= j <= users@.len(),
            deposits == sum_over(users@.take(j as int), deposit_of(p)),
            members == sum_over(users@.take(j as int), member_of(p)),
            predictions == sum_over(users@.take(j as int), prediction_of(p)),
            deposits <= j * u64::MAX,
            members <= j,
            predictions <= j * u64::MAX,
        decreases users@.len() - j,
    {
        let u = users[j];
        proof {
            lemma_sum_take_step(users@, j as int, deposit_of(p));
            lemma_sum_take_step(users@, j as int, member_of(p));
            lemma_sum_take_step(users@, j as int, prediction_of(p));
            assert((j + 1) * u64::MAX <= u128::MAX) by (nonlinear_arith)
                requires
                    j < usize::MAX,
                    usize::MAX <= u64::MAX,
            ;
            assert((j + 1) * u64::MAX == j * u64::MAX + u64::MAX) by (nonlinear_arith);
        }
        let attributed = match u.pool {
            Some(q) => q == p,
            None => false,
        };
        if attributed {
            deposits = deposits + u.balance as u128;
            predictions = predictions + u.last_prediction as u128;
            if u.balance > 0 {
                members = members + 1;
            }
        }
        j = j + 1;
    }
    proof {
        assert(users@.take(users@.len() as int) =~= users@);
    }
    (deposits, members, predictions)
}

impl Ledger {
    /// Whether the store is well formed: the pools' aggregates agree with the
    /// users, every user is well formed, and the round is open or resolving.
    pub fn check_wf(&self) -> (r: bool)
        ensures
            r == self.wf(),
    {
        if self.pools.len() != NUM_POOLS {
            return false;
        }
        match self.game.phase {
            RoundPhase::Settled => {
                return false;
            },
            RoundPhase::Resolving => {
                if self.game.winning_pool.is_none() {
                    return false;
                }
            },
            RoundPhase::Open => {},
        }
        let mut k: usize = 0;
        while k < NUM_POOLS
            invariant
                0 <= k <= NUM_POOLS,
                self.pools@.len() == NUM_POOLS,
                forall|i: int|
                    0 <= i < k ==> {
                        &&& (#[trigger] self.pools@[i]).name == Pools::at(i)
                        &&& self.pools@[i].total_deposit == deposit_sum(self.users@, Pools::at(i))
                        &&& self.pools@[i].user_count == member_count(self.users@, Pools::at(i))
                        &&& self.pools@[i].prediction_total == prediction_sum(
                            self.users@,
                            Pools::at(i),
                        )
                        &&& self.pools@[i].average_prediction == mean(
                            self.pools@[i].prediction_total as int,
                            self.pools@[i].user_count as int,
                        )
                    },
            decreases NUM_POOLS - k,
        {
            let p = self.pools[k];
            let name = Pools::from_index(k);
            if p.name != name {
                return false;
            }
            let (deposits, members, predictions) = pool_sums(&self.users, name);
            if p.total_deposit as u128 != deposits || p.user_count as u128 != members
                || p.prediction_total != predictions {
                return false;
            }
            let average: u128 = if p.user_count == 0 {
                0
            } else {
                p.prediction_total / p.user_count as u128
            };
            if p.average_prediction as u128 != average {
                return false;
            }
            k = k + 1;
        }
        let mut j: usize = 0;
        while j < self.users.len()
            invariant
                0 <= j <= self.users@.len(),
                self.pools@.len() == NUM_POOLS,
                forall|i: int|
                    0 <= i < j ==> {
                        &&& user_wf(#[trigger] self.users@[i])
                        &&& (self.users@[i].pool matches Some(q) ==> self.pools@[q.index() as int].is_initialized)
                    },
            decreases self.users@.len() - j,
        {
            let u = self.users[j];
            if u.pool.is_some() != (u.balance > 0) || u.current_weighted_days == 0 {
                return false;
            }
            match u.pool {
                Some(q) => {
                    if !self.pools[q.to_index()].is_initialized {
                        return false;
                    }
                },
                None => {},
            }
            j = j + 1;
        }
        true
    }
}

} // verus!
