use vstd::prelude::*;

use crate::pools::Pools;
use crate::records::{Pool, User};

verus! {

/// The sum of `f` over `users`.
pub open spec fn sum_over(users: Seq<User>, f: spec_fn(User) -> int) -> int
    decreases users.len(),
{
    if users.len() == 0 {
        0
    } else {
        sum_over(users.drop_last(), f) + f(users.last())
    }
}

/// What a user adds to the total deposit of pool `p`.
pub open spec fn deposit_of(p: Pools) -> spec_fn(User) -> int {
    |u: User| if u.pool == Some(p) { u.balance as int } else { 0 }
}

/// Whether a user counts as a member of pool `p` (1) or not (0).
pub open spec fn member_of(p: Pools) -> spec_fn(User) -> int {
    |u: User| if u.pool == Some(p) && u.balance > 0 { 1 } else { 0 }
}

/// What a user adds to the prediction total of pool `p`.
pub open spec fn prediction_of(p: Pools) -> spec_fn(User) -> int {
    |u: User| if u.pool == Some(p) { u.last_prediction as int } else { 0 }
}

/// Sum of the balances of the users attributed to `p`.
pub open spec fn deposit_sum(users: Seq<User>, p: Pools) -> int {
    sum_over(users, deposit_of(p))
}

/// Number of users attributed to `p` with a positive balance.
pub open spec fn member_count(users: Seq<User>, p: Pools) -> int {
    sum_over(users, member_of(p))
}

/// Sum of the last predictions of the users attributed to `p`.
pub open spec fn prediction_sum(users: Seq<User>, p: Pools) -> int {
    sum_over(users, prediction_of(p))
}

/// Mean of a total over `count` items, rounded down; 0 for no items.
pub open spec fn mean(total: int, count: int) -> int {
    if count <= 0 {
        0
    } else {
        total / count
    }
}

/// 1 for a user with a positive balance, else 0.
pub open spec fn weight(u: User) -> int {
    if u.balance > 0 {
        1
    } else {
        0
    }
}

impl Pool {
    /// The pool with the contribution of `u` taken out.
    pub open spec fn without(self, u: User) -> Pool {
        let total = self.prediction_total - u.last_prediction;
        let count = self.user_count - weight(u);
        Pool {
            total_deposit: (self.total_deposit - u.balance) as u64,
            user_count: count as u64,
            prediction_total: total as u128,
            average_prediction: mean(total, count) as u64,
            ..self
        }
    }

    /// The pool with the contribution of `u` added.
    pub open spec fn with(self, u: User) -> Pool {
        let total = self.prediction_total + u.last_prediction;
        let count = self.user_count + weight(u);
        Pool {
            total_deposit: (self.total_deposit + u.balance) as u64,
            user_count: count as u64,
            prediction_total: total as u128,
            average_prediction: mean(total, count) as u64,
            ..self
        }
    }

    /// Whether adding the contribution of `u` keeps every aggregate in range.
    pub open spec fn can_take(self, u: User) -> bool {
        &&& self.total_deposit + u.balance <= u64::MAX
        &&& self.user_count + weight(u) <= u64::MAX
        &&& self.prediction_total + u.last_prediction <= u128::MAX
    }

    pub fn remove_member(&self, u: &User) -> (r: Pool)
        requires
            self.total_deposit >= u.balance,
            self.user_count >= weight(*u),
            self.prediction_total >= u.last_prediction,
            mean(self.prediction_total - u.last_prediction, self.user_count - weight(*u))
                <= u64::MAX,
        ensures
            r == self.without(*u),
    {
        let total: u128 = self.prediction_total - u.last_prediction as u128;
        let count: u64 = if u.balance > 0 {
            self.user_count - 1
        } else {
            self.user_count
        };
        let average: u64 = if count == 0 {
            0
        } else {
            (total / count as u128) as u64
        };
        Pool {
            total_deposit: self.total_deposit - u.balance,
            user_count: count,
            prediction_total: total,
            average_prediction: average,
            ..*self
        }
    }

    pub fn add_member(&self, u: &User) -> (r: Pool)
        requires
            self.can_take(*u),
            mean(self.prediction_total + u.last_prediction, self.user_count + weight(*u))
                <= u64::MAX,
        ensures
            r == self.with(*u),
    {
        let total: u128 = self.prediction_total + u.last_prediction as u128;
        let count: u64 = if u.balance > 0 {
            self.user_count + 1
        } else {
            self.user_count
        };
        let average: u64 = if count == 0 {
            0
        } else {
            (total / count as u128) as u64
        };
        Pool {
            total_deposit: self.total_deposit + u.balance,
            user_count: count,
            prediction_total: total,
            average_prediction: average,
            ..*self
        }
    }

    /// Whether adding `u` keeps every aggregate in range.
    pub fn fits(&self, u: &User) -> (r: bool)
        ensures
            r == self.can_take(*u),
    {
        self.total_deposit <= u64::MAX - u.balance
            && (u.balance == 0 || self.user_count < u64::MAX)
            && self.prediction_total <= u128::MAX - u.last_prediction as u128
    }
}

/// Replacing one user changes a sum by the difference of its two terms.
pub proof fn lemma_sum_update(users: Seq<User>, i: int, u: User, f: spec_fn(User) -> int)
    requires
        0 <= i < users.len(),
    ensures
        sum_over(users.update(i, u), f) == sum_over(users, f) - f(users[i]) + f(u),
    decreases users.len(),
{
    let v = users.update(i, u);
    if i == users.len() - 1 {
        assert(v.drop_last() =~= users.drop_last());
    } else {
        assert(v.drop_last() =~= users.drop_last().update(i, u));
        lemma_sum_update(users.drop_last(), i, u, f);
    }
}

/// Appending a user adds its term to a sum.
pub proof fn lemma_sum_push(users: Seq<User>, u: User, f: spec_fn(User) -> int)
    ensures
        sum_over(users.push(u), f) == sum_over(users, f) + f(u),
{
    assert(users.push(u).drop_last() =~= users);
}

/// A sum of terms each bounded by `c` times another term is bounded by `c`
/// times the other sum.
pub proof fn lemma_sum_scaled_bound(
    users: Seq<User>,
    f: spec_fn(User) -> int,
    g: spec_fn(User) -> int,
    c: int,
)
    requires
        c >= 0,
        forall|j: int| 0 <= j < users.len() ==> #[trigger] f(users[j]) <= c * g(users[j]),
    ensures
        sum_over(users, f) <= c * sum_over(users, g),
    decreases users.len(),
{
    if users.len() > 0 {
        let init = users.drop_last();
        assert forall|j: int| 0 <= j < init.len() implies #[trigger] f(init[j]) <= c * g(init[j]) by {
            assert(init[j] == users[j]);
        }
        lemma_sum_scaled_bound(init, f, g, c);
        let a = sum_over(init, g);
        let b = g(users.last());
        assert(c * a + c * b == c * (a + b)) by (nonlinear_arith);
    }
}

/// A sum of terms that are all nonnegative is nonnegative.
pub proof fn lemma_sum_nonneg(users: Seq<User>, f: spec_fn(User) -> int)
    requires
        forall|u: User| #[trigger] f(u) >= 0,
    ensures
        sum_over(users, f) >= 0,
    decreases users.len(),
{
    if users.len() > 0 {
        lemma_sum_nonneg(users.drop_last(), f);
    }
}

/// A sum whose terms are all zero is zero.
pub proof fn lemma_sum_zero(users: Seq<User>, f: spec_fn(User) -> int)
    requires
        forall|j: int| 0 <= j < users.len() ==> #[trigger] f(users[j]) == 0,
    ensures
        sum_over(users, f) == 0,
    decreases users.len(),
{
    if users.len() > 0 {
        let init = users.drop_last();
        assert forall|j: int| 0 <= j < init.len() implies #[trigger] f(init[j]) == 0 by {
            assert(init[j] == users[j]);
        }
        lemma_sum_zero(init, f);
    }
}

/// One nonnegative term never exceeds the sum.
pub proof fn lemma_term_le_sum(users: Seq<User>, i: int, f: spec_fn(User) -> int)
    requires
        0 <= i < users.len(),
        forall|u: User| #[trigger] f(u) >= 0,
    ensures
        f(users[i]) <= sum_over(users, f),
    decreases users.len(),
{
    let w = users.drop_last();
    if i == users.len() - 1 {
        lemma_sum_nonneg(w, f);
    } else {
        assert(w[i] == users[i]);
        lemma_term_le_sum(w, i, f);
    }
}

/// Sums whose terms agree position by position are equal.
pub proof fn lemma_sum_congruent(a: Seq<User>, b: Seq<User>, f: spec_fn(User) -> int)
    requires
        a.len() == b.len(),
        forall|j: int| 0 <= j < a.len() ==> #[trigger] f(a[j]) == f(b[j]),
    ensures
        sum_over(a, f) == sum_over(b, f),
    decreases a.len(),
{
    if a.len() > 0 {
        let a0 = a.drop_last();
        let b0 = b.drop_last();
        assert forall|j: int| 0 <= j < a0.len() implies #[trigger] f(a0[j]) == f(b0[j]) by {
            assert(a0[j] == a[j] && b0[j] == b[j]);
        }
        lemma_sum_congruent(a0, b0, f);
        assert(f(a[a.len() - 1]) == f(b[b.len() - 1]));
    }
}

/// A sum over the first `j + 1` users adds the term of user `j` to the sum
/// over the first `j`.
pub proof fn lemma_sum_take_step(users: Seq<User>, j: int, f: spec_fn(User) -> int)
    requires
        0 <= j < users.len(),
    ensures
        sum_over(users.take(j + 1), f) == sum_over(users.take(j), f) + f(users[j]),
{
    assert(users.take(j + 1).drop_last() =~= users.take(j));
}

} // verus!
