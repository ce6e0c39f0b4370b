//! Properties that relate several operations or several calls. What holds
//! of a single call stands in that operation's own contract.
use vstd::prelude::*;

use crate::ledger::{sum_amounts, sums_fit, FinanceManager};
use crate::records::{Asset, Transaction};

verus! {

/// Owners are isolated: if each of two successive steps changes nothing
/// but `owner`'s lists (as every mutating operation on `owner` ensures),
/// then together they leave the administrator and every other owner's
/// lists as they were. By induction, so do any number of such steps.
pub proof fn lemma_isolation_composes(
    m0: FinanceManager,
    m1: FinanceManager,
    m2: FinanceManager,
    owner: Seq<char>,
)
    requires
        m1.same_except(m0, owner),
        m2.same_except(m1, owner),
    ensures
        m2.same_except(m0, owner),
{
    assert forall|o: Seq<char>| o != owner implies #[trigger] m2.assets_of(o) == m0.assets_of(o) by {
        assert(m1.assets_of(o) == m0.assets_of(o));
    }
    assert forall|o: Seq<char>| o != owner implies #[trigger] m2.transactions_of(o) == m0.transactions_of(o) by {
        assert(m1.transactions_of(o) == m0.transactions_of(o));
    }
    assert forall|o: Seq<char>| o != owner implies #[trigger] m2.goals_of(o) == m0.goals_of(o) by {
        assert(m1.goals_of(o) == m0.goals_of(o));
    }
}

/// Step `i` of `states` changes nothing but `owner`'s lists.
pub open spec fn step_isolated(states: Seq<FinanceManager>, owner: Seq<char>, i: int) -> bool {
    states[i + 1].same_except(states[i], owner)
}

/// Owners are isolated over a run of any length: if every step changes
/// nothing but `owner`'s lists (as every operation on `owner` ensures),
/// the last state holds the same administrator and the same lists for
/// every other owner as the first.
pub proof fn lemma_isolation_over_run(states: Seq<FinanceManager>, owner: Seq<char>)
    requires
        states.len() >= 1,
        forall|i: int| 0 <= i < states.len() - 1 ==> #[trigger] step_isolated(states, owner, i),
    ensures
        states.last().same_except(states[0], owner),
    decreases states.len(),
{
    if states.len() > 1 {
        let prefix = states.drop_last();
        assert forall|i: int| 0 <= i < prefix.len() - 1 implies #[trigger] step_isolated(prefix, owner, i) by {
            assert(step_isolated(states, owner, i));
        }
        lemma_isolation_over_run(prefix, owner);
        assert(step_isolated(states, owner, states.len() - 2));
        lemma_isolation_composes(states[0], prefix.last(), states.last(), owner);
    }
}

/// The assets that a run of steps appends to one owner's list, in order:
/// `Some(a)` for a step that appends `a`, `None` for one that leaves the
/// list alone.
pub open spec fn appended(pushed: Seq<Option<Asset>>) -> Seq<Asset>
    decreases pushed.len(),
{
    if pushed.len() == 0 {
        Seq::empty()
    } else {
        let rest = appended(pushed.drop_last());
        match pushed.last() {
            Some(a) => rest.push(a),
            None => rest,
        }
    }
}

/// Step `i` of `states` appends `pushed[i]` to `owner`'s assets, if it is
/// `Some`, and otherwise leaves them alone.
pub open spec fn step_appends(
    states: Seq<FinanceManager>,
    pushed: Seq<Option<Asset>>,
    owner: Seq<char>,
    i: int,
) -> bool {
    match pushed[i] {
        Some(a) => states[i + 1].assets_of(owner) == states[i].assets_of(owner).push(a),
        None => states[i + 1].assets_of(owner) == states[i].assets_of(owner),
    }
}

/// Appends keep their order over a run of any length, whatever happens to
/// other owners in between: the owner's list ends with exactly the assets
/// submitted, in submission order, after what was there.
pub proof fn lemma_assets_in_submission_order(
    states: Seq<FinanceManager>,
    pushed: Seq<Option<Asset>>,
    owner: Seq<char>,
)
    requires
        states.len() == pushed.len() + 1,
        forall|i: int| 0 <= i < pushed.len() ==> #[trigger] step_appends(states, pushed, owner, i),
    ensures
        states.last().assets_of(owner) == states[0].assets_of(owner) + appended(pushed),
    decreases pushed.len(),
{
    if pushed.len() == 0 {
        assert(states[0].assets_of(owner) + appended(pushed) =~= states[0].assets_of(owner));
    } else {
        let states0 = states.drop_last();
        let pushed0 = pushed.drop_last();
        assert forall|i: int| 0 <= i < pushed0.len() implies #[trigger] step_appends(states0, pushed0, owner, i) by {
            assert(step_appends(states, pushed, owner, i));
        }
        lemma_assets_in_submission_order(states0, pushed0, owner);
        let k = pushed.len() - 1;
        assert(step_appends(states, pushed, owner, k));
        let before = states[0].assets_of(owner);
        let rest = appended(pushed0);
        match pushed.last() {
            Some(a) => {
                assert((before + rest).push(a) =~= before + rest.push(a));
            },
            None => {},
        }
    }
}

/// An owner with no assets has a net worth of 0, and summing never
/// overflows for them.
pub proof fn lemma_no_assets_no_worth(m: FinanceManager, owner: Seq<char>)
    requires
        m.assets_of(owner).len() == 0,
    ensures
        sums_fit(m.assets_of(owner)),
        sum_amounts(m.assets_of(owner)) == 0,
{
    let s = m.assets_of(owner);
    assert forall|k: int| 0 <= k <= s.len() implies i128::MIN <= #[trigger] sum_amounts(s.take(k)) <= i128::MAX by {
        assert(s.take(k).len() == 0);
    }
}

/// Two transactions recorded one after the other at the same clock reading
/// `t` carry the same timestamp, `t`.
pub proof fn lemma_same_reading_same_stamp(
    m0: FinanceManager,
    m1: FinanceManager,
    m2: FinanceManager,
    owner: Seq<char>,
    t: u64,
    x: Transaction,
    y: Transaction,
)
    requires
        x.timestamp == t,
        y.timestamp == t,
        m1.transactions_of(owner) == m0.transactions_of(owner).push(x),
        m2.transactions_of(owner) == m1.transactions_of(owner).push(y),
    ensures
        m2.transactions_of(owner).len() == m0.transactions_of(owner).len() + 2,
        m2.transactions_of(owner)[m0.transactions_of(owner).len() as int].timestamp == t,
        m2.transactions_of(owner)[m0.transactions_of(owner).len() as int + 1].timestamp == t,
{
}

} // verus!
