use vstd::prelude::*;

use crate::address::Address;
use crate::records::{Asset, DataKey, FinanceError, Goal, Transaction};

verus! {

/// Everything stored for one owner.
struct Account {
    owner: Address,
    assets: Vec<Asset>,
    transactions: Vec<Transaction>,
    goals: Vec<Goal>,
}

/// Position of the last account of `owner` in `s`, or -1 if it has none.
spec fn index_of(s: Seq<Account>, owner: Seq<char>) -> int
    decreases s.len(),
{
    if s.len() == 0 {
        -1
    } else if s.last().owner@ == owner {
        s.len() - 1
    } else {
        index_of(s.drop_last(), owner)
    }
}

proof fn lemma_index_of_range(s: Seq<Account>, owner: Seq<char>)
    ensures
        -1 <= index_of(s, owner) < s.len(),
        index_of(s, owner) >= 0 ==> s[index_of(s, owner)].owner@ == owner,
    decreases s.len(),
{
    if s.len() > 0 && s.last().owner@ != owner {
        lemma_index_of_range(s.drop_last(), owner);
    }
}

/// Lookups only depend on the owners, position by position.
proof fn lemma_index_of_same_owners(s: Seq<Account>, t: Seq<Account>, owner: Seq<char>)
    requires
        s.len() == t.len(),
        forall|i: int| 0 <= i < s.len() ==> s[i].owner@ == t[i].owner@,
    ensures
        index_of(s, owner) == index_of(t, owner),
    decreases s.len(),
{
    if s.len() > 0 {
        lemma_index_of_same_owners(s.drop_last(), t.drop_last(), owner);
    }
}

/// Putting back, at its own position, an account with the same owner
/// changes no lookup.
proof fn lemma_index_of_put(s: Seq<Account>, i: int, a: Account)
    requires
        0 <= i < s.len(),
        a.owner@ == s[i].owner@,
    ensures
        forall|o: Seq<char>| #[trigger] index_of(s.update(i, a), o) == index_of(s, o),
{
    assert forall|o: Seq<char>| #[trigger] index_of(s.update(i, a), o) == index_of(s, o) by {
        lemma_index_of_same_owners(s.update(i, a), s, o);
    }
}

/// Whether `signer` proves the identity `user`.
pub open spec fn signed_by(signer: Option<Address>, user: Seq<char>) -> bool {
    match signer {
        Some(s) => s@ == user,
        None => false,
    }
}

/// `g` with `amount_added` added to its progress.
pub open spec fn progressed(g: Goal, amount_added: i128) -> Goal {
    Goal {
        name: g.name,
        target_amount: g.target_amount,
        current_amount: (g.current_amount + amount_added) as i128,
        deadline: g.deadline,
    }
}

/// Whether adding `amount_added` to the progress of `g` stays in `i128`.
pub open spec fn progress_fits(g: Goal, amount_added: i128) -> bool {
    i128::MIN <= g.current_amount + amount_added <= i128::MAX
}

/// Whether `signer` proves the identity of `user`.
fn signer_is(signer: &Option<Address>, user: &Address) -> (r: bool)
    ensures
        r == signed_by(*signer, user@),
{
    match signer {
        Some(s) => *s == *user,
        None => false,
    }
}

/// The sum of the amounts of `assets`, in `int`.
pub open spec fn sum_amounts(assets: Seq<Asset>) -> int
    decreases assets.len(),
{
    if assets.len() == 0 {
        0
    } else {
        sum_amounts(assets.drop_last()) + assets.last().amount
    }
}

/// Every running total of `assets`, taken in list order, fits in `i128`.
pub open spec fn sums_fit(assets: Seq<Asset>) -> bool {
    forall|k: int|
        0 <= k <= assets.len() ==> i128::MIN <= #[trigger] sum_amounts(assets.take(k))
            <= i128::MAX
}

/// The ledger's state: the administrator and each owner's three lists.
pub struct FinanceManager {
    admin: Option<Address>,
    accounts: Vec<Account>,
}

impl FinanceManager {
    /// The administrator's identity, once set.
    pub closed spec fn admin_spec(&self) -> Option<Seq<char>> {
        match self.admin {
            Some(a) => Some(a@),
            None => None,
        }
    }

    /// The assets of `owner`, in the order they were added.
    pub closed spec fn assets_of(&self, owner: Seq<char>) -> Seq<Asset> {
        let i = index_of(self.accounts@, owner);
        if i >= 0 {
            self.accounts@[i].assets@
        } else {
            Seq::empty()
        }
    }

    /// The transactions of `owner`, in the order they were recorded.
    pub closed spec fn transactions_of(&self, owner: Seq<char>) -> Seq<Transaction> {
        let i = index_of(self.accounts@, owner);
        if i >= 0 {
            self.accounts@[i].transactions@
        } else {
            Seq::empty()
        }
    }

    /// The goals of `owner`, in the order they were created.
    pub closed spec fn goals_of(&self, owner: Seq<char>) -> Seq<Goal> {
        let i = index_of(self.accounts@, owner);
        if i >= 0 {
            self.accounts@[i].goals@
        } else {
            Seq::empty()
        }
    }

    /// Whether storage holds an entry under `key`. A list is stored from
    /// its first append on, and nothing is ever removed, so a list is
    /// stored exactly when it is not empty.
    pub open spec fn stored(&self, key: DataKey) -> bool {
        match key {
            DataKey::Admin => self.admin_spec() is Some,
            DataKey::UserAssets(a) => self.assets_of(a@).len() > 0,
            DataKey::UserTransactions(a) => self.transactions_of(a@).len() > 0,
            DataKey::UserGoals(a) => self.goals_of(a@).len() > 0,
        }
    }

    /// `self` holds the same administrator as `other`, and the same three
    /// lists for every owner but `owner`.
    pub open spec fn same_except(&self, other: FinanceManager, owner: Seq<char>) -> bool {
        &&& self.admin_spec() == other.admin_spec()
        &&& forall|o: Seq<char>| o != owner ==> #[trigger] self.assets_of(o) == other.assets_of(o)
        &&& forall|o: Seq<char>|
            o != owner ==> #[trigger] self.transactions_of(o) == other.transactions_of(o)
        &&& forall|o: Seq<char>| o != owner ==> #[trigger] self.goals_of(o) == other.goals_of(o)
    }

    /// A ledger with no administrator and nothing stored.
    pub fn new() -> (r: FinanceManager)
        ensures
            r.admin_spec() is None,
            forall|o: Seq<char>| r.assets_of(o) == Seq::<Asset>::empty(),
            forall|o: Seq<char>| r.transactions_of(o) == Seq::<Transaction>::empty(),
            forall|o: Seq<char>| r.goals_of(o) == Seq::<Goal>::empty(),
    {
        FinanceManager { admin: None, accounts: Vec::new() }
    }

    /// A ledger that holds `admin`, if it is set, and the three stored lists
    /// of `owner`: what one operation on `owner` reads from storage.
    pub fn load(
        admin: Option<Address>,
        owner: Address,
        assets: Vec<Asset>,
        transactions: Vec<Transaction>,
        goals: Vec<Goal>,
    ) -> (r: FinanceManager)
        ensures
            admin is None ==> r.admin_spec() is None,
            admin matches Some(a) ==> r.admin_spec() == Some(a@),
            r.assets_of(owner@) == assets@,
            r.transactions_of(owner@) == transactions@,
            r.goals_of(owner@) == goals@,
            forall|o: Seq<char>| o != owner@ ==> #[trigger] r.assets_of(o) == Seq::<Asset>::empty(),
            forall|o: Seq<char>|
                o != owner@ ==> #[trigger] r.transactions_of(o) == Seq::<Transaction>::empty(),
            forall|o: Seq<char>| o != owner@ ==> #[trigger] r.goals_of(o) == Seq::<Goal>::empty(),
    {
        let mut accounts: Vec<Account> = Vec::new();
        accounts.push(Account { owner, assets, transactions, goals });
        let r = FinanceManager { admin, accounts };
        assert(r.accounts@.drop_last() =~= Seq::<Account>::empty());
        assert forall|o: Seq<char>| o != r.accounts@[0].owner@ implies #[trigger] index_of(r.accounts@, o) == -1 by {
            assert(index_of(r.accounts@.drop_last(), o) == -1);
        }
        r
    }

    /// Position of `owner`'s account, if it has one.
    fn find(&self, owner: &Address) -> (r: Option<usize>)
        ensures
            match r {
                Some(i) => i < self.accounts@.len() && i as int == index_of(self.accounts@, owner@),
                None => index_of(self.accounts@, owner@) == -1,
            },
    {
        let mut i: usize = self.accounts.len();
        assert(self.accounts@.take(i as int) =~= self.accounts@);
        while i > 0
            invariant
                i <= self.accounts@.len(),
                index_of(self.accounts@, owner@) == index_of(self.accounts@.take(i as int), owner@),
            decreases i,
        {
            let ghost prefix = self.accounts@.take(i as int);
            if self.accounts[i - 1].owner == *owner {
                return Some(i - 1);
            }
            assert(prefix.drop_last() =~= self.accounts@.take(i - 1));
            i = i - 1;
        }
        None
    }

    /// Position of `owner`'s account, made empty first if it has none.
    fn slot(&mut self, owner: &Address) -> (i: usize)
        ensures
            i < final(self).accounts@.len(),
            i as int == index_of(final(self).accounts@, owner@),
            final(self).admin == old(self).admin,
            forall|o: Seq<char>| #[trigger] final(self).assets_of(o) == old(self).assets_of(o),
            forall|o: Seq<char>| #[trigger] final(self).transactions_of(o) == old(self).transactions_of(o),
            forall|o: Seq<char>| #[trigger] final(self).goals_of(o) == old(self).goals_of(o),
    {
        match self.find(owner) {
            Some(i) => i,
            None => {
                let account = Account {
                    owner: owner.clone(),
                    assets: Vec::new(),
                    transactions: Vec::new(),
                    goals: Vec::new(),
                };
                let ghost before = self.accounts@;
                self.accounts.push(account);
                assert(self.accounts@.drop_last() =~= before);
                assert forall|o: Seq<char>| #[trigger] self.assets_of(o) == old(self).assets_of(o) by {
                    lemma_index_of_range(before, o);
                }
                assert forall|o: Seq<char>|
                    #[trigger] self.transactions_of(o) == old(self).transactions_of(o) by {
                    lemma_index_of_range(before, o);
                }
                assert forall|o: Seq<char>| #[trigger] self.goals_of(o) == old(self).goals_of(o) by {
                    lemma_index_of_range(before, o);
                }
                self.accounts.len() - 1
            },
        }
    }

    /// Replacing the account at the position of `owner` changes that
    /// owner's lists only.
    proof fn lemma_replaced(before: FinanceManager, after: FinanceManager, owner: Seq<char>, i: int, a: Account)
        requires
            i == index_of(before.accounts@, owner),
            0 <= i,
            a.owner@ == owner,
            after.accounts@ == before.accounts@.update(i, a),
            after.admin == before.admin,
        ensures
            after.same_except(before, owner),
            after.assets_of(owner) == a.assets@,
            after.transactions_of(owner) == a.transactions@,
            after.goals_of(owner) == a.goals@,
    {
        lemma_index_of_range(before.accounts@, owner);
        lemma_index_of_put(before.accounts@, i, a);
        assert forall|o: Seq<char>| o != owner implies #[trigger] after.assets_of(o) == before.assets_of(o) by {
            lemma_index_of_range(before.accounts@, o);
        }
        assert forall|o: Seq<char>| o != owner implies #[trigger] after.transactions_of(o) == before.transactions_of(o) by {
            lemma_index_of_range(before.accounts@, o);
        }
        assert forall|o: Seq<char>| o != owner implies #[trigger] after.goals_of(o) == before.goals_of(o) by {
            lemma_index_of_range(before.accounts@, o);
        }
    }

    /// Takes out `owner`'s account for an update, made empty first if it
    /// has none, and leaves an empty account of `owner` at its position.
    fn checkout(&mut self, owner: &Address) -> (r: (usize, Account))
        ensures
            r.0 < final(self).accounts@.len(),
            r.0 as int == index_of(final(self).accounts@, owner@),
            r.1.owner@ == owner@,
            r.1.assets@ == old(self).assets_of(owner@),
            r.1.transactions@ == old(self).transactions_of(owner@),
            r.1.goals@ == old(self).goals_of(owner@),
            final(self).same_except(*old(self), owner@),
    {
        let i = self.slot(owner);
        let ghost mid = *self;
        proof {
            lemma_index_of_range(mid.accounts@, owner@);
        }
        let placeholder_owner = self.accounts[i].owner.clone();
        let mut account = Account {
            owner: placeholder_owner,
            assets: Vec::new(),
            transactions: Vec::new(),
            goals: Vec::new(),
        };
        let ghost placeholder = account;
        self.accounts.set_and_swap(i, &mut account);
        proof {
            FinanceManager::lemma_replaced(mid, *self, owner@, i as int, placeholder);
            lemma_index_of_put(mid.accounts@, i as int, placeholder);
            assert(mid.assets_of(owner@) == old(self).assets_of(owner@));
            assert(mid.transactions_of(owner@) == old(self).transactions_of(owner@));
            assert(mid.goals_of(owner@) == old(self).goals_of(owner@));
            crate::laws::lemma_isolation_composes(*old(self), mid, *self, owner@);
        }
        (i, account)
    }

    /// Puts a changed account back at the position of its owner.
    fn put_back(&mut self, i: usize, account: Account)
        requires
            i < old(self).accounts@.len(),
            i as int == index_of(old(self).accounts@, account.owner@),
        ensures
            final(self).same_except(*old(self), account.owner@),
            final(self).assets_of(account.owner@) == account.assets@,
            final(self).transactions_of(account.owner@) == account.transactions@,
            final(self).goals_of(account.owner@) == account.goals@,
    {
        let ghost stored = account;
        let mut account = account;
        self.accounts.set_and_swap(i, &mut account);
        proof {
            lemma_index_of_range(old(self).accounts@, stored.owner@);
            FinanceManager::lemma_replaced(*old(self), *self, stored.owner@, i as int, stored);
        }
    }

    /// Whether storage holds an entry under `key`.
    pub fn has(&self, key: &DataKey) -> (r: bool)
        ensures
            r == self.stored(*key),
    {
        match key {
            DataKey::Admin => self.admin.is_some(),
            DataKey::UserAssets(a) => match self.find(a) {
                Some(i) => self.accounts[i].assets.len() > 0,
                None => false,
            },
            DataKey::UserTransactions(a) => match self.find(a) {
                Some(i) => self.accounts[i].transactions.len() > 0,
                None => false,
            },
            DataKey::UserGoals(a) => match self.find(a) {
                Some(i) => self.accounts[i].goals.len() > 0,
                None => false,
            },
        }
    }

    /// Sets the administrator to `admin`, once, with `admin`'s own proof of
    /// identity. The check for an earlier administrator comes first.
    pub fn initialize(&mut self, signer: &Option<Address>, admin: Address) -> (r: Result<(), FinanceError>)
        ensures
            old(self).admin_spec() is Some ==> r == Err::<(), FinanceError>(FinanceError::AlreadyInitialized),
            old(self).admin_spec() is None && !signed_by(*signer, admin@) ==> r == Err::<(), FinanceError>(FinanceError::Unauthorized),
            old(self).admin_spec() is None && signed_by(*signer, admin@) ==> r is Ok,
            r is Err ==> *final(self) == *old(self),
            r is Ok ==> final(self).admin_spec() == Some(admin@),
            forall|o: Seq<char>| #[trigger] final(self).assets_of(o) == old(self).assets_of(o),
            forall|o: Seq<char>| #[trigger] final(self).transactions_of(o) == old(self).transactions_of(o),
            forall|o: Seq<char>| #[trigger] final(self).goals_of(o) == old(self).goals_of(o),
    {
        if self.has(&DataKey::Admin) {
            return Err(FinanceError::AlreadyInitialized);
        }
        if !signer_is(signer, &admin) {
            return Err(FinanceError::Unauthorized);
        }
        self.admin = Some(admin);
        Ok(())
    }

    /// Appends an asset to `user`'s list, with `user`'s proof of identity.
    pub fn add_asset(
        &mut self,
        signer: &Option<Address>,
        user: Address,
        asset_type: String,
        amount: i128,
        description: String,
    ) -> (r: Result<(), FinanceError>)
        ensures
            r is Ok <==> signed_by(*signer, user@),
            r is Err ==> r == Err::<(), FinanceError>(FinanceError::Unauthorized) && *final(self) == *old(self),
            r is Ok ==> final(self).assets_of(user@) == old(self).assets_of(user@).push(
                (Asset { asset_type, amount, description }),
            ),
            final(self).transactions_of(user@) == old(self).transactions_of(user@),
            final(self).goals_of(user@) == old(self).goals_of(user@),
            final(self).same_except(*old(self), user@),
    {
        if !signer_is(signer, &user) {
            return Err(FinanceError::Unauthorized);
        }
        let (i, mut account) = self.checkout(&user);
        let ghost mid = *self;
        account.assets.push(Asset { asset_type, amount, description });
        self.put_back(i, account);
        proof {
            crate::laws::lemma_isolation_composes(*old(self), mid, *self, user@);
        }
        Ok(())
    }

    /// `user`'s assets, in the order they were added; none if there are none.
    pub fn get_assets(&self, user: &Address) -> (r: Vec<Asset>)
        ensures
            r@ == self.assets_of(user@),
    {
        match self.find(user) {
            Some(i) => self.accounts[i].assets.clone(),
            None => Vec::new(),
        }
    }

    /// Appends a transaction to `user`'s list, with `user`'s proof of
    /// identity. `timestamp` is the host's ledger time at the call, read by
    /// the host and never supplied by the caller.
    pub fn record_transaction(
        &mut self,
        signer: &Option<Address>,
        user: Address,
        timestamp: u64,
        transaction_type: String,
        amount: i128,
        description: String,
    ) -> (r: Result<(), FinanceError>)
        ensures
            r is Ok <==> signed_by(*signer, user@),
            r is Err ==> r == Err::<(), FinanceError>(FinanceError::Unauthorized) && *final(self) == *old(self),
            r is Ok ==> final(self).transactions_of(user@) == old(self).transactions_of(user@).push(
                (Transaction { timestamp, transaction_type, amount, description }),
            ),
            final(self).assets_of(user@) == old(self).assets_of(user@),
            final(self).goals_of(user@) == old(self).goals_of(user@),
            final(self).same_except(*old(self), user@),
    {
        if !signer_is(signer, &user) {
            return Err(FinanceError::Unauthorized);
        }
        let (i, mut account) = self.checkout(&user);
        let ghost mid = *self;
        account.transactions.push(Transaction { timestamp, transaction_type, amount, description });
        self.put_back(i, account);
        proof {
            crate::laws::lemma_isolation_composes(*old(self), mid, *self, user@);
        }
        Ok(())
    }

    /// `user`'s transactions, in the order they were recorded; none if there
    /// are none.
    pub fn get_transactions(&self, user: &Address) -> (r: Vec<Transaction>)
        ensures
            r@ == self.transactions_of(user@),
    {
        match self.find(user) {
            Some(i) => self.accounts[i].transactions.clone(),
            None => Vec::new(),
        }
    }

    /// Appends a goal with no progress yet to `user`'s list, with `user`'s
    /// proof of identity.
    pub fn create_goal(
        &mut self,
        signer: &Option<Address>,
        user: Address,
        name: String,
        target_amount: i128,
        deadline: u64,
    ) -> (r: Result<(), FinanceError>)
        ensures
            r is Ok <==> signed_by(*signer, user@),
            r is Err ==> r == Err::<(), FinanceError>(FinanceError::Unauthorized) && *final(self) == *old(self),
            r is Ok ==> final(self).goals_of(user@) == old(self).goals_of(user@).push(
                (Goal { name, target_amount, current_amount: 0, deadline }),
            ),
            final(self).assets_of(user@) == old(self).assets_of(user@),
            final(self).transactions_of(user@) == old(self).transactions_of(user@),
            final(self).same_except(*old(self), user@),
    {
        if !signer_is(signer, &user) {
            return Err(FinanceError::Unauthorized);
        }
        let (i, mut account) = self.checkout(&user);
        let ghost mid = *self;
        account.goals.push(Goal { name, target_amount, current_amount: 0, deadline });
        self.put_back(i, account);
        proof {
            crate::laws::lemma_isolation_composes(*old(self), mid, *self, user@);
        }
        Ok(())
    }

    /// Adds `amount_added` to the progress of `user`'s goal at `goal_index`,
    /// with `user`'s proof of identity. An owner with no stored goal list
    /// is refused with `MissingGoals`, not treated as having an empty one.
    pub fn update_goal_progress(
        &mut self,
        signer: &Option<Address>,
        user: Address,
        goal_index: u32,
        amount_added: i128,
    ) -> (r: Result<(), FinanceError>)
        ensures
            !signed_by(*signer, user@) ==> r == Err::<(), FinanceError>(FinanceError::Unauthorized),
            signed_by(*signer, user@) && old(self).goals_of(user@).len() == 0 ==> r == Err::<(), FinanceError>(FinanceError::MissingGoals),
            signed_by(*signer, user@) && 0 < old(self).goals_of(user@).len() <= goal_index ==> r == Err::<(), FinanceError>(FinanceError::IndexOutOfRange),
            signed_by(*signer, user@) && goal_index < old(self).goals_of(user@).len() && !progress_fits(old(self).goals_of(user@)[goal_index as int], amount_added)
                ==> r == Err::<(), FinanceError>(FinanceError::ArithmeticOverflow),
            signed_by(*signer, user@) && goal_index < old(self).goals_of(user@).len() && progress_fits(old(self).goals_of(user@)[goal_index as int], amount_added)
                ==> r is Ok,
            r is Err ==> *final(self) == *old(self),
            r is Ok ==> final(self).goals_of(user@) == old(self).goals_of(user@).update(
                goal_index as int,
                progressed(old(self).goals_of(user@)[goal_index as int], amount_added),
            ),
            final(self).assets_of(user@) == old(self).assets_of(user@),
            final(self).transactions_of(user@) == old(self).transactions_of(user@),
            final(self).same_except(*old(self), user@),
    {
        if !signer_is(signer, &user) {
            return Err(FinanceError::Unauthorized);
        }
        let i = match self.find(&user) {
            Some(i) => i,
            None => {
                return Err(FinanceError::MissingGoals);
            },
        };
        if self.accounts[i].goals.len() == 0 {
            return Err(FinanceError::MissingGoals);
        }
        let k = goal_index as usize;
        if k >= self.accounts[i].goals.len() {
            return Err(FinanceError::IndexOutOfRange);
        }
        let current = match self.accounts[i].goals[k].current_amount.checked_add(amount_added) {
            Some(c) => c,
            None => {
                return Err(FinanceError::ArithmeticOverflow);
            },
        };
        let (j, mut account) = self.checkout(&user);
        let ghost mid = *self;
        let goal = Goal {
            name: account.goals[k].name.clone(),
            target_amount: account.goals[k].target_amount,
            current_amount: current,
            deadline: account.goals[k].deadline,
        };
        account.goals.set(k, goal);
        self.put_back(j, account);
        proof {
            crate::laws::lemma_isolation_composes(*old(self), mid, *self, user@);
        }
        Ok(())
    }

    /// `user`'s goals, in the order they were created; none if there are
    /// none.
    pub fn get_goals(&self, user: &Address) -> (r: Vec<Goal>)
        ensures
            r@ == self.goals_of(user@),
    {
        match self.find(user) {
            Some(i) => self.accounts[i].goals.clone(),
            None => Vec::new(),
        }
    }

    /// The sum of the amounts of `user`'s assets, added in list order; 0
    /// for an owner with none. Refused when a running total leaves `i128`.
    pub fn calculate_net_worth(&self, user: &Address) -> (r: Result<i128, FinanceError>)
        ensures
            r is Ok <==> sums_fit(self.assets_of(user@)),
            r matches Ok(v) ==> v == sum_amounts(self.assets_of(user@)),
            r is Err ==> r == Err::<i128, FinanceError>(FinanceError::ArithmeticOverflow),
    {
        let assets = self.get_assets(user);
        let ghost s = assets@;
        let mut total: i128 = 0;
        let mut i: usize = 0;
        assert(s.take(0) =~= Seq::<Asset>::empty());
        while i < assets.len()
            invariant
                i <= s.len(),
                s == assets@,
                s == self.assets_of(user@),
                total == sum_amounts(s.take(i as int)),
                forall|k: int| 0 <= k <= i ==> i128::MIN <= #[trigger] sum_amounts(s.take(k)) <= i128::MAX,
            decreases s.len() - i,
        {
            assert(s.take(i + 1).drop_last() =~= s.take(i as int));
            match total.checked_add(assets[i].amount) {
                Some(t) => {
                    total = t;
                },
                None => {
                    assert(sum_amounts(s.take(i + 1)) == total + s[i as int].amount);
                    assert(!(i128::MIN <= total + s[i as int].amount <= i128::MAX));
                    assert(!sums_fit(s));
                    return Err(FinanceError::ArithmeticOverflow);
                },
            }
            i = i + 1;
        }
        assert(s.take(s.len() as int) =~= s);
        Ok(total)
    }

    /// Whether `user` is the administrator; refused before `initialize`.
    pub fn is_admin(&self, user: &Address) -> (r: Result<bool, FinanceError>)
        ensures
            self.admin_spec() is None ==> r == Err::<bool, FinanceError>(FinanceError::NotInitialized),
            self.admin_spec() matches Some(a) ==> r == Ok::<bool, FinanceError>(a == user@),
    {
        match &self.admin {
            Some(a) => Ok(*a == *user),
            None => Err(FinanceError::NotInitialized),
        }
    }
}

} // verus!
