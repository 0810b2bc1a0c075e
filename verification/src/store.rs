//! The persistence model: users, budgets, ownership associations, expenses.
//!
//! The store is the transactional view every handler works against. Each
//! handler mutates it in place and returns; callers never see a partial
//! cascade, which is what the atomicity clauses of the deletion contracts
//! mean. [`StoreView`] is the mathematical model: sequences of records plus
//! the id counters, with [`wf`] as the global invariant (unique ids, unique
//! user names, unique association pairs, referential integrity, well-formed
//! amounts and dates).

use vstd::prelude::*;

use crate::amount::{Amount, AMOUNT_LIMIT};
use crate::date::Date;

verus! {

/// A registered user. The password never appears here in plaintext: only the
/// bcrypt hash is stored.
#[derive(Debug)]
pub struct UserRec {
    pub id: i32,
    pub name: String,
    pub password_hash: String,
}

/// A budget. `settings` is an opaque structured value the library carries
/// through unread; the HTTP layer gives it meaning.
#[derive(Debug)]
pub struct BudgetRec {
    pub id: i32,
    pub name: String,
    pub settings: String,
}

/// One user-to-budget ownership grant: the sole source of ownership truth.
#[derive(Clone, Copy, PartialEq, Eq, Structural, Debug)]
pub struct AssocRec {
    pub user_id: i32,
    pub budget_id: i32,
}

/// A dated expense under exactly one budget.
#[derive(Debug)]
pub struct ExpenseRec {
    pub id: i32,
    pub budget_id: i32,
    pub date: Date,
    pub description: String,
    pub amount: Amount,
}

/// Mathematical model of a user record.
pub ghost struct UserRecView {
    pub id: int,
    pub name: Seq<char>,
    pub password_hash: Seq<char>,
}

/// Mathematical model of a budget record.
pub ghost struct BudgetRecView {
    pub id: int,
    pub name: Seq<char>,
    pub settings: Seq<char>,
}

/// Mathematical model of an expense record; the amount is its value in
/// minor units.
pub ghost struct ExpenseRecView {
    pub id: int,
    pub budget_id: int,
    pub date: Date,
    pub description: Seq<char>,
    pub amount: int,
}

impl View for UserRec {
    type V = UserRecView;

    open spec fn view(&self) -> UserRecView {
        UserRecView { id: self.id as int, name: self.name@, password_hash: self.password_hash@ }
    }
}

impl View for BudgetRec {
    type V = BudgetRecView;

    open spec fn view(&self) -> BudgetRecView {
        BudgetRecView { id: self.id as int, name: self.name@, settings: self.settings@ }
    }
}

impl View for ExpenseRec {
    type V = ExpenseRecView;

    open spec fn view(&self) -> ExpenseRecView {
        ExpenseRecView {
            id: self.id as int,
            budget_id: self.budget_id as int,
            date: self.date,
            description: self.description@,
            amount: self.amount.minor as int,
        }
    }
}

impl Clone for UserRec {
    fn clone(&self) -> (res: Self)
        ensures
            res@ == self@,
    {
        UserRec { id: self.id, name: self.name.clone(), password_hash: self.password_hash.clone() }
    }
}

impl Clone for BudgetRec {
    fn clone(&self) -> (res: Self)
        ensures
            res@ == self@,
    {
        BudgetRec { id: self.id, name: self.name.clone(), settings: self.settings.clone() }
    }
}

impl Clone for ExpenseRec {
    fn clone(&self) -> (res: Self)
        ensures
            res@ == self@,
    {
        ExpenseRec {
            id: self.id,
            budget_id: self.budget_id,
            date: self.date,
            description: self.description.clone(),
            amount: self.amount,
        }
    }
}

/// Mathematical model of the whole store.
pub ghost struct StoreView {
    pub users: Seq<UserRecView>,
    pub budgets: Seq<BudgetRecView>,
    pub assocs: Seq<AssocRec>,
    pub expenses: Seq<ExpenseRecView>,
    pub next_user_id: int,
    pub next_budget_id: int,
    pub next_expense_id: int,
}

/// The store itself: four tables and the id counters the server assigns
/// from.
pub struct Store {
    pub users: Vec<UserRec>,
    pub budgets: Vec<BudgetRec>,
    pub assocs: Vec<AssocRec>,
    pub expenses: Vec<ExpenseRec>,
    pub next_user_id: i32,
    pub next_budget_id: i32,
    pub next_expense_id: i32,
}

impl View for Store {
    type V = StoreView;

    open spec fn view(&self) -> StoreView {
        StoreView {
            users: self.users@.map_values(|u: UserRec| u@),
            budgets: self.budgets@.map_values(|b: BudgetRec| b@),
            assocs: self.assocs@,
            expenses: self.expenses@.map_values(|e: ExpenseRec| e@),
            next_user_id: self.next_user_id as int,
            next_budget_id: self.next_budget_id as int,
            next_expense_id: self.next_expense_id as int,
        }
    }
}

/// Some user has this id.
pub open spec fn has_user(s: StoreView, user_id: int) -> bool {
    exists|i: int| 0 <= i < s.users.len() && #[trigger] s.users[i].id == user_id
}

/// Some user has this name.
pub open spec fn has_user_name(s: StoreView, name: Seq<char>) -> bool {
    exists|i: int| 0 <= i < s.users.len() && #[trigger] s.users[i].name == name
}

/// Some budget has this id.
pub open spec fn has_budget(s: StoreView, budget_id: int) -> bool {
    exists|i: int| 0 <= i < s.budgets.len() && #[trigger] s.budgets[i].id == budget_id
}

/// Some expense has this id.
pub open spec fn has_expense(s: StoreView, expense_id: int) -> bool {
    exists|i: int| 0 <= i < s.expenses.len() && #[trigger] s.expenses[i].id == expense_id
}

/// Ownership: the association table holds the pair. This is the single
/// definition every authorization decision in the library reduces to.
pub open spec fn owns(s: StoreView, user_id: int, budget_id: int) -> bool {
    exists|i: int|
        0 <= i < s.assocs.len() && #[trigger] s.assocs[i].user_id == user_id
            && s.assocs[i].budget_id == budget_id
}

/// User table invariant: ids and names unique, ids below the counter.
pub open spec fn users_wf(s: StoreView) -> bool {
    &&& forall|i: int, j: int|
        #![trigger s.users[i], s.users[j]]
        0 <= i < j < s.users.len() ==> s.users[i].id != s.users[j].id && s.users[i].name
            != s.users[j].name
    &&& forall|i: int| 0 <= i < s.users.len() ==> #[trigger] s.users[i].id < s.next_user_id
}

/// Budget table invariant: ids unique and below the counter.
pub open spec fn budgets_wf(s: StoreView) -> bool {
    &&& forall|i: int, j: int|
        #![trigger s.budgets[i], s.budgets[j]]
        0 <= i < j < s.budgets.len() ==> s.budgets[i].id != s.budgets[j].id
    &&& forall|i: int| 0 <= i < s.budgets.len() ==> #[trigger] s.budgets[i].id < s.next_budget_id
}

/// Association table invariant: pairs unique, both ends exist.
pub open spec fn assocs_wf(s: StoreView) -> bool {
    &&& forall|i: int, j: int|
        #![trigger s.assocs[i], s.assocs[j]]
        0 <= i < j < s.assocs.len() ==> !(s.assocs[i].user_id == s.assocs[j].user_id
            && s.assocs[i].budget_id == s.assocs[j].budget_id)
    &&& forall|i: int|
        0 <= i < s.assocs.len() ==> has_user(s, #[trigger] s.assocs[i].user_id as int)
            && has_budget(s, s.assocs[i].budget_id as int)
}

/// Expense table invariant: ids unique and below the counter, every expense
/// under an existing budget, every amount within the cap, every date real.
pub open spec fn expenses_wf(s: StoreView) -> bool {
    &&& forall|i: int, j: int|
        #![trigger s.expenses[i], s.expenses[j]]
        0 <= i < j < s.expenses.len() ==> s.expenses[i].id != s.expenses[j].id
    &&& forall|i: int|
        0 <= i < s.expenses.len() ==> #[trigger] s.expenses[i].id < s.next_expense_id
    &&& forall|i: int|
        0 <= i < s.expenses.len() ==> has_budget(s, #[trigger] s.expenses[i].budget_id)
    &&& forall|i: int|
        0 <= i < s.expenses.len() ==> -(AMOUNT_LIMIT as int) <= #[trigger] s.expenses[i].amount
            <= AMOUNT_LIMIT as int
    &&& forall|i: int| 0 <= i < s.expenses.len() ==> (#[trigger] s.expenses[i].date).wf()
}

/// The position of the expense with this id (meaningful when the id
/// resolves and ids are unique).
pub open spec fn expense_index(s: StoreView, expense_id: int) -> int {
    choose|i: int| 0 <= i < s.expenses.len() && #[trigger] s.expenses[i].id == expense_id
}

/// With unique expense ids, `expense_index` names exactly the position the
/// id sits at.
pub proof fn lemma_expense_index(s: StoreView, i: int)
    requires
        expenses_wf(s),
        0 <= i < s.expenses.len(),
    ensures
        expense_index(s, s.expenses[i].id) == i,
{
    let id = s.expenses[i].id;
    assert(has_expense(s, id));
    let j = expense_index(s, id);
    if i < j {
        assert(s.expenses[i].id != s.expenses[j].id);
    } else if j < i {
        assert(s.expenses[j].id != s.expenses[i].id);
    }
}

/// `has_user` carries over to any store with the same user table.
pub proof fn lemma_same_users_has_user(pre: StoreView, post: StoreView, x: int)
    requires
        post.users == pre.users,
        has_user(pre, x),
    ensures
        has_user(post, x),
{
    let m = choose|m: int| 0 <= m < pre.users.len() && #[trigger] pre.users[m].id == x;
    assert(post.users[m].id == x);
}

/// `has_budget` carries over to any store with the same budget table.
pub proof fn lemma_same_budgets_has_budget(pre: StoreView, post: StoreView, x: int)
    requires
        post.budgets == pre.budgets,
        has_budget(pre, x),
    ensures
        has_budget(post, x),
{
    let m = choose|m: int| 0 <= m < pre.budgets.len() && #[trigger] pre.budgets[m].id == x;
    assert(post.budgets[m].id == x);
}

/// The global invariant: referential integrity and uniqueness across all
/// four tables. Every handler requires it and re-establishes it.
pub open spec fn wf(s: StoreView) -> bool {
    &&& users_wf(s)
    &&& budgets_wf(s)
    &&& assocs_wf(s)
    &&& expenses_wf(s)
}

impl Store {
    /// An empty store, as a fresh deployment starts with.
    pub fn new() -> (s: Store)
        ensures
            s@.users.len() == 0,
            s@.budgets.len() == 0,
            s@.assocs.len() == 0,
            s@.expenses.len() == 0,
            s@.next_user_id == 1,
            s@.next_budget_id == 1,
            s@.next_expense_id == 1,
            wf(s@),
    {
        Store {
            users: Vec::new(),
            budgets: Vec::new(),
            assocs: Vec::new(),
            expenses: Vec::new(),
            next_user_id: 1,
            next_budget_id: 1,
            next_expense_id: 1,
        }
    }

    /// Index of the user with this name, if any.
    pub fn find_user_by_name(&self, name: &String) -> (r: Option<usize>)
        ensures
            match r {
                Some(i) => i < self@.users.len() && self@.users[i as int].name == name@,
                None => !has_user_name(self@, name@),
            },
    {
        let mut i: usize = 0;
        while i < self.users.len()
            invariant
                i <= self@.users.len(),
                self@.users.len() == self.users@.len(),
                forall|k: int| 0 <= k < i ==> #[trigger] self@.users[k].name != name@,
            decreases self.users@.len() - i,
        {
            if self.users[i].name == *name {
                return Some(i);
            }
            i = i + 1;
        }
        None
    }

    /// Index of the user with this id, if any.
    pub fn find_user_by_id(&self, user_id: i32) -> (r: Option<usize>)
        ensures
            match r {
                Some(i) => i < self@.users.len() && self@.users[i as int].id == user_id as int,
                None => !has_user(self@, user_id as int),
            },
    {
        let mut i: usize = 0;
        while i < self.users.len()
            invariant
                i <= self@.users.len(),
                self@.users.len() == self.users@.len(),
                forall|k: int| 0 <= k < i ==> #[trigger] self@.users[k].id != user_id as int,
            decreases self.users@.len() - i,
        {
            if self.users[i].id == user_id {
                return Some(i);
            }
            i = i + 1;
        }
        None
    }

    /// Index of the budget with this id, if any.
    pub fn find_budget(&self, budget_id: i32) -> (r: Option<usize>)
        ensures
            match r {
                Some(i) => i < self@.budgets.len() && self@.budgets[i as int].id == budget_id as int,
                None => !has_budget(self@, budget_id as int),
            },
    {
        let mut i: usize = 0;
        while i < self.budgets.len()
            invariant
                i <= self@.budgets.len(),
                self@.budgets.len() == self.budgets@.len(),
                forall|k: int| 0 <= k < i ==> #[trigger] self@.budgets[k].id != budget_id as int,
            decreases self.budgets@.len() - i,
        {
            if self.budgets[i].id == budget_id {
                return Some(i);
            }
            i = i + 1;
        }
        None
    }

    /// Index of the expense with this id, if any.
    pub fn find_expense(&self, expense_id: i32) -> (r: Option<usize>)
        ensures
            match r {
                Some(i) => i < self@.expenses.len() && self@.expenses[i as int].id
                    == expense_id as int,
                None => !has_expense(self@, expense_id as int),
            },
    {
        let mut i: usize = 0;
        while i < self.expenses.len()
            invariant
                i <= self@.expenses.len(),
                self@.expenses.len() == self.expenses@.len(),
                forall|k: int| 0 <= k < i ==> #[trigger] self@.expenses[k].id != expense_id as int,
            decreases self.expenses@.len() - i,
        {
            if self.expenses[i].id == expense_id {
                return Some(i);
            }
            i = i + 1;
        }
        None
    }
}

} // verus!
