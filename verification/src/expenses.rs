//! Expense handlers: date-filtered listings, exact totals, and CRUD.
//!
//! Every operation authorizes against the budget the expense belongs to (and,
//! for moves, the budget it would belong to). Listings filter on an inclusive
//! date range — no upper bound means no upper limit — and come back most
//! recent first. Totals are exact integer arithmetic over minor units; an
//! empty budget totals to zero.

use vstd::prelude::*;

use crate::amount::{Amount, AMOUNT_LIMIT};
use crate::auth::Claims;
use crate::date::{date_key, Date};
use crate::seq_util::{lemma_filter_pairwise, lemma_filter_push, lemma_filter_unary};
use crate::store::{
    assocs_wf, budgets_wf, expense_index, expenses_wf, has_budget, has_expense, has_user,
    lemma_expense_index, owns, users_wf, wf, ExpenseRec, ExpenseRecView, Store, StoreView,
};
use crate::utils::{user_owns_budget, ServiceError};

verus! {

/// Does this expense fall under the budget and inside the inclusive date
/// range? An absent upper bound means no upper limit.
pub open spec fn in_range(
    e: ExpenseRecView,
    budget_id: int,
    start: Date,
    end: Option<Date>,
) -> bool {
    &&& e.budget_id == budget_id
    &&& date_key(start) <= date_key(e.date)
    &&& match end {
        Some(d) => date_key(e.date) <= date_key(d),
        None => true,
    }
}

/// Most recent first: keys never increase along the sequence.
pub open spec fn sorted_desc(s: Seq<ExpenseRecView>) -> bool {
    forall|i: int, j: int|
        #![trigger s[i], s[j]]
        0 <= i < j < s.len() ==> date_key(s[i].date) >= date_key(s[j].date)
}

/// The sum of the amounts, in minor units.
pub open spec fn sum_amounts(s: Seq<ExpenseRecView>) -> int
    decreases s.len(),
{
    if s.len() == 0 {
        0
    } else {
        sum_amounts(s.drop_last()) + s.last().amount
    }
}

/// Appending one record adds exactly its amount to the sum.
proof fn lemma_sum_push(s: Seq<ExpenseRecView>, x: ExpenseRecView)
    ensures
        sum_amounts(s.push(x)) == sum_amounts(s) + x.amount,
{
    assert(s.push(x).drop_last() =~= s);
    assert(s.push(x).last() == x);
}

/// Sorts expenses most recent first by insertion, preserving the records as
/// a multiset.
#[verifier::loop_isolation(false)]
fn sort_expenses_desc(input: Vec<ExpenseRec>) -> (r: Vec<ExpenseRec>)
    ensures
        r@.map_values(|e: ExpenseRec| e@).to_multiset() == input@.map_values(
            |e: ExpenseRec| e@,
        ).to_multiset(),
        sorted_desc(r@.map_values(|e: ExpenseRec| e@)),
{
    let ghost vf: spec_fn(ExpenseRec) -> ExpenseRecView = (|e: ExpenseRec| e@);
    let mut out: Vec<ExpenseRec> = Vec::new();
    proof {
        assert(out@.map_values(vf) =~= input@.map_values(vf).take(0));
    }
    let mut i: usize = 0;
    while i < input.len()
        invariant
            i <= input@.len(),
            out@.len() == i,
            out@.map_values(vf).to_multiset() == input@.map_values(vf).take(
                i as int,
            ).to_multiset(),
            sorted_desc(out@.map_values(vf)),
        decreases input@.len() - i,
    {
        let e = input[i].clone();
        let ghost ev = e@;
        let ghost pre_out = out@;
        let ghost pm = out@.map_values(vf);
        let key = e.date.key();
        let mut p: usize = 0;
        while p < out.len() && out[p].date.key() >= key
            invariant
                p <= out@.len(),
                forall|k: int| 0 <= k < p ==> date_key(#[trigger] pm[k].date) >= date_key(ev.date),
                out@ == pre_out,
            decreases out@.len() - p,
        {
            p = p + 1;
        }
        out.insert(p, e);
        proof {
            let postm = out@.map_values(vf);
            pre_out.insert_ensures(p as int, e);
            pm.insert_ensures(p as int, ev);
            assert forall|k: int| 0 <= k < postm.len() implies #[trigger] postm[k] == pm.insert(
                p as int,
                ev,
            )[k] by {
                if k < p {
                    assert(out@[k] == pre_out[k]);
                } else if k == p {
                    assert(out@[k] == e);
                } else {
                    assert(out@[k] == pre_out[k - 1]);
                    assert(pm.insert(p as int, ev)[(k - 1) + 1] == pm[k - 1]);
                }
            }
            assert(postm =~= pm.insert(p as int, ev));
            vstd::seq_lib::to_multiset_insert(pm, p as int, ev);
            pm.to_multiset_ensures();
            assert(input@.map_values(vf).take(i + 1) =~= input@.map_values(vf).take(
                i as int,
            ).push(ev));
            input@.map_values(vf).take(i as int).to_multiset_ensures();
            assert(postm.to_multiset() =~= input@.map_values(vf).take(i + 1).to_multiset());
            // The inserted record sits below everything at least as recent
            // and above everything strictly older.
            assert forall|a: int, b: int|
                #![trigger postm[a], postm[b]]
                0 <= a < b < postm.len() implies date_key(postm[a].date) >= date_key(
                postm[b].date,
            ) by {
                if b < p {
                    assert(postm[a] == pm[a] && postm[b] == pm[b]);
                } else if a < p && b == p {
                    assert(postm[a] == pm[a]);
                } else if a == p {
                    assert(postm[b] == pm[b - 1]);
                    assert(p < pre_out.len() ==> date_key(pm[p as int].date) < date_key(ev.date));
                    if b - 1 > p {
                        assert(date_key(pm[p as int].date) >= date_key(pm[b - 1].date));
                    }
                } else if a < p {
                    assert(postm[a] == pm[a] && postm[b] == pm[b - 1]);
                } else {
                    assert(postm[a] == pm[a - 1] && postm[b] == pm[b - 1]);
                }
            }
        }
        i = i + 1;
    }
    proof {
        assert(input@.map_values(vf).take(input@.len() as int) =~= input@.map_values(vf));
    }
    out
}

/// Expenses of a budget the requester owns, within the inclusive date
/// range, most recent first. Exactly the in-range expenses come back, as a
/// multiset of records.
#[verifier::loop_isolation(false)]
pub fn list_expenses(
    store: &Store,
    claims: Claims,
    budget_id: i32,
    start_date: Date,
    end_date: Option<Date>,
) -> (r: Result<Vec<ExpenseRec>, ServiceError>)
    requires
        wf(store@),
    ensures
        match r {
            Ok(v) => owns(store@, claims.user_id as int, budget_id as int) && v@.map_values(
                |e: ExpenseRec| e@,
            ).to_multiset() == store@.expenses.filter(
                (|e: ExpenseRecView| in_range(e, budget_id as int, start_date, end_date)),
            ).to_multiset() && sorted_desc(v@.map_values(|e: ExpenseRec| e@)),
            Err(e) => e == ServiceError::Unauthorized && !owns(
                store@,
                claims.user_id as int,
                budget_id as int,
            ),
        },
{
    if !user_owns_budget(store, claims.user_id, budget_id) {
        return Err(ServiceError::Unauthorized);
    }
    let ghost pred: spec_fn(ExpenseRecView) -> bool = (|e: ExpenseRecView|
        in_range(e, budget_id as int, start_date, end_date));
    let ghost vf: spec_fn(ExpenseRec) -> ExpenseRecView = (|e: ExpenseRec| e@);
    let mut matched: Vec<ExpenseRec> = Vec::new();
    let mut i: usize = 0;
    while i < store.expenses.len()
        invariant
            i <= store@.expenses.len(),
            matched@.map_values(vf) == store@.expenses.take(i as int).filter(pred),
        decreases store@.expenses.len() - i,
    {
        let e = &store.expenses[i];
        proof {
            assert(store@.expenses.take(i + 1) =~= store@.expenses.take(i as int).push(
                store@.expenses[i as int],
            ));
            lemma_filter_push(store@.expenses.take(i as int), store@.expenses[i as int], pred);
        }
        let in_lower = start_date.le(&e.date);
        let in_upper = match end_date {
            Some(d) => e.date.le(&d),
            None => true,
        };
        if e.budget_id == budget_id && in_lower && in_upper {
            let c = e.clone();
            matched.push(c);
            proof {
                assert(matched@.map_values(vf) =~= store@.expenses.take(i as int).filter(
                    pred,
                ).push(store@.expenses[i as int]));
            }
        }
        i = i + 1;
    }
    proof {
        assert(store@.expenses.take(store@.expenses.len() as int) =~= store@.expenses);
    }
    Ok(sort_expenses_desc(matched))
}

/// The exact decimal total of a budget's expenses, in minor units: the sum
/// of every expense under the budget, zero when it has none.
#[verifier::loop_isolation(false)]
pub fn expenses_total(store: &Store, claims: Claims, budget_id: i32) -> (r: Result<
    i128,
    ServiceError,
>)
    requires
        wf(store@),
    ensures
        match r {
            Ok(t) => owns(store@, claims.user_id as int, budget_id as int) && t == sum_amounts(
                store@.expenses.filter((|e: ExpenseRecView| e.budget_id == budget_id as int)),
            ),
            Err(e) => e == ServiceError::Unauthorized && !owns(
                store@,
                claims.user_id as int,
                budget_id as int,
            ),
        },
        (owns(store@, claims.user_id as int, budget_id as int) && (forall|i: int|
            0 <= i < store@.expenses.len() ==> (#[trigger] store@.expenses[i]).budget_id
                != budget_id as int)) ==> r == Ok::<i128, ServiceError>(0),
{
    if !user_owns_budget(store, claims.user_id, budget_id) {
        return Err(ServiceError::Unauthorized);
    }
    let ghost pred: spec_fn(ExpenseRecView) -> bool = (|e: ExpenseRecView|
        e.budget_id == budget_id as int);
    let mut total: i128 = 0;
    let mut i: usize = 0;
    while i < store.expenses.len()
        invariant
            i <= store@.expenses.len(),
            total == sum_amounts(store@.expenses.take(i as int).filter(pred)),
            store@.expenses.take(i as int).filter(pred).len() <= i,
            -(store@.expenses.take(i as int).filter(pred).len() as int) * (AMOUNT_LIMIT as int)
                <= total <= (store@.expenses.take(i as int).filter(pred).len() as int) * (
            AMOUNT_LIMIT as int),
        decreases store@.expenses.len() - i,
    {
        let e = &store.expenses[i];
        proof {
            assert(store@.expenses.take(i + 1) =~= store@.expenses.take(i as int).push(
                store@.expenses[i as int],
            ));
            lemma_filter_push(store@.expenses.take(i as int), store@.expenses[i as int], pred);
            store@.expenses.take(i as int).lemma_filter_len(pred);
            assert(-(AMOUNT_LIMIT as int) <= store@.expenses[i as int].amount <= AMOUNT_LIMIT as int);
            if pred(store@.expenses[i as int]) {
                lemma_sum_push(
                    store@.expenses.take(i as int).filter(pred),
                    store@.expenses[i as int],
                );
            }
        }
        if e.budget_id == budget_id {
            total = total + (e.amount.minor as i128);
        }
        i = i + 1;
    }
    proof {
        assert(store@.expenses.take(store@.expenses.len() as int) =~= store@.expenses);
        if forall|k: int|
            0 <= k < store@.expenses.len() ==> (#[trigger] store@.expenses[k]).budget_id
                != budget_id as int {
            assert forall|k: int| 0 <= k < store@.expenses.len() implies !pred(
                #[trigger] store@.expenses[k],
            ) by {}
            store@.expenses.lemma_all_neg_filter_empty(pred);
            assert(store@.expenses.filter(pred) =~= Seq::<ExpenseRecView>::empty());
        }
    }
    Ok(total)
}

/// The exact outcome of fetching one expense: the id must resolve, and the
/// requester must own the budget it belongs to.
pub open spec fn spec_get_expense(s: StoreView, requester: int, expense_id: int) -> Result<
    (),
    ServiceError,
> {
    if !has_expense(s, expense_id) {
        Err(ServiceError::NotFound)
    } else if !owns(s, requester, s.expenses[expense_index(s, expense_id)].budget_id) {
        Err(ServiceError::Unauthorized)
    } else {
        Ok(())
    }
}

/// Fetches one expense after resolving its budget and checking ownership.
pub fn get_expense(store: &Store, claims: Claims, expense_id: i32) -> (r: Result<
    ExpenseRec,
    ServiceError,
>)
    requires
        wf(store@),
    ensures
        match r {
            Ok(e) => spec_get_expense(store@, claims.user_id as int, expense_id as int) is Ok
                && store@.expenses.contains(e@) && e@.id == expense_id as int,
            Err(e) => spec_get_expense(store@, claims.user_id as int, expense_id as int) == Err::<
                (),
                ServiceError,
            >(e),
        },
{
    let idx = match store.find_expense(expense_id) {
        Some(idx) => idx,
        None => { return Err(ServiceError::NotFound) },
    };
    proof {
        lemma_expense_index(store@, idx as int);
    }
    let e = &store.expenses[idx];
    if !user_owns_budget(store, claims.user_id, e.budget_id) {
        return Err(ServiceError::Unauthorized);
    }
    let c = e.clone();
    proof {
        assert(store@.expenses[idx as int] == c@);
    }
    Ok(c)
}

/// The exact outcome of creating an expense: the requester must own the
/// target budget, the date and amount must be well formed, and the id space
/// must not be exhausted.
pub open spec fn spec_create_expense(
    s: StoreView,
    requester: int,
    budget_id: int,
    date: Date,
    amount: Amount,
) -> Result<(), ServiceError> {
    if !owns(s, requester, budget_id) {
        Err(ServiceError::Unauthorized)
    } else if !date.wf() || !amount.wf() {
        Err(ServiceError::BadRequest)
    } else if s.next_expense_id >= i32::MAX as int {
        Err(ServiceError::InternalServerError)
    } else {
        Ok(())
    }
}

/// Records an expense under a budget the requester owns.
pub fn create_expense(
    store: &mut Store,
    claims: Claims,
    budget_id: i32,
    date: Date,
    description: String,
    amount: Amount,
) -> (r: Result<ExpenseRec, ServiceError>)
    requires
        wf(old(store)@),
    ensures
        wf(final(store)@),
        match r {
            Ok(e) => spec_create_expense(
                old(store)@,
                claims.user_id as int,
                budget_id as int,
                date,
                amount,
            ) is Ok && e@ == (ExpenseRecView {
                id: old(store)@.next_expense_id,
                budget_id: budget_id as int,
                date,
                description: description@,
                amount: amount.minor as int,
            }) && final(store)@.expenses == old(store)@.expenses.push(e@)
                && final(store)@.next_expense_id == old(store)@.next_expense_id + 1,
            Err(er) => spec_create_expense(
                old(store)@,
                claims.user_id as int,
                budget_id as int,
                date,
                amount,
            ) == Err::<(), ServiceError>(er) && *final(store) == *old(store),
        },
        final(store)@.users == old(store)@.users,
        final(store)@.budgets == old(store)@.budgets,
        final(store)@.assocs == old(store)@.assocs,
        final(store)@.next_user_id == old(store)@.next_user_id,
        final(store)@.next_budget_id == old(store)@.next_budget_id,
{
    if !user_owns_budget(store, claims.user_id, budget_id) {
        return Err(ServiceError::Unauthorized);
    }
    if !date.valid() || !(-AMOUNT_LIMIT <= amount.minor && amount.minor <= AMOUNT_LIMIT) {
        return Err(ServiceError::BadRequest);
    }
    if store.next_expense_id >= i32::MAX {
        return Err(ServiceError::InternalServerError);
    }
    let ghost pre = store@;
    let id = store.next_expense_id;
    let rec = ExpenseRec { id, budget_id, date, description, amount };
    let out = rec.clone();
    store.expenses.push(rec);
    store.next_expense_id = id + 1;
    proof {
        let post = store@;
        let ne = pre.expenses.len() as int;
        assert(post.expenses =~= pre.expenses.push(out@));
        assert(post.users =~= pre.users);
        assert(post.budgets =~= pre.budgets);
        assert(post.assocs =~= pre.assocs);
        assert(users_wf(post) && budgets_wf(post) && assocs_wf(post));
        // The ownership witness also shows the budget exists.
        let w = choose|k: int|
            0 <= k < pre.assocs.len() && #[trigger] pre.assocs[k].user_id == claims.user_id as int
                && pre.assocs[k].budget_id == budget_id as int;
        assert(has_user(pre, pre.assocs[w].user_id as int));
        assert(has_budget(pre, budget_id as int));
        assert forall|x: int, y: int|
            #![trigger post.expenses[x], post.expenses[y]]
            0 <= x < y < post.expenses.len() implies post.expenses[x].id != post.expenses[y].id by {
            if y < ne {
                assert(post.expenses[x] == pre.expenses[x]);
                assert(post.expenses[y] == pre.expenses[y]);
            } else {
                assert(post.expenses[x] == pre.expenses[x]);
                assert(pre.expenses[x].id < pre.next_expense_id);
            }
        }
        assert forall|x: int|
            0 <= x < post.expenses.len() implies #[trigger] post.expenses[x].id
            < post.next_expense_id && has_budget(post, post.expenses[x].budget_id) && -(
        AMOUNT_LIMIT as int) <= post.expenses[x].amount <= AMOUNT_LIMIT as int
            && post.expenses[x].date.wf() by {
            if x < ne {
                assert(post.expenses[x] == pre.expenses[x]);
                assert(pre.expenses[x].id < pre.next_expense_id);
                assert(has_budget(pre, pre.expenses[x].budget_id));
                let m = choose|m: int|
                    0 <= m < pre.budgets.len() && #[trigger] pre.budgets[m].id
                        == pre.expenses[x].budget_id;
                assert(post.budgets[m] == pre.budgets[m]);
            } else {
                let m = choose|m: int|
                    0 <= m < pre.budgets.len() && #[trigger] pre.budgets[m].id == budget_id as int;
                assert(post.budgets[m] == pre.budgets[m]);
            }
        }
    }
    Ok(out)
}

/// The exact outcome of an expense mutation: the id must resolve, the
/// requester must own both the budget the expense sits under and the budget
/// it would sit under, and the new values must be well formed.
pub open spec fn spec_update_expense(
    s: StoreView,
    requester: int,
    expense_id: int,
    budget_id: int,
    date: Date,
    amount: Amount,
) -> Result<(), ServiceError> {
    if !has_expense(s, expense_id) {
        Err(ServiceError::NotFound)
    } else if !owns(s, requester, s.expenses[expense_index(s, expense_id)].budget_id) {
        Err(ServiceError::Unauthorized)
    } else if !owns(s, requester, budget_id) {
        Err(ServiceError::Unauthorized)
    } else if !date.wf() || !amount.wf() {
        Err(ServiceError::BadRequest)
    } else {
        Ok(())
    }
}

/// Rewrites an expense, possibly moving it to another budget the requester
/// also owns. On any refusal the store — the expense included — is
/// untouched.
pub fn update_expense(
    store: &mut Store,
    claims: Claims,
    expense_id: i32,
    budget_id: i32,
    date: Date,
    description: String,
    amount: Amount,
) -> (r: Result<ExpenseRec, ServiceError>)
    requires
        wf(old(store)@),
    ensures
        wf(final(store)@),
        match r {
            Ok(e) => spec_update_expense(
                old(store)@,
                claims.user_id as int,
                expense_id as int,
                budget_id as int,
                date,
                amount,
            ) is Ok && e@ == (ExpenseRecView {
                id: expense_id as int,
                budget_id: budget_id as int,
                date,
                description: description@,
                amount: amount.minor as int,
            }) && final(store)@.expenses == old(store)@.expenses.update(
                expense_index(old(store)@, expense_id as int),
                e@,
            ),
            Err(er) => spec_update_expense(
                old(store)@,
                claims.user_id as int,
                expense_id as int,
                budget_id as int,
                date,
                amount,
            ) == Err::<(), ServiceError>(er) && *final(store) == *old(store),
        },
        final(store)@.users == old(store)@.users,
        final(store)@.budgets == old(store)@.budgets,
        final(store)@.assocs == old(store)@.assocs,
        final(store)@.next_user_id == old(store)@.next_user_id,
        final(store)@.next_budget_id == old(store)@.next_budget_id,
        final(store)@.next_expense_id == old(store)@.next_expense_id,
{
    let idx = match store.find_expense(expense_id) {
        Some(idx) => idx,
        None => { return Err(ServiceError::NotFound) },
    };
    proof {
        lemma_expense_index(store@, idx as int);
    }
    let old_budget_id = store.expenses[idx].budget_id;
    if !user_owns_budget(store, claims.user_id, old_budget_id) {
        return Err(ServiceError::Unauthorized);
    }
    if !user_owns_budget(store, claims.user_id, budget_id) {
        return Err(ServiceError::Unauthorized);
    }
    if !date.valid() || !(-AMOUNT_LIMIT <= amount.minor && amount.minor <= AMOUNT_LIMIT) {
        return Err(ServiceError::BadRequest);
    }
    let ghost pre = store@;
    let rec = ExpenseRec { id: expense_id, budget_id, date, description, amount };
    let out = rec.clone();
    let slot = vstd::std_specs::vec::vec_index_mut(&mut store.expenses, idx);
    *slot = rec;
    proof {
        let post = store@;
        assert(post.expenses =~= pre.expenses.update(idx as int, out@));
        assert(post.users =~= pre.users);
        assert(post.budgets =~= pre.budgets);
        assert(post.assocs =~= pre.assocs);
        assert(users_wf(post) && budgets_wf(post));
        assert forall|x: int|
            0 <= x < post.assocs.len() implies has_user(
            post,
            #[trigger] post.assocs[x].user_id as int,
        ) && has_budget(post, post.assocs[x].budget_id as int) by {
            assert(post.assocs[x] == pre.assocs[x]);
            assert(has_user(pre, pre.assocs[x].user_id as int));
            assert(has_budget(pre, pre.assocs[x].budget_id as int));
            crate::store::lemma_same_users_has_user(pre, post, pre.assocs[x].user_id as int);
            crate::store::lemma_same_budgets_has_budget(pre, post, pre.assocs[x].budget_id as int);
        }
        let w = choose|k: int|
            0 <= k < pre.assocs.len() && #[trigger] pre.assocs[k].user_id == claims.user_id as int
                && pre.assocs[k].budget_id == budget_id as int;
        assert(has_user(pre, pre.assocs[w].user_id as int));
        assert(has_budget(pre, budget_id as int));
        // Ids are pointwise unchanged.
        assert forall|x: int|
            0 <= x < post.expenses.len() implies #[trigger] post.expenses[x].id
            == pre.expenses[x].id by {
            if x != idx as int {
                assert(post.expenses[x] == pre.expenses[x]);
            }
        }
        assert forall|x: int, y: int|
            #![trigger post.expenses[x], post.expenses[y]]
            0 <= x < y < post.expenses.len() implies post.expenses[x].id != post.expenses[y].id by {
            assert(pre.expenses[x].id != pre.expenses[y].id);
        }
        assert forall|x: int|
            0 <= x < post.expenses.len() implies #[trigger] post.expenses[x].id
            < post.next_expense_id && has_budget(post, post.expenses[x].budget_id) && -(
        AMOUNT_LIMIT as int) <= post.expenses[x].amount <= AMOUNT_LIMIT as int
            && post.expenses[x].date.wf() by {
            assert(pre.expenses[x].id < pre.next_expense_id);
            if x != idx as int {
                assert(post.expenses[x] == pre.expenses[x]);
                assert(has_budget(pre, pre.expenses[x].budget_id));
                let m = choose|m: int|
                    0 <= m < pre.budgets.len() && #[trigger] pre.budgets[m].id
                        == pre.expenses[x].budget_id;
                assert(post.budgets[m] == pre.budgets[m]);
            } else {
                let m = choose|m: int|
                    0 <= m < pre.budgets.len() && #[trigger] pre.budgets[m].id == budget_id as int;
                assert(post.budgets[m] == pre.budgets[m]);
            }
        }
    }
    Ok(out)
}

/// The exact outcome of deleting an expense: the id must resolve, and the
/// requester must own the budget it sits under.
pub open spec fn spec_delete_expense(s: StoreView, requester: int, expense_id: int) -> Result<
    (),
    ServiceError,
> {
    if !has_expense(s, expense_id) {
        Err(ServiceError::NotFound)
    } else if !owns(s, requester, s.expenses[expense_index(s, expense_id)].budget_id) {
        Err(ServiceError::Unauthorized)
    } else {
        Ok(())
    }
}

/// Removes one expense after resolving its budget and checking ownership.
#[verifier::loop_isolation(false)]
pub fn delete_expense(store: &mut Store, claims: Claims, expense_id: i32) -> (r: Result<
    (),
    ServiceError,
>)
    requires
        wf(old(store)@),
    ensures
        wf(final(store)@),
        match r {
            Ok(()) => spec_delete_expense(old(store)@, claims.user_id as int, expense_id as int)
                is Ok && final(store)@.expenses == old(store)@.expenses.filter(
                (|e: ExpenseRecView| e.id != expense_id as int),
            ) && !has_expense(final(store)@, expense_id as int),
            Err(e) => spec_delete_expense(old(store)@, claims.user_id as int, expense_id as int)
                == Err::<(), ServiceError>(e) && *final(store) == *old(store),
        },
        final(store)@.users == old(store)@.users,
        final(store)@.budgets == old(store)@.budgets,
        final(store)@.assocs == old(store)@.assocs,
        final(store)@.next_user_id == old(store)@.next_user_id,
        final(store)@.next_budget_id == old(store)@.next_budget_id,
        final(store)@.next_expense_id == old(store)@.next_expense_id,
{
    let idx = match store.find_expense(expense_id) {
        Some(idx) => idx,
        None => { return Err(ServiceError::NotFound) },
    };
    proof {
        lemma_expense_index(store@, idx as int);
    }
    let owner_budget = store.expenses[idx].budget_id;
    if !user_owns_budget(store, claims.user_id, owner_budget) {
        return Err(ServiceError::Unauthorized);
    }
    let ghost pre = store@;
    let ghost pred: spec_fn(ExpenseRecView) -> bool = (|e: ExpenseRecView|
        e.id != expense_id as int);
    let ghost vf: spec_fn(ExpenseRec) -> ExpenseRecView = (|e: ExpenseRec| e@);
    let mut kept: Vec<ExpenseRec> = Vec::new();
    let mut i: usize = 0;
    while i < store.expenses.len()
        invariant
            i <= pre.expenses.len(),
            store@ == pre,
            kept@.map_values(vf) == pre.expenses.take(i as int).filter(pred),
        decreases pre.expenses.len() - i,
    {
        let e = &store.expenses[i];
        proof {
            assert(pre.expenses.take(i + 1) =~= pre.expenses.take(i as int).push(
                pre.expenses[i as int],
            ));
            lemma_filter_push(pre.expenses.take(i as int), pre.expenses[i as int], pred);
        }
        if e.id != expense_id {
            let c = e.clone();
            kept.push(c);
            proof {
                assert(kept@.map_values(vf) =~= pre.expenses.take(i as int).filter(pred).push(
                    pre.expenses[i as int],
                ));
            }
        }
        i = i + 1;
    }
    proof {
        assert(pre.expenses.take(pre.expenses.len() as int) =~= pre.expenses);
    }
    store.expenses = kept;
    proof {
        let post = store@;
        assert(post.expenses == pre.expenses.filter(pred));
        assert(post.users =~= pre.users);
        assert(post.budgets =~= pre.budgets);
        assert(post.assocs =~= pre.assocs);
        assert(users_wf(post) && budgets_wf(post));
        assert forall|x: int|
            0 <= x < post.assocs.len() implies has_user(
            post,
            #[trigger] post.assocs[x].user_id as int,
        ) && has_budget(post, post.assocs[x].budget_id as int) by {
            assert(post.assocs[x] == pre.assocs[x]);
            assert(has_user(pre, pre.assocs[x].user_id as int));
            assert(has_budget(pre, pre.assocs[x].budget_id as int));
            crate::store::lemma_same_users_has_user(pre, post, pre.assocs[x].user_id as int);
            crate::store::lemma_same_budgets_has_budget(pre, post, pre.assocs[x].budget_id as int);
        }
        let erel = (|x: ExpenseRecView, y: ExpenseRecView| x.id != y.id);
        assert forall|x: int, y: int|
            #![trigger pre.expenses[x], pre.expenses[y]]
            0 <= x < y < pre.expenses.len() implies erel(pre.expenses[x], pre.expenses[y]) by {}
        lemma_filter_pairwise(pre.expenses, pred, erel);
        assert forall|x: int, y: int|
            #![trigger post.expenses[x], post.expenses[y]]
            0 <= x < y < post.expenses.len() implies post.expenses[x].id != post.expenses[y].id by {
            assert(erel(pre.expenses.filter(pred)[x], pre.expenses.filter(pred)[y]));
        }
        lemma_filter_unary(
            pre.expenses,
            pred,
            (|e: ExpenseRecView| e.id < pre.next_expense_id && -(AMOUNT_LIMIT as int) <= e.amount
                <= AMOUNT_LIMIT as int && e.date.wf() && has_budget(pre, e.budget_id)),
        );
        assert forall|x: int|
            0 <= x < post.expenses.len() implies has_budget(
            post,
            #[trigger] post.expenses[x].budget_id,
        ) by {
            assert(has_budget(pre, post.expenses[x].budget_id));
            let m = choose|m: int|
                0 <= m < pre.budgets.len() && #[trigger] pre.budgets[m].id
                    == post.expenses[x].budget_id;
            assert(post.budgets[m] == pre.budgets[m]);
        }
        assert(!has_expense(post, expense_id as int)) by {
            if has_expense(post, expense_id as int) {
                let w = choose|w: int|
                    0 <= w < post.expenses.len() && #[trigger] post.expenses[w].id
                        == expense_id as int;
                pre.expenses.lemma_filter_pred(pred, w);
                assert(pred(post.expenses[w]));
            }
        }
    }
    Ok(())
}

} // verus!
