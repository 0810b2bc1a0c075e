//! Budget handlers: list, fetch, create, update, delete.
//!
//! Every operation on an existing budget re-derives authorization from the
//! association table before touching anything. Creation links the budget to
//! its creator in the same step, so no budget ever exists without an owner
//! reachable through the table; deletion removes the budget's expenses, then
//! its associations, then the budget itself, all within one call, so no
//! partial cascade is ever observable.

use vstd::prelude::*;

use crate::auth::Claims;
use crate::seq_util::{lemma_filter_pairwise, lemma_filter_push, lemma_filter_unary};
use crate::store::{
    assocs_wf, budgets_wf, expenses_wf, has_budget, has_user, owns, users_wf, wf, AssocRec,
    BudgetRec, BudgetRecView, ExpenseRec, ExpenseRecView, Store, StoreView,
};
use crate::utils::{user_owns_budget, ServiceError};

verus! {

/// Budgets the requester owns, in table order: the join of the budget table
/// with the requester's association rows.
#[verifier::loop_isolation(false)]
pub fn list_budgets(store: &Store, claims: Claims) -> (r: Vec<BudgetRec>)
    requires
        wf(store@),
    ensures
        r@.map_values(|b: BudgetRec| b@) == store@.budgets.filter(
            (|b: BudgetRecView| owns(store@, claims.user_id as int, b.id)),
        ),
{
    let ghost pred: spec_fn(BudgetRecView) -> bool = (|b: BudgetRecView|
        owns(store@, claims.user_id as int, b.id));
    let ghost vf: spec_fn(BudgetRec) -> BudgetRecView = (|b: BudgetRec| b@);
    let mut result: Vec<BudgetRec> = Vec::new();
    let mut i: usize = 0;
    while i < store.budgets.len()
        invariant
            i <= store@.budgets.len(),
            result@.map_values(vf) == store@.budgets.take(i as int).filter(pred),
        decreases store@.budgets.len() - i,
    {
        let b = &store.budgets[i];
        proof {
            assert(store@.budgets.take(i + 1) =~= store@.budgets.take(i as int).push(
                store@.budgets[i as int],
            ));
            lemma_filter_push(store@.budgets.take(i as int), store@.budgets[i as int], pred);
        }
        if user_owns_budget(store, claims.user_id, b.id) {
            let c = b.clone();
            result.push(c);
            proof {
                assert(result@.map_values(vf) =~= store@.budgets.take(i as int).filter(pred).push(
                    store@.budgets[i as int],
                ));
            }
        }
        i = i + 1;
    }
    proof {
        assert(store@.budgets.take(store@.budgets.len() as int) =~= store@.budgets);
    }
    result
}

/// The exact outcome of fetching one budget: the id must resolve, and the
/// requester must own it.
pub open spec fn spec_get_budget(s: StoreView, requester: int, budget_id: int) -> Result<
    (),
    ServiceError,
> {
    if !has_budget(s, budget_id) {
        Err(ServiceError::NotFound)
    } else if !owns(s, requester, budget_id) {
        Err(ServiceError::Unauthorized)
    } else {
        Ok(())
    }
}

/// Fetches one budget after the ownership check.
pub fn get_budget(store: &Store, claims: Claims, budget_id: i32) -> (r: Result<
    BudgetRec,
    ServiceError,
>)
    requires
        wf(store@),
    ensures
        match r {
            Ok(b) => spec_get_budget(store@, claims.user_id as int, budget_id as int) is Ok
                && store@.budgets.contains(b@) && b@.id == budget_id as int,
            Err(e) => spec_get_budget(store@, claims.user_id as int, budget_id as int) == Err::<
                (),
                ServiceError,
            >(e),
        },
{
    let idx = match store.find_budget(budget_id) {
        Some(idx) => idx,
        None => { return Err(ServiceError::NotFound) },
    };
    if !user_owns_budget(store, claims.user_id, budget_id) {
        return Err(ServiceError::Unauthorized);
    }
    let b = store.budgets[idx].clone();
    proof {
        assert(store@.budgets[idx as int] == b@);
    }
    Ok(b)
}

/// The exact outcome of creating a budget: the creator must exist, and the
/// id space must not be exhausted.
pub open spec fn spec_create_budget(s: StoreView, creator: int) -> Result<(), ServiceError> {
    if !has_user(s, creator) {
        Err(ServiceError::NotFound)
    } else if s.next_budget_id >= i32::MAX as int {
        Err(ServiceError::InternalServerError)
    } else {
        Ok(())
    }
}

/// Creates a budget and associates it with its creator in the same step:
/// both changes land together or neither does, so the new budget is owned
/// from the first observable moment.
pub fn create_budget(store: &mut Store, creator_user_id: i32, name: String, settings: String) -> (r:
    Result<BudgetRec, ServiceError>)
    requires
        wf(old(store)@),
    ensures
        wf(final(store)@),
        match r {
            Ok(b) => spec_create_budget(old(store)@, creator_user_id as int) is Ok && b@.id == old(
                store,
            )@.next_budget_id && b@.name == name@ && b@.settings == settings@ && final(store)@.budgets
                == old(store)@.budgets.push(b@) && final(store)@.assocs == old(store)@.assocs.push(
                AssocRec { user_id: creator_user_id, budget_id: b.id },
            ) && final(store)@.next_budget_id == old(store)@.next_budget_id + 1 && owns(
                final(store)@,
                creator_user_id as int,
                b@.id,
            ),
            Err(e) => spec_create_budget(old(store)@, creator_user_id as int) == Err::<
                (),
                ServiceError,
            >(e) && *final(store) == *old(store),
        },
        final(store)@.users == old(store)@.users,
        final(store)@.expenses == old(store)@.expenses,
        final(store)@.next_user_id == old(store)@.next_user_id,
        final(store)@.next_expense_id == old(store)@.next_expense_id,
{
    if store.find_user_by_id(creator_user_id).is_none() {
        return Err(ServiceError::NotFound);
    }
    if store.next_budget_id >= i32::MAX {
        return Err(ServiceError::InternalServerError);
    }
    let ghost pre = store@;
    let id = store.next_budget_id;
    let rec = BudgetRec { id, name, settings };
    let out = rec.clone();
    store.budgets.push(rec);
    store.assocs.push(AssocRec { user_id: creator_user_id, budget_id: id });
    store.next_budget_id = id + 1;
    proof {
        let post = store@;
        let nb = pre.budgets.len() as int;
        let na = pre.assocs.len() as int;
        assert(post.budgets =~= pre.budgets.push(out@));
        assert(post.assocs =~= pre.assocs.push(AssocRec { user_id: creator_user_id, budget_id: id }));
        assert(post.users =~= pre.users);
        assert(post.expenses =~= pre.expenses);
        assert(users_wf(post));
        // Budget ids stay unique: every old id sits below the counter.
        assert forall|i: int, j: int|
            #![trigger post.budgets[i], post.budgets[j]]
            0 <= i < j < post.budgets.len() implies post.budgets[i].id != post.budgets[j].id by {
            if j < nb {
                assert(post.budgets[i] == pre.budgets[i]);
                assert(post.budgets[j] == pre.budgets[j]);
            } else {
                assert(post.budgets[i] == pre.budgets[i]);
                assert(pre.budgets[i].id < pre.next_budget_id);
            }
        }
        assert forall|i: int|
            0 <= i < post.budgets.len() implies #[trigger] post.budgets[i].id
            < post.next_budget_id by {
            if i < nb {
                assert(post.budgets[i] == pre.budgets[i]);
                assert(pre.budgets[i].id < pre.next_budget_id);
            }
        }
        // Old associations reference old budgets, whose ids differ from the
        // fresh one; the new association pairs a checked user with the fresh
        // budget.
        assert forall|i: int, j: int|
            #![trigger post.assocs[i], post.assocs[j]]
            0 <= i < j < post.assocs.len() implies !(post.assocs[i].user_id
            == post.assocs[j].user_id && post.assocs[i].budget_id == post.assocs[j].budget_id) by {
            if j < na {
                assert(post.assocs[i] == pre.assocs[i]);
                assert(post.assocs[j] == pre.assocs[j]);
            } else {
                assert(post.assocs[i] == pre.assocs[i]);
                assert(has_user(pre, pre.assocs[i].user_id as int));
                assert(has_budget(pre, pre.assocs[i].budget_id as int));
                let m = choose|m: int|
                    0 <= m < pre.budgets.len() && #[trigger] pre.budgets[m].id
                        == pre.assocs[i].budget_id as int;
                assert(pre.budgets[m].id < pre.next_budget_id);
            }
        }
        assert forall|i: int|
            0 <= i < post.assocs.len() implies has_user(
            post,
            #[trigger] post.assocs[i].user_id as int,
        ) && has_budget(post, post.assocs[i].budget_id as int) by {
            if i < na {
                assert(post.assocs[i] == pre.assocs[i]);
                assert(has_user(pre, pre.assocs[i].user_id as int));
                assert(has_budget(pre, pre.assocs[i].budget_id as int));
                let m = choose|m: int|
                    0 <= m < pre.budgets.len() && #[trigger] pre.budgets[m].id
                        == pre.assocs[i].budget_id as int;
                assert(post.budgets[m] == pre.budgets[m]);
            } else {
                assert(has_user(pre, creator_user_id as int));
                assert(post.budgets[nb].id == id as int);
            }
        }
        assert forall|i: int|
            0 <= i < post.expenses.len() implies has_budget(
            post,
            #[trigger] post.expenses[i].budget_id,
        ) by {
            assert(post.expenses[i] == pre.expenses[i]);
            assert(has_budget(pre, pre.expenses[i].budget_id));
            let m = choose|m: int|
                0 <= m < pre.budgets.len() && #[trigger] pre.budgets[m].id
                    == pre.expenses[i].budget_id;
            assert(post.budgets[m] == pre.budgets[m]);
        }
        assert(expenses_wf(post));
        assert(post.assocs[na].user_id == creator_user_id as int);
        assert(owns(post, creator_user_id as int, id as int));
    }
    Ok(out)
}

/// The exact outcome of a budget mutation: the id must resolve, and the
/// requester must own the budget.
pub open spec fn spec_mutate_budget(s: StoreView, requester: int, budget_id: int) -> Result<
    (),
    ServiceError,
> {
    if !has_budget(s, budget_id) {
        Err(ServiceError::NotFound)
    } else if !owns(s, requester, budget_id) {
        Err(ServiceError::Unauthorized)
    } else {
        Ok(())
    }
}

/// Renames a budget and replaces its settings, if the requester owns it.
/// On any refusal the store — the budget included — is untouched.
pub fn update_budget(store: &mut Store, claims: Claims, budget_id: i32, name: String, settings: String) -> (r: Result<BudgetRec, ServiceError>)
    requires
        wf(old(store)@),
    ensures
        wf(final(store)@),
        match r {
            Ok(b) => spec_mutate_budget(old(store)@, claims.user_id as int, budget_id as int) is Ok
                && b@.id == budget_id as int && b@.name == name@ && b@.settings == settings@ && (
            exists|i: int|
                #![trigger old(store)@.budgets[i]]
                0 <= i < old(store)@.budgets.len() && old(store)@.budgets[i].id == budget_id as int
                    && final(store)@.budgets == old(store)@.budgets.update(i, b@)),
            Err(e) => spec_mutate_budget(old(store)@, claims.user_id as int, budget_id as int)
                == Err::<(), ServiceError>(e) && *final(store) == *old(store),
        },
        final(store)@.users == old(store)@.users,
        final(store)@.assocs == old(store)@.assocs,
        final(store)@.expenses == old(store)@.expenses,
        final(store)@.next_user_id == old(store)@.next_user_id,
        final(store)@.next_budget_id == old(store)@.next_budget_id,
        final(store)@.next_expense_id == old(store)@.next_expense_id,
{
    let idx = match store.find_budget(budget_id) {
        Some(idx) => idx,
        None => { return Err(ServiceError::NotFound) },
    };
    if !user_owns_budget(store, claims.user_id, budget_id) {
        return Err(ServiceError::Unauthorized);
    }
    let ghost pre = store@;
    let rec = BudgetRec { id: budget_id, name, settings };
    let out = rec.clone();
    let slot = vstd::std_specs::vec::vec_index_mut(&mut store.budgets, idx);
    *slot = rec;
    proof {
        let post = store@;
        assert(post.budgets =~= pre.budgets.update(idx as int, out@));
        assert(post.users =~= pre.users);
        assert(post.assocs =~= pre.assocs);
        assert(post.expenses =~= pre.expenses);
        // Ids are pointwise unchanged, so uniqueness and every reference to
        // a budget id survive the update.
        assert forall|i: int|
            0 <= i < post.budgets.len() implies #[trigger] post.budgets[i].id
            == pre.budgets[i].id && post.budgets[i].id < post.next_budget_id by {
            if i != idx as int {
                assert(post.budgets[i] == pre.budgets[i]);
            }
            assert(pre.budgets[i].id < pre.next_budget_id);
        }
        assert forall|x: int| has_budget(pre, x) implies has_budget(post, x) by {
            let m = choose|m: int|
                0 <= m < pre.budgets.len() && #[trigger] pre.budgets[m].id == x;
            assert(post.budgets[m].id == x);
        }
        assert(users_wf(post));
        assert forall|i: int, j: int|
            #![trigger post.budgets[i], post.budgets[j]]
            0 <= i < j < post.budgets.len() implies post.budgets[i].id != post.budgets[j].id by {
            assert(pre.budgets[i].id != pre.budgets[j].id);
        }
        assert forall|i: int|
            0 <= i < post.assocs.len() implies has_user(
            post,
            #[trigger] post.assocs[i].user_id as int,
        ) && has_budget(post, post.assocs[i].budget_id as int) by {
            assert(post.assocs[i] == pre.assocs[i]);
            assert(has_user(pre, pre.assocs[i].user_id as int));
            assert(has_budget(pre, pre.assocs[i].budget_id as int));
            let m = choose|m: int|
                0 <= m < pre.users.len() && #[trigger] pre.users[m].id == pre.assocs[i].user_id as int;
            assert(post.users[m].id == pre.assocs[i].user_id as int);
        }
        assert forall|i: int|
            0 <= i < post.expenses.len() implies has_budget(
            post,
            #[trigger] post.expenses[i].budget_id,
        ) by {
            assert(post.expenses[i] == pre.expenses[i]);
            assert(has_budget(pre, pre.expenses[i].budget_id));
        }
        assert(expenses_wf(post));
    }
    Ok(out)
}

/// Deletes a budget the requester owns: its expenses first, then its
/// associations, then the budget row, all in one call — a refused or failed
/// deletion leaves everything in place.
#[verifier::loop_isolation(false)]
pub fn delete_budget(store: &mut Store, claims: Claims, budget_id: i32) -> (r: Result<
    (),
    ServiceError,
>)
    requires
        wf(old(store)@),
    ensures
        wf(final(store)@),
        match r {
            Ok(()) => spec_mutate_budget(old(store)@, claims.user_id as int, budget_id as int) is Ok
                && final(store)@.expenses == old(store)@.expenses.filter(
                (|e: ExpenseRecView| e.budget_id != budget_id as int),
            ) && final(store)@.assocs == old(store)@.assocs.filter(
                (|a: AssocRec| a.budget_id != budget_id),
            ) && final(store)@.budgets == old(store)@.budgets.filter(
                (|b: BudgetRecView| b.id != budget_id as int),
            ) && !has_budget(final(store)@, budget_id as int),
            Err(e) => spec_mutate_budget(old(store)@, claims.user_id as int, budget_id as int)
                == Err::<(), ServiceError>(e) && *final(store) == *old(store),
        },
        final(store)@.users == old(store)@.users,
        final(store)@.next_user_id == old(store)@.next_user_id,
        final(store)@.next_budget_id == old(store)@.next_budget_id,
        final(store)@.next_expense_id == old(store)@.next_expense_id,
{
    if store.find_budget(budget_id).is_none() {
        return Err(ServiceError::NotFound);
    }
    if !user_owns_budget(store, claims.user_id, budget_id) {
        return Err(ServiceError::Unauthorized);
    }
    let ghost pre = store@;
    let ghost epred: spec_fn(ExpenseRecView) -> bool = (|e: ExpenseRecView|
        e.budget_id != budget_id as int);
    let ghost apred: spec_fn(AssocRec) -> bool = (|a: AssocRec| a.budget_id != budget_id);
    let ghost bpred: spec_fn(BudgetRecView) -> bool = (|b: BudgetRecView|
        b.id != budget_id as int);
    let ghost evf: spec_fn(ExpenseRec) -> ExpenseRecView = (|e: ExpenseRec| e@);
    let ghost bvf: spec_fn(BudgetRec) -> BudgetRecView = (|b: BudgetRec| b@);

    // Step one: remove the budget's expenses.
    let mut kept_expenses: Vec<ExpenseRec> = Vec::new();
    let mut i: usize = 0;
    while i < store.expenses.len()
        invariant
            i <= pre.expenses.len(),
            store@ == pre,
            kept_expenses@.map_values(evf) == pre.expenses.take(i as int).filter(epred),
        decreases pre.expenses.len() - i,
    {
        let e = &store.expenses[i];
        proof {
            assert(pre.expenses.take(i + 1) =~= pre.expenses.take(i as int).push(
                pre.expenses[i as int],
            ));
            lemma_filter_push(pre.expenses.take(i as int), pre.expenses[i as int], epred);
        }
        if e.budget_id != budget_id {
            let c = e.clone();
            kept_expenses.push(c);
            proof {
                assert(kept_expenses@.map_values(evf) =~= pre.expenses.take(i as int).filter(
                    epred,
                ).push(pre.expenses[i as int]));
            }
        }
        i = i + 1;
    }
    proof {
        assert(pre.expenses.take(pre.expenses.len() as int) =~= pre.expenses);
    }

    // Step two: remove its associations.
    let mut kept_assocs: Vec<AssocRec> = Vec::new();
    let mut j: usize = 0;
    while j < store.assocs.len()
        invariant
            j <= pre.assocs.len(),
            store@ == pre,
            kept_assocs@ == pre.assocs.take(j as int).filter(apred),
        decreases pre.assocs.len() - j,
    {
        let a = store.assocs[j];
        proof {
            assert(pre.assocs.take(j + 1) =~= pre.assocs.take(j as int).push(a));
            lemma_filter_push(pre.assocs.take(j as int), a, apred);
        }
        if a.budget_id != budget_id {
            kept_assocs.push(a);
        }
        j = j + 1;
    }
    proof {
        assert(pre.assocs.take(pre.assocs.len() as int) =~= pre.assocs);
    }

    // Step three: remove the budget row itself.
    let mut kept_budgets: Vec<BudgetRec> = Vec::new();
    let mut k: usize = 0;
    while k < store.budgets.len()
        invariant
            k <= pre.budgets.len(),
            store@ == pre,
            kept_budgets@.map_values(bvf) == pre.budgets.take(k as int).filter(bpred),
        decreases pre.budgets.len() - k,
    {
        let b = &store.budgets[k];
        proof {
            assert(pre.budgets.take(k + 1) =~= pre.budgets.take(k as int).push(
                pre.budgets[k as int],
            ));
            lemma_filter_push(pre.budgets.take(k as int), pre.budgets[k as int], bpred);
        }
        if b.id != budget_id {
            let c = b.clone();
            kept_budgets.push(c);
            proof {
                assert(kept_budgets@.map_values(bvf) =~= pre.budgets.take(k as int).filter(
                    bpred,
                ).push(pre.budgets[k as int]));
            }
        }
        k = k + 1;
    }
    proof {
        assert(pre.budgets.take(pre.budgets.len() as int) =~= pre.budgets);
    }

    store.expenses = kept_expenses;
    store.assocs = kept_assocs;
    store.budgets = kept_budgets;
    proof {
        let post = store@;
        assert(post.expenses == pre.expenses.filter(epred));
        assert(post.assocs == pre.assocs.filter(apred));
        assert(post.budgets == pre.budgets.filter(bpred));
        assert(post.users =~= pre.users);
        assert(users_wf(post));

        // Uniqueness survives filtering, table by table.
        let brel = (|x: BudgetRecView, y: BudgetRecView| x.id != y.id);
        assert forall|x: int, y: int|
            #![trigger pre.budgets[x], pre.budgets[y]]
            0 <= x < y < pre.budgets.len() implies brel(pre.budgets[x], pre.budgets[y]) by {}
        lemma_filter_pairwise(pre.budgets, bpred, brel);
        assert forall|x: int, y: int|
            #![trigger post.budgets[x], post.budgets[y]]
            0 <= x < y < post.budgets.len() implies post.budgets[x].id != post.budgets[y].id by {
            assert(brel(pre.budgets.filter(bpred)[x], pre.budgets.filter(bpred)[y]));
        }
        let arel = (|x: AssocRec, y: AssocRec| !(x.user_id == y.user_id && x.budget_id
            == y.budget_id));
        assert forall|x: int, y: int|
            #![trigger pre.assocs[x], pre.assocs[y]]
            0 <= x < y < pre.assocs.len() implies arel(pre.assocs[x], pre.assocs[y]) by {}
        lemma_filter_pairwise(pre.assocs, apred, arel);
        assert forall|x: int, y: int|
            #![trigger post.assocs[x], post.assocs[y]]
            0 <= x < y < post.assocs.len() implies !(post.assocs[x].user_id
            == post.assocs[y].user_id && post.assocs[x].budget_id == post.assocs[y].budget_id) by {
            assert(arel(pre.assocs.filter(apred)[x], pre.assocs.filter(apred)[y]));
        }
        let erel = (|x: ExpenseRecView, y: ExpenseRecView| x.id != y.id);
        assert forall|x: int, y: int|
            #![trigger pre.expenses[x], pre.expenses[y]]
            0 <= x < y < pre.expenses.len() implies erel(pre.expenses[x], pre.expenses[y]) by {}
        lemma_filter_pairwise(pre.expenses, epred, erel);
        assert forall|x: int, y: int|
            #![trigger post.expenses[x], post.expenses[y]]
            0 <= x < y < post.expenses.len() implies post.expenses[x].id != post.expenses[y].id by {
            assert(erel(pre.expenses.filter(epred)[x], pre.expenses.filter(epred)[y]));
        }

        // Counter bounds and per-record facts survive filtering.
        lemma_filter_unary(pre.budgets, bpred, (|b: BudgetRecView| b.id < pre.next_budget_id));
        lemma_filter_unary(
            pre.expenses,
            epred,
            (|e: ExpenseRecView| e.id < pre.next_expense_id && -(crate::amount::AMOUNT_LIMIT as int)
                <= e.amount <= crate::amount::AMOUNT_LIMIT as int && e.date.wf()),
        );

        // A kept budget id survives into the new table.
        assert forall|x: int| has_budget(pre, x) && x != budget_id as int implies has_budget(
            post,
            x,
        ) by {
            let m = choose|m: int| 0 <= m < pre.budgets.len() && #[trigger] pre.budgets[m].id == x;
            assert(bpred(pre.budgets[m]));
            pre.budgets.lemma_filter_contains(bpred, m);
            assert(post.budgets.contains(pre.budgets[m]));
            let n = choose|n: int|
                0 <= n < post.budgets.len() && post.budgets[n] == pre.budgets[m];
            assert(post.budgets[n].id == x);
        }

        // Referential integrity of what stayed.
        lemma_filter_unary(pre.expenses, epred, (|e: ExpenseRecView| has_budget(pre, e.budget_id)));
        assert forall|x: int|
            0 <= x < post.expenses.len() implies has_budget(
            post,
            #[trigger] post.expenses[x].budget_id,
        ) by {
            pre.expenses.lemma_filter_pred(epred, x);
            assert(epred(post.expenses[x]));
            assert(has_budget(pre, post.expenses[x].budget_id));
        }
        lemma_filter_unary(pre.assocs, apred, (|a: AssocRec| has_user(pre, a.user_id as int)
            && has_budget(pre, a.budget_id as int)));
        assert forall|x: int|
            0 <= x < post.assocs.len() implies has_user(
            post,
            #[trigger] post.assocs[x].user_id as int,
        ) && has_budget(post, post.assocs[x].budget_id as int) by {
            pre.assocs.lemma_filter_pred(apred, x);
            assert(apred(post.assocs[x]));
            assert(has_user(pre, post.assocs[x].user_id as int));
            assert(has_budget(pre, post.assocs[x].budget_id as int));
            let m = choose|m: int|
                0 <= m < pre.users.len() && #[trigger] pre.users[m].id == post.assocs[x].user_id as int;
            assert(post.users[m].id == post.assocs[x].user_id as int);
        }

        // The budget id itself is gone.
        assert(!has_budget(post, budget_id as int)) by {
            if has_budget(post, budget_id as int) {
                let w = choose|w: int|
                    0 <= w < post.budgets.len() && #[trigger] post.budgets[w].id == budget_id as int;
                pre.budgets.lemma_filter_pred(bpred, w);
                assert(bpred(post.budgets[w]));
            }
        }
    }
    Ok(())
}

} // verus!
