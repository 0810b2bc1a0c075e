//! Granting and revoking budget ownership.
//!
//! An association `(user_id, budget_id)` is the whole of ownership: inserting
//! one grants access, removing one revokes it. Only a user who already owns
//! the budget may grant it to someone or revoke a grant — including their
//! own, which is how a user walks away from a shared budget.

use vstd::prelude::*;

use crate::auth::Claims;
use crate::seq_util::{lemma_filter_pairwise, lemma_filter_push, lemma_filter_sub};
use crate::store::{
    assocs_wf, budgets_wf, expenses_wf, has_budget, has_user, owns, users_wf, wf, AssocRec, Store,
    StoreView,
};
use crate::utils::{user_owns_budget, ServiceError};

verus! {

/// The exact outcome of an association grant: the requester must own the
/// budget, the grantee must exist, and the grant must be new.
pub open spec fn spec_add_association(
    s: StoreView,
    requester: int,
    user_id: int,
    budget_id: int,
) -> Result<(), ServiceError> {
    if !owns(s, requester, budget_id) {
        Err(ServiceError::Unauthorized)
    } else if !has_user(s, user_id) {
        Err(ServiceError::NotFound)
    } else if owns(s, user_id, budget_id) {
        Err(ServiceError::Conflict)
    } else {
        Ok(())
    }
}

/// Grants `user_id` ownership of `budget_id`, on the authority of `claims`.
/// Immediately afterwards `owns(user_id, budget_id)` holds; nothing else in
/// the store moves.
pub fn add_association(store: &mut Store, claims: Claims, user_id: i32, budget_id: i32) -> (r:
    Result<(), ServiceError>)
    requires
        wf(old(store)@),
    ensures
        wf(final(store)@),
        r == spec_add_association(
            old(store)@,
            claims.user_id as int,
            user_id as int,
            budget_id as int,
        ),
        r is Err ==> *final(store) == *old(store),
        r is Ok ==> final(store)@.assocs == old(store)@.assocs.push(
            AssocRec { user_id, budget_id },
        ),
        r is Ok ==> owns(final(store)@, user_id as int, budget_id as int),
        final(store)@.users == old(store)@.users,
        final(store)@.budgets == old(store)@.budgets,
        final(store)@.expenses == old(store)@.expenses,
        final(store)@.next_user_id == old(store)@.next_user_id,
        final(store)@.next_budget_id == old(store)@.next_budget_id,
        final(store)@.next_expense_id == old(store)@.next_expense_id,
{
    if !user_owns_budget(store, claims.user_id, budget_id) {
        return Err(ServiceError::Unauthorized);
    }
    if store.find_user_by_id(user_id).is_none() {
        return Err(ServiceError::NotFound);
    }
    if user_owns_budget(store, user_id, budget_id) {
        return Err(ServiceError::Conflict);
    }
    let ghost pre = store@;
    store.assocs.push(AssocRec { user_id, budget_id });
    proof {
        let post = store@;
        assert(post.assocs =~= pre.assocs.push(AssocRec { user_id, budget_id }));
        let n = pre.assocs.len() as int;
        assert(post.assocs[n].user_id == user_id && post.assocs[n].budget_id == budget_id);
        // The budget exists because the requester's own grant is in the table.
        let w = choose|i: int|
            0 <= i < pre.assocs.len() && #[trigger] pre.assocs[i].user_id == claims.user_id as int
                && pre.assocs[i].budget_id == budget_id as int;
        assert(has_budget(pre, pre.assocs[w].budget_id as int));
        assert(post.users =~= pre.users);
        assert(post.budgets =~= pre.budgets);
        assert(post.expenses =~= pre.expenses);
        assert(users_wf(post) && budgets_wf(post) && expenses_wf(post));
        assert forall|i: int, j: int|
            #![trigger post.assocs[i], post.assocs[j]]
            0 <= i < j < post.assocs.len() implies !(post.assocs[i].user_id
            == post.assocs[j].user_id && post.assocs[i].budget_id == post.assocs[j].budget_id) by {
            if j < n {
                assert(post.assocs[i] == pre.assocs[i]);
                assert(post.assocs[j] == pre.assocs[j]);
            } else {
                assert(post.assocs[i] == pre.assocs[i]);
                // A duplicate of the new pair would witness prior ownership.
                if post.assocs[i].user_id == user_id && post.assocs[i].budget_id == budget_id {
                    assert(pre.assocs[i].user_id == user_id as int);
                    assert(owns(pre, user_id as int, budget_id as int));
                }
            }
        }
        assert forall|i: int|
            0 <= i < post.assocs.len() implies has_user(
            post,
            #[trigger] post.assocs[i].user_id as int,
        ) && has_budget(post, post.assocs[i].budget_id as int) by {
            if i < n {
                assert(post.assocs[i] == pre.assocs[i]);
                assert(has_user(pre, pre.assocs[i].user_id as int));
                assert(has_budget(pre, pre.assocs[i].budget_id as int));
            } else {
                assert(has_user(pre, user_id as int));
            }
        }
    }
    Ok(())
}

/// The exact outcome of a revocation: the requester must own the budget;
/// revoking an absent grant succeeds and changes nothing.
pub open spec fn spec_remove_association(s: StoreView, requester: int, budget_id: int) -> Result<
    (),
    ServiceError,
> {
    if !owns(s, requester, budget_id) {
        Err(ServiceError::Unauthorized)
    } else {
        Ok(())
    }
}

/// Revokes `user_id`'s ownership of `budget_id`, on the authority of
/// `claims`. Immediately afterwards `owns(user_id, budget_id)` no longer
/// holds; nothing else in the store moves.
#[verifier::loop_isolation(false)]
pub fn remove_association(store: &mut Store, claims: Claims, user_id: i32, budget_id: i32) -> (r:
    Result<(), ServiceError>)
    requires
        wf(old(store)@),
    ensures
        wf(final(store)@),
        r == spec_remove_association(old(store)@, claims.user_id as int, budget_id as int),
        r is Err ==> *final(store) == *old(store),
        r is Ok ==> final(store)@.assocs == old(store)@.assocs.filter(
            (|a: AssocRec| !(a.user_id == user_id && a.budget_id == budget_id)),
        ),
        r is Ok ==> !owns(final(store)@, user_id as int, budget_id as int),
        final(store)@.users == old(store)@.users,
        final(store)@.budgets == old(store)@.budgets,
        final(store)@.expenses == old(store)@.expenses,
        final(store)@.next_user_id == old(store)@.next_user_id,
        final(store)@.next_budget_id == old(store)@.next_budget_id,
        final(store)@.next_expense_id == old(store)@.next_expense_id,
{
    if !user_owns_budget(store, claims.user_id, budget_id) {
        return Err(ServiceError::Unauthorized);
    }
    let ghost pre = store@;
    let ghost pred: spec_fn(AssocRec) -> bool = (|a: AssocRec|
        !(a.user_id == user_id && a.budget_id == budget_id));
    let mut kept: Vec<AssocRec> = Vec::new();
    let mut i: usize = 0;
    while i < store.assocs.len()
        invariant
            i <= pre.assocs.len(),
            store@ == pre,
            store.assocs@ == pre.assocs,
            kept@ == pre.assocs.take(i as int).filter(pred),
        decreases pre.assocs.len() - i,
    {
        let a = store.assocs[i];
        proof {
            assert(a == pre.assocs[i as int]);
            assert(pre.assocs.take(i + 1) =~= pre.assocs.take(i as int).push(a));
            lemma_filter_push(pre.assocs.take(i as int), a, pred);
        }
        if !(a.user_id == user_id && a.budget_id == budget_id) {
            kept.push(a);
            proof {
                assert(pred(a));
                assert(kept@ == pre.assocs.take(i + 1).filter(pred));
            }
        } else {
            proof {
                assert(!pred(a));
                assert(kept@ == pre.assocs.take(i + 1).filter(pred));
            }
        }
        i = i + 1;
    }
    proof {
        assert(pre.assocs.take(pre.assocs.len() as int) =~= pre.assocs);
    }
    store.assocs = kept;
    proof {
        let post = store@;
        assert(post.assocs == pre.assocs.filter(pred));
        lemma_filter_sub(pre.assocs, pred);
        let rel = (|x: AssocRec, y: AssocRec| !(x.user_id == y.user_id && x.budget_id
            == y.budget_id));
        assert forall|x: int, y: int|
            #![trigger pre.assocs[x], pre.assocs[y]]
            0 <= x < y < pre.assocs.len() implies rel(pre.assocs[x], pre.assocs[y]) by {}
        lemma_filter_pairwise(pre.assocs, pred, rel);
        assert(post.users =~= pre.users);
        assert(post.budgets =~= pre.budgets);
        assert(post.expenses =~= pre.expenses);
        assert(users_wf(post) && budgets_wf(post) && expenses_wf(post));
        assert forall|k: int, l: int|
            #![trigger post.assocs[k], post.assocs[l]]
            0 <= k < l < post.assocs.len() implies !(post.assocs[k].user_id
            == post.assocs[l].user_id && post.assocs[k].budget_id == post.assocs[l].budget_id) by {
            assert(rel(pre.assocs.filter(pred)[k], pre.assocs.filter(pred)[l]));
        }
        assert forall|k: int|
            0 <= k < post.assocs.len() implies has_user(
            post,
            #[trigger] post.assocs[k].user_id as int,
        ) && has_budget(post, post.assocs[k].budget_id as int) by {
            assert(pre.assocs.contains(post.assocs[k]));
            let m = choose|m: int| 0 <= m < pre.assocs.len() && pre.assocs[m] == post.assocs[k];
            assert(has_user(pre, pre.assocs[m].user_id as int));
            assert(has_budget(pre, pre.assocs[m].budget_id as int));
        }
        assert(!owns(post, user_id as int, budget_id as int)) by {
            if owns(post, user_id as int, budget_id as int) {
                let w = choose|w: int|
                    0 <= w < post.assocs.len() && #[trigger] post.assocs[w].user_id
                        == user_id as int && post.assocs[w].budget_id == budget_id as int;
                pre.assocs.lemma_filter_pred(pred, w);
                assert(pred(post.assocs[w]));
            }
        }
    }
    Ok(())
}

} // verus!
