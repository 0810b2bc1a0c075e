//! Account handlers: registration, login, profile update, account deletion.
//!
//! Passwords are hashed with bcrypt before they touch the store and are
//! never kept in plaintext. A failed login answers with one fixed error
//! whatever went wrong — an unknown name and a wrong password are
//! indistinguishable to the caller. Deleting an account cascades through
//! every budget the account was associated with, in one call.

use vstd::prelude::*;

use crate::auth::{issue_token, jwt_claims_of, Claims, TOKEN_TTL_SECS};
use crate::seq_util::{lemma_filter_pairwise, lemma_filter_push, lemma_filter_unary};
use crate::store::{
    assocs_wf, budgets_wf, expenses_wf, has_budget, has_user, has_user_name, owns, users_wf, wf,
    AssocRec, BudgetRecView, ExpenseRecView, Store, StoreView, UserRec, UserRecView,
};
use crate::utils::{user_owns_budget, ServiceError};
use vstd::utf8::encode_utf8;

verus! {

/// Does this password match this bcrypt hash? What `bcrypt::verify` answers:
/// a function of the two arguments alone, the same in every process.
pub uninterp spec fn bcrypt_matches(password: Seq<char>, hashed: Seq<char>) -> bool;

/// Relies on `bcrypt::hash`: it salts and hashes the password, and
/// `bcrypt::verify` accepts the password against every hash it produces.
/// It errors (rather than panics) on a cost outside bcrypt's range or when
/// OS randomness for the salt is unavailable.
#[verifier::external_body]
fn bcrypt_hash(password: &str, cost: u32) -> (r: Result<String, ()>)
    ensures
        r matches Ok(h) ==> bcrypt_matches(password@, h@),
{
    match bcrypt::hash(password, cost) {
        Ok(h) => Ok(h),
        Err(_) => Err(()),
    }
}

/// Relies on `bcrypt::verify`: deterministic in the password and the hash;
/// an error for a malformed hash counts as a mismatch.
#[verifier::external_body]
fn bcrypt_verify(password: &str, hashed: &str) -> (r: bool)
    ensures
        r == bcrypt_matches(password@, hashed@),
{
    bcrypt::verify(password, hashed).unwrap_or(false)
}

/// Registers a new account: refuses a taken name with `Conflict`, hashes
/// the password, stores the user, and issues a token at once — registration
/// implies login. On success the returned token's claims decode to the new
/// user's id. The one failure the contract cannot pin is the hasher's own
/// (`BadRequest`): bcrypt draws its salt from OS randomness.
pub fn register(
    store: &mut Store,
    name: String,
    password: &str,
    cost: u32,
    secret: &[u8],
    now: u64,
) -> (r: Result<(i32, String), ServiceError>)
    requires
        wf(old(store)@),
        now + TOKEN_TTL_SECS <= u64::MAX,
    ensures
        wf(final(store)@),
        r is Err ==> *final(store) == *old(store),
        r == Err::<(i32, String), ServiceError>(ServiceError::Conflict) <==> has_user_name(
            old(store)@,
            name@,
        ),
        r == Err::<(i32, String), ServiceError>(ServiceError::InternalServerError) <==> (
        !has_user_name(old(store)@, name@) && old(store)@.next_user_id >= i32::MAX as int),
        r matches Err(e) ==> (e == ServiceError::Conflict || e == ServiceError::BadRequest
            || e == ServiceError::InternalServerError),
        r == Err::<(i32, String), ServiceError>(ServiceError::BadRequest) ==> !has_user_name(
            old(store)@,
            name@,
        ) && old(store)@.next_user_id < i32::MAX as int,
        r matches Ok(pair) ==> {
            &&& !has_user_name(old(store)@, name@)
            &&& pair.0 as int == old(store)@.next_user_id
            &&& final(store)@.users == old(store)@.users.push(
                UserRecView {
                    id: pair.0 as int,
                    name: name@,
                    password_hash: final(store)@.users.last().password_hash,
                },
            )
            &&& bcrypt_matches(password@, final(store)@.users.last().password_hash)
            &&& has_user_name(final(store)@, name@)
            &&& final(store)@.next_user_id == old(store)@.next_user_id + 1
            &&& jwt_claims_of(encode_utf8(pair.1@), secret@) == Some(
                (pair.0 as i64, (now + TOKEN_TTL_SECS) as u64),
            )
        },
        final(store)@.budgets == old(store)@.budgets,
        final(store)@.assocs == old(store)@.assocs,
        final(store)@.expenses == old(store)@.expenses,
        final(store)@.next_budget_id == old(store)@.next_budget_id,
        final(store)@.next_expense_id == old(store)@.next_expense_id,
{
    if store.find_user_by_name(&name).is_some() {
        return Err(ServiceError::Conflict);
    }
    if store.next_user_id >= i32::MAX {
        return Err(ServiceError::InternalServerError);
    }
    let hash = match bcrypt_hash(password, cost) {
        Ok(h) => h,
        Err(_) => { return Err(ServiceError::BadRequest) },
    };
    let token = issue_token(store.next_user_id, now, secret);
    let ghost pre = store@;
    let id = store.next_user_id;
    store.users.push(UserRec { id, name, password_hash: hash });
    store.next_user_id = id + 1;
    proof {
        let post = store@;
        let n = pre.users.len() as int;
        assert(post.users[n].id == id as int);
        assert(post.budgets =~= pre.budgets);
        assert(post.assocs =~= pre.assocs);
        assert(post.expenses =~= pre.expenses);
        assert(post.users =~= pre.users.push(post.users.last()));
        assert(has_user_name(post, post.users[n].name));
        assert forall|i: int, j: int|
            #![trigger post.users[i], post.users[j]]
            0 <= i < j < post.users.len() implies post.users[i].id != post.users[j].id
            && post.users[i].name != post.users[j].name by {
            if j < n {
                assert(post.users[i] == pre.users[i]);
                assert(post.users[j] == pre.users[j]);
            } else {
                assert(post.users[i] == pre.users[i]);
                assert(pre.users[i].id < pre.next_user_id);
            }
        }
        assert forall|i: int|
            0 <= i < post.users.len() implies #[trigger] post.users[i].id < post.next_user_id by {
            if i < n {
                assert(post.users[i] == pre.users[i]);
                assert(pre.users[i].id < pre.next_user_id);
            }
        }
        assert(budgets_wf(post) && expenses_wf(post));
        assert forall|i: int|
            0 <= i < post.assocs.len() implies has_user(
            post,
            #[trigger] post.assocs[i].user_id as int,
        ) && has_budget(post, post.assocs[i].budget_id as int) by {
            assert(post.assocs[i] == pre.assocs[i]);
            assert(has_user(pre, pre.assocs[i].user_id as int));
            assert(has_budget(pre, pre.assocs[i].budget_id as int));
            let m = choose|m: int|
                0 <= m < pre.users.len() && #[trigger] pre.users[m].id
                    == pre.assocs[i].user_id as int;
            assert(post.users[m].id == pre.assocs[i].user_id as int);
            crate::store::lemma_same_budgets_has_budget(pre, post, pre.assocs[i].budget_id as int);
        }
    }
    Ok((id, token))
}

/// These credentials name a stored user whose bcrypt hash accepts the
/// password.
pub open spec fn spec_credentials_ok(s: StoreView, name: Seq<char>, password: Seq<char>) -> bool {
    exists|i: int|
        0 <= i < s.users.len() && #[trigger] s.users[i].name == name && bcrypt_matches(
            password,
            s.users[i].password_hash,
        )
}

/// Authenticates by name and password and issues a token. Valid credentials
/// always succeed; a wrong password and a nonexistent name answer with the
/// identical error — the one failure there is — so the response never
/// reveals whether the name exists.
pub fn login(store: &Store, name: &String, password: &str, secret: &[u8], now: u64) -> (r: Result<
    (i32, String),
    ServiceError,
>)
    requires
        wf(store@),
        now + TOKEN_TTL_SECS <= u64::MAX,
    ensures
        r is Ok <==> spec_credentials_ok(store@, name@, password@),
        r is Err ==> r == Err::<(i32, String), ServiceError>(ServiceError::InvalidCredentials),
        r matches Ok(pair) ==> {
            &&& spec_credentials_ok(store@, name@, password@)
            &&& exists|i: int|
                0 <= i < store@.users.len() && #[trigger] store@.users[i].name == name@
                    && store@.users[i].id == pair.0 as int
            &&& jwt_claims_of(encode_utf8(pair.1@), secret@) == Some(
                (pair.0 as i64, (now + TOKEN_TTL_SECS) as u64),
            )
        },
{
    let idx = match store.find_user_by_name(name) {
        Some(idx) => idx,
        None => {
            proof {
                assert(!spec_credentials_ok(store@, name@, password@)) by {
                    if spec_credentials_ok(store@, name@, password@) {
                        let w = choose|w: int|
                            0 <= w < store@.users.len() && #[trigger] store@.users[w].name == name@
                                && bcrypt_matches(password@, store@.users[w].password_hash);
                        assert(has_user_name(store@, name@));
                    }
                }
            }
            return Err(ServiceError::InvalidCredentials);
        },
    };
    let user = &store.users[idx];
    if !bcrypt_verify(password, user.password_hash.as_str()) {
        proof {
            assert(!spec_credentials_ok(store@, name@, password@)) by {
                if spec_credentials_ok(store@, name@, password@) {
                    let w = choose|w: int|
                        0 <= w < store@.users.len() && #[trigger] store@.users[w].name == name@
                            && bcrypt_matches(password@, store@.users[w].password_hash);
                    // Names are unique, so the witness is the user found.
                    if w < idx as int {
                        assert(store@.users[w].name != store@.users[idx as int].name);
                    } else if (idx as int) < w {
                        assert(store@.users[idx as int].name != store@.users[w].name);
                    }
                }
            }
        }
        return Err(ServiceError::InvalidCredentials);
    }
    let id = user.id;
    let token = issue_token(id, now, secret);
    proof {
        assert(store@.users[idx as int].name == name@);
    }
    Ok((id, token))
}

/// Another user already carries this name.
pub open spec fn name_taken_by_other(s: StoreView, name: Seq<char>, user_id: int) -> bool {
    exists|i: int|
        0 <= i < s.users.len() && #[trigger] s.users[i].name == name && s.users[i].id != user_id
}

/// The exact outcome of a profile update: only the account's own bearer may
/// touch it, the account must exist, and the new name must not belong to
/// anyone else.
pub open spec fn spec_update_user(
    s: StoreView,
    requester: int,
    user_id: int,
    name: Seq<char>,
) -> Result<(), ServiceError> {
    if user_id != requester {
        Err(ServiceError::Unauthorized)
    } else if !has_user(s, user_id) {
        Err(ServiceError::NotFound)
    } else if name_taken_by_other(s, name, user_id) {
        Err(ServiceError::Conflict)
    } else {
        Ok(())
    }
}

/// Replaces the account's name and password; the password is re-hashed and
/// the stored id is untouched. On any refusal the store is untouched.
pub fn update_user(
    store: &mut Store,
    claims: Claims,
    user_id: i32,
    name: String,
    password: &str,
    cost: u32,
) -> (r: Result<(), ServiceError>)
    requires
        wf(old(store)@),
    ensures
        wf(final(store)@),
        r is Err ==> *final(store) == *old(store),
        r matches Err(e) ==> (if e == ServiceError::BadRequest {
            spec_update_user(old(store)@, claims.user_id as int, user_id as int, name@) is Ok
        } else {
            spec_update_user(old(store)@, claims.user_id as int, user_id as int, name@) == Err::<
                (),
                ServiceError,
            >(e)
        }),
        r is Ok ==> spec_update_user(old(store)@, claims.user_id as int, user_id as int, name@)
            is Ok && (exists|i: int|
            #![trigger old(store)@.users[i]]
            0 <= i < old(store)@.users.len() && old(store)@.users[i].id == user_id as int
                && final(store)@.users == old(store)@.users.update(
                i,
                UserRecView {
                    id: user_id as int,
                    name: name@,
                    password_hash: final(store)@.users[i].password_hash,
                },
            ) && bcrypt_matches(password@, final(store)@.users[i].password_hash)),
        final(store)@.budgets == old(store)@.budgets,
        final(store)@.assocs == old(store)@.assocs,
        final(store)@.expenses == old(store)@.expenses,
        final(store)@.next_user_id == old(store)@.next_user_id,
        final(store)@.next_budget_id == old(store)@.next_budget_id,
        final(store)@.next_expense_id == old(store)@.next_expense_id,
{
    if user_id != claims.user_id {
        return Err(ServiceError::Unauthorized);
    }
    let idx = match store.find_user_by_id(user_id) {
        Some(idx) => idx,
        None => { return Err(ServiceError::NotFound) },
    };
    match store.find_user_by_name(&name) {
        Some(j) => {
            if store.users[j].id != user_id {
                return Err(ServiceError::Conflict);
            }
            proof {
                assert(!name_taken_by_other(store@, name@, user_id as int)) by {
                    if name_taken_by_other(store@, name@, user_id as int) {
                        let w = choose|w: int|
                            0 <= w < store@.users.len() && #[trigger] store@.users[w].name == name@
                                && store@.users[w].id != user_id as int;
                        if w < j as int {
                            assert(store@.users[w].name != store@.users[j as int].name);
                        } else if (j as int) < w {
                            assert(store@.users[j as int].name != store@.users[w].name);
                        }
                    }
                }
            }
        },
        None => {
            proof {
                assert(!name_taken_by_other(store@, name@, user_id as int)) by {
                    if name_taken_by_other(store@, name@, user_id as int) {
                        let w = choose|w: int|
                            0 <= w < store@.users.len() && #[trigger] store@.users[w].name == name@
                                && store@.users[w].id != user_id as int;
                        assert(has_user_name(store@, name@));
                    }
                }
            }
        },
    }
    let hash = match bcrypt_hash(password, cost) {
        Ok(h) => h,
        Err(_) => { return Err(ServiceError::BadRequest) },
    };
    let ghost pre = store@;
    let rec = UserRec { id: user_id, name, password_hash: hash };
    let slot = vstd::std_specs::vec::vec_index_mut(&mut store.users, idx);
    *slot = rec;
    proof {
        let post = store@;
        assert(post.users =~= pre.users.update(
            idx as int,
            UserRecView {
                id: user_id as int,
                name: post.users[idx as int].name,
                password_hash: post.users[idx as int].password_hash,
            },
        ));
        assert(post.budgets =~= pre.budgets);
        assert(post.assocs =~= pre.assocs);
        assert(post.expenses =~= pre.expenses);
        assert forall|i: int|
            0 <= i < post.users.len() implies #[trigger] post.users[i].id == pre.users[i].id by {
            if i != idx as int {
                assert(post.users[i] == pre.users[i]);
            }
        }
        assert forall|i: int, j: int|
            #![trigger post.users[i], post.users[j]]
            0 <= i < j < post.users.len() implies post.users[i].id != post.users[j].id
            && post.users[i].name != post.users[j].name by {
            assert(pre.users[i].id != pre.users[j].id);
            assert(pre.users[i].name != pre.users[j].name);
            if i == idx as int {
                assert(post.users[j] == pre.users[j]);
                // A clash would make the other user a counterexample to the
                // conflict check.
                if pre.users[j].name == name@ {
                    assert(pre.users[j].id != user_id as int);
                }
            } else if j == idx as int {
                assert(post.users[i] == pre.users[i]);
                if pre.users[i].name == name@ {
                    assert(pre.users[i].id != user_id as int);
                }
            }
        }
        assert forall|i: int|
            0 <= i < post.users.len() implies #[trigger] post.users[i].id < post.next_user_id by {
            assert(pre.users[i].id < pre.next_user_id);
        }
        assert(budgets_wf(post));
        assert forall|i: int|
            0 <= i < post.assocs.len() implies has_user(
            post,
            #[trigger] post.assocs[i].user_id as int,
        ) && has_budget(post, post.assocs[i].budget_id as int) by {
            assert(post.assocs[i] == pre.assocs[i]);
            assert(has_user(pre, pre.assocs[i].user_id as int));
            assert(has_budget(pre, pre.assocs[i].budget_id as int));
            let m = choose|m: int|
                0 <= m < pre.users.len() && #[trigger] pre.users[m].id
                    == pre.assocs[i].user_id as int;
            assert(post.users[m].id == pre.assocs[i].user_id as int);
            crate::store::lemma_same_budgets_has_budget(pre, post, pre.assocs[i].budget_id as int);
        }
        assert forall|i: int|
            0 <= i < post.expenses.len() implies has_budget(
            post,
            #[trigger] post.expenses[i].budget_id,
        ) by {
            assert(post.expenses[i] == pre.expenses[i]);
            assert(has_budget(pre, pre.expenses[i].budget_id));
            crate::store::lemma_same_budgets_has_budget(pre, post, pre.expenses[i].budget_id);
        }
        assert(expenses_wf(post));
    }
    Ok(())
}

/// The exact outcome of an account deletion: only the account's own bearer
/// may order it.
pub open spec fn spec_delete_user(requester: int, user_id: int) -> Result<(), ServiceError> {
    if user_id != requester {
        Err(ServiceError::Unauthorized)
    } else {
        Ok(())
    }
}

/// Deletes an account and cascades: every budget the account was associated
/// with goes, with its expenses and all its associations (other owners'
/// included), then the account's remaining associations, then the account
/// row. One call, no observable intermediate state: afterwards no expense,
/// association or budget of the deleted account's budgets remains, and no
/// association mentions the account.
#[verifier::loop_isolation(false)]
pub fn delete_user(store: &mut Store, claims: Claims, user_id: i32) -> (r: Result<
    (),
    ServiceError,
>)
    requires
        wf(old(store)@),
    ensures
        wf(final(store)@),
        r == spec_delete_user(claims.user_id as int, user_id as int),
        r is Err ==> *final(store) == *old(store),
        r is Ok ==> {
            &&& final(store)@.users == old(store)@.users.filter(
                (|u: UserRecView| u.id != user_id as int),
            )
            &&& final(store)@.budgets == old(store)@.budgets.filter(
                (|b: BudgetRecView| !owns(old(store)@, user_id as int, b.id)),
            )
            &&& final(store)@.expenses == old(store)@.expenses.filter(
                (|e: ExpenseRecView| !owns(old(store)@, user_id as int, e.budget_id)),
            )
            &&& final(store)@.assocs == old(store)@.assocs.filter(
                (|a: AssocRec| a.user_id != user_id && !owns(
                    old(store)@,
                    user_id as int,
                    a.budget_id as int,
                )),
            )
            &&& !has_user(final(store)@, user_id as int)
            &&& forall|i: int|
                0 <= i < final(store)@.assocs.len()
                    ==> (#[trigger] final(store)@.assocs[i].user_id) != user_id
            &&& forall|i: int|
                0 <= i < final(store)@.budgets.len() ==> !owns(
                    old(store)@,
                    user_id as int,
                    (#[trigger] final(store)@.budgets[i]).id,
                )
            &&& forall|i: int|
                0 <= i < final(store)@.expenses.len() ==> !owns(
                    old(store)@,
                    user_id as int,
                    (#[trigger] final(store)@.expenses[i]).budget_id,
                )
        },
        final(store)@.next_user_id == old(store)@.next_user_id,
        final(store)@.next_budget_id == old(store)@.next_budget_id,
        final(store)@.next_expense_id == old(store)@.next_expense_id,
{
    if user_id != claims.user_id {
        return Err(ServiceError::Unauthorized);
    }
    let ghost pre = store@;
    let ghost upred: spec_fn(UserRecView) -> bool = (|u: UserRecView| u.id != user_id as int);
    let ghost bpred: spec_fn(BudgetRecView) -> bool = (|b: BudgetRecView|
        !owns(pre, user_id as int, b.id));
    let ghost epred: spec_fn(ExpenseRecView) -> bool = (|e: ExpenseRecView|
        !owns(pre, user_id as int, e.budget_id));
    let ghost apred: spec_fn(AssocRec) -> bool = (|a: AssocRec|
        a.user_id != user_id && !owns(pre, user_id as int, a.budget_id as int));
    let ghost uvf: spec_fn(UserRec) -> UserRecView = (|u: UserRec| u@);
    let ghost bvf: spec_fn(crate::store::BudgetRec) -> BudgetRecView = (
    |b: crate::store::BudgetRec| b@);
    let ghost evf: spec_fn(crate::store::ExpenseRec) -> ExpenseRecView = (
    |e: crate::store::ExpenseRec| e@);

    // Expenses of every budget the account owns.
    let mut kept_expenses: Vec<crate::store::ExpenseRec> = Vec::new();
    let mut i: usize = 0;
    while i < store.expenses.len()
        invariant
            i <= pre.expenses.len(),
            store@ == pre,
            kept_expenses@.map_values(evf) == pre.expenses.take(i as int).filter(epred),
        decreases pre.expenses.len() - i,
    {
        let e = &store.expenses[i];
        proof {
            assert(pre.expenses.take(i + 1) =~= pre.expenses.take(i as int).push(
                pre.expenses[i as int],
            ));
            lemma_filter_push(pre.expenses.take(i as int), pre.expenses[i as int], epred);
        }
        if !user_owns_budget(store, user_id, e.budget_id) {
            let c = e.clone();
            kept_expenses.push(c);
            proof {
                assert(kept_expenses@.map_values(evf) =~= pre.expenses.take(i as int).filter(
                    epred,
                ).push(pre.expenses[i as int]));
            }
        }
        i = i + 1;
    }
    proof {
        assert(pre.expenses.take(pre.expenses.len() as int) =~= pre.expenses);
    }

    // The budgets themselves.
    let mut kept_budgets: Vec<crate::store::BudgetRec> = Vec::new();
    let mut j: usize = 0;
    while j < store.budgets.len()
        invariant
            j <= pre.budgets.len(),
            store@ == pre,
            kept_budgets@.map_values(bvf) == pre.budgets.take(j as int).filter(bpred),
        decreases pre.budgets.len() - j,
    {
        let b = &store.budgets[j];
        proof {
            assert(pre.budgets.take(j + 1) =~= pre.budgets.take(j as int).push(
                pre.budgets[j as int],
            ));
            lemma_filter_push(pre.budgets.take(j as int), pre.budgets[j as int], bpred);
        }
        if !user_owns_budget(store, user_id, b.id) {
            let c = b.clone();
            kept_budgets.push(c);
            proof {
                assert(kept_budgets@.map_values(bvf) =~= pre.budgets.take(j as int).filter(
                    bpred,
                ).push(pre.budgets[j as int]));
            }
        }
        j = j + 1;
    }
    proof {
        assert(pre.budgets.take(pre.budgets.len() as int) =~= pre.budgets);
    }

    // Associations: the account's own, and everyone's to the deleted
    // budgets.
    let mut kept_assocs: Vec<AssocRec> = Vec::new();
    let mut k: usize = 0;
    while k < store.assocs.len()
        invariant
            k <= pre.assocs.len(),
            store@ == pre,
            kept_assocs@ == pre.assocs.take(k as int).filter(apred),
        decreases pre.assocs.len() - k,
    {
        let a = store.assocs[k];
        proof {
            assert(pre.assocs.take(k + 1) =~= pre.assocs.take(k as int).push(a));
            lemma_filter_push(pre.assocs.take(k as int), a, apred);
        }
        if a.user_id != user_id && !user_owns_budget(store, user_id, a.budget_id) {
            kept_assocs.push(a);
        }
        k = k + 1;
    }
    proof {
        assert(pre.assocs.take(pre.assocs.len() as int) =~= pre.assocs);
    }

    // The account row itself.
    let mut kept_users: Vec<UserRec> = Vec::new();
    let mut l: usize = 0;
    while l < store.users.len()
        invariant
            l <= pre.users.len(),
            store@ == pre,
            kept_users@.map_values(uvf) == pre.users.take(l as int).filter(upred),
        decreases pre.users.len() - l,
    {
        let u = &store.users[l];
        proof {
            assert(pre.users.take(l + 1) =~= pre.users.take(l as int).push(pre.users[l as int]));
            lemma_filter_push(pre.users.take(l as int), pre.users[l as int], upred);
        }
        if u.id != user_id {
            let c = u.clone();
            kept_users.push(c);
            proof {
                assert(kept_users@.map_values(uvf) =~= pre.users.take(l as int).filter(upred).push(
                    pre.users[l as int],
                ));
            }
        }
        l = l + 1;
    }
    proof {
        assert(pre.users.take(pre.users.len() as int) =~= pre.users);
    }

    store.expenses = kept_expenses;
    store.budgets = kept_budgets;
    store.assocs = kept_assocs;
    store.users = kept_users;
    proof {
        let post = store@;
        assert(post.users == pre.users.filter(upred));
        assert(post.budgets == pre.budgets.filter(bpred));
        assert(post.expenses == pre.expenses.filter(epred));
        assert(post.assocs == pre.assocs.filter(apred));

        // Uniqueness survives filtering.
        let urel = (|x: UserRecView, y: UserRecView| x.id != y.id && x.name != y.name);
        assert forall|x: int, y: int|
            #![trigger pre.users[x], pre.users[y]]
            0 <= x < y < pre.users.len() implies urel(pre.users[x], pre.users[y]) by {}
        lemma_filter_pairwise(pre.users, upred, urel);
        assert forall|x: int, y: int|
            #![trigger post.users[x], post.users[y]]
            0 <= x < y < post.users.len() implies post.users[x].id != post.users[y].id
            && post.users[x].name != post.users[y].name by {
            assert(urel(pre.users.filter(upred)[x], pre.users.filter(upred)[y]));
        }
        let brel = (|x: BudgetRecView, y: BudgetRecView| x.id != y.id);
        assert forall|x: int, y: int|
            #![trigger pre.budgets[x], pre.budgets[y]]
            0 <= x < y < pre.budgets.len() implies brel(pre.budgets[x], pre.budgets[y]) by {}
        lemma_filter_pairwise(pre.budgets, bpred, brel);
        assert forall|x: int, y: int|
            #![trigger post.budgets[x], post.budgets[y]]
            0 <= x < y < post.budgets.len() implies post.budgets[x].id != post.budgets[y].id by {
            assert(brel(pre.budgets.filter(bpred)[x], pre.budgets.filter(bpred)[y]));
        }
        let erel = (|x: ExpenseRecView, y: ExpenseRecView| x.id != y.id);
        assert forall|x: int, y: int|
            #![trigger pre.expenses[x], pre.expenses[y]]
            0 <= x < y < pre.expenses.len() implies erel(pre.expenses[x], pre.expenses[y]) by {}
        lemma_filter_pairwise(pre.expenses, epred, erel);
        assert forall|x: int, y: int|
            #![trigger post.expenses[x], post.expenses[y]]
            0 <= x < y < post.expenses.len() implies post.expenses[x].id != post.expenses[y].id by {
            assert(erel(pre.expenses.filter(epred)[x], pre.expenses.filter(epred)[y]));
        }
        let arel = (|x: AssocRec, y: AssocRec| !(x.user_id == y.user_id && x.budget_id
            == y.budget_id));
        assert forall|x: int, y: int|
            #![trigger pre.assocs[x], pre.assocs[y]]
            0 <= x < y < pre.assocs.len() implies arel(pre.assocs[x], pre.assocs[y]) by {}
        lemma_filter_pairwise(pre.assocs, apred, arel);
        assert forall|x: int, y: int|
            #![trigger post.assocs[x], post.assocs[y]]
            0 <= x < y < post.assocs.len() implies !(post.assocs[x].user_id
            == post.assocs[y].user_id && post.assocs[x].budget_id == post.assocs[y].budget_id) by {
            assert(arel(pre.assocs.filter(apred)[x], pre.assocs.filter(apred)[y]));
        }

        // Counter bounds and per-record facts.
        lemma_filter_unary(pre.users, upred, (|u: UserRecView| u.id < pre.next_user_id));
        lemma_filter_unary(pre.budgets, bpred, (|b: BudgetRecView| b.id < pre.next_budget_id));
        lemma_filter_unary(
            pre.expenses,
            epred,
            (|e: ExpenseRecView| e.id < pre.next_expense_id && -(
            crate::amount::AMOUNT_LIMIT as int) <= e.amount <= crate::amount::AMOUNT_LIMIT as int
                && e.date.wf() && has_budget(pre, e.budget_id)),
        );
        lemma_filter_unary(pre.assocs, apred, (|a: AssocRec| has_user(pre, a.user_id as int)
            && has_budget(pre, a.budget_id as int)));

        // A surviving budget id resolves in the new table.
        assert forall|x: int| has_budget(pre, x) && !owns(pre, user_id as int, x) implies
            has_budget(post, x) by {
            let m = choose|m: int| 0 <= m < pre.budgets.len() && #[trigger] pre.budgets[m].id == x;
            assert(bpred(pre.budgets[m]));
            pre.budgets.lemma_filter_contains(bpred, m);
            let n = choose|n: int|
                0 <= n < post.budgets.len() && post.budgets[n] == pre.budgets[m];
            assert(post.budgets[n].id == x);
        }
        // A surviving user id resolves in the new table.
        assert forall|x: int| has_user(pre, x) && x != user_id as int implies has_user(
            post,
            x,
        ) by {
            let m = choose|m: int| 0 <= m < pre.users.len() && #[trigger] pre.users[m].id == x;
            assert(upred(pre.users[m]));
            pre.users.lemma_filter_contains(upred, m);
            let n = choose|n: int| 0 <= n < post.users.len() && post.users[n] == pre.users[m];
            assert(post.users[n].id == x);
        }

        // Referential integrity of what stayed.
        assert forall|x: int|
            0 <= x < post.expenses.len() implies has_budget(
            post,
            #[trigger] post.expenses[x].budget_id,
        ) by {
            pre.expenses.lemma_filter_pred(epred, x);
            assert(epred(post.expenses[x]));
            assert(has_budget(pre, post.expenses[x].budget_id));
        }
        assert forall|x: int|
            0 <= x < post.assocs.len() implies has_user(
            post,
            #[trigger] post.assocs[x].user_id as int,
        ) && has_budget(post, post.assocs[x].budget_id as int) by {
            pre.assocs.lemma_filter_pred(apred, x);
            assert(apred(post.assocs[x]));
            assert(has_user(pre, post.assocs[x].user_id as int));
            assert(has_budget(pre, post.assocs[x].budget_id as int));
        }

        // The account is gone, and nothing left mentions it.
        assert(!has_user(post, user_id as int)) by {
            if has_user(post, user_id as int) {
                let w = choose|w: int|
                    0 <= w < post.users.len() && #[trigger] post.users[w].id == user_id as int;
                pre.users.lemma_filter_pred(upred, w);
                assert(upred(post.users[w]));
            }
        }
        assert forall|x: int|
            0 <= x < post.assocs.len() implies (#[trigger] post.assocs[x].user_id) != user_id by {
            pre.assocs.lemma_filter_pred(apred, x);
            assert(apred(post.assocs[x]));
        }
        assert forall|x: int|
            0 <= x < post.budgets.len() implies !owns(
            pre,
            user_id as int,
            (#[trigger] post.budgets[x]).id,
        ) by {
            pre.budgets.lemma_filter_pred(bpred, x);
            assert(bpred(post.budgets[x]));
        }
        assert forall|x: int|
            0 <= x < post.expenses.len() implies !owns(
            pre,
            user_id as int,
            (#[trigger] post.expenses[x]).budget_id,
        ) by {
            pre.expenses.lemma_filter_pred(epred, x);
            assert(epred(post.expenses[x]));
        }
    }
    Ok(())
}

} // verus!
