//! End-to-end handler flows over a fresh store, with real bcrypt hashing
//! and real token signing.

use budget_core::auth::{verify_token, Claims};
use budget_core::budgets::{create_budget, delete_budget, get_budget, list_budgets, update_budget};
use budget_core::date::Date;
use budget_core::expenses::{
    create_expense, delete_expense, expenses_total, get_expense, list_expenses, update_expense,
};
use budget_core::amount::parse_amount;
use budget_core::store::Store;
use budget_core::user_budgets::{add_association, remove_association};
use budget_core::users::{delete_user, login, register, update_user};
use budget_core::utils::{user_owns_budget, ServiceError};

const SECRET: &[u8] = b"handler-test-secret";
const NOW: u64 = 1_700_000_000;
const COST: u32 = 4;

fn claims_for(user_id: i32) -> Claims {
    Claims { user_id, exp: u64::MAX }
}

fn setup_two_users(store: &mut Store) -> (i32, i32) {
    let (alice, _) = register(store, "alice".to_owned(), "alice-password", COST, SECRET, NOW)
        .expect("registering alice should succeed");
    let (bob, _) = register(store, "bob".to_owned(), "bob-password", COST, SECRET, NOW)
        .expect("registering bob should succeed");
    (alice, bob)
}

fn date(y: u16, m: u8, d: u8) -> Date {
    Date { year: y, month: m, day: d }
}

#[test]
fn register_returns_token_for_new_id() {
    let mut store = Store::new();
    let (id, token) = register(&mut store, "carol".to_owned(), "pw", COST, SECRET, NOW)
        .expect("fresh name should register");
    let claims = verify_token(&token, SECRET, NOW).expect("fresh token should verify");
    assert_eq!(claims.user_id, id);
}

#[test]
fn register_rejects_taken_name() {
    let mut store = Store::new();
    let (_, _) = setup_two_users(&mut store);
    let err = register(&mut store, "alice".to_owned(), "other", COST, SECRET, NOW).unwrap_err();
    assert!(matches!(err, ServiceError::Conflict));
}

#[test]
fn login_succeeds_with_right_password() {
    let mut store = Store::new();
    let (alice, _) = setup_two_users(&mut store);
    let (id, token) =
        login(&store, &"alice".to_owned(), "alice-password", SECRET, NOW).expect("login works");
    assert_eq!(id, alice);
    assert_eq!(verify_token(&token, SECRET, NOW).unwrap().user_id, alice);
}

#[test]
fn login_failures_are_indistinguishable() {
    let mut store = Store::new();
    let (_, _) = setup_two_users(&mut store);
    let wrong_password =
        login(&store, &"alice".to_owned(), "not-her-password", SECRET, NOW).unwrap_err();
    let unknown_name = login(&store, &"nobody".to_owned(), "whatever", SECRET, NOW).unwrap_err();
    assert!(matches!(wrong_password, ServiceError::InvalidCredentials));
    assert!(matches!(unknown_name, ServiceError::InvalidCredentials));
    assert_eq!(wrong_password.status_code(), unknown_name.status_code());
    assert_eq!(wrong_password.message(), unknown_name.message());
}

#[test]
fn create_budget_links_creator() {
    let mut store = Store::new();
    let (alice, _) = setup_two_users(&mut store);
    let b = create_budget(&mut store, alice, "home".to_owned(), "{}".to_owned())
        .expect("creation should succeed");
    assert!(user_owns_budget(&store, alice, b.id));
    let got = get_budget(&store, claims_for(alice), b.id).expect("owner may read");
    assert_eq!(got.name, "home");
    assert_eq!(got.settings, "{}");
}

#[test]
fn owns_tracks_association_exactly() {
    let mut store = Store::new();
    let (alice, bob) = setup_two_users(&mut store);
    let b = create_budget(&mut store, alice, "shared".to_owned(), "{}".to_owned()).unwrap();
    assert!(!user_owns_budget(&store, bob, b.id));
    add_association(&mut store, claims_for(alice), bob, b.id).expect("owner may grant");
    assert!(user_owns_budget(&store, bob, b.id));
    remove_association(&mut store, claims_for(alice), bob, b.id).expect("owner may revoke");
    assert!(!user_owns_budget(&store, bob, b.id));
}

#[test]
fn association_changes_need_ownership() {
    let mut store = Store::new();
    let (alice, bob) = setup_two_users(&mut store);
    let b = create_budget(&mut store, alice, "private".to_owned(), "{}".to_owned()).unwrap();
    let err = add_association(&mut store, claims_for(bob), bob, b.id).unwrap_err();
    assert!(matches!(err, ServiceError::Unauthorized));
    let err = remove_association(&mut store, claims_for(bob), alice, b.id).unwrap_err();
    assert!(matches!(err, ServiceError::Unauthorized));
    assert!(user_owns_budget(&store, alice, b.id));
}

#[test]
fn duplicate_association_conflicts() {
    let mut store = Store::new();
    let (alice, _) = setup_two_users(&mut store);
    let b = create_budget(&mut store, alice, "b".to_owned(), "{}".to_owned()).unwrap();
    let err = add_association(&mut store, claims_for(alice), alice, b.id).unwrap_err();
    assert!(matches!(err, ServiceError::Conflict));
}

#[test]
fn list_budgets_shows_only_owned() {
    let mut store = Store::new();
    let (alice, bob) = setup_two_users(&mut store);
    let a1 = create_budget(&mut store, alice, "a1".to_owned(), "{}".to_owned()).unwrap();
    let _b1 = create_budget(&mut store, bob, "b1".to_owned(), "{}".to_owned()).unwrap();
    let listed = list_budgets(&store, claims_for(alice));
    assert_eq!(listed.len(), 1);
    assert_eq!(listed[0].id, a1.id);
}

#[test]
fn update_budget_denied_for_non_owner_and_unchanged() {
    let mut store = Store::new();
    let (alice, bob) = setup_two_users(&mut store);
    let b = create_budget(&mut store, alice, "before".to_owned(), "{}".to_owned()).unwrap();
    let err = update_budget(
        &mut store,
        claims_for(bob),
        b.id,
        "after".to_owned(),
        "{\"hacked\":true}".to_owned(),
    )
    .unwrap_err();
    assert!(matches!(err, ServiceError::Unauthorized));
    let still = get_budget(&store, claims_for(alice), b.id).unwrap();
    assert_eq!(still.name, "before");
    assert_eq!(still.settings, "{}");
}

#[test]
fn update_budget_by_owner_applies() {
    let mut store = Store::new();
    let (alice, _) = setup_two_users(&mut store);
    let b = create_budget(&mut store, alice, "before".to_owned(), "{}".to_owned()).unwrap();
    let updated = update_budget(
        &mut store,
        claims_for(alice),
        b.id,
        "after".to_owned(),
        "{\"theme\":1}".to_owned(),
    )
    .expect("owner may update");
    assert_eq!(updated.name, "after");
    let got = get_budget(&store, claims_for(alice), b.id).unwrap();
    assert_eq!(got.name, "after");
    assert_eq!(got.settings, "{\"theme\":1}");
}

#[test]
fn missing_budget_is_not_found() {
    let mut store = Store::new();
    let (alice, _) = setup_two_users(&mut store);
    let err = get_budget(&store, claims_for(alice), 999).unwrap_err();
    assert!(matches!(err, ServiceError::NotFound));
    let err = delete_budget(&mut store, claims_for(alice), 999).unwrap_err();
    assert!(matches!(err, ServiceError::NotFound));
}

#[test]
fn expense_crud_under_owned_budget() {
    let mut store = Store::new();
    let (alice, bob) = setup_two_users(&mut store);
    let b = create_budget(&mut store, alice, "food".to_owned(), "{}".to_owned()).unwrap();
    let amount = parse_amount("12.34").unwrap();
    let e = create_expense(
        &mut store,
        claims_for(alice),
        b.id,
        date(2024, 1, 10),
        "groceries".to_owned(),
        amount,
    )
    .expect("owner may create");
    assert_eq!(e.amount.minor, 1234);

    let err = create_expense(
        &mut store,
        claims_for(bob),
        b.id,
        date(2024, 1, 11),
        "intruder".to_owned(),
        amount,
    )
    .unwrap_err();
    assert!(matches!(err, ServiceError::Unauthorized));

    let got = get_expense(&store, claims_for(alice), e.id).unwrap();
    assert_eq!(got.description, "groceries");

    let updated = update_expense(
        &mut store,
        claims_for(alice),
        e.id,
        b.id,
        date(2024, 1, 12),
        "groceries and soap".to_owned(),
        parse_amount("15.00").unwrap(),
    )
    .expect("owner may update");
    assert_eq!(updated.amount.minor, 1500);

    delete_expense(&mut store, claims_for(alice), e.id).expect("owner may delete");
    let err = get_expense(&store, claims_for(alice), e.id).unwrap_err();
    assert!(matches!(err, ServiceError::NotFound));
}

#[test]
fn totals_are_exact_and_zero_when_empty() {
    let mut store = Store::new();
    let (alice, _) = setup_two_users(&mut store);
    let b = create_budget(&mut store, alice, "food".to_owned(), "{}".to_owned()).unwrap();
    assert_eq!(expenses_total(&store, claims_for(alice), b.id), Ok(0));
    for (day, text, amount) in [
        (1u8, "a", "12.34"),
        (2u8, "b", "0.66"),
        (3u8, "c", "-1.00"),
    ] {
        create_expense(
            &mut store,
            claims_for(alice),
            b.id,
            date(2024, 1, day),
            text.to_owned(),
            parse_amount(amount).unwrap(),
        )
        .unwrap();
    }
    // 12.34 + 0.66 - 1.00 = 12.00 exactly, with no rounding error.
    assert_eq!(expenses_total(&store, claims_for(alice), b.id), Ok(1200));
}

#[test]
fn totals_require_ownership() {
    let mut store = Store::new();
    let (alice, bob) = setup_two_users(&mut store);
    let b = create_budget(&mut store, alice, "food".to_owned(), "{}".to_owned()).unwrap();
    let err = expenses_total(&store, claims_for(bob), b.id).unwrap_err();
    assert!(matches!(err, ServiceError::Unauthorized));
}

#[test]
fn listing_filters_inclusive_range_and_sorts_descending() {
    let mut store = Store::new();
    let (alice, _) = setup_two_users(&mut store);
    let b = create_budget(&mut store, alice, "food".to_owned(), "{}".to_owned()).unwrap();
    let days = [
        (2023u16, 12u8, 31u8),
        (2024, 1, 1),
        (2024, 1, 15),
        (2024, 1, 31),
        (2024, 2, 1),
    ];
    for (i, (y, m, d)) in days.iter().enumerate() {
        create_expense(
            &mut store,
            claims_for(alice),
            b.id,
            date(*y, *m, *d),
            format!("e{}", i),
            parse_amount("1.00").unwrap(),
        )
        .unwrap();
    }
    let listed = list_expenses(
        &store,
        claims_for(alice),
        b.id,
        date(2024, 1, 1),
        Some(date(2024, 1, 31)),
    )
    .expect("owner may list");
    let got: Vec<(u16, u8, u8)> =
        listed.iter().map(|e| (e.date.year, e.date.month, e.date.day)).collect();
    assert_eq!(got, vec![(2024, 1, 31), (2024, 1, 15), (2024, 1, 1)]);
}

#[test]
fn listing_without_upper_bound_is_unbounded() {
    let mut store = Store::new();
    let (alice, _) = setup_two_users(&mut store);
    let b = create_budget(&mut store, alice, "food".to_owned(), "{}".to_owned()).unwrap();
    for (y, m, d) in [(2023u16, 6u8, 1u8), (2024, 1, 1), (2031, 3, 9)] {
        create_expense(
            &mut store,
            claims_for(alice),
            b.id,
            date(y, m, d),
            "x".to_owned(),
            parse_amount("1.00").unwrap(),
        )
        .unwrap();
    }
    let listed =
        list_expenses(&store, claims_for(alice), b.id, date(2024, 1, 1), None).unwrap();
    assert_eq!(listed.len(), 2);
    assert_eq!((listed[0].date.year, listed[1].date.year), (2031, 2024));
}

#[test]
fn delete_budget_cascades_expenses_and_associations() {
    let mut store = Store::new();
    let (alice, bob) = setup_two_users(&mut store);
    let b = create_budget(&mut store, alice, "doomed".to_owned(), "{}".to_owned()).unwrap();
    add_association(&mut store, claims_for(alice), bob, b.id).unwrap();
    let e = create_expense(
        &mut store,
        claims_for(alice),
        b.id,
        date(2024, 1, 1),
        "x".to_owned(),
        parse_amount("1.00").unwrap(),
    )
    .unwrap();
    delete_budget(&mut store, claims_for(alice), b.id).expect("owner may delete");
    assert!(matches!(
        get_budget(&store, claims_for(alice), b.id),
        Err(ServiceError::NotFound)
    ));
    assert!(matches!(
        get_expense(&store, claims_for(alice), e.id),
        Err(ServiceError::NotFound)
    ));
    assert!(!user_owns_budget(&store, alice, b.id));
    assert!(!user_owns_budget(&store, bob, b.id));
}

#[test]
fn delete_user_cascades_and_spares_others() {
    let mut store = Store::new();
    let (alice, bob) = setup_two_users(&mut store);
    let doomed = create_budget(&mut store, alice, "a1".to_owned(), "{}".to_owned()).unwrap();
    let kept = create_budget(&mut store, bob, "b1".to_owned(), "{}".to_owned()).unwrap();
    let gone_expense = create_expense(
        &mut store,
        claims_for(alice),
        doomed.id,
        date(2024, 1, 1),
        "a-exp".to_owned(),
        parse_amount("5.00").unwrap(),
    )
    .unwrap();
    let kept_expense = create_expense(
        &mut store,
        claims_for(bob),
        kept.id,
        date(2024, 1, 2),
        "b-exp".to_owned(),
        parse_amount("7.00").unwrap(),
    )
    .unwrap();

    delete_user(&mut store, claims_for(alice), alice).expect("self-deletion is allowed");

    // Everything of the deleted account's budgets is gone ...
    assert!(matches!(
        get_budget(&store, claims_for(bob), doomed.id),
        Err(ServiceError::NotFound)
    ));
    assert!(matches!(
        get_expense(&store, claims_for(bob), gone_expense.id),
        Err(ServiceError::NotFound)
    ));
    assert!(!user_owns_budget(&store, alice, doomed.id));
    // ... the account itself is gone ...
    assert!(matches!(
        login(&store, &"alice".to_owned(), "alice-password", SECRET, NOW),
        Err(ServiceError::InvalidCredentials)
    ));
    // ... and the other user's world is intact.
    let got = get_budget(&store, claims_for(bob), kept.id).unwrap();
    assert_eq!(got.name, "b1");
    let got = get_expense(&store, claims_for(bob), kept_expense.id).unwrap();
    assert_eq!(got.description, "b-exp");
}

#[test]
fn delete_user_requires_self() {
    let mut store = Store::new();
    let (alice, bob) = setup_two_users(&mut store);
    let err = delete_user(&mut store, claims_for(bob), alice).unwrap_err();
    assert!(matches!(err, ServiceError::Unauthorized));
    assert!(login(&store, &"alice".to_owned(), "alice-password", SECRET, NOW).is_ok());
}

#[test]
fn update_user_renames_and_rehashes() {
    let mut store = Store::new();
    let (alice, _) = setup_two_users(&mut store);
    update_user(
        &mut store,
        claims_for(alice),
        alice,
        "alicia".to_owned(),
        "new-password",
        COST,
    )
    .expect("self-update is allowed");
    assert!(login(&store, &"alice".to_owned(), "alice-password", SECRET, NOW).is_err());
    assert!(login(&store, &"alicia".to_owned(), "alice-password", SECRET, NOW).is_err());
    let (id, _) =
        login(&store, &"alicia".to_owned(), "new-password", SECRET, NOW).expect("new creds work");
    assert_eq!(id, alice);
}

#[test]
fn update_user_refuses_foreign_account_and_taken_name() {
    let mut store = Store::new();
    let (alice, bob) = setup_two_users(&mut store);
    let err = update_user(
        &mut store,
        claims_for(bob),
        alice,
        "x".to_owned(),
        "pw",
        COST,
    )
    .unwrap_err();
    assert!(matches!(err, ServiceError::Unauthorized));
    let err = update_user(
        &mut store,
        claims_for(bob),
        bob,
        "alice".to_owned(),
        "pw",
        COST,
    )
    .unwrap_err();
    assert!(matches!(err, ServiceError::Conflict));
}

#[test]
fn invalid_expense_values_are_bad_requests() {
    let mut store = Store::new();
    let (alice, _) = setup_two_users(&mut store);
    let b = create_budget(&mut store, alice, "food".to_owned(), "{}".to_owned()).unwrap();
    let err = create_expense(
        &mut store,
        claims_for(alice),
        b.id,
        date(2024, 2, 30),
        "no such day".to_owned(),
        parse_amount("1.00").unwrap(),
    )
    .unwrap_err();
    assert!(matches!(err, ServiceError::BadRequest));
}

#[test]
fn exhausted_id_space_is_an_internal_error() {
    let mut store = Store::new();
    let (alice, _) = setup_two_users(&mut store);
    store.next_budget_id = i32::MAX;
    let err = create_budget(&mut store, alice, "late".to_owned(), "{}".to_owned()).unwrap_err();
    assert!(matches!(err, ServiceError::InternalServerError));
}

#[test]
fn deleting_a_sharer_takes_the_shared_budget() {
    let mut store = Store::new();
    let (alice, bob) = setup_two_users(&mut store);
    let shared = create_budget(&mut store, alice, "shared".to_owned(), "{}".to_owned()).unwrap();
    add_association(&mut store, claims_for(alice), bob, shared.id).unwrap();
    delete_user(&mut store, claims_for(alice), alice).expect("self-deletion is allowed");
    // Every budget the deleted account was associated with goes, with all
    // its associations — the co-owner loses it too, and no orphan grant
    // remains.
    assert!(!user_owns_budget(&store, bob, shared.id));
    assert!(matches!(
        get_budget(&store, claims_for(bob), shared.id),
        Err(ServiceError::NotFound)
    ));
}

#[test]
fn service_error_statuses_match_taxonomy() {
    assert_eq!(ServiceError::Unauthorized.status_code(), 401);
    assert_eq!(ServiceError::InvalidCredentials.status_code(), 401);
    assert_eq!(ServiceError::NotFound.status_code(), 404);
    assert_eq!(ServiceError::Conflict.status_code(), 409);
    assert_eq!(ServiceError::BadRequest.status_code(), 400);
    assert_eq!(ServiceError::DatabaseError.status_code(), 500);
    assert_eq!(ServiceError::InternalServerError.status_code(), 500);
    assert_eq!(ServiceError::Unauthorized.message(), "Unauthorized access");
}
