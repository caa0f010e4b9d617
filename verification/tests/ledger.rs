//! Behaviour of the ledger operations against a real in-memory database.

use budgets::Budget;
use budgets::LedgerError;
use budgets::Store;
use budgets::add_budget;
use budgets::add_transaction;
use budgets::budget_exists;
use budgets::edit_transaction;
use budgets::get_sum;
use budgets::list_budget_names;
use budgets::remove_budget;
use budgets::remove_transaction;
use budgets::sum_budget;
use budgets::view_budget;
use budgets::view_budgets;

fn fresh() -> Store {
    Store::open_in_memory().unwrap()
}

#[test]
fn ensure_budget_twice_keeps_rows() {
    let mut s = fresh();
    add_budget(&mut s, "food").unwrap();
    add_transaction(&mut s, "food", "2024-03-01", 500, &Some("apples".to_string())).unwrap();
    add_budget(&mut s, "food").unwrap();
    let rows = view_budget(&s, "food").unwrap();
    assert_eq!(rows.len(), 1);
    assert_eq!(rows[0].desc, "apples");
    assert_eq!(rows[0].amount, 500);
    let names = list_budget_names(&s).unwrap();
    assert_eq!(names, vec!["food".to_string()]);
}

#[test]
fn deleting_what_is_absent_is_no_error() {
    let mut s = fresh();
    remove_transaction(&mut s, "ghost", 5).unwrap();
    remove_budget(&mut s, "ghost").unwrap();
    add_budget(&mut s, "real").unwrap();
    add_transaction(&mut s, "real", "2024-01-01", 100, &None).unwrap();
    remove_transaction(&mut s, "real", 99).unwrap();
    let rows = view_budget(&s, "real").unwrap();
    assert_eq!(rows.len(), 1);
}

#[test]
fn sum_is_exactly_the_inserted_amounts() {
    let mut s = fresh();
    add_budget(&mut s, "trip").unwrap();
    add_transaction(&mut s, "trip", "2024-01-01", 2500, &None).unwrap();
    add_transaction(&mut s, "trip", "2024-01-02", -700, &None).unwrap();
    add_transaction(&mut s, "trip", "2024-01-03", 1, &None).unwrap();
    assert_eq!(sum_budget(&s, "trip").unwrap(), 2500 - 700 + 1);
}

#[test]
fn sum_of_empty_or_missing_budget_is_zero() {
    let mut s = fresh();
    add_budget(&mut s, "empty").unwrap();
    assert_eq!(sum_budget(&s, "empty").unwrap(), 0);
    assert_eq!(sum_budget(&s, "missing").unwrap(), 0);
}

#[test]
fn case_folding_resolves_to_one_ledger() {
    let mut s = fresh();
    add_budget(&mut s, "Food").unwrap();
    add_transaction(&mut s, "FOOD", "2024-02-02", 300, &None).unwrap();
    let rows = view_budget(&s, "fOoD").unwrap();
    assert_eq!(rows.len(), 1);
    assert_eq!(rows[0].amount, 300);
    let names = list_budget_names(&s).unwrap();
    assert_eq!(names, vec!["food".to_string()]);
}

#[test]
fn upsert_creates_with_the_given_id() {
    let mut s = fresh();
    edit_transaction(&mut s, "bills", 7, -4200, &Some("rent".to_string()), "2024-01-05").unwrap();
    let rows = view_budget(&s, "bills").unwrap();
    assert_eq!(rows.len(), 1);
    assert_eq!(rows[0].id, 7);
    assert_eq!(rows[0].desc, "rent");
    assert_eq!(rows[0].date, "2024-01-05");
    assert_eq!(rows[0].amount, -4200);
}

#[test]
fn upsert_overwrites_and_leaves_the_rest_alone() {
    let mut s = fresh();
    add_transaction(&mut s, "bills", "2024-01-01", -100, &Some("water".to_string())).unwrap();
    add_transaction(&mut s, "bills", "2024-01-02", -200, &Some("power".to_string())).unwrap();
    edit_transaction(&mut s, "bills", 1, -150, &Some("water fixed".to_string()), "2024-01-03")
        .unwrap();
    let rows = view_budget(&s, "bills").unwrap();
    assert_eq!(rows.len(), 2);
    assert_eq!(rows[0].id, 1);
    assert_eq!(rows[0].desc, "water fixed");
    assert_eq!(rows[0].date, "2024-01-03");
    assert_eq!(rows[0].amount, -150);
    assert_eq!(rows[1].id, 2);
    assert_eq!(rows[1].desc, "power");
    assert_eq!(rows[1].amount, -200);
}

#[test]
fn end_to_end_rent_scenario() {
    let mut s = fresh();
    add_budget(&mut s, "rent").unwrap();
    add_transaction(&mut s, "rent", "2024-01-01", -120000, &Some("january".to_string())).unwrap();
    assert_eq!(sum_budget(&s, "rent").unwrap(), -120000);
    edit_transaction(&mut s, "rent", 1, -110000, &Some("adjusted".to_string()), "2024-01-02")
        .unwrap();
    assert_eq!(sum_budget(&s, "rent").unwrap(), -110000);
    remove_transaction(&mut s, "rent", 1).unwrap();
    assert_eq!(sum_budget(&s, "rent").unwrap(), 0);
    remove_budget(&mut s, "rent").unwrap();
    let names = list_budget_names(&s).unwrap();
    assert!(!names.contains(&"rent".to_string()));
    assert_eq!(sum_budget(&s, "rent").unwrap(), 0);
}

#[test]
fn invalid_names_are_rejected() {
    let mut s = fresh();
    assert!(matches!(add_budget(&mut s, ""), Err(LedgerError::InvalidName)));
    assert!(matches!(add_budget(&mut s, "two words"), Err(LedgerError::InvalidName)));
    assert!(matches!(add_budget(&mut s, "1start"), Err(LedgerError::InvalidName)));
    assert!(matches!(add_budget(&mut s, "sqlite_master"), Err(LedgerError::InvalidName)));
    assert!(matches!(add_budget(&mut s, "crème"), Err(LedgerError::InvalidName)));
    assert!(matches!(budget_exists(&s, "no good"), Err(LedgerError::InvalidName)));
    assert!(matches!(
        add_transaction(&mut s, "semi;colon", "2024-01-01", 1, &None),
        Err(LedgerError::InvalidName)
    ));
    assert!(!add_budget(&mut s, "bad name").unwrap_err().message().is_empty());
    assert_eq!(list_budget_names(&s).unwrap().len(), 0);
}

#[test]
fn nonpositive_ids_are_rejected() {
    let mut s = fresh();
    assert!(matches!(
        edit_transaction(&mut s, "bills", 0, 10, &None, "2024-01-01"),
        Err(LedgerError::InvalidId)
    ));
    assert!(matches!(
        edit_transaction(&mut s, "bills", -3, 10, &None, "2024-01-01"),
        Err(LedgerError::InvalidId)
    ));
    assert!(!budget_exists(&s, "bills").unwrap());
}

#[test]
fn adding_a_transaction_provisions_the_budget() {
    let mut s = fresh();
    assert!(!budget_exists(&s, "new").unwrap());
    add_transaction(&mut s, "new", "2024-01-01", 10, &None).unwrap();
    assert!(budget_exists(&s, "new").unwrap());
}

#[test]
fn ids_grow_and_are_never_reused() {
    let mut s = fresh();
    add_transaction(&mut s, "b", "2024-01-01", 1, &None).unwrap();
    add_transaction(&mut s, "b", "2024-01-02", 2, &None).unwrap();
    remove_transaction(&mut s, "b", 2).unwrap();
    add_transaction(&mut s, "b", "2024-01-03", 3, &None).unwrap();
    let ids: Vec<i64> = view_budget(&s, "b").unwrap().iter().map(|r| r.id).collect();
    assert_eq!(ids, vec![1, 3]);
}

#[test]
fn upsert_moves_the_id_counter_forward() {
    let mut s = fresh();
    edit_transaction(&mut s, "b", 10, 5, &None, "2024-01-01").unwrap();
    add_transaction(&mut s, "b", "2024-01-02", 6, &None).unwrap();
    let ids: Vec<i64> = view_budget(&s, "b").unwrap().iter().map(|r| r.id).collect();
    assert_eq!(ids, vec![10, 11]);
}

#[test]
fn missing_description_is_stored_as_empty_text() {
    let mut s = fresh();
    add_transaction(&mut s, "b", "2024-01-01", 1, &None).unwrap();
    edit_transaction(&mut s, "b", 2, 2, &None, "2024-01-02").unwrap();
    let rows = view_budget(&s, "b").unwrap();
    assert_eq!(rows[0].desc, "");
    assert_eq!(rows[1].desc, "");
}

#[test]
fn get_sum_of_one_budget_names_it() {
    let mut s = fresh();
    add_transaction(&mut s, "Petrol", "2024-01-01", -5000, &None).unwrap();
    let sums = get_sum(&s, Some("PETROL")).unwrap();
    assert_eq!(sums.len(), 1);
    assert_eq!(sums[0].0, "petrol");
    assert_eq!(sums[0].1, -5000);
}

#[test]
fn get_sum_of_everything_covers_every_budget() {
    let mut s = fresh();
    add_transaction(&mut s, "a", "2024-01-01", 10, &None).unwrap();
    add_transaction(&mut s, "b", "2024-01-02", -4, &None).unwrap();
    add_budget(&mut s, "c").unwrap();
    let mut sums = get_sum(&s, None).unwrap();
    sums.sort();
    assert_eq!(
        sums,
        vec![("a".to_string(), 10), ("b".to_string(), -4), ("c".to_string(), 0)]
    );
}

#[test]
fn view_budgets_lists_rows_per_ledger() {
    let mut s = fresh();
    add_transaction(&mut s, "a", "2024-01-01", 10, &Some("x".to_string())).unwrap();
    add_transaction(&mut s, "b", "2024-01-02", -4, &None).unwrap();
    let one = view_budgets(&s, Some("a")).unwrap();
    assert_eq!(one.len(), 1);
    assert_eq!(one[0].0, "a");
    assert_eq!(one[0].1.len(), 1);
    assert_eq!(one[0].1[0].desc, "x");
    let all = view_budgets(&s, None).unwrap();
    let mut names: Vec<String> = all.iter().map(|p| p.0.clone()).collect();
    names.sort();
    assert_eq!(names, vec!["a".to_string(), "b".to_string()]);
    for (name, rows) in &all {
        assert_eq!(rows.len(), 1, "one row in {}", name);
    }
}

#[test]
fn removing_a_budget_destroys_its_rows() {
    let mut s = fresh();
    add_transaction(&mut s, "gone", "2024-01-01", 7, &None).unwrap();
    remove_budget(&mut s, "gone").unwrap();
    assert!(!budget_exists(&s, "gone").unwrap());
    assert_eq!(view_budget(&s, "gone").unwrap().len(), 0);
    add_budget(&mut s, "gone").unwrap();
    assert_eq!(view_budget(&s, "gone").unwrap().len(), 0);
}

#[test]
fn rows_come_back_exactly_as_written() {
    let mut s = fresh();
    let a_budget = Budget { id: 1, desc: "weekly shop".to_string(), date: "2024-05-06".to_string(), amount: -3199 };
    add_transaction(&mut s, "shop", &a_budget.date, a_budget.amount, &Some(a_budget.desc.clone()))
        .unwrap();
    let rows = view_budget(&s, "shop").unwrap();
    assert_eq!(rows.len(), 1);
    assert_eq!(rows[0].id, a_budget.id);
    assert_eq!(rows[0].desc, a_budget.desc);
    assert_eq!(rows[0].date, a_budget.date);
    assert_eq!(rows[0].amount, a_budget.amount);
}
