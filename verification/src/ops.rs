//! The operations the command layer calls: create and drop budgets, insert,
//! delete and upsert transactions, list and sum ledgers.  Every operation
//! folds the budget name exactly once, before any store call, and says in
//! its contract how the store's model moves.

use vstd::prelude::*;
use crate::data::Budget;
use crate::data::LedgerError;
use crate::model::StoreModel;
use crate::model::sum_rows;
use crate::name::BudgetName;
use crate::name::fold_chars;
use crate::name::lemma_fold_valid_identity;
use crate::name::valid_name;
use vstd::pervasive::unreached;
use crate::store::Store;
use crate::store::lists_budgets;
use crate::store::sql_create_table;
use crate::store::sql_delete_row;
use crate::store::sql_drop_table;
use crate::store::sql_insert_row;
use crate::store::sql_list_tables;
use crate::store::sql_replace_row;
use crate::store::sql_select_rows;
use crate::store::sql_table_exists;

verus! {

/// The description to store: the text given, or empty when none was.
pub open spec fn desc_view(d: Option<String>) -> Seq<char> {
    match d {
        Some(s) => s@,
        None => Seq::empty(),
    }
}

/// Create the budget's table; safe to repeat, an existing budget is kept
/// with all its rows.
pub fn add_budget(s: &mut Store, name: &str) -> (r: Result<(), LedgerError>)
    requires
        old(s)@.wf(),
    ensures
        final(s)@.wf(),
        r is Ok ==> valid_name(fold_chars(name@)) && final(s)@ == old(s)@.ensure_table(
            fold_chars(name@),
        ),
        r is Err ==> final(s)@ == old(s)@,
        (r matches Err(LedgerError::InvalidName)) <==> !valid_name(fold_chars(name@)),
        r matches Err(e) ==> e is InvalidName || e is Storage,
{
    match BudgetName::new(name) {
        None => Err(LedgerError::InvalidName),
        Some(bn) => match sql_create_table(s, &bn) {
            Ok(_) => {
                proof {
                    old(s)@.lemma_ensure_wf(bn@);
                }
                Ok(())
            },
            Err(e) => Err(LedgerError::Storage(e)),
        },
    }
}

/// Drop the budget's table and all its rows; dropping what does not exist
/// is a quiet success.
pub fn remove_budget(s: &mut Store, name: &str) -> (r: Result<(), LedgerError>)
    requires
        old(s)@.wf(),
    ensures
        final(s)@.wf(),
        r is Ok ==> valid_name(fold_chars(name@)) && final(s)@ == old(s)@.drop_table(
            fold_chars(name@),
        ),
        r is Err ==> final(s)@ == old(s)@,
        (r matches Err(LedgerError::InvalidName)) <==> !valid_name(fold_chars(name@)),
        r matches Err(e) ==> e is InvalidName || e is Storage,
{
    match BudgetName::new(name) {
        None => Err(LedgerError::InvalidName),
        Some(bn) => match sql_drop_table(s, &bn) {
            Ok(_) => {
                proof {
                    old(s)@.lemma_drop_wf(bn@);
                }
                Ok(())
            },
            Err(e) => Err(LedgerError::Storage(e)),
        },
    }
}

/// True exactly when the budget's table is registered in the catalog.
pub fn budget_exists(s: &Store, name: &str) -> (r: Result<bool, LedgerError>)
    ensures
        r matches Ok(b) ==> valid_name(fold_chars(name@)) && b == s@.has(fold_chars(name@)),
        (r matches Err(LedgerError::InvalidName)) <==> !valid_name(fold_chars(name@)),
        r matches Err(e) ==> e is InvalidName || e is Storage,
{
    match BudgetName::new(name) {
        None => Err(LedgerError::InvalidName),
        Some(bn) => match sql_table_exists(s, &bn) {
            Ok(b) => Ok(b),
            Err(e) => Err(LedgerError::Storage(e)),
        },
    }
}

/// Insert a new transaction, creating the budget's table first when it is
/// absent; the store assigns the id.
pub fn add_transaction(
    s: &mut Store,
    name: &str,
    date: &str,
    amount: i64,
    desc: &Option<String>,
) -> (r: Result<(), LedgerError>)
    requires
        old(s)@.wf(),
    ensures
        final(s)@.wf(),
        r is Ok ==> valid_name(fold_chars(name@)) && final(s)@ == old(s)@.ensure_table(
            fold_chars(name@),
        ).insert_tx(fold_chars(name@), desc_view(*desc), date@, amount as int),
        (r matches Err(LedgerError::InvalidName)) <==> !valid_name(fold_chars(name@)),
        r is Err ==> final(s)@ == old(s)@ || final(s)@ == old(s)@.ensure_table(fold_chars(name@)),
        r matches Err(e) ==> e is InvalidName || e is Storage,
{
    let bn = match BudgetName::new(name) {
        None => {
            return Err(LedgerError::InvalidName);
        },
        Some(bn) => bn,
    };
    if let Err(e) = sql_create_table(s, &bn) {
        return Err(LedgerError::Storage(e));
    }
    proof {
        old(s)@.lemma_ensure_wf(bn@);
    }
    let d = match desc {
        Some(text) => text.as_str(),
        None => "",
    };
    proof {
        reveal_strlit("");
        assert(d@ =~= desc_view(*desc));
    }
    match sql_insert_row(s, &bn, d, date, amount) {
        Ok(_) => {
            proof {
                old(s)@.ensure_table(bn@).lemma_insert_wf(bn@, desc_view(*desc), date@, amount as int);
            }
            Ok(())
        },
        Err(e) => Err(LedgerError::Storage(e)),
    }
}

/// Delete one transaction by id.  Deleting an id or a budget that does not
/// exist is a quiet success: deletes are idempotent.
pub fn remove_transaction(s: &mut Store, name: &str, id: i64) -> (r: Result<(), LedgerError>)
    requires
        old(s)@.wf(),
    ensures
        final(s)@.wf(),
        r is Ok ==> valid_name(fold_chars(name@)) && final(s)@ == old(s)@.remove_tx(
            fold_chars(name@),
            id as int,
        ),
        r is Err ==> final(s)@ == old(s)@,
        (r matches Err(LedgerError::InvalidName)) <==> !valid_name(fold_chars(name@)),
        r matches Err(e) ==> e is InvalidName || e is Storage,
{
    let bn = match BudgetName::new(name) {
        None => {
            return Err(LedgerError::InvalidName);
        },
        Some(bn) => bn,
    };
    let exists = match sql_table_exists(s, &bn) {
        Ok(b) => b,
        Err(e) => {
            return Err(LedgerError::Storage(e));
        },
    };
    if !exists {
        return Ok(());
    }
    match sql_delete_row(s, &bn, id) {
        Ok(_) => {
            proof {
                old(s)@.lemma_remove_wf(bn@, id as int);
            }
            Ok(())
        },
        Err(e) => Err(LedgerError::Storage(e)),
    }
}

/// Upsert one transaction by id: an existing row is replaced whole, an
/// absent one is created with exactly that id; the budget's table is
/// created first when absent.
pub fn edit_transaction(
    s: &mut Store,
    name: &str,
    id: i64,
    amount: i64,
    desc: &Option<String>,
    date: &str,
) -> (r: Result<(), LedgerError>)
    requires
        old(s)@.wf(),
    ensures
        final(s)@.wf(),
        r is Ok ==> valid_name(fold_chars(name@)) && 1 <= id && final(s)@ == old(s)@.ensure_table(
            fold_chars(name@),
        ).upsert_tx(fold_chars(name@), id as int, desc_view(*desc), date@, amount as int),
        (r matches Err(LedgerError::InvalidName)) <==> !valid_name(fold_chars(name@)),
        (r matches Err(LedgerError::InvalidId)) <==> (valid_name(fold_chars(name@)) && id < 1),
        r is Err ==> final(s)@ == old(s)@ || final(s)@ == old(s)@.ensure_table(fold_chars(name@)),
        r matches Err(e) ==> e is InvalidName || e is InvalidId || e is Storage,
{
    let bn = match BudgetName::new(name) {
        None => {
            return Err(LedgerError::InvalidName);
        },
        Some(bn) => bn,
    };
    if id < 1 {
        return Err(LedgerError::InvalidId);
    }
    if let Err(e) = sql_create_table(s, &bn) {
        return Err(LedgerError::Storage(e));
    }
    proof {
        old(s)@.lemma_ensure_wf(bn@);
    }
    let d = match desc {
        Some(text) => text.as_str(),
        None => "",
    };
    proof {
        reveal_strlit("");
        assert(d@ =~= desc_view(*desc));
    }
    match sql_replace_row(s, &bn, id, d, date, amount) {
        Ok(_) => {
            proof {
                old(s)@.ensure_table(bn@).lemma_upsert_wf(
                    bn@,
                    id as int,
                    desc_view(*desc),
                    date@,
                    amount as int,
                );
            }
            Ok(())
        },
        Err(e) => Err(LedgerError::Storage(e)),
    }
}

/// One budget's transactions, in ascending id order; empty when the budget
/// does not exist.
pub fn view_budget(s: &Store, name: &str) -> (r: Result<Vec<Budget>, LedgerError>)
    ensures
        r matches Ok(v) ==> valid_name(fold_chars(name@)) && v@.map_values(|b: Budget| b@)
            == s@.rows_of(fold_chars(name@)),
        (r matches Err(LedgerError::InvalidName)) <==> !valid_name(fold_chars(name@)),
        r matches Err(e) ==> e is InvalidName || e is Storage,
{
    let bn = match BudgetName::new(name) {
        None => {
            return Err(LedgerError::InvalidName);
        },
        Some(bn) => bn,
    };
    rows_folded(s, &bn)
}

/// The rows of one already-normalized budget; empty when it is absent.
fn rows_folded(s: &Store, bn: &BudgetName) -> (r: Result<Vec<Budget>, LedgerError>)
    requires
        bn.wf(),
    ensures
        r matches Ok(v) ==> v@.map_values(|b: Budget| b@) == s@.rows_of(bn@),
        r matches Err(e) ==> e is Storage,
{
    let exists = match sql_table_exists(s, bn) {
        Ok(b) => b,
        Err(e) => {
            return Err(LedgerError::Storage(e));
        },
    };
    if !exists {
        let v: Vec<Budget> = Vec::new();
        proof {
            assert(v@.map_values(|b: Budget| b@) =~= s@.rows_of(bn@));
        }
        return Ok(v);
    }
    match sql_select_rows(s, bn) {
        Ok(v) => Ok(v),
        Err(e) => Err(LedgerError::Storage(e)),
    }
}

/// Every budget name registered in the catalog, each exactly once.
pub fn list_budget_names(s: &Store) -> (r: Result<Vec<String>, LedgerError>)
    ensures
        r matches Ok(v) ==> lists_budgets(s@, v@),
        r matches Err(e) ==> e is Storage,
{
    match sql_list_tables(s) {
        Ok(v) => Ok(v),
        Err(e) => Err(LedgerError::Storage(e)),
    }
}

/// Sum a row sequence exactly; a 128-bit total cannot overflow, as each
/// amount fits in 64 bits and the rows fit in memory.
fn sum_amounts(v: &Vec<Budget>) -> (total: i128)
    ensures
        total as int == sum_rows(v@.map_values(|b: Budget| b@)),
{
    let ghost rows = v@.map_values(|b: Budget| b@);
    let n = v.len();
    let mut total: i128 = 0;
    let mut i: usize = 0;
    proof {
        assert(rows.take(0) =~= Seq::empty());
    }
    while i < n
        invariant
            0 <= i <= n,
            n == v.len(),
            rows == v@.map_values(|b: Budget| b@),
            rows.len() == n,
            total as int == sum_rows(rows.take(i as int)),
            -((i as int) * 0x8000_0000_0000_0000) <= total as int,
            total as int <= (i as int) * 0x7fff_ffff_ffff_ffff,
        decreases n - i,
    {
        let a = v[i].amount;
        proof {
            assert(rows[i as int] == v@[i as int]@);
            assert(rows[i as int].amount == a as int);
            assert(((i as int) + 1) * 0x8000_0000_0000_0000 <= 0xffff_ffff_ffff_ffff
                * 0x8000_0000_0000_0000) by (nonlinear_arith)
                requires
                    (i as int) + 1 <= 0xffff_ffff_ffff_ffff,
            ;
            assert(((i as int) + 1) * 0x7fff_ffff_ffff_ffff <= 0xffff_ffff_ffff_ffff
                * 0x7fff_ffff_ffff_ffff) by (nonlinear_arith)
                requires
                    (i as int) + 1 <= 0xffff_ffff_ffff_ffff,
            ;
            assert(((i as int) + 1) * 0x8000_0000_0000_0000 == (i as int) * 0x8000_0000_0000_0000
                + 0x8000_0000_0000_0000) by (nonlinear_arith);
            assert(((i as int) + 1) * 0x7fff_ffff_ffff_ffff == (i as int) * 0x7fff_ffff_ffff_ffff
                + 0x7fff_ffff_ffff_ffff) by (nonlinear_arith);
        }
        total = total + (a as i128);
        proof {
            assert(rows.take(i as int + 1).drop_last() =~= rows.take(i as int));
            assert(rows.take(i as int + 1).last() == rows[i as int]);
        }
        i = i + 1;
    }
    proof {
        assert(rows.take(n as int) =~= rows);
    }
    total
}

/// The exact sum of one budget's amounts, in minor units; 0 for an empty or
/// absent budget.
pub fn sum_budget(s: &Store, name: &str) -> (r: Result<i128, LedgerError>)
    ensures
        r matches Ok(total) ==> valid_name(fold_chars(name@)) && total as int == s@.sum_of(
            fold_chars(name@),
        ),
        (r matches Err(LedgerError::InvalidName)) <==> !valid_name(fold_chars(name@)),
        r matches Err(e) ==> e is InvalidName || e is Storage,
{
    let bn = match BudgetName::new(name) {
        None => {
            return Err(LedgerError::InvalidName);
        },
        Some(bn) => bn,
    };
    sum_folded(s, &bn)
}

/// The exact sum of one already-normalized budget; 0 when it is absent.
fn sum_folded(s: &Store, bn: &BudgetName) -> (r: Result<i128, LedgerError>)
    requires
        bn.wf(),
    ensures
        r matches Ok(total) ==> total as int == s@.sum_of(bn@),
        r matches Err(e) ==> e is Storage,
{
    let exists = match sql_table_exists(s, bn) {
        Ok(b) => b,
        Err(e) => {
            return Err(LedgerError::Storage(e));
        },
    };
    if !exists {
        return Ok(0);
    }
    match sql_select_rows(s, bn) {
        Ok(v) => Ok(sum_amounts(&v)),
        Err(e) => Err(LedgerError::Storage(e)),
    }
}

/// Each listed budget, with its exact sum, each budget exactly once.
pub open spec fn sums_all(m: StoreModel, v: Seq<(String, i128)>) -> bool {
    &&& forall|i: int| 0 <= i < v.len() ==> m.has((#[trigger] v[i]).0@) && v[i].1 as int
        == m.sum_of(v[i].0@)
    &&& forall|n: Seq<char>| m.has(n) ==> exists|i: int|
        0 <= i < v.len() && (#[trigger] v[i]).0@ == n
    &&& forall|i: int, j: int| #![trigger v[i], v[j]] 0 <= i < j < v.len() ==> v[i].0@ != v[j].0@
}

/// Each listed budget, with all its rows, each budget exactly once.
pub open spec fn views_all(m: StoreModel, v: Seq<(String, Vec<Budget>)>) -> bool {
    &&& forall|i: int| 0 <= i < v.len() ==> m.has((#[trigger] v[i]).0@) && v[i].1@.map_values(
        |b: Budget| b@,
    ) == m.rows_of(v[i].0@)
    &&& forall|n: Seq<char>| m.has(n) ==> exists|i: int|
        0 <= i < v.len() && (#[trigger] v[i]).0@ == n
    &&& forall|i: int, j: int| #![trigger v[i], v[j]] 0 <= i < j < v.len() ==> v[i].0@ != v[j].0@
}

/// The sum of one budget, or of every budget when no name is given: one
/// `(name, sum)` pair per ledger, sums exact and 0 for an absent budget.
pub fn get_sum(s: &Store, name: Option<&str>) -> (r: Result<Vec<(String, i128)>, LedgerError>)
    requires
        s@.wf(),
    ensures
        name matches Some(nm) ==> (r matches Ok(v) ==> valid_name(fold_chars(nm@)) && v@.len() == 1
            && v@[0].0@ == fold_chars(nm@) && v@[0].1 as int == s@.sum_of(fold_chars(nm@))),
        name matches Some(nm) ==> ((r matches Err(LedgerError::InvalidName)) <==> !valid_name(
            fold_chars(nm@),
        )),
        name is None ==> (r matches Ok(v) ==> sums_all(s@, v@)),
        name is None ==> (r matches Err(e) ==> e is Storage),
        r matches Err(e) ==> e is InvalidName || e is Storage,
{
    match name {
        Some(nm) => {
            let bn = match BudgetName::new(nm) {
                None => {
                    return Err(LedgerError::InvalidName);
                },
                Some(bn) => bn,
            };
            let total = match sum_folded(s, &bn) {
                Ok(t) => t,
                Err(e) => {
                    return Err(e);
                },
            };
            let mut out: Vec<(String, i128)> = Vec::new();
            out.push((bn.into_name(), total));
            Ok(out)
        },
        None => {
            let names = match list_budget_names(s) {
                Ok(v) => v,
                Err(e) => {
                    return Err(e);
                },
            };
            let n = names.len();
            let mut out: Vec<(String, i128)> = Vec::new();
            let mut i: usize = 0;
            while i < n
                invariant
                    name is None,
                    s@.wf(),
                    lists_budgets(s@, names@),
                    n == names@.len(),
                    0 <= i <= n,
                    out@.len() == i as int,
                    forall|k: int| 0 <= k < i as int ==> (#[trigger] out@[k]).0@ == names@[k]@
                        && out@[k].1 as int == s@.sum_of(out@[k].0@),
                decreases n - i,
            {
                let nm = &names[i];
                proof {
                    assert(s@.has(names@[i as int]@));
                    assert(s@.tables.dom().contains(names@[i as int]@));
                    lemma_fold_valid_identity(nm@);
                }
                let bn = match BudgetName::new(nm.as_str()) {
                    Some(b) => b,
                    None => unreached(),
                };
                let total = match sum_folded(s, &bn) {
                    Ok(t) => t,
                    Err(e) => {
                        return Err(e);
                    },
                };
                out.push((bn.into_name(), total));
                i = i + 1;
            }
            proof {
                assert forall|x: Seq<char>| s@.has(x) implies exists|k: int|
                    0 <= k < out@.len() && (#[trigger] out@[k]).0@ == x by {
                    let k = choose|k: int| 0 <= k < names@.len() && (#[trigger] names@[k])@ == x;
                    assert(out@[k].0@ == x);
                }
            }
            Ok(out)
        },
    }
}

/// The rows of one budget, or of every budget when no name is given: one
/// `(name, rows)` pair per ledger, rows in ascending id order.
pub fn view_budgets(s: &Store, name: Option<&str>) -> (r: Result<
    Vec<(String, Vec<Budget>)>,
    LedgerError,
>)
    requires
        s@.wf(),
    ensures
        name matches Some(nm) ==> (r matches Ok(v) ==> valid_name(fold_chars(nm@)) && v@.len() == 1
            && v@[0].0@ == fold_chars(nm@) && v@[0].1@.map_values(|b: Budget| b@) == s@.rows_of(
            fold_chars(nm@),
        )),
        name matches Some(nm) ==> ((r matches Err(LedgerError::InvalidName)) <==> !valid_name(
            fold_chars(nm@),
        )),
        name is None ==> (r matches Ok(v) ==> views_all(s@, v@)),
        name is None ==> (r matches Err(e) ==> e is Storage),
        r matches Err(e) ==> e is InvalidName || e is Storage,
{
    match name {
        Some(nm) => {
            let bn = match BudgetName::new(nm) {
                None => {
                    return Err(LedgerError::InvalidName);
                },
                Some(bn) => bn,
            };
            let rows = match rows_folded(s, &bn) {
                Ok(v) => v,
                Err(e) => {
                    return Err(e);
                },
            };
            let mut out: Vec<(String, Vec<Budget>)> = Vec::new();
            out.push((bn.into_name(), rows));
            Ok(out)
        },
        None => {
            let names = match list_budget_names(s) {
                Ok(v) => v,
                Err(e) => {
                    return Err(e);
                },
            };
            let n = names.len();
            let mut out: Vec<(String, Vec<Budget>)> = Vec::new();
            let mut i: usize = 0;
            while i < n
                invariant
                    name is None,
                    s@.wf(),
                    lists_budgets(s@, names@),
                    n == names@.len(),
                    0 <= i <= n,
                    out@.len() == i as int,
                    forall|k: int| 0 <= k < i as int ==> (#[trigger] out@[k]).0@ == names@[k]@
                        && out@[k].1@.map_values(|b: Budget| b@) == s@.rows_of(out@[k].0@),
                decreases n - i,
            {
                let nm = &names[i];
                proof {
                    assert(s@.has(names@[i as int]@));
                    assert(s@.tables.dom().contains(names@[i as int]@));
                    lemma_fold_valid_identity(nm@);
                }
                let bn = match BudgetName::new(nm.as_str()) {
                    Some(b) => b,
                    None => unreached(),
                };
                let rows = match rows_folded(s, &bn) {
                    Ok(v) => v,
                    Err(e) => {
                        return Err(e);
                    },
                };
                out.push((bn.into_name(), rows));
                i = i + 1;
            }
            proof {
                assert forall|x: Seq<char>| s@.has(x) implies exists|k: int|
                    0 <= k < out@.len() && (#[trigger] out@[k]).0@ == x by {
                    let k = choose|k: int| 0 <= k < names@.len() && (#[trigger] names@[k])@ == x;
                    assert(out@[k].0@ == x);
                }
            }
            Ok(out)
        },
    }
}

} // verus!
