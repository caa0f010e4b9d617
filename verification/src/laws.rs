//! The properties the library stands on, stated over the store model that
//! every operation's contract speaks of, and proved once and for all.

use vstd::prelude::*;
use crate::model::RowModel;
use crate::model::StoreModel;
use crate::model::has_row_id;
use crate::model::lemma_insert_sorted_contents;
use crate::model::lemma_sum_rows_push;
use crate::model::lemma_without_id_absent;
use crate::model::lemma_without_id_contents;
use crate::model::lemma_without_id_len;
use crate::name::fold_chars;
use crate::name::lemma_fold_idempotent;
use crate::name::norm_name;

verus! {

/// Creating a budget is idempotent: ensuring it twice is ensuring it once,
/// ensuring an existing budget changes nothing, and in either case the
/// budget ends up with the rows it had, or none if it is new.
pub proof fn lemma_ensure_idempotent(m: StoreModel, n: Seq<char>)
    ensures
        m.ensure_table(n).ensure_table(n) == m.ensure_table(n),
        m.has(n) ==> m.ensure_table(n) == m,
        m.ensure_table(n).tables[n].rows == (if m.has(n) {
            m.tables[n].rows
        } else {
            Seq::<RowModel>::empty()
        }),
{
    assert(m.ensure_table(n).has(n));
}

/// Dropping a budget that does not exist changes nothing.
pub proof fn lemma_drop_absent(m: StoreModel, n: Seq<char>)
    requires
        !m.has(n),
    ensures
        m.drop_table(n) == m,
{
    assert(m.drop_table(n).tables =~= m.tables);
    assert(m.drop_table(n) =~= m);
}

/// Deleting a transaction that does not exist, in a budget that may itself
/// not exist, changes nothing.
pub proof fn lemma_remove_tx_absent(m: StoreModel, n: Seq<char>, id: int)
    requires
        m.has(n) ==> !has_row_id(m.tables[n].rows, id),
    ensures
        m.remove_tx(n, id) == m,
{
    if m.has(n) {
        let rows = m.tables[n].rows;
        assert forall|i: int| 0 <= i < rows.len() implies (#[trigger] rows[i]).id != id by {
            if rows[i].id == id {
                assert(has_row_id(rows, id));
            }
        }
        lemma_without_id_absent(rows, id);
        assert(m.remove_tx(n, id).tables =~= m.tables);
        assert(m.remove_tx(n, id) =~= m);
    }
}

/// Inserting a transaction adds exactly its amount to that budget's sum and
/// leaves every other budget's sum alone; a budget that does not exist sums
/// to 0, and creating it does not change its sum.
pub proof fn lemma_sum_delta(m: StoreModel, n: Seq<char>, desc: Seq<char>, date: Seq<char>, amount: int)
    requires
        m.has(n),
    ensures
        m.insert_tx(n, desc, date, amount).sum_of(n) == m.sum_of(n) + amount,
        forall|k: Seq<char>| k != n ==> m.insert_tx(n, desc, date, amount).sum_of(k) == m.sum_of(k),
        forall|k: Seq<char>| !m.has(k) ==> m.sum_of(k) == 0 && m.ensure_table(k).sum_of(k) == 0,
{
    let t = m.tables[n];
    lemma_sum_rows_push(t.rows, RowModel { id: t.next_id, desc, date, amount });
}

/// A name and any differently-cased spelling of it normalize to the same
/// stored key: normalizing the folded name is normalizing the name.
pub proof fn lemma_normalize_case_insensitive(s: Seq<char>)
    ensures
        norm_name(fold_chars(s)) == norm_name(s),
{
    lemma_fold_idempotent(s);
}

/// What an upsert leaves behind: the given row stands in the budget; every
/// other row is kept exactly as it was, and nothing else appears.  When the
/// id was absent the budget grows by one row, when it was present the count
/// stays; other budgets are untouched.
pub proof fn lemma_upsert_semantics(
    m: StoreModel,
    n: Seq<char>,
    id: int,
    desc: Seq<char>,
    date: Seq<char>,
    amount: int,
)
    requires
        m.wf(),
        m.has(n),
    ensures
        ({
            let m2 = m.upsert_tx(n, id, desc, date, amount);
            let r = (RowModel { id, desc, date, amount });
            let rows = m.tables[n].rows;
            let rows2 = m2.tables[n].rows;
            &&& rows2.contains(r)
            &&& forall|x: RowModel| rows.contains(x) && x.id != id ==> rows2.contains(x)
            &&& forall|x: RowModel| rows2.contains(x) ==> x == r || (rows.contains(x) && x.id
                != id)
            &&& !has_row_id(rows, id) ==> rows2.len() == rows.len() + 1
            &&& has_row_id(rows, id) ==> rows2.len() == rows.len()
            &&& forall|k: Seq<char>| k != n && m.has(k) ==> m2.tables[k] == m.tables[k]
            &&& m2.tables.dom() =~= m.tables.dom()
        }),
{
    let rows = m.tables[n].rows;
    let r = RowModel { id, desc, date, amount };
    let kept = crate::model::without_id(rows, id);
    lemma_without_id_contents(rows, id);
    lemma_without_id_len(rows, id);
    lemma_insert_sorted_contents(kept, r);
    let rows2 = m.upsert_tx(n, id, desc, date, amount).tables[n].rows;
    assert forall|x: RowModel| rows.contains(x) && x.id != id implies rows2.contains(x) by {
        let i = choose|i: int| 0 <= i < rows.len() && rows[i] == x;
        assert(kept.contains(rows[i]));
        let j = choose|j: int| 0 <= j < kept.len() && kept[j] == x;
        assert(rows2.contains(kept[j]));
    }
    assert forall|x: RowModel| rows2.contains(x) implies x == r || (rows.contains(x) && x.id
        != id) by {
        if x != r {
            let i = choose|i: int| 0 <= i < rows2.len() && rows2[i] == x;
            assert(kept.contains(x));
            let j = choose|j: int| 0 <= j < kept.len() && kept[j] == x;
            assert(rows.contains(kept[j]));
        }
    }
}

} // verus!
