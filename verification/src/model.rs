//! Mathematical model of the store: a finite map from budget names to
//! tables, each table a sequence of rows ordered by id together with the
//! next id the store would assign.

use vstd::prelude::*;
use crate::name::valid_name;

verus! {

/// One transaction row: an id unique within its table, an optional
/// description (absent is the empty string), a free-form date, and a signed
/// amount in minor units.
#[verifier::ext_equal]
pub ghost struct RowModel {
    pub id: int,
    pub desc: Seq<char>,
    pub date: Seq<char>,
    pub amount: int,
}

/// One budget's table: its rows in ascending id order, and the id the next
/// inserted row would get (ids grow monotonically and are never reused).
#[verifier::ext_equal]
pub ghost struct TableModel {
    pub rows: Seq<RowModel>,
    pub next_id: int,
}

/// The whole store: one table per budget name.
#[verifier::ext_equal]
pub ghost struct StoreModel {
    pub tables: Map<Seq<char>, TableModel>,
}

/// True when some row of the sequence carries the given id.
pub open spec fn has_row_id(rows: Seq<RowModel>, id: int) -> bool {
    exists|i: int| 0 <= i < rows.len() && (#[trigger] rows[i]).id == id
}

/// Rows are strictly ascending by id; in particular ids are unique.
pub open spec fn sorted_by_id(rows: Seq<RowModel>) -> bool {
    forall|i: int, j: int|
        #![trigger rows[i].id, rows[j].id]
        0 <= i < j < rows.len() ==> rows[i].id < rows[j].id
}

/// Sum of the amounts of a sequence of rows.
pub open spec fn sum_rows(rows: Seq<RowModel>) -> int
    decreases rows.len(),
{
    if rows.len() == 0 {
        0
    } else {
        sum_rows(rows.drop_last()) + rows.last().amount
    }
}

/// The rows that survive deleting an id: every row but those carrying it,
/// in their old order.
pub open spec fn without_id(rows: Seq<RowModel>, id: int) -> Seq<RowModel>
    decreases rows.len(),
{
    if rows.len() == 0 {
        rows
    } else if rows.last().id == id {
        without_id(rows.drop_last(), id)
    } else {
        without_id(rows.drop_last(), id).push(rows.last())
    }
}

/// Insert a row into an id-sorted sequence, keeping the order.
pub open spec fn insert_sorted(rows: Seq<RowModel>, r: RowModel) -> Seq<RowModel>
    decreases rows.len(),
{
    if rows.len() == 0 {
        seq![r]
    } else if r.id < rows.first().id {
        seq![r] + rows
    } else {
        seq![rows.first()] + insert_sorted(rows.drop_first(), r)
    }
}

impl TableModel {
    /// A table fresh from `CREATE TABLE`: no rows, ids start at 1.
    pub open spec fn fresh() -> TableModel {
        TableModel { rows: Seq::empty(), next_id: 1 }
    }

    /// Well-formed: ids are at least 1, below `next_id`, and ascending.
    pub open spec fn wf(self) -> bool {
        &&& self.next_id >= 1
        &&& forall|i: int| 0 <= i < self.rows.len() ==> 1 <= (#[trigger] self.rows[i]).id < self.next_id
        &&& sorted_by_id(self.rows)
    }

    /// True when some row carries the given id.
    pub open spec fn has_id(self, id: int) -> bool {
        has_row_id(self.rows, id)
    }
}

impl StoreModel {
    /// The store of a newly created database: no tables at all.
    pub open spec fn empty() -> StoreModel {
        StoreModel { tables: Map::empty() }
    }

    /// True when a budget of that name exists.
    pub open spec fn has(self, n: Seq<char>) -> bool {
        self.tables.contains_key(n)
    }

    /// `CREATE TABLE IF NOT EXISTS`: a no-op when the budget exists.
    pub open spec fn ensure_table(self, n: Seq<char>) -> StoreModel {
        if self.has(n) {
            self
        } else {
            StoreModel { tables: self.tables.insert(n, TableModel::fresh()) }
        }
    }

    /// `DROP TABLE IF EXISTS`: a no-op when the budget is absent.
    pub open spec fn drop_table(self, n: Seq<char>) -> StoreModel {
        StoreModel { tables: self.tables.remove(n) }
    }

    /// Append a row with the store-assigned id to an existing budget.
    pub open spec fn insert_tx(self, n: Seq<char>, desc: Seq<char>, date: Seq<char>, amount: int) -> StoreModel
        recommends self.has(n),
    {
        let t = self.tables[n];
        let r = RowModel { id: t.next_id, desc, date, amount };
        StoreModel {
            tables: self.tables.insert(n, TableModel { rows: t.rows.push(r), next_id: t.next_id + 1 }),
        }
    }

    /// Delete the row with the given id, if any; a no-op otherwise.
    pub open spec fn remove_tx(self, n: Seq<char>, id: int) -> StoreModel {
        if !self.has(n) {
            self
        } else {
            let t = self.tables[n];
            StoreModel {
                tables: self.tables.insert(n, TableModel {
                    rows: without_id(t.rows, id),
                    next_id: t.next_id,
                }),
            }
        }
    }

    /// Replace the row with the given id, or create it: full replacement of
    /// description, date and amount.  The next assigned id never goes down.
    pub open spec fn upsert_tx(self, n: Seq<char>, id: int, desc: Seq<char>, date: Seq<char>, amount: int) -> StoreModel
        recommends self.has(n),
    {
        let t = self.tables[n];
        let r = RowModel { id, desc, date, amount };
        let kept = without_id(t.rows, id);
        let next = if id + 1 > t.next_id { id + 1 } else { t.next_id };
        StoreModel {
            tables: self.tables.insert(n, TableModel { rows: insert_sorted(kept, r), next_id: next }),
        }
    }

    /// Sum of one budget's amounts; 0 for an absent budget.
    pub open spec fn sum_of(self, n: Seq<char>) -> int {
        if self.has(n) {
            sum_rows(self.tables[n].rows)
        } else {
            0
        }
    }

    /// One budget's rows; empty for an absent budget.
    pub open spec fn rows_of(self, n: Seq<char>) -> Seq<RowModel> {
        if self.has(n) {
            self.tables[n].rows
        } else {
            Seq::empty()
        }
    }

    /// Well-formed: finitely many tables, every name valid, every table wf.
    pub open spec fn wf(self) -> bool {
        &&& self.tables.dom().finite()
        &&& forall|n: Seq<char>| #[trigger] self.tables.dom().contains(n) ==> valid_name(n)
            && self.tables[n].wf()
    }
}

/// What survives a delete: exactly the rows with another id, kept in order,
/// and no more rows than before.
pub proof fn lemma_without_id_contents(rows: Seq<RowModel>, id: int)
    ensures
        forall|i: int| 0 <= i < without_id(rows, id).len() ==> (#[trigger] without_id(rows, id)[i]).id != id
            && rows.contains(without_id(rows, id)[i]),
        forall|i: int| 0 <= i < rows.len() && (#[trigger] rows[i]).id != id ==> without_id(rows, id).contains(rows[i]),
        without_id(rows, id).len() <= rows.len(),
    decreases rows.len(),
{
    if rows.len() > 0 {
        let prefix = rows.drop_last();
        lemma_without_id_contents(prefix, id);
        let w = without_id(rows, id);
        assert forall|i: int| 0 <= i < w.len() implies (#[trigger] w[i]).id != id && rows.contains(
            w[i],
        ) by {
            if rows.last().id != id && i == w.len() - 1 {
                assert(rows[rows.len() - 1] == w[i]);
            } else {
                assert(w[i] == without_id(prefix, id)[i]);
                assert(prefix.contains(w[i]));
                let j = choose|j: int| 0 <= j < prefix.len() && prefix[j] == w[i];
                assert(rows[j] == w[i]);
            }
        }
        assert forall|i: int| 0 <= i < rows.len() && (#[trigger] rows[i]).id != id implies w.contains(
            rows[i],
        ) by {
            if i == rows.len() - 1 {
                assert(w[w.len() - 1] == rows[i]);
            } else {
                assert(prefix[i] == rows[i]);
                assert(without_id(prefix, id).contains(rows[i]));
                let j = choose|j: int| 0 <= j < without_id(prefix, id).len() && without_id(
                    prefix,
                    id,
                )[j] == rows[i];
                assert(w[j] == rows[i]);
            }
        }
    }
}

/// Deleting an id keeps the rows in ascending id order.
pub proof fn lemma_without_id_sorted(rows: Seq<RowModel>, id: int)
    requires
        sorted_by_id(rows),
    ensures
        sorted_by_id(without_id(rows, id)),
    decreases rows.len(),
{
    if rows.len() > 0 {
        let prefix = rows.drop_last();
        lemma_without_id_sorted(prefix, id);
        lemma_without_id_contents(prefix, id);
        let w = without_id(rows, id);
        if rows.last().id != id {
            assert forall|i: int, j: int|
                #![trigger w[i].id, w[j].id]
                0 <= i < j < w.len() implies w[i].id < w[j].id by {
                if j < w.len() - 1 {
                    assert(w[i] == without_id(prefix, id)[i]);
                } else {
                    assert(w[j] == rows.last());
                    assert(w[i] == without_id(prefix, id)[i]);
                    assert(prefix.contains(w[i]));
                    let k = choose|k: int| 0 <= k < prefix.len() && prefix[k] == w[i];
                    assert(rows[k] == w[i]);
                    assert(rows[k].id < rows.last().id);
                }
            }
        }
    }
}

/// How many rows a delete takes away: one when the id is there (ids are
/// unique in id-sorted rows), none when it is not.
pub proof fn lemma_without_id_len(rows: Seq<RowModel>, id: int)
    requires
        sorted_by_id(rows),
    ensures
        has_row_id(rows, id) ==> without_id(rows, id).len() == rows.len() - 1,
        !has_row_id(rows, id) ==> without_id(rows, id) == rows,
    decreases rows.len(),
{
    if rows.len() > 0 {
        let prefix = rows.drop_last();
        lemma_without_id_len(prefix, id);
        if rows.last().id == id {
            assert(!has_row_id(prefix, id)) by {
                if has_row_id(prefix, id) {
                    let i = choose|i: int| 0 <= i < prefix.len() && (#[trigger] prefix[i]).id == id;
                    assert(rows[i].id < rows.last().id);
                }
            }
            assert((#[trigger] rows[rows.len() - 1]).id == id);
        } else {
            if has_row_id(rows, id) {
                let i = choose|i: int| 0 <= i < rows.len() && (#[trigger] rows[i]).id == id;
                assert(prefix[i] == rows[i]);
                assert(has_row_id(prefix, id));
            } else {
                assert(!has_row_id(prefix, id)) by {
                    if has_row_id(prefix, id) {
                        let i = choose|i: int| 0 <= i < prefix.len() && (#[trigger] prefix[i]).id
                            == id;
                        assert(rows[i].id == id);
                    }
                }
                assert(without_id(rows, id) =~= rows);
            }
        }
    }
}

/// Deleting an id that no row carries changes nothing.
pub proof fn lemma_without_id_absent(rows: Seq<RowModel>, id: int)
    requires
        forall|i: int| 0 <= i < rows.len() ==> (#[trigger] rows[i]).id != id,
    ensures
        without_id(rows, id) == rows,
    decreases rows.len(),
{
    if rows.len() > 0 {
        lemma_without_id_absent(rows.drop_last(), id);
        assert(without_id(rows, id) =~= rows);
    }
}

/// What insertion yields: the old rows plus the new one, nothing else.
pub proof fn lemma_insert_sorted_contents(rows: Seq<RowModel>, r: RowModel)
    ensures
        insert_sorted(rows, r).len() == rows.len() + 1,
        insert_sorted(rows, r).contains(r),
        forall|i: int| 0 <= i < rows.len() ==> insert_sorted(rows, r).contains(#[trigger] rows[i]),
        forall|i: int| 0 <= i < insert_sorted(rows, r).len() ==> (#[trigger] insert_sorted(rows, r)[i]) == r
            || rows.contains(insert_sorted(rows, r)[i]),
    decreases rows.len(),
{
    let ins = insert_sorted(rows, r);
    if rows.len() == 0 {
        assert(ins[0] == r);
    } else if r.id < rows.first().id {
        assert(ins[0] == r);
        assert forall|i: int| 0 <= i < rows.len() implies ins.contains(#[trigger] rows[i]) by {
            assert(ins[i + 1] == rows[i]);
        }
    } else {
        let tail = rows.drop_first();
        lemma_insert_sorted_contents(tail, r);
        let rec = insert_sorted(tail, r);
        assert(rec.contains(r));
        let k = choose|k: int| 0 <= k < rec.len() && rec[k] == r;
        assert(ins[k + 1] == r);
        assert forall|i: int| 0 <= i < rows.len() implies ins.contains(#[trigger] rows[i]) by {
            if i == 0 {
                assert(ins[0] == rows[0]);
            } else {
                assert(tail[i - 1] == rows[i]);
                assert(rec.contains(tail[i - 1]));
                let j = choose|j: int| 0 <= j < rec.len() && rec[j] == rows[i];
                assert(ins[j + 1] == rows[i]);
            }
        }
        assert forall|i: int| 0 <= i < ins.len() implies (#[trigger] ins[i]) == r || rows.contains(
            ins[i],
        ) by {
            if i == 0 {
                assert(ins[0] == rows[0]);
                assert(rows.contains(rows[0]));
            } else {
                assert(ins[i] == rec[i - 1]);
                if rec[i - 1] != r {
                    assert(tail.contains(rec[i - 1]));
                    let j = choose|j: int| 0 <= j < tail.len() && tail[j] == rec[i - 1];
                    assert(rows[j + 1] == rec[i - 1]);
                }
            }
        }
    }
}

/// Inserting a fresh id into id-sorted rows keeps them id-sorted.
pub proof fn lemma_insert_sorted_sorted(rows: Seq<RowModel>, r: RowModel)
    requires
        sorted_by_id(rows),
        forall|i: int| 0 <= i < rows.len() ==> (#[trigger] rows[i]).id != r.id,
    ensures
        sorted_by_id(insert_sorted(rows, r)),
    decreases rows.len(),
{
    let ins = insert_sorted(rows, r);
    if rows.len() == 0 {
    } else if r.id < rows.first().id {
        assert forall|i: int, j: int|
            #![trigger ins[i].id, ins[j].id]
            0 <= i < j < ins.len() implies ins[i].id < ins[j].id by {
            if i > 0 {
                assert(ins[i] == rows[i - 1] && ins[j] == rows[j - 1]);
            } else {
                assert(ins[j] == rows[j - 1]);
                if j - 1 > 0 {
                    assert(rows[0].id < rows[j - 1].id);
                }
            }
        }
    } else {
        let tail = rows.drop_first();
        lemma_insert_sorted_sorted(tail, r);
        lemma_insert_sorted_contents(tail, r);
        let rec = insert_sorted(tail, r);
        assert(r.id > rows.first().id);
        assert forall|i: int, j: int|
            #![trigger ins[i].id, ins[j].id]
            0 <= i < j < ins.len() implies ins[i].id < ins[j].id by {
            if i > 0 {
                assert(ins[i] == rec[i - 1] && ins[j] == rec[j - 1]);
            } else {
                assert(ins[0] == rows.first());
                assert(ins[j] == rec[j - 1]);
                if rec[j - 1] == r {
                } else {
                    assert(tail.contains(rec[j - 1]));
                    let k = choose|k: int| 0 <= k < tail.len() && tail[k] == rec[j - 1];
                    assert(rows[k + 1] == rec[j - 1]);
                    assert(rows[0].id < rows[k + 1].id);
                }
            }
        }
    }
}

/// Appending a row adds its amount to the sum.
pub proof fn lemma_sum_rows_push(rows: Seq<RowModel>, r: RowModel)
    ensures
        sum_rows(rows.push(r)) == sum_rows(rows) + r.amount,
{
    assert(rows.push(r).drop_last() =~= rows);
    assert(rows.push(r).last() == r);
}

impl StoreModel {
    /// Ensuring a table keeps the store well-formed.
    pub proof fn lemma_ensure_wf(self, n: Seq<char>)
        requires
            self.wf(),
            valid_name(n),
        ensures
            self.ensure_table(n).wf(),
    {
        let m2 = self.ensure_table(n);
        if !self.has(n) {
            assert forall|x: Seq<char>| #[trigger] m2.tables.dom().contains(x) implies valid_name(
                x,
            ) && m2.tables[x].wf() by {
                if !(x =~= n) {
                    assert(self.tables.dom().contains(x));
                }
            }
        }
    }

    /// Replacing one well-formed table keeps the store well-formed.
    pub proof fn lemma_update_wf(self, n: Seq<char>, t2: TableModel)
        requires
            self.wf(),
            valid_name(n),
            t2.wf(),
        ensures
            (StoreModel { tables: self.tables.insert(n, t2) }).wf(),
    {
        let m2 = StoreModel { tables: self.tables.insert(n, t2) };
        assert forall|x: Seq<char>| #[trigger] m2.tables.dom().contains(x) implies valid_name(x)
            && m2.tables[x].wf() by {
            if !(x =~= n) {
                assert(self.tables.dom().contains(x));
            }
        }
    }

    /// Dropping a table keeps the store well-formed.
    pub proof fn lemma_drop_wf(self, n: Seq<char>)
        requires
            self.wf(),
        ensures
            self.drop_table(n).wf(),
    {
        let m2 = self.drop_table(n);
        assert forall|x: Seq<char>| #[trigger] m2.tables.dom().contains(x) implies valid_name(x)
            && m2.tables[x].wf() by {
            assert(self.tables.dom().contains(x));
        }
    }

    /// Inserting a transaction keeps the store well-formed.
    pub proof fn lemma_insert_wf(self, n: Seq<char>, desc: Seq<char>, date: Seq<char>, amount: int)
        requires
            self.wf(),
            self.has(n),
        ensures
            self.insert_tx(n, desc, date, amount).wf(),
    {
        let t = self.tables[n];
        let r = RowModel { id: t.next_id, desc, date, amount };
        let t2 = TableModel { rows: t.rows.push(r), next_id: t.next_id + 1 };
        assert forall|i: int| 0 <= i < t2.rows.len() implies 1 <= (#[trigger] t2.rows[i]).id
            < t2.next_id by {
            if i < t.rows.len() {
                assert(t2.rows[i] == t.rows[i]);
            }
        }
        assert forall|i: int, j: int|
            #![trigger t2.rows[i].id, t2.rows[j].id]
            0 <= i < j < t2.rows.len() implies t2.rows[i].id < t2.rows[j].id by {
            if j < t.rows.len() {
                assert(t2.rows[i] == t.rows[i] && t2.rows[j] == t.rows[j]);
            } else {
                assert(t2.rows[i] == t.rows[i] && t2.rows[j] == r);
            }
        }
        self.lemma_update_wf(n, t2);
    }

    /// Deleting a transaction keeps the store well-formed.
    pub proof fn lemma_remove_wf(self, n: Seq<char>, id: int)
        requires
            self.wf(),
        ensures
            self.remove_tx(n, id).wf(),
    {
        if self.has(n) {
            let t = self.tables[n];
            lemma_without_id_contents(t.rows, id);
            lemma_without_id_sorted(t.rows, id);
            let w = without_id(t.rows, id);
            assert forall|i: int| 0 <= i < w.len() implies 1 <= (#[trigger] w[i]).id < t.next_id by {
                assert(t.rows.contains(w[i]));
                let k = choose|k: int| 0 <= k < t.rows.len() && t.rows[k] == w[i];
            }
            self.lemma_update_wf(n, TableModel { rows: w, next_id: t.next_id });
        }
    }

    /// Upserting a transaction keeps the store well-formed.
    pub proof fn lemma_upsert_wf(self, n: Seq<char>, id: int, desc: Seq<char>, date: Seq<char>, amount: int)
        requires
            self.wf(),
            self.has(n),
            1 <= id,
        ensures
            self.upsert_tx(n, id, desc, date, amount).wf(),
    {
        let t = self.tables[n];
        let r = RowModel { id, desc, date, amount };
        let kept = without_id(t.rows, id);
        let next = if id + 1 > t.next_id { id + 1 } else { t.next_id };
        lemma_without_id_contents(t.rows, id);
        lemma_without_id_sorted(t.rows, id);
        lemma_insert_sorted_contents(kept, r);
        lemma_insert_sorted_sorted(kept, r);
        let ins = insert_sorted(kept, r);
        assert forall|i: int| 0 <= i < ins.len() implies 1 <= (#[trigger] ins[i]).id < next by {
            if ins[i] != r {
                assert(kept.contains(ins[i]));
                let k = choose|k: int| 0 <= k < kept.len() && kept[k] == ins[i];
                assert(t.rows.contains(kept[k]));
                let k2 = choose|k2: int| 0 <= k2 < t.rows.len() && t.rows[k2] == kept[k];
            }
        }
        assert forall|i: int| 0 <= i < kept.len() implies (#[trigger] kept[i]).id != r.id by {}
        self.lemma_update_wf(n, TableModel { rows: ins, next_id: next });
    }
}

} // verus!
