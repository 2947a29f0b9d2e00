//! The store model: what each store action means for the `users` table, and
//! an in-memory store that implements it exactly. The relational driver is
//! expected to meet the same contract; the in-memory store lets the whole
//! request cycle run and be checked in-process.

use vstd::prelude::*;
use crate::user::{User, UserView, views_of};
use crate::router::{StoreAction, StoreOutcome, ActionV, OutcomeV};

verus! {

/// Mathematical view of the `users` table: its rows and the identifier the
/// next insert will be assigned.
#[verifier::ext_equal]
pub ghost struct StoreV {
    pub rows: Seq<UserView>,
    pub next_id: i32,
}

/// The identifier of a row, as an integer (rows in a store always have one).
pub open spec fn id_val(u: UserView) -> int {
    match u.id {
        Some(v) => v as int,
        None => -1,
    }
}

/// Some row carries identifier `v`.
pub open spec fn has_id(rows: Seq<UserView>, v: i32) -> bool {
    exists|i: int| 0 <= i < rows.len() && rows[i].id == Some(v)
}

/// Well-formed rows under an identifier bound: every row has a positive
/// store-assigned identifier below the bound, and no two rows share one.
pub open spec fn rows_wf(rows: Seq<UserView>, bound: i32) -> bool {
    &&& (forall|i: int| 0 <= i < rows.len() ==> (#[trigger] rows[i]).id is Some)
    &&& (forall|i: int| 0 <= i < rows.len() ==> 0 < id_val(#[trigger] rows[i]) < bound)
    &&& (forall|i: int, j: int|
        0 <= i < j < rows.len() ==> id_val(#[trigger] rows[i]) != id_val(#[trigger] rows[j]))
}

/// A well-formed store.
pub open spec fn store_wf(st: StoreV) -> bool {
    rows_wf(st.rows, st.next_id) && 1 <= st.next_id
}

/// The rows carrying identifier `id`, in order.
pub open spec fn sel_rows(rows: Seq<UserView>, id: i32) -> Seq<UserView>
    decreases rows.len(),
{
    if rows.len() == 0 {
        Seq::empty()
    } else {
        let rest = sel_rows(rows.drop_last(), id);
        if rows.last().id == Some(id) {
            rest.push(rows.last())
        } else {
            rest
        }
    }
}

/// The rows that do not carry identifier `id`, in order.
pub open spec fn del_rows(rows: Seq<UserView>, id: i32) -> Seq<UserView>
    decreases rows.len(),
{
    if rows.len() == 0 {
        Seq::empty()
    } else {
        let rest = del_rows(rows.drop_last(), id);
        if rows.last().id == Some(id) {
            rest
        } else {
            rest.push(rows.last())
        }
    }
}

/// The rows with the one carrying `id` rewritten to the given values.
pub open spec fn upd_rows(rows: Seq<UserView>, id: i32, name: Seq<u8>, email: Seq<u8>) -> Seq<
    UserView,
> {
    rows.map_values(
        |u: UserView|
            if u.id == Some(id) {
                UserView { id: u.id, name, email }
            } else {
                u
            },
    )
}

/// What one action does to the store, and what comes back: insert appends a
/// row under the next identifier (failing only when identifiers are
/// exhausted); the queries return rows and change nothing; update and delete
/// rewrite or drop the matching row and report how many rows they touched;
/// an immediate reply asks nothing of the store.
pub open spec fn spec_apply(st: StoreV, a: ActionV) -> (StoreV, OutcomeV) {
    match a {
        ActionV::Reply(_) => (st, OutcomeV::Affected(0)),
        ActionV::Insert { name, email } => if st.next_id < 0x7fff_ffff {
            (
                StoreV {
                    rows: st.rows.push(UserView { id: Some(st.next_id), name, email }),
                    next_id: (st.next_id + 1) as i32,
                },
                OutcomeV::Affected(1),
            )
        } else {
            (st, OutcomeV::Failure)
        },
        ActionV::SelectOne { id } => (st, OutcomeV::Rows(sel_rows(st.rows, id))),
        ActionV::SelectAll => (st, OutcomeV::Rows(st.rows)),
        ActionV::Update { id, name, email } => (
            StoreV { rows: upd_rows(st.rows, id, name, email), next_id: st.next_id },
            OutcomeV::Affected(sel_rows(st.rows, id).len() as u64),
        ),
        ActionV::Delete { id } => (
            StoreV { rows: del_rows(st.rows, id), next_id: st.next_id },
            OutcomeV::Affected(sel_rows(st.rows, id).len() as u64),
        ),
    }
}

// ---------------------------------------------------------------------------
// facts about the model
// ---------------------------------------------------------------------------

/// A row identifier that occurs nowhere selects nothing.
pub proof fn lemma_sel_rows_absent(rows: Seq<UserView>, id: i32)
    requires
        !has_id(rows, id),
    ensures
        sel_rows(rows, id).len() == 0,
    decreases rows.len(),
{
    if rows.len() > 0 {
        let front = rows.drop_last();
        assert(forall|i: int| 0 <= i < front.len() ==> front[i] == rows[i]);
        assert(!has_id(front, id));
        lemma_sel_rows_absent(front, id);
        assert(rows[rows.len() - 1].id != Some(id));
    }
}

/// Dropped identifiers select nothing afterwards; other identifiers select
/// what they did before.
pub proof fn lemma_del_rows_sel(rows: Seq<UserView>, id: i32, other: i32)
    ensures
        sel_rows(del_rows(rows, id), id).len() == 0,
        other != id ==> sel_rows(del_rows(rows, id), other) == sel_rows(rows, other),
    decreases rows.len(),
{
    if rows.len() > 0 {
        let front = rows.drop_last();
        let x = rows.last();
        lemma_del_rows_sel(front, id, other);
        if x.id == Some(id) {
            assert(del_rows(rows, id) == del_rows(front, id));
        } else {
            assert(del_rows(rows, id) == del_rows(front, id).push(x));
            assert(del_rows(front, id).push(x).drop_last() =~= del_rows(front, id));
        }
    }
}

/// An identifier found among the remaining rows was there before the delete.
pub proof fn lemma_del_rows_has_id(rows: Seq<UserView>, id: i32, v: i32)
    requires
        has_id(del_rows(rows, id), v),
    ensures
        has_id(rows, v),
    decreases rows.len(),
{
    if rows.len() > 0 {
        let front = rows.drop_last();
        let x = rows.last();
        assert(forall|i: int| 0 <= i < front.len() ==> front[i] == rows[i]);
        if x.id == Some(id) {
            assert(del_rows(rows, id) == del_rows(front, id));
            lemma_del_rows_has_id(front, id, v);
        } else {
            let d = del_rows(front, id).push(x);
            assert(del_rows(rows, id) == d);
            let k = choose|k: int| 0 <= k < d.len() && d[k].id == Some(v);
            if k == d.len() - 1 {
                assert(rows[rows.len() - 1].id == Some(v));
            } else {
                assert(del_rows(front, id)[k].id == Some(v));
                assert(has_id(del_rows(front, id), v));
                lemma_del_rows_has_id(front, id, v);
            }
        }
    }
}

/// Deleting keeps the rows well formed.
pub proof fn lemma_del_rows_wf(rows: Seq<UserView>, id: i32, bound: i32)
    requires
        rows_wf(rows, bound),
    ensures
        rows_wf(del_rows(rows, id), bound),
    decreases rows.len(),
{
    if rows.len() > 0 {
        let front = rows.drop_last();
        let x = rows.last();
        assert(forall|i: int| 0 <= i < front.len() ==> front[i] == rows[i]);
        assert(rows_wf(front, bound));
        lemma_del_rows_wf(front, id, bound);
        if x.id != Some(id) {
            let d0 = del_rows(front, id);
            let d = d0.push(x);
            assert(del_rows(rows, id) == d);
            assert forall|i: int, j: int| 0 <= i < j < d.len() implies id_val(d[i]) != id_val(
                d[j],
            ) by {
                if j < d.len() - 1 {
                    assert(id_val(d0[i]) != id_val(d0[j]));
                } else {
                    assert(d[j] == x);
                    assert(d[i] == d0[i]);
                    if id_val(d0[i]) == id_val(x) {
                        assert(d0[i].id is Some);
                        let v = x.id->Some_0;
                        assert(d0[i].id == Some(v));
                        assert(has_id(d0, v));
                        lemma_del_rows_has_id(front, id, v);
                        let m = choose|m: int|
                            0 <= m < front.len() && front[m].id == Some(v);
                        assert(id_val(rows[m]) == id_val(rows[rows.len() - 1]));
                        assert(false);
                    }
                }
            }
        }
    }
}

/// Rewriting a row keeps the rows well formed.
pub proof fn lemma_upd_rows_wf(rows: Seq<UserView>, id: i32, name: Seq<u8>, email: Seq<u8>, bound: i32)
    requires
        rows_wf(rows, bound),
    ensures
        rows_wf(upd_rows(rows, id, name, email), bound),
{
    let u = upd_rows(rows, id, name, email);
    assert(forall|i: int| 0 <= i < rows.len() ==> (#[trigger] u[i]).id == rows[i].id);
}

/// Inserting under a fresh identifier keeps the store well formed.
pub proof fn lemma_insert_wf(st: StoreV, name: Seq<u8>, email: Seq<u8>)
    requires
        store_wf(st),
        st.next_id < 0x7fff_ffff,
    ensures
        store_wf(spec_apply(st, ActionV::Insert { name, email }).0),
{
    let st2 = spec_apply(st, ActionV::Insert { name, email }).0;
    let r = st.rows;
    let r2 = st2.rows;
    assert(forall|i: int| 0 <= i < r.len() ==> r2[i] == r[i]);
    assert(r2[r.len() as int].id == Some(st.next_id));
}

/// Applying any action keeps the store well formed.
pub proof fn lemma_apply_wf(st: StoreV, a: ActionV)
    requires
        store_wf(st),
    ensures
        store_wf(spec_apply(st, a).0),
{
    match a {
        ActionV::Reply(_) => {},
        ActionV::Insert { name, email } => {
            if st.next_id < 0x7fff_ffff {
                lemma_insert_wf(st, name, email);
            }
        },
        ActionV::SelectOne { .. } => {},
        ActionV::SelectAll => {},
        ActionV::Update { id, name, email } => {
            lemma_upd_rows_wf(st.rows, id, name, email, st.next_id);
        },
        ActionV::Delete { id } => {
            lemma_del_rows_wf(st.rows, id, st.next_id);
        },
    }
}

// ---------------------------------------------------------------------------
// the in-memory store
// ---------------------------------------------------------------------------

/// An in-memory `users` table meeting the store contract.
pub struct MemStore {
    rows: Vec<User>,
    next_id: i32,
}

impl View for MemStore {
    type V = StoreV;

    closed spec fn view(&self) -> StoreV {
        StoreV { rows: views_of(self.rows@), next_id: self.next_id }
    }
}

fn id_matches(u: &User, id: i32) -> (r: bool)
    ensures
        r == (u@.id == Some(id)),
{
    match u.id {
        Some(v) => v == id,
        None => false,
    }
}

impl MemStore {
    /// An empty table; the first insert is assigned identifier 1.
    pub fn new() -> (s: Self)
        ensures
            s@.rows.len() == 0,
            s@.next_id == 1,
            store_wf(s@),
    {
        MemStore { rows: Vec::new(), next_id: 1 }
    }

    /// Performs one store action, per `spec_apply`.
    pub fn apply(&mut self, a: &StoreAction) -> (o: StoreOutcome)
        requires
            store_wf(old(self)@),
        ensures
            final(self)@ == spec_apply(old(self)@, a@).0,
            o@ == spec_apply(old(self)@, a@).1,
            store_wf(final(self)@),
    {
        proof {
            lemma_apply_wf(old(self)@, a@);
        }
        let ghost st0 = self@;
        match a {
            StoreAction::Reply(_) => StoreOutcome::Affected(0),
            StoreAction::Insert { name, email } => {
                if self.next_id == 0x7fff_ffff {
                    StoreOutcome::Failure
                } else {
                    let u = User {
                        id: Some(self.next_id),
                        name: crate::user::copy_bytes(name),
                        email: crate::user::copy_bytes(email),
                    };
                    self.rows.push(u);
                    self.next_id = self.next_id + 1;
                    proof {
                        assert(self@.rows =~= st0.rows.push(
                            UserView { id: Some(st0.next_id), name: name@, email: email@ },
                        ));
                        assert(self@ =~= spec_apply(st0, a@).0);
                    }
                    StoreOutcome::Affected(1)
                }
            },
            StoreAction::SelectOne { id } => {
                let ghost rowsv = st0.rows;
                let mut out: Vec<User> = Vec::new();
                let mut i: usize = 0;
                while i < self.rows.len()
                    invariant
                        i <= self.rows.len(),
                        self@ == st0,
                        rowsv == views_of(self.rows@),
                        views_of(out@) == sel_rows(
                            rowsv.subrange(0, i as int),
                            *id,
                        ),
                    decreases self.rows.len() - i,
                {
                    let ghost pre = rowsv.subrange(0, i as int);
                    if id_matches(&self.rows[i], *id) {
                        out.push(self.rows[i].clone_user());
                    }
                    proof {
                        let cur = rowsv.subrange(0, i + 1 as int);
                        assert(cur.drop_last() =~= pre);
                        assert(cur.last() == rowsv[i as int]);
                        assert(views_of(out@) =~~= sel_rows(cur, *id));
                    }
                    i = i + 1;
                }
                proof {
                    assert(rowsv.subrange(0, rowsv.len() as int) =~= rowsv);
                }
                StoreOutcome::Rows(out)
            },
            StoreAction::SelectAll => {
                let ghost rowsv = st0.rows;
                let mut out: Vec<User> = Vec::new();
                let mut i: usize = 0;
                while i < self.rows.len()
                    invariant
                        i <= self.rows.len(),
                        self@ == st0,
                        rowsv == views_of(self.rows@),
                        views_of(out@) == rowsv.subrange(0, i as int),
                    decreases self.rows.len() - i,
                {
                    let ghost outpre = out@;
                    out.push(self.rows[i].clone_user());
                    proof {
                        assert(rowsv[i as int] == self.rows@[i as int]@);
                        assert(views_of(outpre).len() == i);
                        assert(outpre.len() == i);
                        assert(forall|k: int|
                            0 <= k < i ==> #[trigger] views_of(outpre)[k] == rowsv.subrange(
                                0,
                                i as int,
                            )[k]);
                        assert(views_of(out@) =~~= rowsv.subrange(0, i + 1 as int));
                    }
                    i = i + 1;
                }
                proof {
                    assert(st0.rows == rowsv);
                }
                proof {
                    assert(st0.rows.subrange(0, st0.rows.len() as int) =~= st0.rows);
                }
                StoreOutcome::Rows(out)
            },
            StoreAction::Update { id, name, email } => {
                let ghost rowsv = st0.rows;
                let mut kept: Vec<User> = Vec::new();
                let mut count: u64 = 0;
                let mut i: usize = 0;
                while i < self.rows.len()
                    invariant
                        i <= self.rows.len(),
                        count <= i,
                        self@ == st0,
                        rowsv == views_of(self.rows@),
                        views_of(kept@) == upd_rows(
                            rowsv.subrange(0, i as int),
                            *id,
                            name@,
                            email@,
                        ),
                        count as int == sel_rows(rowsv.subrange(0, i as int), *id).len(),
                    decreases self.rows.len() - i,
                {
                    let ghost pre = rowsv.subrange(0, i as int);
                    let ghost keptpre = kept@;
                    if id_matches(&self.rows[i], *id) {
                        kept.push(
                            User {
                                id: self.rows[i].id,
                                name: crate::user::copy_bytes(name),
                                email: crate::user::copy_bytes(email),
                            },
                        );
                        count = count + 1;
                    } else {
                        kept.push(self.rows[i].clone_user());
                    }
                    proof {
                        let cur = rowsv.subrange(0, i + 1 as int);
                        assert(cur.drop_last() =~= pre);
                        assert(cur.last() == rowsv[i as int]);
                        assert(rowsv[i as int] == self.rows@[i as int]@);
                        assert(views_of(keptpre).len() == i);
                        assert(keptpre.len() == i);
                        assert forall|k: int| 0 <= k < i + 1 implies #[trigger] views_of(
                            kept@,
                        )[k] == upd_rows(cur, *id, name@, email@)[k] by {
                            assert(cur[k] == rowsv[k]);
                            if k < i {
                                assert(kept@[k] == keptpre[k]);
                                assert(views_of(kept@)[k] == keptpre[k]@);
                                assert(views_of(keptpre)[k] == upd_rows(
                                    pre,
                                    *id,
                                    name@,
                                    email@,
                                )[k]);
                                assert(pre[k] == cur[k]);
                                assert(upd_rows(pre, *id, name@, email@)[k] == upd_rows(
                                    cur,
                                    *id,
                                    name@,
                                    email@,
                                )[k]);
                            } else {
                                assert(kept@[k] == kept@[i as int]);
                                assert(views_of(kept@)[k] == kept@[i as int]@);
                            }
                        }
                        assert(views_of(kept@).len() == i + 1);
                        assert(views_of(kept@) =~~= upd_rows(cur, *id, name@, email@));
                    }
                    i = i + 1;
                }
                self.rows = kept;
                proof {
                    assert(rowsv.subrange(0, rowsv.len() as int) =~= rowsv);
                    assert(self@ =~= spec_apply(st0, a@).0);
                }
                StoreOutcome::Affected(count)
            },
            StoreAction::Delete { id } => {
                let ghost rowsv = st0.rows;
                let mut kept: Vec<User> = Vec::new();
                let mut count: u64 = 0;
                let mut i: usize = 0;
                while i < self.rows.len()
                    invariant
                        i <= self.rows.len(),
                        count <= i,
                        self@ == st0,
                        rowsv == views_of(self.rows@),
                        views_of(kept@) == del_rows(
                            rowsv.subrange(0, i as int),
                            *id,
                        ),
                        count as int == sel_rows(rowsv.subrange(0, i as int), *id).len(),
                    decreases self.rows.len() - i,
                {
                    let ghost pre = rowsv.subrange(0, i as int);
                    if id_matches(&self.rows[i], *id) {
                        count = count + 1;
                    } else {
                        kept.push(self.rows[i].clone_user());
                    }
                    proof {
                        let cur = rowsv.subrange(0, i + 1 as int);
                        assert(cur.drop_last() =~= pre);
                        assert(cur.last() == rowsv[i as int]);
                        assert(views_of(kept@) =~~= del_rows(cur, *id));
                    }
                    i = i + 1;
                }
                self.rows = kept;
                proof {
                    assert(rowsv.subrange(0, rowsv.len() as int) =~= rowsv);
                    assert(self@ =~= spec_apply(st0, a@).0);
                }
                StoreOutcome::Affected(count)
            },
        }
    }
}

} // verus!
