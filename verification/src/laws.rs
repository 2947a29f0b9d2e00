//! Laws of the service, proved over the store model and the handler
//! contracts: what a created record looks like when fetched, how fetch-all
//! grows under creates, and what update and delete do to later reads.

use vstd::prelude::*;
use crate::user::UserView;
use crate::router::{ActionV, OutcomeV, ResponseV, StatusLine, spec_respond, spec_route,
    internal_reply, not_found_response, starts_with, lit_get_prefix, body_user_deleted};
use crate::request::spec_id_of;
use crate::router::spec_route_id;
use crate::store::{StoreV, store_wf, spec_apply, sel_rows, del_rows, upd_rows, has_id, id_val,
    lemma_sel_rows_absent, lemma_del_rows_sel, lemma_apply_wf};
use crate::codec::spec_serialize_user;

verus! {

// ---------------------------------------------------------------------------
// more facts about row selection
// ---------------------------------------------------------------------------

/// A row identifier that occurs somewhere selects at least one row.
pub proof fn lemma_sel_rows_present(rows: Seq<UserView>, id: i32)
    requires
        has_id(rows, id),
    ensures
        sel_rows(rows, id).len() >= 1,
    decreases rows.len(),
{
    let k = choose|k: int| 0 <= k < rows.len() && rows[k].id == Some(id);
    if rows.len() > 0 {
        let front = rows.drop_last();
        if k == rows.len() - 1 {
        } else {
            assert(front[k] == rows[k]);
            assert(has_id(front, id));
            lemma_sel_rows_present(front, id);
        }
    }
}

/// Under well-formed rows, no identifier selects more than one row.
pub proof fn lemma_sel_rows_unique(rows: Seq<UserView>, bound: i32, id: i32)
    requires
        crate::store::rows_wf(rows, bound),
    ensures
        sel_rows(rows, id).len() <= 1,
    decreases rows.len(),
{
    if rows.len() > 0 {
        let front = rows.drop_last();
        let x = rows.last();
        assert(forall|i: int| 0 <= i < front.len() ==> front[i] == rows[i]);
        assert(crate::store::rows_wf(front, bound));
        lemma_sel_rows_unique(front, bound, id);
        if x.id == Some(id) {
            if has_id(front, id) {
                let m = choose|m: int| 0 <= m < front.len() && front[m].id == Some(id);
                assert(id_val(rows[m]) == id_val(rows[rows.len() - 1]));
                assert(false);
            }
            lemma_sel_rows_absent(front, id);
        }
    }
}

/// Deleting an identifier that occurs nowhere keeps the rows as they are.
pub proof fn lemma_del_rows_absent(rows: Seq<UserView>, id: i32)
    requires
        !has_id(rows, id),
    ensures
        del_rows(rows, id) == rows,
    decreases rows.len(),
{
    if rows.len() > 0 {
        let front = rows.drop_last();
        assert(forall|i: int| 0 <= i < front.len() ==> front[i] == rows[i]);
        assert(!has_id(front, id));
        lemma_del_rows_absent(front, id);
        assert(rows[rows.len() - 1].id != Some(id));
        assert(del_rows(rows, id) =~= rows);
    }
}

/// Rewriting an identifier that occurs nowhere keeps the rows as they are.
pub proof fn lemma_upd_rows_absent(rows: Seq<UserView>, id: i32, name: Seq<u8>, email: Seq<u8>)
    requires
        !has_id(rows, id),
    ensures
        upd_rows(rows, id, name, email) == rows,
{
    assert forall|k: int| 0 <= k < rows.len() implies upd_rows(rows, id, name, email)[k] == rows[k] by {
        assert(rows[k].id != Some(id));
    }
    assert(upd_rows(rows, id, name, email) =~= rows);
}

/// After a rewrite, the identifier selects rows carrying exactly the new
/// values, as many as it selected before.
pub proof fn lemma_sel_upd(rows: Seq<UserView>, id: i32, name: Seq<u8>, email: Seq<u8>)
    ensures
        sel_rows(upd_rows(rows, id, name, email), id).len() == sel_rows(rows, id).len(),
        forall|k: int|
            0 <= k < sel_rows(upd_rows(rows, id, name, email), id).len()
                ==> #[trigger] sel_rows(upd_rows(rows, id, name, email), id)[k] == (UserView {
                id: Some(id),
                name,
                email,
            }),
    decreases rows.len(),
{
    let upd = upd_rows(rows, id, name, email);
    assert(upd.len() == rows.len());
    if rows.len() == 0 {
        assert(upd =~= Seq::<UserView>::empty());
    } else {
        let front = rows.drop_last();
        let x = rows.last();
        lemma_sel_upd(front, id, name, email);
        assert(upd.drop_last() =~= upd_rows(front, id, name, email));
        assert(upd.last() == (if x.id == Some(id) {
            UserView { id: x.id, name, email }
        } else {
            x
        }));
    }
}

// ---------------------------------------------------------------------------
// laws of the five operations
// ---------------------------------------------------------------------------

/// A created record, fetched under the identifier the store assigned it,
/// comes back as a success whose body is the record serialized with the
/// submitted name and email and the assigned identifier.
pub proof fn lemma_create_then_fetch_one(st: StoreV, name: Seq<u8>, email: Seq<u8>)
    requires
        store_wf(st),
        st.next_id < 0x7fff_ffff,
    ensures
        ({
            let st1 = spec_apply(st, ActionV::Insert { name, email }).0;
            let fetch = ActionV::SelectOne { id: st.next_id };
            spec_respond(fetch, spec_apply(st1, fetch).1) == (ResponseV {
                status: StatusLine::Success,
                body: spec_serialize_user(UserView { id: Some(st.next_id), name, email }),
            })
        }),
{
    let new_row = UserView { id: Some(st.next_id), name, email };
    let st1 = spec_apply(st, ActionV::Insert { name, email }).0;
    assert(st1.rows == st.rows.push(new_row));
    if has_id(st.rows, st.next_id) {
        let k = choose|k: int| 0 <= k < st.rows.len() && st.rows[k].id == Some(st.next_id);
        assert(id_val(st.rows[k]) == st.next_id as int);
        assert(false);
    }
    lemma_sel_rows_absent(st.rows, st.next_id);
    assert(st1.rows.drop_last() =~= st.rows);
    assert(st1.rows.last() == new_row);
    let sel = sel_rows(st1.rows, st.next_id);
    assert(sel == sel_rows(st.rows, st.next_id).push(new_row));
    assert(sel.len() == 1);
    assert(sel[0] == new_row);
}

/// The store applied to a sequence of creates, in order.
pub open spec fn apply_creates(st: StoreV, items: Seq<(Seq<u8>, Seq<u8>)>) -> StoreV
    decreases items.len(),
{
    if items.len() == 0 {
        st
    } else {
        apply_creates(
            spec_apply(st, ActionV::Insert { name: items[0].0, email: items[0].1 }).0,
            items.subrange(1, items.len() as int),
        )
    }
}

/// While identifiers last, every create succeeds, and fetch-all afterwards
/// returns exactly one row per create on top of what was there.
pub proof fn lemma_fetch_all_after_creates(st: StoreV, items: Seq<(Seq<u8>, Seq<u8>)>)
    requires
        store_wf(st),
        st.next_id + items.len() <= 0x7fff_ffff,
    ensures
        ({
            let st2 = apply_creates(st, items);
            &&& store_wf(st2)
            &&& st2.rows.len() == st.rows.len() + items.len()
            &&& spec_apply(st2, ActionV::SelectAll).1 == OutcomeV::Rows(st2.rows)
        }),
    decreases items.len(),
{
    if items.len() > 0 {
        let a = ActionV::Insert { name: items[0].0, email: items[0].1 };
        let st1 = spec_apply(st, a).0;
        lemma_apply_wf(st, a);
        assert(st1.rows.len() == st.rows.len() + 1);
        lemma_fetch_all_after_creates(st1, items.subrange(1, items.len() as int));
    }
}

/// Fetching an identifier that no row carries answers not-found.
pub proof fn lemma_fetch_one_missing(st: StoreV, id: i32)
    requires
        !has_id(st.rows, id),
    ensures
        spec_respond(
            ActionV::SelectOne { id },
            spec_apply(st, ActionV::SelectOne { id }).1,
        ) == not_found_response(),
{
    lemma_sel_rows_absent(st.rows, id);
}

/// A fetch-one whose identifier segment is present but not an integer is
/// answered with the internal-error reply, before any store work.
pub proof fn lemma_fetch_one_bad_id(req: Seq<u8>)
    requires
        starts_with(req, lit_get_prefix()),
        spec_id_of(req).len() > 0,
        spec_route_id(req) is None,
    ensures
        spec_route(req) == internal_reply(),
{
    assert(req.subrange(0, lit_get_prefix().len() as int)[0] == req[0]);
    assert(req[0] == 71);
    if starts_with(req, crate::router::lit_options()) {
        assert(req.subrange(0, crate::router::lit_options().len() as int)[0] == req[0]);
        assert(false);
    }
    if starts_with(req, crate::router::lit_post_prefix()) {
        assert(req.subrange(0, crate::router::lit_post_prefix().len() as int)[0] == req[0]);
        assert(false);
    }
}

/// Updating an identifier that no row carries mutates nothing and answers
/// not-found.
pub proof fn lemma_update_missing(st: StoreV, id: i32, name: Seq<u8>, email: Seq<u8>)
    requires
        !has_id(st.rows, id),
    ensures
        spec_apply(st, ActionV::Update { id, name, email }).0 == st,
        spec_respond(
            ActionV::Update { id, name, email },
            spec_apply(st, ActionV::Update { id, name, email }).1,
        ) == not_found_response(),
{
    lemma_upd_rows_absent(st.rows, id, name, email);
    lemma_sel_rows_absent(st.rows, id);
    assert(spec_apply(st, ActionV::Update { id, name, email }).0 =~= st);
}

/// Updating an identifier some row carries changes what fetch-one returns
/// afterwards: a success carrying exactly the new values under that
/// identifier.
pub proof fn lemma_update_then_fetch_one(st: StoreV, id: i32, name: Seq<u8>, email: Seq<u8>)
    requires
        store_wf(st),
        has_id(st.rows, id),
    ensures
        ({
            let st1 = spec_apply(st, ActionV::Update { id, name, email }).0;
            let fetch = ActionV::SelectOne { id };
            spec_respond(fetch, spec_apply(st1, fetch).1) == (ResponseV {
                status: StatusLine::Success,
                body: spec_serialize_user(UserView { id: Some(id), name, email }),
            })
        }),
{
    let st1 = spec_apply(st, ActionV::Update { id, name, email }).0;
    lemma_sel_upd(st.rows, id, name, email);
    lemma_sel_rows_present(st.rows, id);
    lemma_sel_rows_unique(st.rows, st.next_id, id);
    let sel = sel_rows(st1.rows, id);
    assert(sel.len() == 1);
    assert(sel[0] == (UserView { id: Some(id), name, email }));
}

/// Deleting an identifier some row carries confirms the delete, and no later
/// fetch sees the identifier again: fetch-all returns rows without it, and
/// fetch-one on it answers not-found.
pub proof fn lemma_delete_then_fetch(st: StoreV, id: i32)
    requires
        store_wf(st),
        has_id(st.rows, id),
    ensures
        ({
            let st1 = spec_apply(st, ActionV::Delete { id }).0;
            &&& spec_respond(
                ActionV::Delete { id },
                spec_apply(st, ActionV::Delete { id }).1,
            ) == (ResponseV { status: StatusLine::Success, body: body_user_deleted() })
            &&& spec_apply(st1, ActionV::SelectAll).1 == OutcomeV::Rows(st1.rows)
            &&& !has_id(st1.rows, id)
            &&& spec_respond(
                ActionV::SelectOne { id },
                spec_apply(st1, ActionV::SelectOne { id }).1,
            ) == not_found_response()
        }),
{
    lemma_sel_rows_present(st.rows, id);
    lemma_sel_rows_unique(st.rows, st.next_id, id);
    assert(sel_rows(st.rows, id).len() == 1);
    lemma_del_rows_sel(st.rows, id, id);
    let st1 = spec_apply(st, ActionV::Delete { id }).0;
    if has_id(st1.rows, id) {
        lemma_sel_rows_present(st1.rows, id);
        assert(false);
    }
}

/// Deleting an identifier that no row carries mutates nothing and answers
/// not-found.
pub proof fn lemma_delete_missing(st: StoreV, id: i32)
    requires
        !has_id(st.rows, id),
    ensures
        spec_apply(st, ActionV::Delete { id }).0 == st,
        spec_respond(
            ActionV::Delete { id },
            spec_apply(st, ActionV::Delete { id }).1,
        ) == not_found_response(),
{
    lemma_del_rows_absent(st.rows, id);
    lemma_sel_rows_absent(st.rows, id);
    assert(spec_apply(st, ActionV::Delete { id }).0 =~= st);
}

} // verus!
