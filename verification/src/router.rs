//! The router and the handler outcome logic.
//!
//! `route_request` turns the raw bytes of one request into a `StoreAction`:
//! either an immediate response (preflight, unroutable request, bad body or
//! bad identifier) or the one store operation the request asks for.
//! `respond` turns the store's outcome for that operation into the response,
//! and `render_response` lays the response out as the bytes to write back.

use vstd::prelude::*;
use crate::user::{User, UserView, copy_bytes, views_of};
use crate::codec::{
    spec_parse_user, spec_parse_seg_i32, spec_serialize_user, spec_serialize_users, parse_seg_i32,
    serialize_user, serialize_users,
};
use crate::request::{spec_body_of, spec_id_of, get_user_request_body, get_id};

verus! {

// ---------------------------------------------------------------------------
// literals
// ---------------------------------------------------------------------------

/// The bytes of the method prefix `OPTIONS`.
pub open spec fn lit_options() -> Seq<u8> {
    seq![79u8, 80, 84, 73, 79, 78, 83]
}

fn lit_options_bytes() -> (r: Vec<u8>)
    ensures
        r@ == lit_options(),
{
    let mut v: Vec<u8> = Vec::new();
    v.push(79);
    v.push(80);
    v.push(84);
    v.push(73);
    v.push(79);
    v.push(78);
    v.push(83);
    proof {
        assert(v@ =~= lit_options());
    }
    v
}

/// The bytes of the create route prefix, `POST /api/rust/users`.
pub open spec fn lit_post_prefix() -> Seq<u8> {
    seq![80u8, 79, 83, 84, 32, 47, 97, 112, 105, 47, 114, 117, 115, 116, 47, 117, 115, 101, 114, 115]
}

fn lit_post_prefix_bytes() -> (r: Vec<u8>)
    ensures
        r@ == lit_post_prefix(),
{
    let mut v: Vec<u8> = Vec::new();
    v.push(80);
    v.push(79);
    v.push(83);
    v.push(84);
    v.push(32);
    v.push(47);
    v.push(97);
    v.push(112);
    v.push(105);
    v.push(47);
    v.push(114);
    v.push(117);
    v.push(115);
    v.push(116);
    v.push(47);
    v.push(117);
    v.push(115);
    v.push(101);
    v.push(114);
    v.push(115);
    proof {
        assert(v@ =~= lit_post_prefix());
    }
    v
}

/// The bytes of the route prefix `GET /api/rust/users`, shared by fetch-one
/// and fetch-all.
pub open spec fn lit_get_prefix() -> Seq<u8> {
    seq![71u8, 69, 84, 32, 47, 97, 112, 105, 47, 114, 117, 115, 116, 47, 117, 115, 101, 114, 115]
}

fn lit_get_prefix_bytes() -> (r: Vec<u8>)
    ensures
        r@ == lit_get_prefix(),
{
    let mut v: Vec<u8> = Vec::new();
    v.push(71);
    v.push(69);
    v.push(84);
    v.push(32);
    v.push(47);
    v.push(97);
    v.push(112);
    v.push(105);
    v.push(47);
    v.push(114);
    v.push(117);
    v.push(115);
    v.push(116);
    v.push(47);
    v.push(117);
    v.push(115);
    v.push(101);
    v.push(114);
    v.push(115);
    proof {
        assert(v@ =~= lit_get_prefix());
    }
    v
}

/// The bytes of the update route prefix, `PUT /api/rust/users`.
pub open spec fn lit_put_prefix() -> Seq<u8> {
    seq![80u8, 85, 84, 32, 47, 97, 112, 105, 47, 114, 117, 115, 116, 47, 117, 115, 101, 114, 115]
}

fn lit_put_prefix_bytes() -> (r: Vec<u8>)
    ensures
        r@ == lit_put_prefix(),
{
    let mut v: Vec<u8> = Vec::new();
    v.push(80);
    v.push(85);
    v.push(84);
    v.push(32);
    v.push(47);
    v.push(97);
    v.push(112);
    v.push(105);
    v.push(47);
    v.push(114);
    v.push(117);
    v.push(115);
    v.push(116);
    v.push(47);
    v.push(117);
    v.push(115);
    v.push(101);
    v.push(114);
    v.push(115);
    proof {
        assert(v@ =~= lit_put_prefix());
    }
    v
}

/// The bytes of the delete route prefix, `DELETE /api/rust/users`.
pub open spec fn lit_delete_prefix() -> Seq<u8> {
    seq![68u8, 69, 76, 69, 84, 69, 32, 47, 97, 112, 105, 47, 114, 117, 115, 116, 47, 117, 115, 101, 114, 115]
}

fn lit_delete_prefix_bytes() -> (r: Vec<u8>)
    ensures
        r@ == lit_delete_prefix(),
{
    let mut v: Vec<u8> = Vec::new();
    v.push(68);
    v.push(69);
    v.push(76);
    v.push(69);
    v.push(84);
    v.push(69);
    v.push(32);
    v.push(47);
    v.push(97);
    v.push(112);
    v.push(105);
    v.push(47);
    v.push(114);
    v.push(117);
    v.push(115);
    v.push(116);
    v.push(47);
    v.push(117);
    v.push(115);
    v.push(101);
    v.push(114);
    v.push(115);
    proof {
        assert(v@ =~= lit_delete_prefix());
    }
    v
}

/// The confirmation text of create, `User created`.
pub open spec fn body_user_created() -> Seq<u8> {
    seq![85u8, 115, 101, 114, 32, 99, 114, 101, 97, 116, 101, 100]
}

fn body_user_created_bytes() -> (r: Vec<u8>)
    ensures
        r@ == body_user_created(),
{
    let mut v: Vec<u8> = Vec::new();
    v.push(85);
    v.push(115);
    v.push(101);
    v.push(114);
    v.push(32);
    v.push(99);
    v.push(114);
    v.push(101);
    v.push(97);
    v.push(116);
    v.push(101);
    v.push(100);
    proof {
        assert(v@ =~= body_user_created());
    }
    v
}

/// The confirmation text of update, `User updated`.
pub open spec fn body_user_updated() -> Seq<u8> {
    seq![85u8, 115, 101, 114, 32, 117, 112, 100, 97, 116, 101, 100]
}

fn body_user_updated_bytes() -> (r: Vec<u8>)
    ensures
        r@ == body_user_updated(),
{
    let mut v: Vec<u8> = Vec::new();
    v.push(85);
    v.push(115);
    v.push(101);
    v.push(114);
    v.push(32);
    v.push(117);
    v.push(112);
    v.push(100);
    v.push(97);
    v.push(116);
    v.push(101);
    v.push(100);
    proof {
        assert(v@ =~= body_user_updated());
    }
    v
}

/// The confirmation text of delete, `User deleted`.
pub open spec fn body_user_deleted() -> Seq<u8> {
    seq![85u8, 115, 101, 114, 32, 100, 101, 108, 101, 116, 101, 100]
}

fn body_user_deleted_bytes() -> (r: Vec<u8>)
    ensures
        r@ == body_user_deleted(),
{
    let mut v: Vec<u8> = Vec::new();
    v.push(85);
    v.push(115);
    v.push(101);
    v.push(114);
    v.push(32);
    v.push(100);
    v.push(101);
    v.push(108);
    v.push(101);
    v.push(116);
    v.push(101);
    v.push(100);
    proof {
        assert(v@ =~= body_user_deleted());
    }
    v
}

/// The diagnostic body of the not-found response, `404 not found`.
pub open spec fn body_not_found() -> Seq<u8> {
    seq![52u8, 48, 52, 32, 110, 111, 116, 32, 102, 111, 117, 110, 100]
}

fn body_not_found_bytes() -> (r: Vec<u8>)
    ensures
        r@ == body_not_found(),
{
    let mut v: Vec<u8> = Vec::new();
    v.push(52);
    v.push(48);
    v.push(52);
    v.push(32);
    v.push(110);
    v.push(111);
    v.push(116);
    v.push(32);
    v.push(102);
    v.push(111);
    v.push(117);
    v.push(110);
    v.push(100);
    proof {
        assert(v@ =~= body_not_found());
    }
    v
}

/// The diagnostic body of the internal-error response, `Error`.
pub open spec fn body_error() -> Seq<u8> {
    seq![69u8, 114, 114, 111, 114]
}

fn body_error_bytes() -> (r: Vec<u8>)
    ensures
        r@ == body_error(),
{
    let mut v: Vec<u8> = Vec::new();
    v.push(69);
    v.push(114);
    v.push(114);
    v.push(111);
    v.push(114);
    proof {
        assert(v@ =~= body_error());
    }
    v
}

/// The success status line, declaring a JSON body.
pub open spec fn status_success() -> Seq<u8> {
    seq![72u8, 84, 84, 80, 47, 49, 46, 49, 32, 50, 48, 48, 32, 79, 75, 13, 10, 67, 111, 110, 116, 101, 110, 116, 45, 84, 121, 112, 101, 58, 32, 97, 112, 112, 108, 105, 99, 97, 116, 105, 111, 110, 47, 106, 115, 111, 110, 13, 10, 13, 10]
}

fn status_success_bytes() -> (r: Vec<u8>)
    ensures
        r@ == status_success(),
{
    let mut v: Vec<u8> = Vec::new();
    v.push(72);
    v.push(84);
    v.push(84);
    v.push(80);
    v.push(47);
    v.push(49);
    v.push(46);
    v.push(49);
    v.push(32);
    v.push(50);
    v.push(48);
    v.push(48);
    v.push(32);
    v.push(79);
    v.push(75);
    v.push(13);
    v.push(10);
    v.push(67);
    v.push(111);
    v.push(110);
    v.push(116);
    v.push(101);
    v.push(110);
    v.push(116);
    v.push(45);
    v.push(84);
    v.push(121);
    v.push(112);
    v.push(101);
    v.push(58);
    v.push(32);
    v.push(97);
    v.push(112);
    v.push(112);
    v.push(108);
    v.push(105);
    v.push(99);
    v.push(97);
    v.push(116);
    v.push(105);
    v.push(111);
    v.push(110);
    v.push(47);
    v.push(106);
    v.push(115);
    v.push(111);
    v.push(110);
    v.push(13);
    v.push(10);
    v.push(13);
    v.push(10);
    proof {
        assert(v@ =~= status_success());
    }
    v
}

/// The not-found status line.
pub open spec fn status_not_found() -> Seq<u8> {
    seq![72u8, 84, 84, 80, 47, 49, 46, 49, 32, 52, 48, 52, 32, 78, 79, 84, 32, 70, 79, 85, 78, 68, 13, 10, 13, 10]
}

fn status_not_found_bytes() -> (r: Vec<u8>)
    ensures
        r@ == status_not_found(),
{
    let mut v: Vec<u8> = Vec::new();
    v.push(72);
    v.push(84);
    v.push(84);
    v.push(80);
    v.push(47);
    v.push(49);
    v.push(46);
    v.push(49);
    v.push(32);
    v.push(52);
    v.push(48);
    v.push(52);
    v.push(32);
    v.push(78);
    v.push(79);
    v.push(84);
    v.push(32);
    v.push(70);
    v.push(79);
    v.push(85);
    v.push(78);
    v.push(68);
    v.push(13);
    v.push(10);
    v.push(13);
    v.push(10);
    proof {
        assert(v@ =~= status_not_found());
    }
    v
}

/// The internal-error status line.
pub open spec fn status_internal() -> Seq<u8> {
    seq![72u8, 84, 84, 80, 47, 49, 46, 49, 32, 53, 48, 48, 32, 73, 78, 84, 69, 82, 78, 65, 76, 32, 69, 82, 82, 79, 82, 13, 10, 13, 10]
}

fn status_internal_bytes() -> (r: Vec<u8>)
    ensures
        r@ == status_internal(),
{
    let mut v: Vec<u8> = Vec::new();
    v.push(72);
    v.push(84);
    v.push(84);
    v.push(80);
    v.push(47);
    v.push(49);
    v.push(46);
    v.push(49);
    v.push(32);
    v.push(53);
    v.push(48);
    v.push(48);
    v.push(32);
    v.push(73);
    v.push(78);
    v.push(84);
    v.push(69);
    v.push(82);
    v.push(78);
    v.push(65);
    v.push(76);
    v.push(32);
    v.push(69);
    v.push(82);
    v.push(82);
    v.push(79);
    v.push(82);
    v.push(13);
    v.push(10);
    v.push(13);
    v.push(10);
    proof {
        assert(v@ =~= status_internal());
    }
    v
}

// ---------------------------------------------------------------------------
// responses
// ---------------------------------------------------------------------------

/// The three status lines a handler can answer with.
#[derive(Clone, Copy, PartialEq, Eq, Debug, Structural)]
pub enum StatusLine {
    Success,
    NotFound,
    Internal,
}

/// One response: a status line and a body.
pub struct Response {
    pub status: StatusLine,
    pub body: Vec<u8>,
}

/// Mathematical view of a `Response`.
pub ghost struct ResponseV {
    pub status: StatusLine,
    pub body: Seq<u8>,
}

impl View for Response {
    type V = ResponseV;

    open spec fn view(&self) -> ResponseV {
        ResponseV { status: self.status, body: self.body@ }
    }
}

/// The bytes of a status line.
pub open spec fn status_bytes(st: StatusLine) -> Seq<u8> {
    match st {
        StatusLine::Success => status_success(),
        StatusLine::NotFound => status_not_found(),
        StatusLine::Internal => status_internal(),
    }
}

/// The bytes written back for a response: its status line, then its body.
pub open spec fn spec_render(r: ResponseV) -> Seq<u8> {
    status_bytes(r.status) + r.body
}

/// Lays a response out as the bytes to write back.
pub fn render_response(resp: &Response) -> (r: Vec<u8>)
    ensures
        r@ == spec_render(resp@),
{
    let mut v: Vec<u8> = match resp.status {
        StatusLine::Success => status_success_bytes(),
        StatusLine::NotFound => status_not_found_bytes(),
        StatusLine::Internal => status_internal_bytes(),
    };
    let mut i: usize = 0;
    while i < resp.body.len()
        invariant
            i <= resp.body.len(),
            v@ == status_bytes(resp.status) + resp.body@.subrange(0, i as int),
        decreases resp.body.len() - i,
    {
        v.push(resp.body[i]);
        proof {
            assert(resp.body@.subrange(0, i + 1 as int) =~= resp.body@.subrange(
                0,
                i as int,
            ).push(resp.body@[i as int]));
            assert(v@ =~= status_bytes(resp.status) + resp.body@.subrange(0, i + 1 as int));
        }
        i = i + 1;
    }
    proof {
        assert(resp.body@.subrange(0, resp.body@.len() as int) =~= resp.body@);
    }
    v
}

// ---------------------------------------------------------------------------
// store actions and outcomes
// ---------------------------------------------------------------------------

/// What one request asks of the store, or the response it gets at once.
pub enum StoreAction {
    /// No store work: answer immediately.
    Reply(Response),
    /// Insert a row with these values; the store assigns the identifier.
    Insert { name: Vec<u8>, email: Vec<u8> },
    /// Query the one row with this identifier.
    SelectOne { id: i32 },
    /// Query every row.
    SelectAll,
    /// Rewrite the row with this identifier.
    Update { id: i32, name: Vec<u8>, email: Vec<u8> },
    /// Remove the row with this identifier.
    Delete { id: i32 },
}

/// Mathematical view of a `StoreAction`.
pub ghost enum ActionV {
    Reply(ResponseV),
    Insert { name: Seq<u8>, email: Seq<u8> },
    SelectOne { id: i32 },
    SelectAll,
    Update { id: i32, name: Seq<u8>, email: Seq<u8> },
    Delete { id: i32 },
}

impl View for StoreAction {
    type V = ActionV;

    open spec fn view(&self) -> ActionV {
        match self {
            StoreAction::Reply(r) => ActionV::Reply(r@),
            StoreAction::Insert { name, email } => ActionV::Insert {
                name: name@,
                email: email@,
            },
            StoreAction::SelectOne { id } => ActionV::SelectOne { id: *id },
            StoreAction::SelectAll => ActionV::SelectAll,
            StoreAction::Update { id, name, email } => ActionV::Update {
                id: *id,
                name: name@,
                email: email@,
            },
            StoreAction::Delete { id } => ActionV::Delete { id: *id },
        }
    }
}

/// What came back from the store for one operation.
pub enum StoreOutcome {
    /// The rows a query returned.
    Rows(Vec<User>),
    /// How many rows a statement touched.
    Affected(u64),
    /// The connection or the call failed.
    Failure,
}

/// Mathematical view of a `StoreOutcome`.
pub ghost enum OutcomeV {
    Rows(Seq<UserView>),
    Affected(u64),
    Failure,
}

impl View for StoreOutcome {
    type V = OutcomeV;

    open spec fn view(&self) -> OutcomeV {
        match self {
            StoreOutcome::Rows(rs) => OutcomeV::Rows(views_of(rs@)),
            StoreOutcome::Affected(n) => OutcomeV::Affected(*n),
            StoreOutcome::Failure => OutcomeV::Failure,
        }
    }
}

// ---------------------------------------------------------------------------
// routing
// ---------------------------------------------------------------------------

/// `p` is a prefix of `s`.
pub open spec fn starts_with(s: Seq<u8>, p: Seq<u8>) -> bool {
    p.len() <= s.len() && s.subrange(0, p.len() as int) == p
}

/// The immediate internal-error reply.
pub open spec fn internal_reply() -> ActionV {
    ActionV::Reply(ResponseV { status: StatusLine::Internal, body: body_error() })
}

/// The identifier a fetch-one, update or delete names: the whole path
/// segment parsed as a signed integer (an optional plus or minus sign, then
/// digits).
pub open spec fn spec_route_id(req: Seq<u8>) -> Option<i32> {
    spec_parse_seg_i32(spec_id_of(req))
}

/// The routing decision: which of the five operations a request asks for, or
/// the immediate response it gets. Methods are told apart by their route
/// prefix; fetch-one and fetch-all by the presence of an identifier segment;
/// a body that does not hold a record, or an identifier segment that is not
/// an integer, is answered with internal-error; an unroutable request with
/// not-found.
pub open spec fn spec_route(req: Seq<u8>) -> ActionV {
    if starts_with(req, lit_options()) {
        ActionV::Reply(ResponseV { status: StatusLine::Success, body: Seq::empty() })
    } else if starts_with(req, lit_post_prefix()) {
        match spec_parse_user(spec_body_of(req)) {
            Some(u) => ActionV::Insert { name: u.name, email: u.email },
            None => internal_reply(),
        }
    } else if starts_with(req, lit_get_prefix()) {
        if spec_id_of(req).len() == 0 {
            ActionV::SelectAll
        } else {
            match spec_route_id(req) {
                Some(id) => ActionV::SelectOne { id },
                None => internal_reply(),
            }
        }
    } else if starts_with(req, lit_put_prefix()) {
        match (spec_route_id(req), spec_parse_user(spec_body_of(req))) {
            (Some(id), Some(u)) => ActionV::Update { id, name: u.name, email: u.email },
            _ => internal_reply(),
        }
    } else if starts_with(req, lit_delete_prefix()) {
        match spec_route_id(req) {
            Some(id) => ActionV::Delete { id },
            None => internal_reply(),
        }
    } else {
        ActionV::Reply(ResponseV { status: StatusLine::NotFound, body: body_not_found() })
    }
}

fn prefix_eq(s: &[u8], p: &Vec<u8>) -> (r: bool)
    ensures
        r == starts_with(s@, p@),
{
    if p.len() > s.len() {
        return false;
    }
    let mut i: usize = 0;
    while i < p.len()
        invariant
            i <= p.len() <= s@.len(),
            forall|m: int| 0 <= m < i ==> s@[m] == p@[m],
        decreases p.len() - i,
    {
        if s[i] != p[i] {
            proof {
                assert(s@.subrange(0, p@.len() as int)[i as int] == s@[i as int]);
            }
            return false;
        }
        i = i + 1;
    }
    proof {
        assert(s@.subrange(0, p@.len() as int) =~= p@);
    }
    true
}

fn internal_reply_x() -> (a: StoreAction)
    ensures
        a@ == internal_reply(),
{
    StoreAction::Reply(Response { status: StatusLine::Internal, body: body_error_bytes() })
}

fn route_id_x(req: &[u8]) -> (r: Option<i32>)
    ensures
        r == spec_route_id(req@),
{
    let idb = get_id(req);
    parse_seg_i32(idb.as_slice())
}

/// Routes one request, per `spec_route`.
pub fn route_request(req: &[u8]) -> (a: StoreAction)
    ensures
        a@ == spec_route(req@),
{
    let p_options = lit_options_bytes();
    if prefix_eq(req, &p_options) {
        let body: Vec<u8> = Vec::new();
        proof {
            assert(body@ =~= Seq::<u8>::empty());
        }
        return StoreAction::Reply(Response { status: StatusLine::Success, body });
    }
    let p_post = lit_post_prefix_bytes();
    if prefix_eq(req, &p_post) {
        return match get_user_request_body(req) {
            Some(u) => StoreAction::Insert { name: u.name, email: u.email },
            None => internal_reply_x(),
        };
    }
    let p_get = lit_get_prefix_bytes();
    if prefix_eq(req, &p_get) {
        let idb = get_id(req);
        if idb.len() == 0 {
            return StoreAction::SelectAll;
        }
        return match route_id_x(req) {
            Some(id) => StoreAction::SelectOne { id },
            None => internal_reply_x(),
        };
    }
    let p_put = lit_put_prefix_bytes();
    if prefix_eq(req, &p_put) {
        return match (route_id_x(req), get_user_request_body(req)) {
            (Some(id), Some(u)) => StoreAction::Update { id, name: u.name, email: u.email },
            _ => internal_reply_x(),
        };
    }
    let p_delete = lit_delete_prefix_bytes();
    if prefix_eq(req, &p_delete) {
        return match route_id_x(req) {
            Some(id) => StoreAction::Delete { id },
            None => internal_reply_x(),
        };
    }
    StoreAction::Reply(Response { status: StatusLine::NotFound, body: body_not_found_bytes() })
}

// ---------------------------------------------------------------------------
// handler outcomes
// ---------------------------------------------------------------------------

/// The not-found response of a missed row.
pub open spec fn not_found_response() -> ResponseV {
    ResponseV { status: StatusLine::NotFound, body: body_not_found() }
}

/// The internal-error response.
pub open spec fn internal_response() -> ResponseV {
    ResponseV { status: StatusLine::Internal, body: body_error() }
}

/// The response a handler gives for the store's outcome of its action.
/// Create confirms any completed insert; fetch-one answers the row when one
/// came back and not-found when none did; fetch-all answers the rows as an
/// array; update and delete confirm when a row was touched and answer
/// not-found when none was. A failed store call, and an outcome of the wrong
/// shape for the action, is an internal error.
pub open spec fn spec_respond(a: ActionV, o: OutcomeV) -> ResponseV {
    match a {
        ActionV::Reply(r) => r,
        ActionV::Insert { .. } => match o {
            OutcomeV::Affected(_) => ResponseV {
                status: StatusLine::Success,
                body: body_user_created(),
            },
            _ => internal_response(),
        },
        ActionV::SelectOne { .. } => match o {
            OutcomeV::Rows(rs) => if rs.len() >= 1 {
                ResponseV { status: StatusLine::Success, body: spec_serialize_user(rs[0]) }
            } else {
                not_found_response()
            },
            _ => internal_response(),
        },
        ActionV::SelectAll => match o {
            OutcomeV::Rows(rs) => ResponseV {
                status: StatusLine::Success,
                body: spec_serialize_users(rs),
            },
            _ => internal_response(),
        },
        ActionV::Update { .. } => match o {
            OutcomeV::Affected(n) => if n == 0 {
                not_found_response()
            } else {
                ResponseV { status: StatusLine::Success, body: body_user_updated() }
            },
            _ => internal_response(),
        },
        ActionV::Delete { .. } => match o {
            OutcomeV::Affected(n) => if n == 0 {
                not_found_response()
            } else {
                ResponseV { status: StatusLine::Success, body: body_user_deleted() }
            },
            _ => internal_response(),
        },
    }
}

fn internal_response_x() -> (r: Response)
    ensures
        r@ == internal_response(),
{
    Response { status: StatusLine::Internal, body: body_error_bytes() }
}

fn not_found_response_x() -> (r: Response)
    ensures
        r@ == not_found_response(),
{
    Response { status: StatusLine::NotFound, body: body_not_found_bytes() }
}

/// Builds the response for a store outcome, per `spec_respond`.
pub fn respond(a: &StoreAction, o: &StoreOutcome) -> (r: Response)
    ensures
        r@ == spec_respond(a@, o@),
{
    match a {
        StoreAction::Reply(resp) => Response {
            status: resp.status,
            body: copy_bytes(&resp.body),
        },
        StoreAction::Insert { .. } => match o {
            StoreOutcome::Affected(_) => Response {
                status: StatusLine::Success,
                body: body_user_created_bytes(),
            },
            _ => internal_response_x(),
        },
        StoreAction::SelectOne { .. } => match o {
            StoreOutcome::Rows(rs) => {
                if rs.len() >= 1 {
                    let body = serialize_user(&rs[0]);
                    proof {
                        assert(views_of(rs@)[0] == rs@[0]@);
                    }
                    Response { status: StatusLine::Success, body }
                } else {
                    not_found_response_x()
                }
            },
            _ => internal_response_x(),
        },
        StoreAction::SelectAll => match o {
            StoreOutcome::Rows(rs) => Response {
                status: StatusLine::Success,
                body: serialize_users(rs),
            },
            _ => internal_response_x(),
        },
        StoreAction::Update { .. } => match o {
            StoreOutcome::Affected(n) => {
                if *n == 0 {
                    not_found_response_x()
                } else {
                    Response { status: StatusLine::Success, body: body_user_updated_bytes() }
                }
            },
            _ => internal_response_x(),
        },
        StoreAction::Delete { .. } => match o {
            StoreOutcome::Affected(n) => {
                if *n == 0 {
                    not_found_response_x()
                } else {
                    Response { status: StatusLine::Success, body: body_user_deleted_bytes() }
                }
            },
            _ => internal_response_x(),
        },
    }
}

} // verus!
