//! The request parser: pulls the body and the record-identifier path segment
//! out of the raw bytes read from one connection.
//!
//! The body is everything after the first blank-line separator (CRLF CRLF),
//! or empty when no separator occurs. The identifier is the path segment
//! after `/api/<impl>/users/` on the request line: the text after the fourth
//! slash that follows the method, cut at the next slash, whitespace byte or
//! line end.

use vstd::prelude::*;
use crate::user::User;
use crate::codec::{spec_parse_user, parse_user};

verus! {

// ---------------------------------------------------------------------------
// body extraction
// ---------------------------------------------------------------------------

/// A blank-line separator (CRLF CRLF) stands at `i`.
pub open spec fn is_blank_sep(s: Seq<u8>, i: int) -> bool {
    0 <= i && i + 4 <= s.len() && s[i] == 13 && s[i + 1] == 10 && s[i + 2] == 13 && s[i + 3] == 10
}

/// Position of the first blank-line separator at or after `i`.
pub open spec fn sep_pos(s: Seq<u8>, i: int) -> Option<int>
    decreases s.len() - i,
{
    if !(0 <= i && i + 4 <= s.len()) {
        None
    } else if is_blank_sep(s, i) {
        Some(i)
    } else {
        sep_pos(s, i + 1)
    }
}

/// The request body: everything after the first blank-line separator, or
/// empty when there is none.
pub open spec fn spec_body_of(s: Seq<u8>) -> Seq<u8> {
    match sep_pos(s, 0) {
        Some(i) => s.subrange(i + 4, s.len() as int),
        None => Seq::empty(),
    }
}

fn find_sep(s: &[u8], i: usize) -> (r: Option<usize>)
    requires
        i <= s@.len(),
    ensures
        ({
            let sr = sep_pos(s@, i as int);
            match r {
                Some(p) => sr == Some(p as int) && i <= p && p + 4 <= s@.len(),
                None => sr is None,
            }
        }),
    decreases s@.len() - i,
{
    let l = s.len();
    if l < 4 || i > l - 4 {
        None
    } else if s[i] == 13 && s[i + 1] == 10 && s[i + 2] == 13 && s[i + 3] == 10 {
        Some(i)
    } else {
        find_sep(s, i + 1)
    }
}

/// Copies `s[from..to)` into a fresh vector.
fn copy_range(s: &[u8], from: usize, to: usize) -> (r: Vec<u8>)
    requires
        from <= to <= s@.len(),
    ensures
        r@ == s@.subrange(from as int, to as int),
{
    let mut v: Vec<u8> = Vec::new();
    let mut k: usize = from;
    while k < to
        invariant
            from <= k <= to <= s@.len(),
            v@ == s@.subrange(from as int, k as int),
        decreases to - k,
    {
        v.push(s[k]);
        proof {
            assert(s@.subrange(from as int, k + 1 as int) =~= s@.subrange(
                from as int,
                k as int,
            ).push(s@[k as int]));
        }
        k = k + 1;
    }
    v
}

/// Returns the request body.
pub fn extract_body(req: &[u8]) -> (b: Vec<u8>)
    ensures
        b@ == spec_body_of(req@),
{
    let l = req.len();
    match find_sep(req, 0) {
        Some(p) => {
            assert(p + 4 <= l);
            copy_range(req, p + 4, l)
        },
        None => {
            let v: Vec<u8> = Vec::new();
            proof {
                assert(v@ =~= spec_body_of(req@));
            }
            v
        },
    }
}

/// Deserializes the user record carried in the request body.
pub fn get_user_request_body(req: &[u8]) -> (r: Option<User>)
    ensures
        ({
            let sr = spec_parse_user(spec_body_of(req@));
            match r {
                Some(u) => sr == Some(u@),
                None => sr is None,
            }
        }),
{
    let body = extract_body(req);
    parse_user(body.as_slice())
}

// ---------------------------------------------------------------------------
// identifier extraction
// ---------------------------------------------------------------------------

/// Position of the first space on the request line at or after `i`; none if a
/// line end comes first.
pub open spec fn first_space(s: Seq<u8>, i: int) -> Option<int>
    decreases s.len() - i,
{
    if !(0 <= i && i < s.len()) {
        None
    } else if s[i] == 32 {
        Some(i)
    } else if s[i] == 13 || s[i] == 10 {
        None
    } else {
        first_space(s, i + 1)
    }
}

/// Position right after the next slash at or after `i`; none if a space or a
/// line end comes first.
pub open spec fn after_slash(s: Seq<u8>, i: int) -> Option<int>
    decreases s.len() - i,
{
    if !(0 <= i && i < s.len()) {
        None
    } else if s[i] == 47 {
        Some(i + 1)
    } else if s[i] == 32 || s[i] == 13 || s[i] == 10 {
        None
    } else {
        after_slash(s, i + 1)
    }
}

/// A byte that ends the identifier segment: a slash, or any ASCII whitespace
/// (space, tab, line feed, vertical tab, form feed, carriage return).
pub open spec fn is_seg_break(c: u8) -> bool {
    c == 47 || c == 32 || c == 9 || c == 10 || c == 11 || c == 12 || c == 13
}

/// End of the path segment starting at `i`: the next slash, whitespace byte
/// or the end of the text.
pub open spec fn seg_end(s: Seq<u8>, i: int) -> int
    decreases s.len() - i,
{
    if 0 <= i && i < s.len() && !is_seg_break(s[i]) {
        seg_end(s, i + 1)
    } else {
        i
    }
}

/// The identifier segment of the request: the path segment after the fourth
/// slash that follows the method, or empty when the path is shorter.
pub open spec fn spec_id_of(s: Seq<u8>) -> Seq<u8> {
    match first_space(s, 0) {
        None => Seq::empty(),
        Some(sp) => match after_slash(s, sp + 1) {
            None => Seq::empty(),
            Some(a1) => match after_slash(s, a1) {
                None => Seq::empty(),
                Some(a2) => match after_slash(s, a2) {
                    None => Seq::empty(),
                    Some(a3) => match after_slash(s, a3) {
                        None => Seq::empty(),
                        Some(a4) => s.subrange(a4, seg_end(s, a4)),
                    },
                },
            },
        },
    }
}

fn first_space_x(s: &[u8], i: usize) -> (r: Option<usize>)
    requires
        i <= s@.len(),
    ensures
        ({
            let sr = first_space(s@, i as int);
            match r {
                Some(p) => sr == Some(p as int) && i <= p < s@.len(),
                None => sr is None,
            }
        }),
    decreases s@.len() - i,
{
    if i >= s.len() {
        None
    } else if s[i] == 32 {
        Some(i)
    } else if s[i] == 13 || s[i] == 10 {
        None
    } else {
        first_space_x(s, i + 1)
    }
}

fn after_slash_x(s: &[u8], i: usize) -> (r: Option<usize>)
    requires
        i <= s@.len(),
    ensures
        ({
            let sr = after_slash(s@, i as int);
            match r {
                Some(p) => sr == Some(p as int) && i < p <= s@.len(),
                None => sr is None,
            }
        }),
    decreases s@.len() - i,
{
    if i >= s.len() {
        None
    } else if s[i] == 47 {
        Some(i + 1)
    } else if s[i] == 32 || s[i] == 13 || s[i] == 10 {
        None
    } else {
        after_slash_x(s, i + 1)
    }
}

fn seg_end_x(s: &[u8], i: usize) -> (r: usize)
    requires
        i <= s@.len(),
    ensures
        r as int == seg_end(s@, i as int),
        i <= r <= s@.len(),
    decreases s@.len() - i,
{
    if i < s.len() && !(s[i] == 47 || s[i] == 32 || s[i] == 9 || s[i] == 10 || s[i] == 11 || s[i]
        == 12 || s[i] == 13) {
        seg_end_x(s, i + 1)
    } else {
        i
    }
}

/// Returns the identifier segment of the request, empty when absent.
pub fn get_id(req: &[u8]) -> (r: Vec<u8>)
    ensures
        r@ == spec_id_of(req@),
{
    let none_case: Vec<u8> = Vec::new();
    proof {
        assert(none_case@ =~= Seq::<u8>::empty());
    }
    let l = req.len();
    match first_space_x(req, 0) {
        None => none_case,
        Some(sp) => {
            assert(sp < l);
            match after_slash_x(req, sp + 1) {
            None => none_case,
            Some(a1) => match after_slash_x(req, a1) {
                None => none_case,
                Some(a2) => match after_slash_x(req, a2) {
                    None => none_case,
                    Some(a3) => match after_slash_x(req, a3) {
                        None => none_case,
                        Some(a4) => {
                            let e = seg_end_x(req, a4);
                            copy_range(req, a4, e)
                        },
                    },
                },
            },
        }
        },
    }
}

} // verus!
