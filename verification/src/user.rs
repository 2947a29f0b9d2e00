use vstd::prelude::*;

verus! {

/// One user record. `id` is absent until the store assigns one; `name` and
/// `email` are opaque text held as bytes, with no format validation.
pub struct User {
    pub id: Option<i32>,
    pub name: Vec<u8>,
    pub email: Vec<u8>,
}

/// Mathematical view of a `User`.
#[verifier::ext_equal]
pub ghost struct UserView {
    pub id: Option<i32>,
    pub name: Seq<u8>,
    pub email: Seq<u8>,
}

impl View for User {
    type V = UserView;

    open spec fn view(&self) -> UserView {
        UserView { id: self.id, name: self.name@, email: self.email@ }
    }
}

/// The views of a sequence of records.
pub open spec fn views_of(s: Seq<User>) -> Seq<UserView> {
    Seq::new(s.len(), |i: int| s[i]@)
}

/// An identical copy of a byte string.
pub fn copy_bytes(s: &Vec<u8>) -> (r: Vec<u8>)
    ensures
        r@ == s@,
{
    let mut v: Vec<u8> = Vec::new();
    let mut i: usize = 0;
    while i < s.len()
        invariant
            i <= s.len(),
            v@ == s@.subrange(0, i as int),
        decreases s.len() - i,
    {
        v.push(s[i]);
        proof {
            assert(s@.subrange(0, i + 1 as int) =~= s@.subrange(0, i as int).push(s@[i as int]));
        }
        i = i + 1;
    }
    proof {
        assert(s@.subrange(0, s@.len() as int) =~= s@);
    }
    v
}

impl User {
    /// An identical copy of the record.
    pub fn clone_user(&self) -> (r: User)
        ensures
            r@ == self@,
    {
        User { id: self.id, name: copy_bytes(&self.name), email: copy_bytes(&self.email) }
    }
}

} // verus!
