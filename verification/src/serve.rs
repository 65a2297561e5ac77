//! Request-level forms and the salt lifecycle decision.
//!
//! The HTTP layer itself lives outside this crate; what stands here is the
//! data it hands over and the pure decision of which salt to run with.
use crate::auth::Salt;
use vstd::prelude::*;

verus! {

/// A login submission.
#[derive(Clone, Debug)]
pub struct LoginForm {
    pub username: String,
    pub password: String,
}

/// An edit-post submission.
#[derive(Clone, Debug)]
pub struct EditPostForm {
    pub content: String,
}

/// An add-post submission.
#[derive(Clone, Debug)]
pub struct AddPostForm {
    pub content: String,
}

/// The fixed development salt, as bytes: `nblVMlxYtvt0rxo3BML3zw`.
///
/// Outside production it keeps sessions alive across restarts without
/// touching storage; it is public, like every salt.
pub open spec fn spec_dev_salt() -> Seq<u8> {
    seq![
        110u8,
        98,
        108,
        86,
        77,
        108,
        120,
        89,
        116,
        118,
        116,
        48,
        114,
        120,
        111,
        51,
        66,
        77,
        76,
        51,
        122,
        119,
    ]
}

/// The fixed development salt (the bytes of `nblVMlxYtvt0rxo3BML3zw`).
pub fn dev_salt() -> (r: Salt)
    ensures
        r@ == spec_dev_salt(),
{
    let r: Salt = [
        110u8,
        98,
        108,
        86,
        77,
        108,
        120,
        89,
        116,
        118,
        116,
        48,
        114,
        120,
        111,
        51,
        66,
        77,
        76,
        51,
        122,
        119,
    ];
    proof {
        assert(r@ =~= spec_dev_salt());
    }
    r
}

/// A persisted salt that cannot be used: its length is not the 22 bytes a
/// salt must have. Running with a broken salt would lock the admin out, so
/// startup must abort instead.
#[derive(Debug, PartialEq, Eq, Structural)]
pub enum SaltError {
    CorruptStored,
}

/// What to run with, as decided from the stored state.
#[derive(Debug)]
pub enum SaltDecision {
    /// This salt, with no write to the store.
    Ready(Salt),
    /// No salt is stored yet: generate a fresh one and persist it.
    GeneratePersist,
}

/// Decide the deployment's salt from the production flag and the bytes the
/// key-value store holds under the salt key, if any.
///
/// Outside production the fixed development salt is used and storage is
/// never consulted; in production a stored 22-byte salt is reused, a stored
/// salt of any other length is a fatal configuration error, and an absent
/// salt asks the caller to generate and persist a fresh one.
pub fn obtain_salt(production: bool, stored: Option<&Vec<u8>>) -> (r: Result<
    SaltDecision,
    SaltError,
>)
    ensures
        !production ==> (r matches Ok(d) && d matches SaltDecision::Ready(s) && s@
            == spec_dev_salt()),
        production ==> match stored {
            Some(v) => if v@.len() == 22 {
                r matches Ok(d) && d matches SaltDecision::Ready(s) && s@ == v@
            } else {
                r matches Err(e) && e == SaltError::CorruptStored
            },
            None => r matches Ok(d) && d is GeneratePersist,
        },
{
    if !production {
        // Allow the login to persist across restarts.
        return Ok(SaltDecision::Ready(dev_salt()));
    }
    match stored {
        Some(v) => {
            if v.len() != 22 {
                return Err(SaltError::CorruptStored);
            }
            let mut salt: Salt = [0u8; 22];
            let mut i: usize = 0;
            while i < 22
                invariant
                    i <= 22,
                    v@.len() == 22,
                    salt@.len() == 22,
                    forall|j: int| 0 <= j < i ==> salt@[j] == v@[j],
                decreases 22 - i,
            {
                salt[i] = v[i];
                i += 1;
            }
            proof {
                assert(salt@ =~= v@);
            }
            Ok(SaltDecision::Ready(salt))
        },
        None => Ok(SaltDecision::GeneratePersist),
    }
}

} // verus!
