//! The identity attached to a request by the upstream proxy, or forced
//! by an operator override.

use vstd::prelude::*;

verus! {

/// A pre-authenticated identity.  A forced identity comes from an
/// operator override and bypasses the known-email admission check.
#[derive(Debug)]
pub struct ForwardedIdentity {
    pub email: String,
    pub forced: bool,
}

impl ForwardedIdentity {
    /// An ordinary identity carrying the given email.
    pub fn new(email: String) -> (r: ForwardedIdentity)
        ensures
            r.email@ == email@,
            !r.forced,
    {
        ForwardedIdentity { email, forced: false }
    }

    /// A forced identity carrying the given email.
    pub fn new_forced(email: String) -> (r: ForwardedIdentity)
        ensures
            r.email@ == email@,
            r.forced,
    {
        ForwardedIdentity { email, forced: true }
    }

    /// Whether the identity was forced by the operator override.
    pub fn forced(&self) -> (r: bool)
        ensures
            r == self.forced,
    {
        self.forced
    }

    /// The identity of a request, from the operator override (if set)
    /// and the values of the identity header.  An override wins
    /// unconditionally; otherwise the header must be present exactly
    /// once, and any other count leaves the request anonymous.
    pub fn resolve(forced_user: Option<String>, forwarded_emails: Vec<String>) -> (r: Option<
        ForwardedIdentity,
    >)
        ensures
            match forced_user {
                Some(u) => r matches Some(id) && id.email@ == u@ && id.forced,
                None => {
                    if forwarded_emails@.len() == 1 {
                        r matches Some(id) && id.email@ == forwarded_emails@[0]@ && !id.forced
                    } else {
                        r is None
                    }
                },
            },
    {
        match forced_user {
            Some(u) => Some(ForwardedIdentity::new_forced(u)),
            None => {
                if forwarded_emails.len() == 1 {
                    let mut forwarded_emails = forwarded_emails;
                    let email = forwarded_emails.pop().unwrap();
                    Some(ForwardedIdentity::new(email))
                } else {
                    None
                }
            },
        }
    }
}

} // verus!
