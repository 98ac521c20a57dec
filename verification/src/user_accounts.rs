//! Who the current user is, while there is no authentication.

use rand::Rng;
use rand::rngs::ThreadRng;
use vstd::prelude::*;
use crate::fast_ulid::thread_rng;

verus! {

/// Wrapper of `Rng::random_range` on a half-open range, which the crate
/// documents to give a value inside the range (and to panic on an empty one,
/// which `requires` leaves out). Nothing more is promised of the value.
#[verifier::external_body]
fn random_in_range(rng: &mut ThreadRng, low: u64, high: u64) -> (res: u64)
    requires
        low < high,
    ensures
        low <= res < high,
{
    rng.random_range(low..high)
}

/// Hands out user ids.
#[derive(Debug)]
pub struct UserAccountManager;

impl UserAccountManager {
    pub fn new() -> (res: UserAccountManager) {
        UserAccountManager
    }

    /// A simulated user id, between 1000 and 1999.
    pub fn get_user_id(&self) -> (res: u64)
        ensures
            1000 <= res < 2000,
    {
        let mut rng = thread_rng();
        random_in_range(&mut rng, 1000, 2000)
    }
}

impl Default for UserAccountManager {
    fn default() -> (res: UserAccountManager) {
        UserAccountManager::new()
    }
}

} // verus!
