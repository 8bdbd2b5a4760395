//! Uniform-random proxy selection.
//!
//! One endpoint is drawn uniformly from the snapshot a connection
//! holds. No state is kept between draws: no round-robin, no health
//! tracking, no exclusion of previously failed endpoints.

use vstd::prelude::*;
use crate::error::ConfigError;
use crate::list::Endpoint;

verus! {

/// Relies on rand::Rng::gen_range over `0..n`, which draws uniformly
/// from that range and panics only when it is empty; nothing beyond
/// membership in the range is assumed of the result.
#[verifier::external_body]
fn random_below(n: usize) -> (r: usize)
    requires
        n > 0,
    ensures
        r < n,
{
    rand::Rng::gen_range(&mut rand::thread_rng(), 0..n)
}

/// Picks one endpoint uniformly at random from the list.
///
/// Succeeds exactly when the list is non-empty, returning one of its
/// members; an empty list is the no-proxies-configured error.
pub fn choose_endpoint(list: &Vec<Endpoint>) -> (r: Result<Endpoint, ConfigError>)
    ensures
        r is Ok <==> list@.len() > 0,
        r matches Ok(e) ==> list@.contains(e),
        r is Err ==> r == Err::<Endpoint, ConfigError>(ConfigError::NoProxiesConfigured),
{
    if list.len() == 0 {
        Err(ConfigError::NoProxiesConfigured)
    } else {
        let i = random_below(list.len());
        let e = list[i];
        proof {
            assert(list@.contains(e)) by {
                assert(list@[i as int] == e);
            }
        }
        Ok(e)
    }
}

} // verus!
