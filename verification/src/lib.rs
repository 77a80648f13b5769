pub mod cache;
pub mod catalog;
pub mod fold;
pub mod ids;
pub mod json;
pub mod payload;

use vstd::prelude::*;

pub use cache::CacheAction;
pub use cache::CatalogCache;
pub use catalog::Catalog;
pub use catalog::CatalogEntry;
pub use catalog::Resolution;
pub use fold::Accumulator;
pub use ids::GameIdSet;
pub use payload::SchemaError;

verus! {

/// A platform-wide stable integer key for one game title.
pub type GameId = i64;

/// What stops a run before any work is attempted.
#[derive(Clone, Copy, Debug, PartialEq, Eq, Structural)]
pub enum ConfigError {
    /// No credential was supplied for the remote service.
    MissingCredential,
    /// No account identifier was supplied.
    NoAccounts,
}

/// Checks the process inputs before any network work: a credential must be
/// present and at least one account identifier supplied. The credential is
/// checked first.
pub fn validate_inputs(has_credential: bool, account_count: usize) -> (r: Result<
    (),
    ConfigError,
>)
    ensures
        r is Ok <==> (has_credential && account_count >= 1),
        !has_credential ==> r == Err::<(), ConfigError>(ConfigError::MissingCredential),
        (has_credential && account_count == 0) ==> r == Err::<(), ConfigError>(
            ConfigError::NoAccounts,
        ),
{
    if !has_credential {
        Err(ConfigError::MissingCredential)
    } else if account_count == 0 {
        Err(ConfigError::NoAccounts)
    } else {
        Ok(())
    }
}

} // verus!
