//! Credential-context resolution: from an account record to the named
//! profile and region the remote client is configured with.

use vstd::prelude::*;
use crate::account::AccountConfig;

verus! {

/// Why a credential context could not be built for an account.
#[derive(Clone, Copy, Debug, PartialEq, Eq, Structural)]
pub enum CredentialError {
    MissingAccountId,
    MissingRegion,
}

/// The context the remote client is configured with for one account: the
/// named credential profile to load and the region to call.
#[derive(Debug)]
pub struct CredentialContext {
    pub profile_name: String,
    pub region: String,
}

/// Resolves the credential context for one account by named-profile lookup:
/// the profile is named after the account identifier and the region comes
/// from the account record. Fails exactly when the record leaves the
/// account identifier or the region empty, and only that account is skipped.
pub fn load_creds(account: &AccountConfig) -> (r: Result<CredentialContext, CredentialError>)
    ensures
        account.account_id@.len() == 0 ==> r == Err::<CredentialContext, CredentialError>(
            CredentialError::MissingAccountId,
        ),
        account.account_id@.len() > 0 && account.region@.len() == 0 ==> r == Err::<
            CredentialContext,
            CredentialError,
        >(CredentialError::MissingRegion),
        account.account_id@.len() > 0 && account.region@.len() > 0 ==> (r matches Ok(c)
            && c.profile_name@ == account.account_id@ && c.region@ == account.region@),
{
    if account.account_id.as_str().unicode_len() == 0 {
        Err(CredentialError::MissingAccountId)
    } else if account.region.as_str().unicode_len() == 0 {
        Err(CredentialError::MissingRegion)
    } else {
        Ok(
            CredentialContext {
                profile_name: account.account_id.clone(),
                region: account.region.clone(),
            },
        )
    }
}

} // verus!
