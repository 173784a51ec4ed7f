use vstd::prelude::*;

use crate::address::{uuid_bytes_of, WorkspaceId};
use crate::{bytes_eq, KvsError};

verus! {

/// The authenticated caller, built once per call by the transport
/// collaborator and read-only here: an account, an optional tenant
/// claim, and whether this is the system identity.
#[derive(Clone, Debug)]
pub struct Claims {
    pub account: String,
    pub workspace: Option<String>,
    pub system: bool,
}

/// Whether an identity may touch the tenant `ws`: the system identity
/// may touch any tenant; any other identity must carry a claim denoting
/// exactly `ws`.
pub open spec fn authorized(c: Claims, ws: Seq<u8>) -> bool {
    c.system || match c.workspace {
        Some(claim) => uuid_bytes_of(claim@) == Some(ws),
        None => false,
    }
}

/// Authorize a caller identity against an address's tenant. Every
/// refusal is Forbidden — never NotFound — so authorization failure is
/// never conflated with absence; no stored state is consulted, so the
/// verdict is the same whether or not the address holds an entry.
pub fn workspace_owner(claims: &Claims, workspace: &WorkspaceId) -> (r: Result<(), KvsError>)
    ensures
        r is Ok <==> authorized(*claims, workspace@),
        r matches Err(e) ==> e == KvsError::Forbidden,
{
    if claims.system {
        return Ok(());
    }
    match &claims.workspace {
        Some(claim) => match WorkspaceId::parse(claim.as_str()) {
            Ok(w) => {
                if bytes_eq(w.bytes.as_slice(), workspace.bytes.as_slice()) {
                    Ok(())
                } else {
                    Err(KvsError::Forbidden)
                }
            },
            Err(_) => Err(KvsError::Forbidden),
        },
        None => Err(KvsError::Forbidden),
    }
}

} // verus!
