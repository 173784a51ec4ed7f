use vstd::prelude::*;

use crate::{bytes_eq, KvsError};

verus! {

/// Which sixteen bytes a textual tenant identifier denotes, if it is
/// well formed. Parsing is done by outside code; the library relies only
/// on the outcome depending on the characters alone.
pub uninterp spec fn uuid_bytes_of(s: Seq<char>) -> Option<Seq<u8>>;

/// Relies on uuid::Uuid::parse_str: whether a string is a well-formed
/// identifier, and which sixteen bytes it denotes, depend on the
/// characters alone.
#[verifier::external_body]
fn parse_uuid_bytes(s: &str) -> (r: Option<[u8; 16]>)
    ensures
        r is Some <==> uuid_bytes_of(s@) is Some,
        r matches Some(b) ==> uuid_bytes_of(s@) == Some(b@),
{
    uuid::Uuid::parse_str(s).ok().map(|u: uuid::Uuid| u.into_bytes())
}

/// One tenant: the sixteen bytes of its parsed identifier.
#[derive(Clone, Debug)]
pub struct WorkspaceId {
    pub bytes: [u8; 16],
}

impl View for WorkspaceId {
    type V = Seq<u8>;

    open spec fn view(&self) -> Seq<u8> {
        self.bytes@
    }
}

impl WorkspaceId {
    /// Parse a tenant identifier from its textual form; a malformed one
    /// is the caller's error.
    pub fn parse(s: &str) -> (r: Result<WorkspaceId, KvsError>)
        ensures
            r matches Ok(w) ==> uuid_bytes_of(s@) == Some(w@),
            r matches Err(e) ==> e == KvsError::BadRequest && uuid_bytes_of(s@) is None,
    {
        match parse_uuid_bytes(s) {
            Some(b) => Ok(WorkspaceId { bytes: b }),
            None => Err(KvsError::BadRequest),
        }
    }
}

/// The tenant bytes an optional workspace stands for.
pub open spec fn workspace_view(w: Option<WorkspaceId>) -> Option<Seq<u8>> {
    match w {
        Some(x) => Some(x@),
        None => None,
    }
}

/// The full address of one entry: tenant (absent in single-tenant mode),
/// namespace, and key bytes. The triple is the unit of uniqueness; no
/// operation spans more than one address.
#[derive(Clone, Debug)]
pub struct AddressKey {
    pub workspace: Option<WorkspaceId>,
    pub namespace: String,
    pub key: Vec<u8>,
}

/// The mathematical shape of an address.
#[verifier::ext_equal]
pub struct AddressView {
    pub workspace: Option<Seq<u8>>,
    pub namespace: Seq<char>,
    pub key: Seq<u8>,
}

impl View for AddressKey {
    type V = AddressView;

    open spec fn view(&self) -> AddressView {
        AddressView {
            workspace: match self.workspace {
                Some(w) => Some(w@),
                None => None,
            },
            namespace: self.namespace@,
            key: self.key@,
        }
    }
}

impl AddressKey {
    /// A fresh copy naming the same entry.
    pub fn duplicate(&self) -> (r: AddressKey)
        ensures
            r@ == self@,
    {
        let r = AddressKey {
            workspace: match &self.workspace {
                Some(w) => Some(WorkspaceId { bytes: w.bytes }),
                None => None,
            },
            namespace: self.namespace.clone(),
            key: vstd::slice::slice_to_vec(self.key.as_slice()),
        };
        proof {
            assert(r@ =~~= self@);
        }
        r
    }
}

/// Whether two addresses name the same entry.
pub fn addr_eq(a: &AddressKey, b: &AddressKey) -> (r: bool)
    ensures
        r == (a@ == b@),
{
    let ws_eq: bool = match (&a.workspace, &b.workspace) {
        (Some(x), Some(y)) => bytes_eq(x.bytes.as_slice(), y.bytes.as_slice()),
        (None, None) => true,
        _ => false,
    };
    if !ws_eq {
        return false;
    }
    if !(a.namespace == b.namespace) {
        return false;
    }
    if !bytes_eq(a.key.as_slice(), b.key.as_slice()) {
        return false;
    }
    proof {
        assert(a@ =~~= b@);
    }
    true
}

} // verus!
