//! Error taxonomy of the credential layer, and the mapping from native
//! status codes onto it.
//!
//! The native store reports every call's outcome as a status code: one
//! zero-equivalent code means success, one distinguished code means "item
//! not found", and every other code is opaque to this layer. The mapping
//! turns a code into the closed error enum immediately at the boundary,
//! so no raw code travels past the façade except inside `Backend`.

use vstd::prelude::*;

verus! {

/// The status code the native store returns on success.
pub const ERR_SEC_SUCCESS: i32 = 0;

/// The one distinguished non-success status code: the lookup ran, and no
/// item with the requested key exists.
pub const ERR_SEC_ITEM_NOT_FOUND: i32 = -25300;

/// Everything a credential operation can fail with.
#[derive(Clone, Copy, Debug, PartialEq, Eq, Structural)]
pub enum CredentialError {
    /// A service or account name cannot be represented as a NUL-free
    /// C string; the operation fails before any call into the store.
    InvalidInput,
    /// The store reports that no item matches the lookup key.
    NotFound,
    /// Any other non-success status code, surfaced verbatim.
    Backend(i32),
}

/// Maps a native status code to the layer's error enum: success becomes
/// `Ok`, the distinguished "item not found" code becomes `NotFound`, and
/// every other code is carried through as `Backend`.
pub fn map_status(status: i32) -> (r: Result<(), CredentialError>)
    ensures
        status == ERR_SEC_SUCCESS ==> r == Ok::<(), CredentialError>(()),
        status == ERR_SEC_ITEM_NOT_FOUND ==> r == Err::<(), CredentialError>(
            CredentialError::NotFound,
        ),
        status != ERR_SEC_SUCCESS && status != ERR_SEC_ITEM_NOT_FOUND ==> r == Err::<
            (),
            CredentialError,
        >(CredentialError::Backend(status)),
{
    if status == ERR_SEC_SUCCESS {
        Ok(())
    } else if status == ERR_SEC_ITEM_NOT_FOUND {
        Err(CredentialError::NotFound)
    } else {
        Err(CredentialError::Backend(status))
    }
}

} // verus!
