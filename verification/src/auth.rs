//! Deterministic addressing and the authorization guard.
//!
//! Every owner maps to one record address, derived from the owner's identity
//! and a fixed namespace tag.  A capability token is likewise derived from a
//! record's own address and a fixed tag: it is never stored, only recomputed
//! and compared, so presenting the correctly derived value proves
//! authorization without a secret.

use vstd::prelude::*;

use crate::Identity;

verus! {

/// Namespace tag mixed into an owner's identity to form its hub address.
pub const HUB_NAMESPACE_TAG: u64 = 0x6875625f7461675f;

/// Fixed tag mixed into a hub address to form its publish capability token.
pub const PUBLISH_CAPABILITY_TAG: u64 = 0x7075626c69736821;

/// The address of the hub record belonging to `owner`.
///
/// The mapping is deterministic: the same owner always maps to the same
/// address, so a second creation for one owner collides with the first.
pub open spec fn spec_hub_address(owner: Identity) -> u64 {
    owner.id ^ HUB_NAMESPACE_TAG
}

/// Computes the deterministic hub address of `owner`.
pub fn hub_address(owner: Identity) -> (addr: u64)
    ensures
        addr == spec_hub_address(owner),
{
    owner.id ^ HUB_NAMESPACE_TAG
}

/// The capability token derivable from a record address and a tag.
pub open spec fn spec_derive_token(seed: u64, tag: u64) -> u64 {
    seed ^ tag
}

/// Derives the capability token for a record address and a tag.
///
/// The derivation is a pure function of its arguments: side-effect free and
/// independent of any stored state, so holding the derived value for a hub's
/// address is the only way to pass a capability check for that hub.
pub fn derive_token(seed: u64, tag: u64) -> (token: u64)
    ensures
        token == spec_derive_token(seed, tag),
{
    seed ^ tag
}

/// How publishing into a hub is authorized; chosen per deployment.
#[derive(Clone, Copy, Debug, PartialEq, Eq, Structural)]
pub enum AuthPolicy {
    /// The publisher signs with its own identity; publishing is open to any
    /// signed identity and no token is required.
    OwnerSignature,
    /// The publisher must present the capability token derived from the
    /// hub's address and `PUBLISH_CAPABILITY_TAG`.
    CapabilityToken,
}

/// Whether a publish attempt against the hub at `hub_addr` passes the
/// authorization guard under `policy` when presenting `token`.
pub open spec fn spec_publish_authorized(policy: AuthPolicy, hub_addr: u64, token: Option<u64>) -> bool {
    match policy {
        AuthPolicy::OwnerSignature => true,
        AuthPolicy::CapabilityToken => token == Some(
            spec_derive_token(hub_addr, PUBLISH_CAPABILITY_TAG),
        ),
    }
}

/// Decides whether a publish attempt passes the authorization guard.
pub fn publish_authorized(policy: AuthPolicy, hub_addr: u64, token: Option<u64>) -> (ok: bool)
    ensures
        ok == spec_publish_authorized(policy, hub_addr, token),
{
    match policy {
        AuthPolicy::OwnerSignature => true,
        AuthPolicy::CapabilityToken => match token {
            Some(t) => t == derive_token(hub_addr, PUBLISH_CAPABILITY_TAG),
            None => false,
        },
    }
}

} // verus!
