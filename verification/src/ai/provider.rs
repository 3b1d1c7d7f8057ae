//! The suggestion-only provider boundary. A provider is invoked only with an
//! `InvocationPermit`, which nothing but the engine's disclosure and consent
//! check can grant, so no provider value can bypass that check.

use vstd::prelude::*;
use crate::ai::types::{ProviderDescriptor, ProviderKind};
use crate::ai::engine::InvocationPermit;
use crate::text::copy_str;

verus! {

/// Why a provider did not answer.
#[derive(Clone, Copy, Debug, PartialEq, Eq, Structural)]
pub enum ProviderFailure {
    Unavailable,
    Timeout,
    LimitExceeded,
    Protocol,
}

/// Invocation of a provider. It takes a permit for the exact request bytes,
/// which only the engine's consent check grants.
pub trait ProviderInvocation {
    /// Send the request and return the raw response.
    fn invoke_after_policy(&self, permit: &InvocationPermit, request: &[u8]) -> Result<
        Vec<u8>,
        ProviderFailure,
    >
        requires
            permit.payload() == request@,
    ;
}

/// An explanation and label-suggestion provider.
pub trait Provider: ProviderInvocation + Send + Sync {
    /// Who the provider is and where it sends requests.
    fn descriptor(&self) -> &ProviderDescriptor;
}

/// An injected cloud transport. Authentication belongs to the
/// implementation and is never passed to, inspected by, or recorded by this
/// library.
pub trait CloudTransport: Send + Sync {
    fn send(&self, endpoint: &str, request: &[u8]) -> Result<Vec<u8>, ProviderFailure>;
}

/// A cloud provider: a descriptor and the transport that reaches its
/// endpoint.
pub struct CloudProvider<T> {
    descriptor: ProviderDescriptor,
    transport: T,
}

impl<T> CloudProvider<T> {
    pub closed spec fn spec_descriptor(self) -> ProviderDescriptor {
        self.descriptor
    }

    /// The transport that reaches the endpoint.
    pub closed spec fn spec_transport(self) -> T {
        self.transport
    }

    /// A cloud provider with the given identity and endpoint.
    pub fn new(provider: &str, model: &str, endpoint: &str, transport: T) -> (p: Self)
        ensures
            p.spec_descriptor().kind == ProviderKind::Cloud,
            p.spec_descriptor().provider@ == provider@,
            p.spec_descriptor().model@ == model@,
            p.spec_descriptor().endpoint@ == endpoint@,
    {
        CloudProvider {
            descriptor: ProviderDescriptor {
                kind: ProviderKind::Cloud,
                provider: copy_str(provider),
                model: copy_str(model),
                endpoint: copy_str(endpoint),
            },
            transport,
        }
    }
}

impl<T: CloudTransport> Provider for CloudProvider<T> {
    fn descriptor(&self) -> (d: &ProviderDescriptor)
        ensures
            *d == self.spec_descriptor(),
    {
        &self.descriptor
    }
}

impl<T: CloudTransport> ProviderInvocation for CloudProvider<T> {
    /// Sends the request to the descriptor's endpoint through the transport;
    /// the answer is one the transport's `send` may give for that endpoint and
    /// exactly these request bytes.
    fn invoke_after_policy(&self, permit: &InvocationPermit, request: &[u8]) -> (r: Result<
        Vec<u8>,
        ProviderFailure,
    >)
        ensures
            exists|endpoint: &str|
                endpoint@ == self.spec_descriptor().endpoint@ && #[trigger] call_ensures(
                    T::send,
                    (&self.spec_transport(), endpoint, request),
                    r,
                ),
    {
        let endpoint = self.descriptor.endpoint.as_str();
        let r = self.transport.send(endpoint, request);
        assert(endpoint@ == self.spec_descriptor().endpoint@);
        assert(call_ensures(T::send, (&self.spec_transport(), endpoint, request), r));
        r
    }
}

} // verus!
