//! The process-wide TLS crypto provider.
use vstd::prelude::*;

verus! {

#[verifier::external_type_specification]
#[verifier::external_body]
pub struct ExCryptoProvider(rustls::crypto::CryptoProvider);

/// `rustls::crypto::ring::default_provider`: the ring-backed provider with
/// rustls' default cipher suites and key exchange groups. Nothing is claimed
/// of the value, which is only handed on.
#[verifier::external_body]
fn ring_default_provider() -> (res: rustls::crypto::CryptoProvider) {
    rustls::crypto::ring::default_provider()
}

/// `CryptoProvider::install_default`: makes the provider the process
/// default; `false` when a default was already installed, which it then
/// keeps. That depends on the process state, so nothing is claimed.
#[verifier::external_body]
fn install_default_provider(provider: rustls::crypto::CryptoProvider) -> (res: bool) {
    provider.install_default().is_ok()
}

/// Installs the ring provider as the process default unless a default is
/// installed already (then nothing changes). On Windows, which uses the
/// native TLS stack, nothing is done.
pub fn ensure_tls_provider(platform: crate::path_list::Platform) {
    match platform {
        crate::path_list::Platform::Unix => {
            let provider = ring_default_provider();
            let _installed = install_default_provider(provider);
        },
        crate::path_list::Platform::Windows => {},
    }
}

} // verus!
