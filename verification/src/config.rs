//! Adapter configuration: the parts the protocol logic reads.

use vstd::prelude::*;

verus! {

/// Adapter configuration. The root template and the SSR renderer live beside it, with the
/// HTTP glue.
#[derive(Debug, Clone)]
pub struct InertiaConfig {
    pub version: Option<String>,
    pub app_id: String,
    /// Encrypt the page data the client keeps in `history.state` for every page.
    pub encrypt_history: bool,
    /// Hosts (`example.com`, `example.com:8443`) besides the request's `Host` whose
    /// `Referer` `Inertia::back` may redirect to, for proxies that rewrite `Host`.
    pub allowed_redirect_hosts: Vec<String>,
}

impl InertiaConfig {
    /// No version, app id `app`, no history encryption, no extra hosts.
    pub fn new() -> (r: InertiaConfig)
        ensures
            r.version is None,
            r.app_id@ == seq!['a', 'p', 'p'],
            !r.encrypt_history,
            r.allowed_redirect_hosts@.len() == 0,
    {
        proof {
            reveal_strlit("app");
        }
        let app_id = "app".to_owned();
        assert(app_id@ =~= seq!['a', 'p', 'p']);
        InertiaConfig { version: None, app_id, encrypt_history: false, allowed_redirect_hosts: Vec::new() }
    }

    pub fn with_encrypt_history(self, encrypt: bool) -> (r: InertiaConfig)
        ensures
            r == (InertiaConfig { encrypt_history: encrypt, ..self }),
    {
        InertiaConfig { encrypt_history: encrypt, ..self }
    }

    pub fn with_version(self, version: String) -> (r: InertiaConfig)
        ensures
            r == (InertiaConfig { version: Some(version), ..self }),
    {
        InertiaConfig { version: Some(version), ..self }
    }

    pub fn with_app_id(self, app_id: String) -> (r: InertiaConfig)
        ensures
            r == (InertiaConfig { app_id, ..self }),
    {
        InertiaConfig { app_id, ..self }
    }

    /// The version as sent to and compared against the client (`""` when unset).
    pub fn version_str(&self) -> (r: &str)
        ensures
            r@ == version_of(self.version),
    {
        match &self.version {
            Some(v) => v.as_str(),
            None => {
                proof {
                    reveal_strlit("");
                }
                assert(""@ =~= Seq::<char>::empty());
                ""
            },
        }
    }
}

/// The version as sent to the client: empty when there is none.
pub open spec fn version_of(version: Option<String>) -> Seq<char> {
    match version {
        Some(v) => v@,
        None => Seq::empty(),
    }
}

} // verus!
