//! The OS proxy configuration as read from the host system.  Reading and
//! writing the OS setting is platform plumbing outside the library; the
//! values land here as plain strings.

use vstd::prelude::*;

verus! {

/// A snapshot of the OS proxy settings: the proxy server in `host:port`
/// form, the semicolon-separated bypass list, the auto-config URL, and
/// whether a proxy is in effect.
#[derive(Debug, Clone, PartialEq)]
pub struct ProxyConfig {
    pub proxy_server: Option<String>,
    pub proxy_bypass: Option<String>,
    pub auto_config_url: Option<String>,
    pub use_proxy: bool,
}

/// The mathematical value of an OS proxy snapshot.
#[verifier::ext_equal]
pub struct ProxyConfigView {
    pub proxy_server: Option<Seq<char>>,
    pub proxy_bypass: Option<Seq<char>>,
    pub auto_config_url: Option<Seq<char>>,
    pub use_proxy: bool,
}

impl View for ProxyConfig {
    type V = ProxyConfigView;

    open spec fn view(&self) -> ProxyConfigView {
        ProxyConfigView {
            proxy_server: match self.proxy_server {
                Some(ref s) => Some(s@),
                None => None,
            },
            proxy_bypass: match self.proxy_bypass {
                Some(ref s) => Some(s@),
                None => None,
            },
            auto_config_url: match self.auto_config_url {
                Some(ref s) => Some(s@),
                None => None,
            },
            use_proxy: self.use_proxy,
        }
    }
}

impl ProxyConfig {
    /// The empty snapshot: no proxy configured.
    pub fn new() -> (r: ProxyConfig)
        ensures
            r@.proxy_server is None,
            r@.proxy_bypass is None,
            r@.auto_config_url is None,
            !r@.use_proxy,
    {
        ProxyConfig { proxy_server: None, proxy_bypass: None, auto_config_url: None, use_proxy: false }
    }
}

} // verus!
