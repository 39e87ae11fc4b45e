//! The settings store: host, port and PAC path of the local HTTP server, and
//! the derived master PAC URL, kept consistent by every mutator.

use vstd::prelude::*;
use crate::errors::ProxyCatError;
use crate::strutil::{dec_digits, push_str_chars, push_u16, string_from_chars};

verus! {

/// The default port of the local HTTP server.
pub const DEFAULT_PORT: u16 = 12112;

/// The URL under which the master PAC script is served.
pub open spec fn spec_pac_url(host: Seq<char>, port: u16, path: Seq<char>) -> Seq<char> {
    "http://"@ + host + ":"@ + dec_digits(port as nat) + path
}

/// The application settings: where the local HTTP server binds and under
/// which path it serves the master PAC script.  The derived URL is updated in
/// the same step as its inputs, so a reader never sees a stale value.
pub struct AppConfig {
    host: String,
    port: u16,
    pac_path: String,
    master_pac_url: String,
}

impl AppConfig {
    /// The current host.
    pub closed spec fn spec_host(&self) -> Seq<char> {
        self.host@
    }

    /// The current port.
    pub closed spec fn spec_port(&self) -> u16 {
        self.port
    }

    /// The current PAC path.
    pub closed spec fn spec_pac_path(&self) -> Seq<char> {
        self.pac_path@
    }

    /// The current master PAC URL.
    pub closed spec fn spec_url(&self) -> Seq<char> {
        self.master_pac_url@
    }

    /// The store is well formed when the derived URL agrees with its inputs.
    pub open spec fn wf(&self) -> bool {
        self.spec_url() == spec_pac_url(self.spec_host(), self.spec_port(), self.spec_pac_path())
    }

    /// Builds a settings store from its three inputs.
    pub fn new(host: String, port: u16, pac_path: String) -> (r: AppConfig)
        ensures
            r.wf(),
            r.spec_host() == host@,
            r.spec_port() == port,
            r.spec_pac_path() == pac_path@,
    {
        let url = build_url(host.as_str(), port, pac_path.as_str());
        AppConfig { host, port, pac_path, master_pac_url: url }
    }

    /// Updates the port and returns the recomputed master PAC URL.
    pub fn update_port(&mut self, new_port: u16) -> (r: Result<String, ProxyCatError>)
        ensures
            final(self).wf(),
            final(self).spec_host() == old(self).spec_host(),
            final(self).spec_pac_path() == old(self).spec_pac_path(),
            final(self).spec_port() == new_port,
            r matches Ok(url) && url@ == final(self).spec_url(),
    {
        self.port = new_port;
        let url = build_url(self.host.as_str(), self.port, self.pac_path.as_str());
        self.master_pac_url = url.clone();
        Ok(url)
    }

    /// The current port.
    pub fn get_port(&self) -> (r: u16)
        ensures
            r == self.spec_port(),
    {
        self.port
    }

    /// Updates the host and returns the recomputed master PAC URL.
    pub fn update_host(&mut self, new_host: String) -> (r: Result<String, ProxyCatError>)
        ensures
            final(self).wf(),
            final(self).spec_host() == new_host@,
            final(self).spec_pac_path() == old(self).spec_pac_path(),
            final(self).spec_port() == old(self).spec_port(),
            r matches Ok(url) && url@ == final(self).spec_url(),
    {
        self.host = new_host;
        let url = build_url(self.host.as_str(), self.port, self.pac_path.as_str());
        self.master_pac_url = url.clone();
        Ok(url)
    }

    /// The current host.
    pub fn get_host(&self) -> (r: Result<String, ProxyCatError>)
        ensures
            r matches Ok(h) && h@ == self.spec_host(),
    {
        Ok(self.host.clone())
    }

    /// Updates the PAC path and returns the recomputed master PAC URL.
    pub fn update_pac_path(&mut self, new_path: String) -> (r: Result<String, ProxyCatError>)
        ensures
            final(self).wf(),
            final(self).spec_host() == old(self).spec_host(),
            final(self).spec_pac_path() == new_path@,
            final(self).spec_port() == old(self).spec_port(),
            r matches Ok(url) && url@ == final(self).spec_url(),
    {
        self.pac_path = new_path;
        let url = build_url(self.host.as_str(), self.port, self.pac_path.as_str());
        self.master_pac_url = url.clone();
        Ok(url)
    }

    /// The current PAC path.
    pub fn get_pac_path(&self) -> (r: Result<String, ProxyCatError>)
        ensures
            r matches Ok(p) && p@ == self.spec_pac_path(),
    {
        Ok(self.pac_path.clone())
    }

    /// The current master PAC URL.
    pub fn get_pac_url(&self) -> (r: Result<String, ProxyCatError>)
        ensures
            r matches Ok(u) && u@ == self.spec_url(),
    {
        Ok(self.master_pac_url.clone())
    }

    /// The fixed name of the persisted configuration file.
    pub fn config_file(&self) -> (r: &'static str)
        ensures
            r@ == "proxycat_config.json"@,
    {
        "proxycat_config.json"
    }
}

impl Default for AppConfig {
    /// The default settings: `127.0.0.1`, port 12112, `/master.pac`.
    fn default() -> (r: AppConfig)
        ensures
            r.wf(),
            r.spec_host() == "127.0.0.1"@,
            r.spec_port() == DEFAULT_PORT,
            r.spec_pac_path() == "/master.pac"@,
    {
        AppConfig::new("127.0.0.1".to_owned(), DEFAULT_PORT, "/master.pac".to_owned())
    }
}

/// Renders `http://{host}:{port}{path}`.
fn build_url(host: &str, port: u16, path: &str) -> (r: String)
    ensures
        r@ == spec_pac_url(host@, port, path@),
{
    let mut buf: Vec<char> = Vec::new();
    push_str_chars(&mut buf, "http://");
    push_str_chars(&mut buf, host);
    push_str_chars(&mut buf, ":");
    push_u16(&mut buf, port);
    push_str_chars(&mut buf, path);
    proof {
        assert(buf@ =~= spec_pac_url(host@, port, path@));
    }
    string_from_chars(&buf)
}

} // verus!
