//! The well-known PAC sources that are probed at startup, in the order they
//! are loaded.

use vstd::prelude::*;

verus! {

/// A PAC source: its URL and what it serves.
#[derive(Debug, Clone)]
pub struct PacUrl {
    pub url: String,
    pub description: String,
}

/// The known PAC URLs, in load order: the WPAD discovery address and two
/// local agents that publish PAC files.
pub fn get_pac_urls() -> (r: Vec<PacUrl>)
    ensures
        r@.len() == 3,
        r@[0].url@ == "http://wpad/wpad.dat"@,
        r@[1].url@ == "http://localhost:3333/files/proxy.pac"@,
        r@[2].url@ == "http://localhost:10224/proxy.pac"@,
{
    let mut v: Vec<PacUrl> = Vec::new();
    v.push(
        PacUrl {
            url: "http://wpad/wpad.dat".to_owned(),
            description: "WPAD (Web Proxy Auto-Discovery Protocol) PAC file".to_owned(),
        },
    );
    v.push(
        PacUrl {
            url: "http://localhost:3333/files/proxy.pac".to_owned(),
            description: "itTLS PAC file".to_owned(),
        },
    );
    v.push(
        PacUrl {
            url: "http://localhost:10224/proxy.pac".to_owned(),
            description: "avTune PAC file".to_owned(),
        },
    );
    v
}

} // verus!
