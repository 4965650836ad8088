//! Where the system's configuration files live.

use vstd::prelude::*;

verus! {

/// The resolver configuration file.
pub fn resolver_conf_path() -> &'static str {
    "/etc/resolv.conf"
}

/// The static host table.
pub fn hosts_path() -> &'static str {
    "/etc/hosts"
}

/// The directory of trusted root certificates.
pub fn root_certs_path() -> &'static str {
    "/etc/ssl/certs"
}

} // verus!
