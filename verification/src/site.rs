//! The names and addresses of this mail platform.
use vstd::prelude::*;

verus! {

/// The primary domain.
pub const DOMAIN: &'static str = "olibuijr.com";

/// The host that receives mail.
pub const HOSTNAME: &'static str = "mail.olibuijr.com";

/// The public address of the host.
pub const PUBLIC_IP: &'static str = "3.94.46.219";

} // verus!
