//! What the node client announces about itself.

use vstd::prelude::*;
use vstd::string::StringExecFns;

verus! {

/// The name under which requests to the node are sent.
pub const DEFAULT_USER_AGENT_PREFIX: &'static str = "Namada Masp Indexer";

/// The version of this package, as the user agent carries it.
pub const PACKAGE_VERSION: &'static str = "0.1.0";

/// The seconds after which a request to the node is given up.
pub const DEFAULT_REQUEST_TIMEOUT_SECS: u64 = 5;

/// The user agent: the prefix directly followed by the package version.
pub open spec fn user_agent_text() -> Seq<char> {
    DEFAULT_USER_AGENT_PREFIX@ + PACKAGE_VERSION@
}

/// Builds the user agent string that the node client sends.
pub fn user_agent_string() -> (agent: String)
    ensures
        agent@ == user_agent_text(),
{
    let prefix = String::from_str(DEFAULT_USER_AGENT_PREFIX);
    prefix.concat(PACKAGE_VERSION)
}

} // verus!
