//! Construction of the connection URL for the shared store.

use vstd::prelude::*;
use vstd::string::StringExecFns;

verus! {

/// The connection URL the store is reached under:
/// `mysql://<user>:<password>@<host>/<user>_dpemr_experiments`.
pub open spec fn db_url_spec(user: Seq<char>, password: Seq<char>, host: Seq<char>) -> Seq<char> {
    "mysql://"@ + user + ":"@ + password + "@"@ + host + "/"@ + user + "_dpemr_experiments"@
}

/// Builds the connection URL from the validated configuration values.
pub fn build_db_url(user: &str, password: &str, host: &str) -> (url: String)
    ensures
        url@ == db_url_spec(user@, password@, host@),
{
    let mut url = String::new();
    url.append("mysql://");
    url.append(user);
    url.append(":");
    url.append(password);
    url.append("@");
    url.append(host);
    url.append("/");
    url.append(user);
    url.append("_dpemr_experiments");
    url
}

} // verus!
