//! Small pure helpers behind the command-line surface: the generated
//! environment file for a profile, the shortened key shown to the user,
//! and the reading of a connectivity check's status code.

use vstd::prelude::*;
use vstd::string::StrSliceExecFns;
use vstd::string::StringExecFns;

verus! {

/// The environment file content generated when a profile is applied.
pub open spec fn spec_mise_config(url: Seq<char>, key: Seq<char>) -> Seq<char> {
    "# mise configuration for ecce project\n# Environment variables set by ecce tool\n\n[env]\nANTHROPIC_BASE_URL = \""@
        + url + "\"\nANTHROPIC_API_KEY = \""@ + key + "\"\n"@
}

/// The environment file content for a profile's URL and key.
pub fn mise_config_content(url: &str, key: &str) -> (r: String)
    ensures
        r@ == spec_mise_config(url@, key@),
{
    let mut s = String::from_str(
        "# mise configuration for ecce project\n# Environment variables set by ecce tool\n\n[env]\nANTHROPIC_BASE_URL = \"",
    );
    s.append(url);
    s.append("\"\nANTHROPIC_API_KEY = \"");
    s.append(key);
    s.append("\"\n");
    proof {
        assert(s@ =~= spec_mise_config(url@, key@));
    }
    s
}

/// The first characters of a key, at most eight, as shown to the user.
pub fn key_preview(key: &str) -> (r: String)
    ensures
        r@ == key@.subrange(
            0,
            if key@.len() < 8 {
                key@.len() as int
            } else {
                8
            },
        ),
{
    let n = key.unicode_len();
    let end: usize = if n < 8 {
        n
    } else {
        8
    };
    String::from_str(key.substring_char(0, end))
}

/// Whether an HTTP status code counts as a successful connectivity check:
/// any success status, or 401, which proves the endpoint reachable even if
/// the credentials are wrong.
pub fn connectivity_ok(status: u16) -> (r: bool)
    ensures
        r == (200 <= status < 300 || status == 401),
{
    (200 <= status && status < 300) || status == 401
}

} // verus!
