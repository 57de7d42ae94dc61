//! Configuration as the library sees it: plain values, already read
//! and decoded by the caller.  The one piece of configuration logic
//! that belongs here is the `~` expansion of a cache directory path.

use vstd::prelude::*;

verus! {

/// A run's configuration.
pub struct Config {
    /// Remote repository URLs to monitor, in order.
    pub repos: Vec<String>,
    /// Sender address for the notification mail.
    pub from: String,
    /// Recipient address for the notification mail.
    pub to: String,
    /// Credential token for the mail relay.
    pub token: String,
    /// Path of an HTML template with a `{{tables}}` placeholder.
    pub template_path: Option<String>,
    /// Cache root for the mirrors; a leading `~` means the home
    /// directory.
    pub cache_dir: Option<String>,
    /// Cap on the commits emitted per repository per run.
    pub max_commits: Option<usize>,
}

/// A path with a leading `~` replaced by the home directory, when one
/// is known; any other path is kept as it is.
pub open spec fn spec_expand_tilde(path: Seq<char>, home: Option<Seq<char>>) -> Seq<char> {
    if path.len() > 0 && path[0] == '~' && home is Some {
        home->0 + path.skip(1)
    } else {
        path
    }
}

/// Expands a leading `~` in a path to the home directory.
pub fn expand_tilde(path: &str, home: &Option<String>) -> (r: String)
    ensures
        r@ == spec_expand_tilde(path@, match home {
            Some(h) => Some(h@),
            None => None,
        }),
{
    let n = path.unicode_len();
    if n > 0 && path.get_char(0) == '~' {
        match home {
            Some(h) => {
                let mut r = h.clone();
                r.append(path.substring_char(1, n));
                proof {
                    assert(path@.subrange(1, n as int) =~= path@.skip(1));
                }
                r
            },
            None => String::from_str(path),
        }
    } else {
        String::from_str(path)
    }
}

} // verus!
