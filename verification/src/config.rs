//! The configuration values the core consumes, with their documented
//! defaults. Reading the configuration file and substituting environment
//! variables happen outside the core; the core receives plain values.

use vstd::prelude::*;

verus! {

/// Settings for the outside titles-search service.
pub struct Tmdb {
    pub enabled: bool,
    pub protocol: String,
    pub host: String,
    pub token: Option<String>,
}

/// Settings for the audit log.
pub struct Logging {
    pub local_path: String,
}

/// Settings for the terminal behaviour around a run.
pub struct Ui {
    pub block_closing: bool,
}

/// The default allow-list of media and subtitle file extensions.
pub fn default_allowed_exts() -> (r: Vec<String>)
    ensures
        r@.len() == 7,
        r@[0]@ == "avi"@,
        r@[1]@ == "m4v"@,
        r@[2]@ == "ass"@,
        r@[3]@ == "3gp"@,
        r@[4]@ == "mkv"@,
        r@[5]@ == "mp4"@,
        r@[6]@ == "srt"@,
{
    let mut r: Vec<String> = Vec::new();
    r.push("avi".to_owned());
    r.push("m4v".to_owned());
    r.push("ass".to_owned());
    r.push("3gp".to_owned());
    r.push("mkv".to_owned());
    r.push("mp4".to_owned());
    r.push("srt".to_owned());
    r
}

/// The default audit-log directory below the user's home directory.
pub fn default_local_log_path(home: &str) -> (r: String)
    ensures
        r@ == home@ + "/.rusttv/events/"@,
{
    let mut r = home.to_owned();
    r.append("/.rusttv/events/");
    r
}

/// The default audit-log settings.
pub fn default_log(home: &str) -> (r: Logging)
    ensures
        r.local_path@ == home@ + "/.rusttv/events/"@,
{
    Logging { local_path: default_local_log_path(home) }
}

/// The default terminal settings: do not hold the window open.
pub fn default_ui() -> (r: Ui)
    ensures
        !r.block_closing,
{
    Ui { block_closing: false }
}

/// The default titles-search settings: disabled, pointing at the public
/// service over https, with no token.
pub fn default_tmdb() -> (r: Tmdb)
    ensures
        !r.enabled,
        r.protocol@ == "https"@,
        r.host@ == "api.themoviedb.org"@,
        r.token is None,
{
    Tmdb {
        enabled: false,
        protocol: "https".to_owned(),
        host: "api.themoviedb.org".to_owned(),
        token: None,
    }
}

} // verus!
