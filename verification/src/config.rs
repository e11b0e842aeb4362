//! The immutable configuration snapshot a request is handled against.
//!
//! The surrounding program builds one snapshot at startup (or on reload)
//! from its settings sources and hands it to the pipeline by reference;
//! the pipeline never mutates it.  Rule lists keep configuration order:
//! the first matching rule wins everywhere.

use vstd::prelude::*;

verus! {

/// A path-matched set of extra response headers.
pub struct HeaderRule {
    /// Glob pattern the request path is matched against.
    pub pattern: Vec<u8>,
    /// Headers appended when the pattern matches.
    pub headers: Vec<(Vec<u8>, Vec<u8>)>,
}

/// An internal path substitution, optionally answered as a redirect.
pub struct RewriteRule {
    pub pattern: Vec<u8>,
    /// Destination; `$1`..`$9` refer to the pattern's wildcard captures.
    pub destination: Vec<u8>,
    /// When set, the rewrite is answered as a redirect with this status
    /// instead of continuing resolution under the new path.
    pub redirect_status: Option<u16>,
}

/// A client-visible redirect.
pub struct RedirectRule {
    pub pattern: Vec<u8>,
    /// Destination; `$1`..`$9` refer to the pattern's wildcard captures.
    pub destination: Vec<u8>,
    pub status: u16,
}

/// The ordered rule lists of the advanced section.
pub struct RuleSet {
    pub headers: Vec<HeaderRule>,
    pub rewrites: Vec<RewriteRule>,
    pub redirects: Vec<RedirectRule>,
}

/// A hostname-keyed override of root directory and rules.
pub struct VirtualHost {
    /// Host name, lower case, without a port.
    pub host: Vec<u8>,
    /// Root directory override, as segments from the filesystem root.
    pub root: Option<Vec<Vec<u8>>>,
    /// Host-specific rules; when present they replace the global ones.
    pub rules: Option<RuleSet>,
}

/// The advanced block: global rules plus virtual hosts.
pub struct Advanced {
    pub rules: RuleSet,
    pub virtual_hosts: Vec<VirtualHost>,
}

/// Directory-listing output format.
#[derive(Clone, Copy, PartialEq, Eq, Structural, Debug)]
pub enum DirListFmt {
    Html,
    Json,
}

/// CORS allow-lists; all three empty means CORS is disabled.
pub struct Cors {
    pub allow_origins: Vec<Vec<u8>>,
    pub allow_headers: Vec<Vec<u8>>,
    pub expose_headers: Vec<Vec<u8>>,
}

/// The configuration snapshot.
pub struct Snapshot {
    /// Base directory, as segments from the filesystem root.
    pub root_dir: Vec<Vec<u8>>,
    /// File names tried, in order, for a directory request.
    pub index_files: Vec<Vec<u8>>,
    /// Serve a directory listing when no index file exists.
    pub dir_listing: bool,
    /// Listing sort order code (see the listing renderer).
    pub dir_listing_order: u16,
    pub dir_listing_format: DirListFmt,
    /// Allow on-the-fly compression.
    pub compression: bool,
    /// Prefer precompressed sibling files (`name.gz`, `name.br`).
    pub compression_static: bool,
    pub cors: Cors,
    pub security_headers: bool,
    pub cache_control_headers: bool,
    /// Custom error-page paths, as segments from the filesystem root.
    pub page404: Option<Vec<Vec<u8>>>,
    pub page50x: Option<Vec<Vec<u8>>>,
    /// `user:password` credentials; absent disables the auth gate.
    pub basic_auth: Option<Vec<u8>>,
    pub redirect_trailing_slash: bool,
    pub ignore_hidden_files: bool,
    pub log_remote_address: bool,
    /// Enable the fixed liveness path.
    pub health: bool,
    pub maintenance_mode: bool,
    pub maintenance_mode_status: u16,
    pub maintenance_mode_file: Option<Vec<Vec<u8>>>,
    pub advanced: Option<Advanced>,
}

/// A status code the response line can carry.
pub open spec fn spec_valid_status(code: u16) -> bool {
    100 <= code && code <= 999
}

/// An out-of-range status code falls back to 503 (service unavailable).
pub open spec fn spec_normalize_status(code: u16) -> u16 {
    if spec_valid_status(code) {
        code
    } else {
        503
    }
}

/// Relies on `http::StatusCode::from_u16`, which returns `Ok` exactly for
/// codes in `100..=999` and carries the given code, and on
/// `http::StatusCode::as_u16`, which returns that code back.
#[verifier::external_body]
fn status_from_u16(code: u16) -> (r: Option<u16>)
    ensures
        100 <= code && code <= 999 ==> r == Some(code),
        !(100 <= code && code <= 999) ==> r is None,
{
    match http::StatusCode::from_u16(code) {
        Ok(s) => Some(s.as_u16()),
        Err(_) => None,
    }
}

/// Validates a configured status code, falling back to 503, as done when
/// the maintenance status is taken from the settings file.
pub fn normalize_status(code: u16) -> (r: u16)
    ensures
        r == spec_normalize_status(code),
{
    match status_from_u16(code) {
        Some(c) => c,
        None => 503,
    }
}

impl Snapshot {
    /// The defaults every setting falls back to when the corresponding
    /// option is absent from the settings sources.
    pub fn with_defaults(root_dir: Vec<Vec<u8>>) -> (r: Snapshot)
        ensures
            r.root_dir == root_dir,
            r.index_files@.len() == 0,
            !r.dir_listing,
            r.dir_listing_order == 6,
            r.dir_listing_format == DirListFmt::Html,
            r.compression,
            r.compression_static,
            r.cors.allow_origins@.len() == 0,
            r.cors.allow_headers@.len() == 0,
            r.cors.expose_headers@.len() == 0,
            !r.security_headers,
            r.cache_control_headers,
            r.page404 is None,
            r.page50x is None,
            r.basic_auth is None,
            !r.redirect_trailing_slash,
            !r.ignore_hidden_files,
            !r.log_remote_address,
            !r.health,
            !r.maintenance_mode,
            r.maintenance_mode_status == 503,
            r.maintenance_mode_file is None,
            r.advanced is None,
    {
        Snapshot {
            root_dir,
            index_files: Vec::new(),
            dir_listing: false,
            dir_listing_order: 6,
            dir_listing_format: DirListFmt::Html,
            compression: true,
            compression_static: true,
            cors: Cors {
                allow_origins: Vec::new(),
                allow_headers: Vec::new(),
                expose_headers: Vec::new(),
            },
            security_headers: false,
            cache_control_headers: true,
            page404: None,
            page50x: None,
            basic_auth: None,
            redirect_trailing_slash: false,
            ignore_hidden_files: false,
            log_remote_address: false,
            health: false,
            maintenance_mode: false,
            maintenance_mode_status: 503,
            maintenance_mode_file: None,
            advanced: None,
        }
    }
}

} // verus!
