//! Validation of the server's own settings: host, port and log level.

use vstd::prelude::*;
use crate::text::{owned, str_eq};
use crate::version::{lowercase_of, to_lowercase};

verus! {

/// ASCII letter or digit.
pub open spec fn is_ascii_alnum(c: char) -> bool {
    ('0' <= c && c <= '9') || ('a' <= c && c <= 'z') || ('A' <= c && c <= 'Z')
}

/// Exec form of `is_ascii_alnum`.
pub fn ascii_alnum(c: char) -> (r: bool)
    ensures
        r == is_ascii_alnum(c),
{
    ('0' <= c && c <= '9') || ('a' <= c && c <= 'z') || ('A' <= c && c <= 'Z')
}

/// The pieces of `s` between dots, as `str::split('.')` yields them
/// (an empty string gives one empty piece).
pub open spec fn split_dots(s: Seq<char>) -> Seq<Seq<char>>
    decreases s.len(),
{
    if s.len() == 0 {
        seq![Seq::<char>::empty()]
    } else {
        let r = split_dots(s.drop_last());
        if s.last() == '.' {
            r.push(Seq::<char>::empty())
        } else {
            r.update(r.len() - 1, r.last().push(s.last()))
        }
    }
}

proof fn lemma_split_dots_nonempty(s: Seq<char>)
    ensures
        split_dots(s).len() >= 1,
    decreases s.len(),
{
    if s.len() > 0 {
        lemma_split_dots_nonempty(s.drop_last());
    }
}

/// An RFC 1123 label: 1 to 63 characters, ASCII letters, digits and hyphens,
/// starting and ending with a letter or digit.
pub open spec fn label_ok(l: Seq<char>) -> bool {
    &&& 1 <= l.len() <= 63
    &&& is_ascii_alnum(l[0])
    &&& is_ascii_alnum(l.last())
    &&& forall|k: int| 0 <= k < l.len() ==> is_ascii_alnum(#[trigger] l[k]) || l[k] == '-'
}

/// A valid hostname: 1 to 253 characters whose dot-separated labels are all valid.
pub open spec fn valid_hostname(h: Seq<char>) -> bool {
    &&& 1 <= h.len() <= 253
    &&& forall|j: int| 0 <= j < split_dots(h).len() ==> label_ok(#[trigger] split_dots(h)[j])
}

fn label_is_ok(l: &Vec<char>) -> (r: bool)
    ensures
        r == label_ok(l@),
{
    if l.len() == 0 || l.len() > 63 {
        return false;
    }
    if !ascii_alnum(l[0]) || !ascii_alnum(l[l.len() - 1]) {
        return false;
    }
    let mut k: usize = 0;
    while k < l.len()
        invariant
            k <= l.len(),
            forall|m: int| 0 <= m < k ==> is_ascii_alnum(#[trigger] l@[m]) || l@[m] == '-',
        decreases l.len() - k,
    {
        if !(ascii_alnum(l[k]) || l[k] == '-') {
            return false;
        }
        k = k + 1;
    }
    true
}

/// Validate hostname format according to RFC 1123.
pub fn is_valid_hostname(hostname: &str) -> (r: bool)
    ensures
        r == valid_hostname(hostname@),
{
    let ghost h = hostname@;
    let n = hostname.unicode_len();
    let mut cur: Vec<char> = Vec::new();
    let mut ok = true;
    let mut i: usize = 0;
    let ghost mut parts: Seq<Seq<char>> = seq![Seq::<char>::empty()];
    assert(h.subrange(0, 0) =~= Seq::<char>::empty());
    while i < n
        invariant
            h == hostname@,
            n == h.len(),
            i <= n,
            parts == split_dots(h.subrange(0, i as int)),
            parts.len() >= 1,
            cur@ == parts.last(),
            ok == forall|j: int| 0 <= j < parts.len() - 1 ==> label_ok(#[trigger] parts[j]),
        decreases n - i,
    {
        let c = hostname.get_char(i);
        let ghost prev = parts;
        assert(h.subrange(0, i + 1).drop_last() =~= h.subrange(0, i as int));
        if c == '.' {
            ok = ok && label_is_ok(&cur);
            cur = Vec::new();
            proof {
                parts = prev.push(Seq::<char>::empty());
                assert(cur@ =~= parts.last());
                assert forall|j: int| 0 <= j < prev.len() implies #[trigger] parts[j] == prev[j] by {}
                if ok {
                    assert forall|j: int| 0 <= j < parts.len() - 1 implies label_ok(#[trigger] parts[j]) by {
                        assert(parts[j] == prev[j]);
                    }
                } else {
                    if !(forall|j: int| 0 <= j < prev.len() - 1 ==> label_ok(#[trigger] prev[j])) {
                        let j = choose|j: int| 0 <= j < prev.len() - 1 && !label_ok(#[trigger] prev[j]);
                        assert(!label_ok(parts[j]));
                    } else {
                        assert(!label_ok(parts[prev.len() - 1]));
                    }
                }
            }
        } else {
            cur.push(c);
            proof {
                parts = prev.update(prev.len() - 1, prev.last().push(c));
                assert forall|j: int| 0 <= j < parts.len() - 1 implies #[trigger] parts[j] == prev[j] by {}
                if ok {
                    assert forall|j: int| 0 <= j < parts.len() - 1 implies label_ok(#[trigger] parts[j]) by {
                        assert(parts[j] == prev[j]);
                    }
                } else {
                    let j = choose|j: int| 0 <= j < prev.len() - 1 && !label_ok(#[trigger] prev[j]);
                    assert(!label_ok(parts[j]));
                }
            }
        }
        i = i + 1;
    }
    assert(h.subrange(0, n as int) =~= h);
    let last_ok = label_is_ok(&cur);
    let r = n >= 1 && n <= 253 && ok && last_ok;
    proof {
        if r {
            assert forall|j: int| 0 <= j < parts.len() implies label_ok(#[trigger] parts[j]) by {
                if j == parts.len() - 1 {
                } else {
                }
            }
        } else if 1 <= n <= 253 {
            if !ok {
                let j = choose|j: int| 0 <= j < parts.len() - 1 && !label_ok(#[trigger] parts[j]);
                assert(!label_ok(split_dots(h)[j]));
            } else {
                assert(!label_ok(split_dots(h)[parts.len() - 1]));
            }
        }
    }
    r
}

/// The log levels the server accepts.
pub open spec fn is_known_log_level(lower: Seq<char>) -> bool {
    lower == "trace"@ || lower == "debug"@ || lower == "info"@ || lower == "warn"@ || lower
        == "error"@
}

/// An error in the server settings.
#[derive(Debug, PartialEq, Eq)]
pub enum SettingsError {
    /// The host is neither a hostname nor an IP address.
    InvalidHost(String),
    /// Port 0 was given.
    InvalidPort,
    /// The log level is not one of trace, debug, info, warn, error.
    InvalidLogLevel(String),
}

/// Whether a host setting is acceptable: empty, the wildcard address, a
/// hostname, or (as `host_is_ip` reports) an IP address.
pub open spec fn host_ok(host: Seq<char>, host_is_ip: bool) -> bool {
    host.len() == 0 || host == "0.0.0.0"@ || valid_hostname(host) || host_is_ip
}

/// The first problem in a set of server settings, if any.
pub open spec fn settings_error(
    host: Seq<char>,
    host_is_ip: bool,
    port: u16,
    log_level: Seq<char>,
) -> Option<SettingsErrorKind> {
    if !host_ok(host, host_is_ip) {
        Some(SettingsErrorKind::InvalidHost)
    } else if port == 0 {
        Some(SettingsErrorKind::InvalidPort)
    } else if !is_known_log_level(lowercase_of(log_level)) {
        Some(SettingsErrorKind::InvalidLogLevel)
    } else {
        None
    }
}

/// Which setting was rejected.
pub enum SettingsErrorKind {
    InvalidHost,
    InvalidPort,
    InvalidLogLevel,
}

impl SettingsError {
    /// The kind of this error.
    pub open spec fn kind(self) -> SettingsErrorKind {
        match self {
            SettingsError::InvalidHost(_) => SettingsErrorKind::InvalidHost,
            SettingsError::InvalidPort => SettingsErrorKind::InvalidPort,
            SettingsError::InvalidLogLevel(_) => SettingsErrorKind::InvalidLogLevel,
        }
    }

    /// The message the server reports for this error.
    pub fn message(&self) -> (r: String)
        ensures
            match self {
                SettingsError::InvalidHost(h) => r@ == "Invalid host '"@ + h@
                    + "': must be a valid hostname or IP address"@,
                SettingsError::InvalidPort => r@
                    == "Invalid port 0: port must be between 1 and 65535"@,
                SettingsError::InvalidLogLevel(l) => r@ == "Invalid log level '"@ + l@
                    + "': must be one of trace, debug, info, warn, error"@,
            },
    {
        match self {
            SettingsError::InvalidHost(h) => owned("Invalid host '").concat(h.as_str()).concat(
                "': must be a valid hostname or IP address",
            ),
            SettingsError::InvalidPort => owned(
                "Invalid port 0: port must be between 1 and 65535",
            ),
            SettingsError::InvalidLogLevel(l) => owned("Invalid log level '").concat(
                l.as_str(),
            ).concat("': must be one of trace, debug, info, warn, error"),
        }
    }
}

/// Validate resolved server settings: the host must be empty, `0.0.0.0`, a
/// valid hostname or an IP address (`host_is_ip` tells whether it parses as
/// one); the port must not be 0; the log level must be one of trace, debug,
/// info, warn, error (in any case).
pub fn validate_server_settings(
    host: &str,
    host_is_ip: bool,
    port: u16,
    log_level: &str,
) -> (r: Result<(), SettingsError>)
    ensures
        r is Ok <==> settings_error(host@, host_is_ip, port, log_level@) is None,
        r matches Err(e) ==> Some(e.kind()) == settings_error(host@, host_is_ip, port, log_level@),
        r matches Err(SettingsError::InvalidHost(h)) ==> h@ == host@,
        r matches Err(SettingsError::InvalidLogLevel(l)) ==> l@ == log_level@,
{
    let host_empty = host.unicode_len() == 0;
    if !host_empty && !str_eq(host, "0.0.0.0") && !is_valid_hostname(host) && !host_is_ip {
        return Err(SettingsError::InvalidHost(owned(host)));
    }
    if port == 0 {
        return Err(SettingsError::InvalidPort);
    }
    let lower = to_lowercase(log_level);
    let l = lower.as_str();
    if !(str_eq(l, "trace") || str_eq(l, "debug") || str_eq(l, "info") || str_eq(l, "warn")
        || str_eq(l, "error")) {
        return Err(SettingsError::InvalidLogLevel(owned(log_level)));
    }
    Ok(())
}

} // verus!
