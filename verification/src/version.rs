//! API version definitions.

use vstd::prelude::*;
use crate::text::{owned, str_eq};

verus! {

/// Available API versions.
#[derive(Debug, Clone, Copy, PartialEq, Eq, Hash, Structural)]
pub enum ApiVersion {
    /// API Version 1
    V1,
}

/// The current/latest API version.
pub const API_CURRENT_VERSION: ApiVersion = ApiVersion::V1;

/// The URL path prefix of a version.
pub open spec fn spec_path_prefix(v: ApiVersion) -> Seq<char> {
    match v {
        ApiVersion::V1 => "/api/v1"@,
    }
}

/// The short name of a version.
pub open spec fn spec_version_name(v: ApiVersion) -> Seq<char> {
    match v {
        ApiVersion::V1 => "v1"@,
    }
}

/// Lower-case form of a string, as `str::to_lowercase` computes it.
pub uninterp spec fn str_to_lowercase(s: Seq<char>) -> Seq<char>;

/// An ASCII character in lower case: `A`..`Z` become `a`..`z`, the rest stay.
pub open spec fn ascii_lower_char(c: char) -> char {
    if 65 <= (c as int) && (c as int) <= 90 {
        ((c as int) + 32) as char
    } else {
        c
    }
}

/// Every character of `s` is ASCII.
pub open spec fn is_ascii_text(s: Seq<char>) -> bool {
    forall|i: int| 0 <= i < s.len() ==> (#[trigger] s[i] as int) < 128
}

/// Every letter of an ASCII text in lower case.
pub open spec fn ascii_lowercase(s: Seq<char>) -> Seq<char> {
    s.map_values(|c: char| ascii_lower_char(c))
}

/// The lower-case form of a text: an ASCII text lower-cased letter by
/// letter, any other text as `str::to_lowercase` maps it.
pub open spec fn lowercase_of(s: Seq<char>) -> Seq<char> {
    if is_ascii_text(s) {
        ascii_lowercase(s)
    } else {
        str_to_lowercase(s)
    }
}

/// Calls `str::to_lowercase`; its result is named by `str_to_lowercase`,
/// a function of the input alone. Of the full Unicode case mapping only the
/// ASCII part is restated: an ASCII text is lower-cased letter by letter.
#[verifier::external_body]
pub fn to_lowercase(s: &str) -> (r: String)
    ensures
        r@ == str_to_lowercase(s@),
        r@ == lowercase_of(s@),
{
    s.to_lowercase()
}

/// The version named by an already lower-cased string, if any.
pub open spec fn spec_version_from_lower(lower: Seq<char>) -> Option<ApiVersion> {
    if lower == "v1"@ || lower == "1"@ {
        Some(ApiVersion::V1)
    } else {
        None
    }
}

impl ApiVersion {
    /// Get the URL path prefix for this version.
    pub fn path_prefix(&self) -> (r: &'static str)
        ensures
            r@ == spec_path_prefix(*self),
    {
        match self {
            ApiVersion::V1 => "/api/v1",
        }
    }

    /// Get the version string (e.g., "v1").
    pub fn as_str(&self) -> (r: &'static str)
        ensures
            r@ == spec_version_name(*self),
    {
        match self {
            ApiVersion::V1 => "v1",
        }
    }

    /// Get all available API versions.
    pub fn all() -> (r: Vec<ApiVersion>)
        ensures
            r@ == seq![ApiVersion::V1],
    {
        vec![ApiVersion::V1]
    }

    /// Get all version strings.
    pub fn all_strings() -> (r: Vec<String>)
        ensures
            r.len() == 1,
            r@[0]@ == spec_version_name(ApiVersion::V1),
    {
        let all = Self::all();
        let mut out: Vec<String> = Vec::new();
        let mut i: usize = 0;
        while i < all.len()
            invariant
                all@ == seq![ApiVersion::V1],
                i <= all.len(),
                out.len() == i,
                forall|j: int| 0 <= j < i ==> out@[j]@ == spec_version_name(all@[j]),
            decreases all.len() - i,
        {
            out.push(owned(all[i].as_str()));
            i = i + 1;
        }
        out
    }

    /// The version string, as the `Display` form shows it.
    pub fn to_display_string(&self) -> (r: String)
        ensures
            r@ == spec_version_name(*self),
    {
        owned(self.as_str())
    }

    /// Parse a version name, ignoring case: "v1" or "1".
    pub fn parse(s: &str) -> (r: Result<ApiVersion, String>)
        ensures
            r is Ok <==> spec_version_from_lower(lowercase_of(s@)) is Some,
            r matches Ok(v) ==> Some(v) == spec_version_from_lower(lowercase_of(s@)),
            r matches Err(msg) ==> msg@ == "Unknown API version: "@ + s@,
    {
        let lower = to_lowercase(s);
        if str_eq(lower.as_str(), "v1") || str_eq(lower.as_str(), "1") {
            Ok(ApiVersion::V1)
        } else {
            Err(owned("Unknown API version: ").concat(s))
        }
    }
}

impl std::str::FromStr for ApiVersion {
    type Err = String;

    /// Parse a version name, ignoring case, as `ApiVersion::parse` does.
    fn from_str(s: &str) -> (r: Result<Self, Self::Err>)
        ensures
            r is Ok <==> spec_version_from_lower(lowercase_of(s@)) is Some,
            r matches Ok(v) ==> Some(v) == spec_version_from_lower(lowercase_of(s@)),
            r matches Err(msg) ==> msg@ == "Unknown API version: "@ + s@,
    {
        ApiVersion::parse(s)
    }
}

} // verus!
