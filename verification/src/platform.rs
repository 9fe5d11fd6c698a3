//! Telling from a path which store an installation came from.

use crate::text::{chars_of, contains, contains_chars};
use vstd::prelude::*;

verus! {

/// The store that an installation came from.
#[derive(Clone, Copy, Debug, PartialEq, Eq, Structural)]
pub enum Platform {
    Steam,
    Epic,
    Rockstar,
    Other,
}

impl Platform {
    /// The tag under which the platform is reported.
    pub open spec fn tag_text(self) -> Seq<char> {
        match self {
            Platform::Steam => "steam"@,
            Platform::Epic => "epic"@,
            Platform::Rockstar => "rockstar"@,
            Platform::Other => "other"@,
        }
    }

    /// The tag under which the platform is reported.
    pub fn tag(self) -> (tag: &'static str)
        ensures
            tag@ == self.tag_text(),
    {
        match self {
            Platform::Steam => "steam",
            Platform::Epic => "epic",
            Platform::Rockstar => "rockstar",
            Platform::Other => "other",
        }
    }
}

/// What `str::to_lowercase` makes of a string: its lower-case form as
/// Unicode defines it.
pub uninterp spec fn lowercase_of(s: Seq<char>) -> Seq<char>;

/// Calls `str::to_lowercase`. Nothing is claimed of the result but that it
/// is the lower-case form of `s`, a function of the characters of `s`.
#[verifier::external_body]
fn to_lowercase(s: &str) -> (lowered: String)
    ensures
        lowered@ == lowercase_of(s@),
{
    s.to_lowercase()
}

/// The platform that a lower-case path names. The keywords are looked for
/// in a fixed order and the first one found decides.
pub open spec fn platform_of_lowered(lowered: Seq<char>) -> Platform {
    if contains(lowered, "steam"@) {
        Platform::Steam
    } else if contains(lowered, "epic"@) {
        Platform::Epic
    } else if contains(lowered, "rockstar"@) {
        Platform::Rockstar
    } else {
        Platform::Other
    }
}

/// The platform that a path names, whatever the case of its letters.
pub open spec fn platform_of(path: Seq<char>) -> Platform {
    platform_of_lowered(lowercase_of(path))
}

/// Classifies a path that is already in lower case.
pub fn classify_lowered(lowered: &str) -> (platform: Platform)
    ensures
        platform == platform_of_lowered(lowered@),
{
    let hay = chars_of(lowered);
    if contains_chars(&hay, &chars_of("steam")) {
        Platform::Steam
    } else if contains_chars(&hay, &chars_of("epic")) {
        Platform::Epic
    } else if contains_chars(&hay, &chars_of("rockstar")) {
        Platform::Rockstar
    } else {
        Platform::Other
    }
}

/// Classifies a path by the store whose name stands in it. The path is
/// taken as it was typed, before any sanitizing.
pub fn classify(path: &str) -> (platform: Platform)
    ensures
        platform == platform_of(path@),
{
    let lowered = to_lowercase(path);
    classify_lowered(lowered.as_str())
}

/// Every path has a platform, and two paths that are the same have the
/// same one.
pub proof fn lemma_platform_is_a_function_of_the_path(a: Seq<char>, b: Seq<char>)
    ensures
        a == b ==> platform_of(a) == platform_of(b),
{
}

/// Where several keywords stand in a path, the order steam, epic, rockstar
/// decides: a keyword counts only where none before it stands in the path,
/// and a path with none of them is of no known platform.
pub proof fn lemma_platform_priority(lowered: Seq<char>)
    ensures
        contains(lowered, "steam"@) ==> platform_of_lowered(lowered) == Platform::Steam,
        !contains(lowered, "steam"@) && contains(lowered, "epic"@) ==> platform_of_lowered(
            lowered,
        ) == Platform::Epic,
        !contains(lowered, "steam"@) && !contains(lowered, "epic"@) && contains(
            lowered,
            "rockstar"@,
        ) ==> platform_of_lowered(lowered) == Platform::Rockstar,
        !contains(lowered, "steam"@) && !contains(lowered, "epic"@) && !contains(
            lowered,
            "rockstar"@,
        ) ==> platform_of_lowered(lowered) == Platform::Other,
{
}

} // verus!
