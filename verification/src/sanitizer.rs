//! Taking the user's name out of a path.
//!
//! Two rules look for the directory that holds the users' homes and put a
//! placeholder where the name of the user stands. Each rule rewrites the
//! first place where it applies and nothing else; the Windows rule runs
//! first and the Unix rule runs on what it left, whatever kind of path it
//! is. Letters of the prefix are compared without regard to case, and the
//! prefix is kept as it was typed.
//!
//! A path in which neither rule applies passes unchanged. The rules help
//! to keep a name private; they do not promise that none is left.
//!
//! The module states what the rules do as functions on sequences of
//! characters, computes them, and in `laws` proves what follows.

pub mod laws;

use crate::text::chars_of;
use vstd::prelude::*;
use vstd::string::*;

verus! {

/// One of the two rewriting rules.
#[derive(Clone, Copy, Debug, PartialEq, Eq, Structural)]
pub enum Rule {
    /// A drive letter, a colon, a separator, `Users`, a separator, then the
    /// user's directory, which ends at the next `\` or `/`.
    Windows,
    /// `/home/` or `/Users/`, then the user's directory, which ends at the
    /// next `/`.
    Unix,
}

/// The marker that stands for the user's name.
pub open spec fn placeholder() -> Seq<char> {
    seq!['<', 'U', 'S', 'E', 'R', '>']
}

/// The marker that stands for the user's name.
pub fn placeholder_str() -> (marker: &'static str)
    ensures
        marker@ == placeholder(),
{
    proof {
        reveal_strlit("<USER>");
    }
    let marker = "<USER>";
    assert(marker@ =~= placeholder());
    marker
}

/// `\` and `/` both separate the segments of a Windows path.
pub open spec fn is_separator(c: char) -> bool {
    c == '\\' || c == '/'
}

/// `c` is `letter` when case is ignored. `letter` is a lower-case ASCII
/// letter; besides its upper-case form, the long s (U+017F) counts as `s`
/// and the Kelvin sign (U+212A) as `k`, as Unicode's simple case folding has
/// it.
pub open spec fn same_letter(c: char, letter: char) -> bool {
    ||| c == letter
    ||| ('a' <= letter <= 'z' && c as int + 32 == letter as int)
    ||| (letter == 's' && c == '\u{17f}')
    ||| (letter == 'k' && c == '\u{212a}')
}

/// `c` is one of the letters `a` to `z` when case is ignored.
pub open spec fn is_drive_letter(c: char) -> bool {
    ||| 'a' <= c <= 'z'
    ||| 'A' <= c <= 'Z'
    ||| c == '\u{17f}'
    ||| c == '\u{212a}'
}

/// The five characters from `at` on spell `users`, case ignored.
pub open spec fn users_at(s: Seq<char>, at: int) -> bool {
    &&& same_letter(s[at], 'u')
    &&& same_letter(s[at + 1], 's')
    &&& same_letter(s[at + 2], 'e')
    &&& same_letter(s[at + 3], 'r')
    &&& same_letter(s[at + 4], 's')
}

/// The four characters from `at` on spell `home`, case ignored.
pub open spec fn home_at(s: Seq<char>, at: int) -> bool {
    &&& same_letter(s[at], 'h')
    &&& same_letter(s[at + 1], 'o')
    &&& same_letter(s[at + 2], 'm')
    &&& same_letter(s[at + 3], 'e')
}

/// The length of the prefix that `rule` recognises at `at`: the text up to
/// and including the separator before the user's directory. It is 0 where
/// the rule recognises none.
pub open spec fn prefix_len(rule: Rule, s: Seq<char>, at: int) -> int {
    match rule {
        Rule::Windows => if 0 <= at && at + 9 <= s.len() && is_drive_letter(s[at]) && s[at + 1]
            == ':' && is_separator(s[at + 2]) && users_at(s, at + 3) && is_separator(s[at + 8]) {
            9
        } else {
            0
        },
        Rule::Unix => if 0 <= at && at + 6 <= s.len() && s[at] == '/' && home_at(s, at + 1)
            && s[at + 5] == '/' {
            6
        } else if 0 <= at && at + 7 <= s.len() && s[at] == '/' && users_at(s, at + 1) && s[at
            + 6] == '/' {
            7
        } else {
            0
        },
    }
}

/// `c` can be part of the user's directory name under `rule`.
pub open spec fn in_segment(rule: Rule, c: char) -> bool {
    match rule {
        Rule::Windows => !is_separator(c),
        Rule::Unix => c != '/',
    }
}

/// `rule` applies at `at`: its prefix stands there and at least one
/// character of a directory name follows.
pub open spec fn match_at(rule: Rule, s: Seq<char>, at: int) -> bool {
    let kept = at + prefix_len(rule, s, at);
    &&& prefix_len(rule, s, at) > 0
    &&& kept < s.len()
    &&& in_segment(rule, s[kept])
}

/// `rule` applies at `at` and nowhere before.
pub open spec fn is_first_match(rule: Rule, s: Seq<char>, at: int) -> bool {
    &&& match_at(rule, s, at)
    &&& forall|earlier: int| 0 <= earlier < at ==> !match_at(rule, s, earlier)
}

/// `rule` applies somewhere in `s`.
pub open spec fn has_match(rule: Rule, s: Seq<char>) -> bool {
    exists|at: int| match_at(rule, s, at)
}

/// The first index at which `rule` applies, where it applies at all.
pub open spec fn first_match(rule: Rule, s: Seq<char>) -> int {
    choose|at: int| is_first_match(rule, s, at)
}

/// Where the directory name that starts at `from` ends: the index of the
/// first character from there on that cannot be part of it, or the length
/// of `s`.
pub open spec fn segment_end(rule: Rule, s: Seq<char>, from: int) -> int
    decreases s.len() - from,
{
    if 0 <= from < s.len() && in_segment(rule, s[from]) {
        segment_end(rule, s, from + 1)
    } else {
        from
    }
}

/// `s` after `rule`: where the rule applies, the directory name behind its
/// first prefix gives way to the placeholder; elsewhere `s` is unchanged.
pub open spec fn rewritten(rule: Rule, s: Seq<char>) -> Seq<char> {
    if has_match(rule, s) {
        let at = first_match(rule, s);
        let kept = at + prefix_len(rule, s, at);
        s.subrange(0, kept) + placeholder() + s.subrange(
            segment_end(rule, s, kept),
            s.len() as int,
        )
    } else {
        s
    }
}

/// `s` after both rules, the Windows rule first.
pub open spec fn sanitized(s: Seq<char>) -> Seq<char> {
    rewritten(Rule::Unix, rewritten(Rule::Windows, s))
}

/// There is at most one first match.
pub proof fn lemma_first_match_is_unique(rule: Rule, s: Seq<char>, at: int)
    requires
        is_first_match(rule, s, at),
    ensures
        has_match(rule, s),
        first_match(rule, s) == at,
{
    let chosen = first_match(rule, s);
    assert(is_first_match(rule, s, chosen));
    if chosen < at {
        assert(!match_at(rule, s, chosen));
    }
    if at < chosen {
        assert(!match_at(rule, s, at));
    }
}

fn is_letter(c: char, letter: char) -> (same: bool)
    ensures
        same == same_letter(c, letter),
{
    c == letter || ('a' <= letter && letter <= 'z' && c as u32 + 32 == letter as u32) || (letter
        == 's' && c == '\u{17f}') || (letter == 'k' && c == '\u{212a}')
}

fn spells_users(s: &Vec<char>, at: usize) -> (spelled: bool)
    requires
        at + 5 <= s.len(),
    ensures
        spelled == users_at(s@, at as int),
{
    is_letter(s[at], 'u') && is_letter(s[at + 1], 's') && is_letter(s[at + 2], 'e') && is_letter(
        s[at + 3],
        'r',
    ) && is_letter(s[at + 4], 's')
}

fn spells_home(s: &Vec<char>, at: usize) -> (spelled: bool)
    requires
        at + 4 <= s.len(),
    ensures
        spelled == home_at(s@, at as int),
{
    is_letter(s[at], 'h') && is_letter(s[at + 1], 'o') && is_letter(s[at + 2], 'm') && is_letter(
        s[at + 3],
        'e',
    )
}

fn separates(c: char) -> (sep: bool)
    ensures
        sep == is_separator(c),
{
    c == '\\' || c == '/'
}

fn names_drive(c: char) -> (drive: bool)
    ensures
        drive == is_drive_letter(c),
{
    ('a' <= c && c <= 'z') || ('A' <= c && c <= 'Z') || c == '\u{17f}' || c == '\u{212a}'
}

fn belongs_to_segment(rule: Rule, c: char) -> (inside: bool)
    ensures
        inside == in_segment(rule, c),
{
    match rule {
        Rule::Windows => !separates(c),
        Rule::Unix => c != '/',
    }
}

/// The length of the prefix that `rule` recognises at `at`, or 0.
fn prefix_length(rule: Rule, s: &Vec<char>, at: usize) -> (len: usize)
    requires
        at <= s.len(),
    ensures
        len == prefix_len(rule, s@, at as int),
{
    let room: usize = s.len() - at;
    match rule {
        Rule::Windows => {
            if room >= 9 && names_drive(s[at]) && s[at + 1] == ':' && separates(s[at + 2])
                && spells_users(s, at + 3) && separates(s[at + 8]) {
                9
            } else {
                0
            }
        },
        Rule::Unix => {
            if room >= 6 && s[at] == '/' && spells_home(s, at + 1) && s[at + 5] == '/' {
                6
            } else if room >= 7 && s[at] == '/' && spells_users(s, at + 1) && s[at + 6] == '/' {
                7
            } else {
                0
            }
        },
    }
}

/// The first index at which `rule` applies, with the index behind its
/// prefix there.
fn find_first_match(rule: Rule, s: &Vec<char>) -> (found: Option<(usize, usize)>)
    ensures
        match found {
            Some((at, kept)) => is_first_match(rule, s@, at as int) && kept == at + prefix_len(
                rule,
                s@,
                at as int,
            ) && kept < s.len(),
            None => !has_match(rule, s@),
        },
{
    let mut at: usize = 0;
    while at < s.len()
        invariant
            at <= s.len(),
            forall|earlier: int| 0 <= earlier < at ==> !match_at(rule, s@, earlier),
        decreases s.len() - at,
    {
        let len = prefix_length(rule, s, at);
        if len > 0 && at + len < s.len() && belongs_to_segment(rule, s[at + len]) {
            return Some((at, at + len));
        }
        at += 1;
    }
    assert forall|any: int| !match_at(rule, s@, any) by {}
    None
}

/// Where the directory name that starts at `from` ends.
fn find_segment_end(rule: Rule, s: &Vec<char>, from: usize) -> (end: usize)
    requires
        from <= s.len(),
    ensures
        end == segment_end(rule, s@, from as int),
        from <= end <= s.len(),
{
    let mut end: usize = from;
    while end < s.len() && belongs_to_segment(rule, s[end])
        invariant
            from <= end <= s.len(),
            segment_end(rule, s@, from as int) == segment_end(rule, s@, end as int),
        decreases s.len() - end,
    {
        end += 1;
    }
    end
}

/// Applies one rule to `path`.
pub fn rewrite(rule: Rule, path: &str) -> (out: String)
    ensures
        out@ == rewritten(rule, path@),
{
    let chars = chars_of(path);
    match find_first_match(rule, &chars) {
        None => path.to_owned(),
        Some((at, kept)) => {
            proof {
                lemma_first_match_is_unique(rule, path@, at as int);
            }
            let end = find_segment_end(rule, &chars, kept);
            let mut out = path.substring_char(0, kept).to_owned();
            out.append(placeholder_str());
            out.append(path.substring_char(end, chars.len()));
            out
        },
    }
}

/// Takes the user's name out of `path`: the Windows rule, then the Unix
/// rule on what it left.
pub fn sanitize(path: &str) -> (out: String)
    ensures
        out@ == sanitized(path@),
{
    let after_windows = rewrite(Rule::Windows, path);
    rewrite(Rule::Unix, after_windows.as_str())
}

} // verus!
