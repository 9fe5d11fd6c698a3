//! Small answers about the machine that the application runs on: the size
//! of a monitor in words, which graphics adapter to show, where the game
//! keeps its settings, and a greeting.
//!
//! The caller asks the machine; the functions here turn what it learnt
//! into what the user sees.

use crate::text::texts;
use vstd::prelude::*;
use vstd::string::*;

verus! {

/// Why a question about the machine has no answer.
#[derive(Clone, Copy, Debug, PartialEq, Eq, Structural)]
pub enum HostError {
    /// The window is on no monitor.
    MonitorNotFound,
    /// The environment does not name the user's profile directory.
    ProfileNotSet,
}

impl HostError {
    /// The error in words.
    pub open spec fn message_text(self) -> Seq<char> {
        match self {
            HostError::MonitorNotFound => "Monitor not found"@,
            HostError::ProfileNotSet => "USERPROFILE not set"@,
        }
    }

    /// The error in words.
    pub fn message(self) -> (text: String)
        ensures
            text@ == self.message_text(),
    {
        match self {
            HostError::MonitorNotFound => "Monitor not found".to_owned(),
            HostError::ProfileNotSet => "USERPROFILE not set".to_owned(),
        }
    }
}

/// The greeting for `name`.
pub fn greet(name: &str) -> (greeting: String)
    ensures
        greeting@ == "Hello, "@ + name@ + "! You've been greeted from Rust!"@,
{
    let mut greeting = "Hello, ".to_owned();
    greeting.append(name);
    greeting.append("! You've been greeted from Rust!");
    greeting
}

/// The character for the digit `d`.
pub open spec fn digit_char(d: nat) -> char
    recommends
        d < 10,
{
    (48 + d) as char
}

/// `n` in decimal, without leading zeros.
pub open spec fn decimal(n: nat) -> Seq<char>
    decreases n,
{
    if n < 10 {
        seq![digit_char(n)]
    } else {
        decimal(n / 10) + seq![digit_char(n % 10)]
    }
}

fn digit_str(d: u32) -> (digit: &'static str)
    requires
        d < 10,
    ensures
        digit@ == seq![digit_char(d as nat)],
{
    proof {
        reveal_strlit("0");
        reveal_strlit("1");
        reveal_strlit("2");
        reveal_strlit("3");
        reveal_strlit("4");
        reveal_strlit("5");
        reveal_strlit("6");
        reveal_strlit("7");
        reveal_strlit("8");
        reveal_strlit("9");
    }
    let digit = if d == 0 {
        "0"
    } else if d == 1 {
        "1"
    } else if d == 2 {
        "2"
    } else if d == 3 {
        "3"
    } else if d == 4 {
        "4"
    } else if d == 5 {
        "5"
    } else if d == 6 {
        "6"
    } else if d == 7 {
        "7"
    } else if d == 8 {
        "8"
    } else {
        "9"
    };
    assert(digit@ =~= seq![digit_char(d as nat)]);
    digit
}

/// `n` in decimal, without leading zeros.
pub fn decimal_string(n: u32) -> (text: String)
    ensures
        text@ == decimal(n as nat),
    decreases n,
{
    if n < 10 {
        digit_str(n).to_owned()
    } else {
        let mut text = decimal_string(n / 10);
        text.append(digit_str(n % 10));
        text
    }
}

/// A size of `width` by `height` in words: the two numbers in decimal with
/// an `x` between them.
pub open spec fn resolution_text(width: u32, height: u32) -> Seq<char> {
    decimal(width as nat) + seq!['x'] + decimal(height as nat)
}

/// The size of the monitor in words. `size` is the width and the height of
/// the monitor that the window is on, or nothing when it is on none.
pub fn describe_resolution(size: Option<(u32, u32)>) -> (label: Result<String, HostError>)
    ensures
        size is None ==> label == Err::<String, HostError>(HostError::MonitorNotFound),
        size matches Some((width, height)) ==> (label matches Ok(text) && text@
            == resolution_text(width, height)),
{
    match size {
        Some((width, height)) => {
            proof {
                reveal_strlit("x");
            }
            let mut label = decimal_string(width);
            let ghost before = label@;
            label.append("x");
            assert(label@ =~= before + seq!['x']);
            label.append(decimal_string(height).as_str());
            Ok(label)
        },
        None => Err(HostError::MonitorNotFound),
    }
}

/// The memory that counts for an adapter: what it reports, or 0 where it
/// reports none.
pub open spec fn memory_of(ram: Option<u64>) -> u64 {
    match ram {
        Some(bytes) => bytes,
        None => 0,
    }
}

/// Adapter `best` has the most memory of all, and more than every adapter
/// after it: among adapters with equally much the last one is the best.
pub open spec fn is_best_adapter(rams: Seq<Option<u64>>, best: int) -> bool {
    &&& 0 <= best < rams.len()
    &&& forall|j: int| 0 <= j < rams.len() ==> memory_of(#[trigger] rams[j]) <= memory_of(rams[best])
    &&& forall|j: int| best < j < rams.len() ==> memory_of(#[trigger] rams[j]) < memory_of(rams[best])
}

/// The index of the adapter to show, given the memory that each adapter
/// reports: the one with the most memory, which on a machine with two
/// adapters is as a rule the discrete one. Nothing when there is no
/// adapter.
pub fn best_adapter(rams: &Vec<Option<u64>>) -> (best: Option<usize>)
    ensures
        best is None <==> rams.len() == 0,
        best matches Some(index) ==> is_best_adapter(rams@, index as int),
{
    if rams.len() == 0 {
        return None;
    }
    let mut best: usize = 0;
    let mut most: u64 = memory(rams[0]);
    let mut i: usize = 1;
    while i < rams.len()
        invariant
            1 <= i <= rams.len(),
            best < i,
            most == memory_of(rams[best as int]),
            forall|j: int| 0 <= j < i ==> memory_of(#[trigger] rams[j]) <= most,
            forall|j: int| best < j < i ==> memory_of(#[trigger] rams[j]) < most,
        decreases rams.len() - i,
    {
        let here = memory(rams[i]);
        if here >= most {
            best = i;
            most = here;
        }
        i += 1;
    }
    Some(best)
}

fn memory(ram: Option<u64>) -> (bytes: u64)
    ensures
        bytes == memory_of(ram),
{
    match ram {
        Some(bytes) => bytes,
        None => 0,
    }
}

/// Where the settings file lies below the user's profile directory.
pub open spec fn settings_segments() -> Seq<Seq<char>> {
    seq!["Documents"@, "Rockstar Games"@, "GTA V"@, "settings.xml"@]
}

/// Where the game keeps its settings: a profile directory and the segments
/// that lead from it to the file.
#[derive(Clone, Debug, PartialEq, Eq)]
pub struct SettingsLocation {
    pub profile: String,
    pub segments: Vec<String>,
}

/// Where the game keeps its settings, given the user's profile directory as
/// the environment names it. Whether the file exists is not looked at.
pub fn settings_location(user_profile: Option<String>) -> (location: Result<
    SettingsLocation,
    HostError,
>)
    ensures
        user_profile is None ==> location == Err::<SettingsLocation, HostError>(
            HostError::ProfileNotSet,
        ),
        user_profile matches Some(profile) ==> (location matches Ok(found) && found.profile@
            == profile@ && texts(found.segments@) == settings_segments()),
{
    match user_profile {
        None => Err(HostError::ProfileNotSet),
        Some(profile) => {
            let mut segments: Vec<String> = Vec::new();
            segments.push("Documents".to_owned());
            segments.push("Rockstar Games".to_owned());
            segments.push("GTA V".to_owned());
            segments.push("settings.xml".to_owned());
            assert(texts(segments@) =~= settings_segments());
            Ok(SettingsLocation { profile, segments })
        },
    }
}

} // verus!
