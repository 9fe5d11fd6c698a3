//! Running the mod installer and gathering what it prints.
//!
//! The installer is a program that ships beside the application. The caller
//! starts it and hands over each event of the child process as it comes;
//! what the child wrote to its standard output, in the order in which it
//! wrote it, is the transcript.

use crate::text::texts;
use vstd::prelude::*;
use vstd::string::*;

verus! {

/// The name under which the installer ships beside the application.
pub fn installer_name() -> (name: &'static str)
    ensures
        name@ == "patcher"@,
{
    "patcher"
}

/// The arguments that make the installer install mod `mod_id` into the
/// game at `game_path`.
pub open spec fn installer_arguments(mod_id: Seq<char>, game_path: Seq<char>) -> Seq<Seq<char>> {
    seq!["install"@, "--mod-id"@, mod_id, "--path"@, game_path]
}

/// The arguments that make the installer install mod `mod_id` into the
/// game at `game_path`.
pub fn installer_args(mod_id: &str, game_path: &str) -> (args: Vec<String>)
    ensures
        texts(args@) == installer_arguments(mod_id@, game_path@),
{
    let mut args: Vec<String> = Vec::new();
    args.push("install".to_owned());
    args.push("--mod-id".to_owned());
    args.push(mod_id.to_owned());
    args.push("--path".to_owned());
    args.push(game_path.to_owned());
    assert(texts(args@) =~= installer_arguments(mod_id@, game_path@));
    args
}

/// Something that the child process did.
#[derive(Clone, Debug, PartialEq, Eq)]
pub enum InstallerEvent {
    /// It wrote these bytes to its standard output.
    Stdout(Vec<u8>),
    /// It wrote these bytes to its standard error.
    Stderr(Vec<u8>),
    /// Reading from it failed, for the reason given.
    Error(String),
    /// It ended, with this exit code and this signal where there was one.
    Terminated { code: Option<i32>, signal: Option<i32> },
}

/// What `String::from_utf8_lossy` makes of a run of bytes: the text that
/// the bytes encode in UTF-8, with U+FFFD where they encode none.
pub uninterp spec fn lossy_text(bytes: Seq<u8>) -> Seq<char>;

/// Calls `String::from_utf8_lossy`. Nothing is claimed of the result but
/// that it is the lossy decoding of `bytes`, a function of the bytes.
#[verifier::external_body]
fn decode_lossy(bytes: &Vec<u8>) -> (text: String)
    ensures
        text@ == lossy_text(bytes@),
{
    String::from_utf8_lossy(bytes).into_owned()
}

/// What an event adds to the transcript: the text of what was written to
/// standard output, and nothing for any other event.
pub open spec fn stdout_text(event: InstallerEvent) -> Seq<char> {
    match event {
        InstallerEvent::Stdout(bytes) => lossy_text(bytes@),
        _ => Seq::empty(),
    }
}

/// The transcript of a run of events: what each added, in order.
pub open spec fn transcript_of(events: Seq<InstallerEvent>) -> Seq<char>
    decreases events.len(),
{
    if events.len() == 0 {
        Seq::empty()
    } else {
        transcript_of(events.drop_last()) + stdout_text(events.last())
    }
}

/// The transcript of a child process while it runs.
pub struct Transcript {
    text: String,
}

impl View for Transcript {
    type V = Seq<char>;

    closed spec fn view(&self) -> Seq<char> {
        self.text@
    }
}

impl Transcript {
    /// The transcript of a child that has done nothing yet.
    pub fn new() -> (transcript: Transcript)
        ensures
            transcript@ == Seq::<char>::empty(),
    {
        Transcript { text: String::new() }
    }

    /// Adds `text` at the end.
    pub fn push_text(&mut self, text: &str)
        ensures
            final(self)@ == old(self)@ + text@,
    {
        self.text.append(text);
    }

    /// Takes note of one event. What the child wrote to standard output is
    /// added at the end, undecodable bytes replaced and not refused; every
    /// other event leaves the transcript as it is.
    pub fn record(&mut self, event: &InstallerEvent)
        ensures
            final(self)@ == old(self)@ + stdout_text(*event),
    {
        match event {
            InstallerEvent::Stdout(bytes) => {
                let line = decode_lossy(bytes);
                self.push_text(line.as_str());
            },
            _ => {
                assert(self@ + Seq::<char>::empty() =~= self@);
            },
        }
    }

    /// The text gathered so far.
    pub fn finish(self) -> (text: String)
        ensures
            text@ == self@,
    {
        self.text
    }
}

/// The transcript of a run of events that is already complete.
pub fn collect_transcript(events: &Vec<InstallerEvent>) -> (text: String)
    ensures
        text@ == transcript_of(events@),
{
    let mut transcript = Transcript::new();
    let mut i: usize = 0;
    while i < events.len()
        invariant
            i <= events.len(),
            transcript@ == transcript_of(events@.take(i as int)),
        decreases events.len() - i,
    {
        transcript.record(&events[i]);
        assert(events@.take(i + 1).drop_last() == events@.take(i as int));
        i += 1;
    }
    assert(events@.take(events.len() as int) == events@);
    transcript.finish()
}

/// An event adds its standard output to the transcript of what came
/// before, and an event that is no standard output adds nothing.
pub proof fn lemma_transcript_push(events: Seq<InstallerEvent>, event: InstallerEvent)
    ensures
        transcript_of(events.push(event)) == transcript_of(events) + stdout_text(event),
        !(event is Stdout) ==> transcript_of(events.push(event)) == transcript_of(events),
{
    assert(events.push(event).drop_last() == events);
    assert(transcript_of(events) + Seq::<char>::empty() =~= transcript_of(events));
}

/// However a run of events is cut in two, the transcript of the whole is
/// the transcript of the first part followed by that of the second.
pub proof fn lemma_transcript_concat(first: Seq<InstallerEvent>, second: Seq<InstallerEvent>)
    ensures
        transcript_of(first + second) == transcript_of(first) + transcript_of(second),
    decreases second.len(),
{
    if second.len() == 0 {
        assert(first + second == first);
        assert(transcript_of(first) + Seq::<char>::empty() =~= transcript_of(first));
    } else {
        lemma_transcript_concat(first, second.drop_last());
        assert((first + second).drop_last() == first + second.drop_last());
        assert((first + second).last() == second.last());
        assert((transcript_of(first) + transcript_of(second.drop_last())) + stdout_text(
            second.last(),
        ) =~= transcript_of(first) + (transcript_of(second.drop_last()) + stdout_text(
            second.last(),
        )));
    }
}

} // verus!
