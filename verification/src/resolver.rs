//! Finding the directory that holds the game, and reporting one that the
//! user has named.
//!
//! Both tasks need to know whether the game's executable lies directly in
//! some directory. The functions here never look themselves: they say which
//! directory to look into and take the answer as an argument. A directory
//! is reported, or returned as found, only after the answer for that very
//! directory was yes.

use crate::analytics::{
    popular_or_empty, popular_templates, report_endpoint, templates_of, AnalyticsPayload,
    FetchError, PathStat,
};
use crate::platform::{classify, platform_of};
use crate::sanitizer::{placeholder, placeholder_str, sanitize, sanitized};
use crate::text::{chars_of, occurs_at, occurs_at_index, texts};
use vstd::prelude::*;
use vstd::string::*;

verus! {

/// The name of the file whose presence directly inside a directory shows
/// that the game is installed there.
pub fn target_executable() -> (name: &'static str)
    ensures
        name@ == "GTA5.exe"@,
{
    "GTA5.exe"
}

/// Why no directory was reported or found.
#[derive(Clone, Copy, Debug, PartialEq, Eq, Structural)]
pub enum ResolveError {
    /// The directory that was named does not hold the executable.
    NotFound,
    /// Neither a popular place nor a usual one holds the executable.
    DetectionFailed,
}

impl ResolveError {
    /// The error in words.
    pub open spec fn message_text(self) -> Seq<char> {
        match self {
            ResolveError::NotFound => "GTA5.exe not found in the specified directory"@,
            ResolveError::DetectionFailed => "Could not auto-detect game path"@,
        }
    }

    /// The error in words.
    pub fn message(self) -> (text: String)
        ensures
            text@ == self.message_text(),
    {
        match self {
            ResolveError::NotFound => "GTA5.exe not found in the specified directory".to_owned(),
            ResolveError::DetectionFailed => "Could not auto-detect game path".to_owned(),
        }
    }
}

/// The name under which the user is known on this machine: the name that
/// the environment gave, or `User` where it gave none.
pub fn local_identity(user_name: Option<String>) -> (identity: String)
    ensures
        identity@ == match user_name {
            Some(name) => name@,
            None => "User"@,
        },
{
    match user_name {
        Some(name) => name,
        None => "User".to_owned(),
    }
}

/// `template` from index `from` on, with `identity` in place of every
/// placeholder. Placeholders are found from left to right and do not
/// overlap.
pub open spec fn fill_from(template: Seq<char>, identity: Seq<char>, from: int) -> Seq<char>
    decreases template.len() - from,
{
    if from < 0 || from >= template.len() {
        Seq::empty()
    } else if occurs_at(template, from, placeholder()) {
        identity + fill_from(template, identity, from + 6)
    } else {
        seq![template[from]] + fill_from(template, identity, from + 1)
    }
}

/// `template` with `identity` in place of every placeholder.
pub open spec fn fill_identity(template: Seq<char>, identity: Seq<char>) -> Seq<char> {
    fill_from(template, identity, 0)
}

/// Puts `identity` in place of every placeholder in `template`.
pub fn substitute_identity(template: &str, identity: &str) -> (path: String)
    ensures
        path@ == fill_identity(template@, identity@),
{
    let chars = chars_of(template);
    let marker = chars_of(placeholder_str());
    let mut path = String::new();
    let mut copied: usize = 0;
    let mut at: usize = 0;
    while at < chars.len()
        invariant
            chars@ == template@,
            marker@ == placeholder(),
            copied <= at <= chars.len(),
            path@ + chars@.subrange(copied as int, at as int) + fill_from(
                chars@,
                identity@,
                at as int,
            ) == fill_identity(chars@, identity@),
        decreases chars.len() - at,
    {
        if occurs_at_index(&chars, at, &marker) {
            path.append(template.substring_char(copied, at));
            path.append(identity);
            at += 6;
            copied = at;
            assert(chars@.subrange(copied as int, at as int) == Seq::<char>::empty());
        } else {
            assert(chars@.subrange(copied as int, at + 1) == chars@.subrange(
                copied as int,
                at as int,
            ) + seq![chars@[at as int]]);
            at += 1;
        }
    }
    path.append(template.substring_char(copied, at));
    path
}

/// The usual places of the game, in the order in which they are tried.
pub open spec fn fallback_dirs() -> Seq<Seq<char>> {
    seq![
        "C:\\Program Files\\Rockstar Games\\Grand Theft Auto V"@,
        "C:\\Program Files (x86)\\Rockstar Games\\Grand Theft Auto V"@,
        "C:\\Program Files (x86)\\Steam\\steamapps\\common\\Grand Theft Auto V"@,
        "D:\\SteamLibrary\\steamapps\\common\\Grand Theft Auto V"@,
        "E:\\SteamLibrary\\steamapps\\common\\Grand Theft Auto V"@,
        "C:\\Program Files\\Epic Games\\GTAV"@,
    ]
}

/// The usual places of the game, in the order in which they are tried.
pub fn fallback_directories() -> (dirs: Vec<String>)
    ensures
        texts(dirs@) == fallback_dirs(),
{
    let mut dirs: Vec<String> = Vec::new();
    dirs.push("C:\\Program Files\\Rockstar Games\\Grand Theft Auto V".to_owned());
    dirs.push("C:\\Program Files (x86)\\Rockstar Games\\Grand Theft Auto V".to_owned());
    dirs.push("C:\\Program Files (x86)\\Steam\\steamapps\\common\\Grand Theft Auto V".to_owned());
    dirs.push("D:\\SteamLibrary\\steamapps\\common\\Grand Theft Auto V".to_owned());
    dirs.push("E:\\SteamLibrary\\steamapps\\common\\Grand Theft Auto V".to_owned());
    dirs.push("C:\\Program Files\\Epic Games\\GTAV".to_owned());
    assert(texts(dirs@) =~= fallback_dirs());
    dirs
}

/// Every directory that a search looks into, in order: the popular places
/// as the service ranked them, each with `identity` for the placeholder,
/// then the usual places.
pub open spec fn candidate_dirs(templates: Seq<Seq<char>>, identity: Seq<char>) -> Seq<Seq<char>> {
    Seq::new(templates.len(), |i: int| fill_identity(templates[i], identity)) + fallback_dirs()
}

fn candidate_list(stats: &Vec<PathStat>, identity: &str) -> (candidates: Vec<String>)
    ensures
        texts(candidates@) == candidate_dirs(templates_of(stats@), identity@),
{
    let mut candidates: Vec<String> = Vec::new();
    let mut i: usize = 0;
    while i < stats.len()
        invariant
            i <= stats.len(),
            candidates.len() == i,
            forall|k: int|
                0 <= k < i ==> (#[trigger] candidates[k])@ == fill_identity(
                    stats[k].path@,
                    identity@,
                ),
        decreases stats.len() - i,
    {
        candidates.push(substitute_identity(stats[i].path.as_str(), identity));
        i += 1;
    }
    let mut fallbacks = fallback_directories();
    let ghost usual = fallbacks@;
    candidates.append(&mut fallbacks);
    assert(texts(candidates@) =~= candidate_dirs(templates_of(stats@), identity@)) by {
        assert forall|k: int| 0 <= k < candidates.len() implies texts(candidates@)[k]
            == candidate_dirs(templates_of(stats@), identity@)[k] by {
            if k >= stats.len() {
                assert(candidates[k] == usual[k - stats.len()]);
                assert(texts(usual)[k - stats.len()] == fallback_dirs()[k - stats.len()]);
            }
        }
    }
    candidates
}

/// A search that waits for one answer: does `directory` hold the
/// executable?
pub struct ProbeState {
    /// Every directory that the search looks into, in order.
    pub candidates: Seq<Seq<char>>,
    /// How many of them, from the start, are popular places.
    pub popular: nat,
    /// The index of the directory that the answer is about.
    pub cursor: nat,
}

impl ProbeState {
    /// The directory that the answer is about.
    pub open spec fn directory(self) -> Seq<char> {
        self.candidates[self.cursor as int]
    }

    /// The cursor points at a candidate.
    pub open spec fn valid(self) -> bool {
        &&& self.cursor < self.candidates.len()
        &&& self.popular <= self.candidates.len()
    }
}

/// Where a search stands.
pub enum DetectionState {
    /// It waits for the answer for one directory.
    Probing(ProbeState),
    /// It has ended: the directory holds the executable.
    Found(Seq<char>),
    /// It has ended without a directory.
    Failed(ResolveError),
}

/// Where a search starts: at the first candidate.
pub open spec fn first_probe(candidates: Seq<Seq<char>>, popular: nat) -> DetectionState {
    DetectionState::Probing(ProbeState { candidates, popular, cursor: 0 })
}

/// Where a search goes from `state` on the answer `present`. On yes it ends
/// with the directory asked about. On no it moves to the next candidate,
/// and ends in failure after the last.
pub open spec fn after_answer(state: ProbeState, present: bool) -> DetectionState {
    if present {
        DetectionState::Found(state.directory())
    } else if state.cursor + 1 < state.candidates.len() {
        DetectionState::Probing(ProbeState { cursor: state.cursor + 1, ..state })
    } else {
        DetectionState::Failed(ResolveError::DetectionFailed)
    }
}

/// A search that waits for one answer.
pub struct Probe {
    candidates: Vec<String>,
    popular: usize,
    cursor: usize,
}

impl View for Probe {
    type V = ProbeState;

    closed spec fn view(&self) -> ProbeState {
        ProbeState {
            candidates: texts(self.candidates@),
            popular: self.popular as nat,
            cursor: self.cursor as nat,
        }
    }
}

impl Probe {
    #[verifier::type_invariant]
    spec fn well_formed(self) -> bool {
        &&& self.cursor < self.candidates.len()
        &&& self.popular <= self.candidates.len()
    }

    /// The directory to look into.
    pub fn directory(&self) -> (dir: &str)
        ensures
            self@.valid(),
            dir@ == self@.directory(),
    {
        proof {
            use_type_invariant(self);
        }
        self.candidates[self.cursor].as_str()
    }

    /// Whether the directory is one of the usual places rather than a
    /// popular one.
    pub fn is_fallback(&self) -> (usual: bool)
        ensures
            usual == (self@.cursor >= self@.popular),
    {
        self.cursor >= self.popular
    }

    /// Takes the answer for `directory` and says how the search goes on.
    pub fn answer(self, present: bool) -> (next: Detection)
        ensures
            self@.valid(),
            next@ == after_answer(self@, present),
    {
        proof {
            use_type_invariant(&self);
        }
        if present {
            Detection::Found(self.candidates[self.cursor].clone())
        } else if self.cursor + 1 < self.candidates.len() {
            Detection::Probe(
                Probe {
                    candidates: self.candidates,
                    popular: self.popular,
                    cursor: self.cursor + 1,
                },
            )
        } else {
            Detection::Failed(ResolveError::DetectionFailed)
        }
    }
}

/// What a search asks for or ends with.
pub enum Detection {
    /// Look into a directory and answer.
    Probe(Probe),
    /// The game is in this directory.
    Found(String),
    /// The game was not found.
    Failed(ResolveError),
}

impl View for Detection {
    type V = DetectionState;

    open spec fn view(&self) -> DetectionState {
        match self {
            Detection::Probe(probe) => DetectionState::Probing(probe@),
            Detection::Found(dir) => DetectionState::Found(dir@),
            Detection::Failed(error) => DetectionState::Failed(*error),
        }
    }
}

/// Starts a search. `fetched` is what asking the service for its popular
/// places gave, and `identity` the user's name on this machine. The search
/// begins with the first popular place, or with the first usual place when
/// the service gave none.
pub fn begin_detection(fetched: Result<Vec<PathStat>, FetchError>, identity: &str) -> (first:
    Detection)
    ensures
        first@ == first_probe(
            candidate_dirs(popular_templates(fetched), identity@),
            popular_templates(fetched).len(),
        ),
{
    let stats = popular_or_empty(fetched);
    let candidates = candidate_list(&stats, identity);
    assert(texts(candidates@).len() == stats.len() + fallback_dirs().len());
    Detection::Probe(Probe { candidates, popular: stats.len(), cursor: 0 })
}

/// How many answers a search in `state` can still ask for.
pub open spec fn steps_left(state: DetectionState) -> nat {
    match state {
        DetectionState::Probing(probe) => if probe.valid() {
            (probe.candidates.len() - probe.cursor) as nat
        } else {
            0
        },
        _ => 0,
    }
}

/// Where a search that stands in `state` ends, when `present` tells of each
/// directory whether it holds the executable.
pub open spec fn conclusion(
    state: DetectionState,
    present: spec_fn(Seq<char>) -> bool,
) -> DetectionState
    decreases steps_left(state),
{
    match state {
        DetectionState::Probing(probe) => if probe.valid() {
            conclusion(after_answer(probe, present(probe.directory())), present)
        } else {
            state
        },
        _ => state,
    }
}

/// The directories that a search which stands in `state` looks into before
/// it ends, in order.
pub open spec fn trail(state: DetectionState, present: spec_fn(Seq<char>) -> bool) -> Seq<
    Seq<char>,
>
    decreases steps_left(state),
{
    match state {
        DetectionState::Probing(probe) => if probe.valid() {
            seq![probe.directory()] + trail(
                after_answer(probe, present(probe.directory())),
                present,
            )
        } else {
            Seq::empty()
        },
        _ => Seq::empty(),
    }
}

/// `candidates[k]` holds the executable and no candidate from `from` up to
/// it does.
pub open spec fn first_present_from(
    candidates: Seq<Seq<char>>,
    present: spec_fn(Seq<char>) -> bool,
    from: int,
    k: int,
) -> bool {
    &&& 0 <= from <= k < candidates.len()
    &&& present(candidates[k])
    &&& forall|j: int| from <= j < k ==> !present(#[trigger] candidates[j])
}

/// No candidate from `from` on holds the executable.
pub open spec fn none_present_from(
    candidates: Seq<Seq<char>>,
    present: spec_fn(Seq<char>) -> bool,
    from: int,
) -> bool {
    forall|j: int| from <= j < candidates.len() ==> !present(#[trigger] candidates[j])
}

proof fn lemma_search_from(probe: ProbeState, present: spec_fn(Seq<char>) -> bool)
    requires
        probe.valid(),
    ensures
        forall|k: int| #[trigger]
            first_present_from(probe.candidates, present, probe.cursor as int, k) ==> {
                &&& conclusion(DetectionState::Probing(probe), present) == DetectionState::Found(
                    probe.candidates[k],
                )
                &&& trail(DetectionState::Probing(probe), present)
                    == probe.candidates.subrange(probe.cursor as int, k + 1)
            },
        none_present_from(probe.candidates, present, probe.cursor as int) ==> {
            &&& conclusion(DetectionState::Probing(probe), present) == DetectionState::Failed(
                ResolveError::DetectionFailed,
            )
            &&& trail(DetectionState::Probing(probe), present) == probe.candidates.subrange(
                probe.cursor as int,
                probe.candidates.len() as int,
            )
        },
    decreases probe.candidates.len() - probe.cursor,
{
    let candidates = probe.candidates;
    let here = probe.cursor as int;
    let state = DetectionState::Probing(probe);
    let next = after_answer(probe, present(probe.directory()));
    assert(conclusion(state, present) == conclusion(next, present));
    assert(trail(state, present) == seq![probe.directory()] + trail(next, present));
    if present(candidates[here]) {
        assert forall|k: int| #[trigger]
            first_present_from(candidates, present, here, k) implies k == here by {
            if k > here {
                assert(!present(candidates[here]));
            }
        }
        assert(trail(next, present) == Seq::<Seq<char>>::empty());
        assert(seq![probe.directory()] + Seq::<Seq<char>>::empty() =~= candidates.subrange(
            here,
            here + 1,
        ));
    } else if here + 1 < candidates.len() {
        let moved = ProbeState { cursor: (here + 1) as nat, ..probe };
        lemma_search_from(moved, present);
        assert forall|k: int| #[trigger]
            first_present_from(candidates, present, here, k) implies {
            &&& conclusion(state, present) == DetectionState::Found(candidates[k])
            &&& trail(state, present) == candidates.subrange(here, k + 1)
        } by {
            assert(first_present_from(candidates, present, here + 1, k));
            assert(seq![candidates[here]] + candidates.subrange(here + 1, k + 1)
                =~= candidates.subrange(here, k + 1));
        }
        if none_present_from(candidates, present, here) {
            assert(none_present_from(candidates, present, here + 1));
            assert(seq![candidates[here]] + candidates.subrange(
                here + 1,
                candidates.len() as int,
            ) =~= candidates.subrange(here, candidates.len() as int));
        }
    } else {
        assert forall|k: int| #[trigger]
            first_present_from(candidates, present, here, k) implies false by {
            assert(k == here);
        }
        assert(trail(next, present) == Seq::<Seq<char>>::empty());
        assert(seq![probe.directory()] + Seq::<Seq<char>>::empty() =~= candidates.subrange(
            here,
            candidates.len() as int,
        ));
    }
}

/// A search looks into the candidates one by one, in their order, and ends
/// at the first that holds the executable.
///
/// With `k` the index of the first candidate that holds the executable,
/// the search looks into the candidates up to `k` and no further, and ends
/// with candidate `k`. Where no candidate holds it, the search looks into
/// all of them and fails. Either way a directory with which a search ends
/// holds the executable.
pub proof fn lemma_search_takes_first_present(
    templates: Seq<Seq<char>>,
    identity: Seq<char>,
    present: spec_fn(Seq<char>) -> bool,
)
    ensures
        ({
            let candidates = candidate_dirs(templates, identity);
            let start = first_probe(candidates, templates.len());
            &&& forall|k: int| #[trigger]
                first_present_from(candidates, present, 0, k) ==> {
                    &&& conclusion(start, present) == DetectionState::Found(candidates[k])
                    &&& trail(start, present) == candidates.take(k + 1)
                }
            &&& none_present_from(candidates, present, 0) ==> {
                &&& conclusion(start, present) == DetectionState::Failed(
                    ResolveError::DetectionFailed,
                )
                &&& trail(start, present) == candidates
            }
            &&& conclusion(start, present) matches DetectionState::Found(dir) ==> present(dir)
            &&& !(conclusion(start, present) is Probing)
        }),
{
    let candidates = candidate_dirs(templates, identity);
    let probe = ProbeState { candidates, popular: templates.len(), cursor: 0 };
    assert(candidates.len() == templates.len() + fallback_dirs().len());
    lemma_search_from(probe, present);
    assert(candidates.subrange(0, candidates.len() as int) =~= candidates);
    if exists|k: int| 0 <= k < candidates.len() && present(#[trigger] candidates[k]) {
        let some = choose|k: int| 0 <= k < candidates.len() && present(#[trigger] candidates[k]);
        let first = lemma_first_present(candidates, present, some);
        assert(first_present_from(candidates, present, 0, first));
    } else {
        assert(none_present_from(candidates, present, 0));
    }
}

proof fn lemma_first_present(
    candidates: Seq<Seq<char>>,
    present: spec_fn(Seq<char>) -> bool,
    some: int,
) -> (first: int)
    requires
        0 <= some < candidates.len(),
        present(candidates[some]),
    ensures
        first_present_from(candidates, present, 0, first),
    decreases some,
{
    if exists|j: int| 0 <= j < some && present(#[trigger] candidates[j]) {
        let earlier = choose|j: int| 0 <= j < some && present(#[trigger] candidates[j]);
        lemma_first_present(candidates, present, earlier)
    } else {
        some
    }
}

/// What to do about a directory that the user has named.
#[derive(Clone, Debug, PartialEq, Eq)]
pub enum ReportPlan {
    /// Report nothing: the directory does not hold the executable.
    Refuse(ResolveError),
    /// Send `payload` to `url`, whatever comes of it.
    Send { url: String, payload: AnalyticsPayload },
}

/// Decides what to do about the directory `path`. `executable_present`
/// says whether the executable lies directly in it. Without the executable
/// nothing is sent and nothing is computed. With it, the path is sanitized
/// and classified, the platform from the path as it was typed.
pub fn plan_report(path: &str, api_url: &str, executable_present: bool) -> (plan: ReportPlan)
    ensures
        !executable_present ==> (plan matches ReportPlan::Refuse(error) && error
            == ResolveError::NotFound),
        executable_present ==> (plan matches ReportPlan::Send { url, payload } && url@
            == api_url@ + "/api/analytics/path"@ && payload.path@ == sanitized(path@)
            && payload.platform == platform_of(path@)),
{
    if !executable_present {
        return ReportPlan::Refuse(ResolveError::NotFound);
    }
    let payload = AnalyticsPayload { path: sanitize(path), platform: classify(path) };
    ReportPlan::Send { url: report_endpoint(api_url), payload }
}

impl ReportPlan {
    /// What the user is told once the plan was carried out. A report that
    /// was sent counts as made whether or not it arrived (`delivered`).
    pub fn outcome(&self, delivered: bool) -> (told: Result<bool, ResolveError>)
        ensures
            self is Send ==> told == Ok::<bool, ResolveError>(true),
            self matches ReportPlan::Refuse(error) ==> told == Err::<bool, ResolveError>(*error),
    {
        match self {
            ReportPlan::Send { .. } => Ok(true),
            ReportPlan::Refuse(error) => Err(*error),
        }
    }
}

} // verus!
