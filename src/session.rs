//! The decisions around a search: the search parameters, the lyrics to play
//! in automatic mode, the browser over a result list, and the interruptible
//! wait.

use vstd::prelude::*;
use vstd::string::StrSliceExecFns;
use crate::browser::{
    browsable, browsable_indices, is_browsable, key_step, lemma_browsable_exact, BrowserState,
    Key, Response, Step, PAGE_SIZE,
};

verus! {

/// Why no lyrics are played.
#[derive(PartialEq, Eq, Structural, Debug, Clone, Copy)]
pub enum LookupError {
    /// The search found nothing.
    NoResults,
    /// The first result has no timed lyrics.
    NoSyncedLyrics,
    /// No result can be browsed.
    NoMatchingSongs,
    /// The user left the browser.
    Aborted,
    /// A free-text query and a track name were both given.
    AmbiguousQuery,
}

impl LookupError {
    /// The message shown to the user.
    pub fn message(&self) -> (r: &'static str)
        ensures
            r@ == (match *self {
                LookupError::NoResults => "No result was found for the provided search."@,
                LookupError::NoSyncedLyrics => "No synced lyrics found."@,
                LookupError::NoMatchingSongs => "No matching songs"@,
                LookupError::Aborted => "User aborted"@,
                LookupError::AmbiguousQuery => "Warning: 'q' overrides 'track_name'."@,
            }),
    {
        match self {
            LookupError::NoResults => "No result was found for the provided search.",
            LookupError::NoSyncedLyrics => "No synced lyrics found.",
            LookupError::NoMatchingSongs => "No matching songs",
            LookupError::Aborted => "User aborted",
            LookupError::AmbiguousQuery => "Warning: 'q' overrides 'track_name'.",
        }
    }
}

/// The search options given on the command line.
pub struct Args {
    pub title: Option<String>,
    pub query: Option<String>,
    pub artist: Option<String>,
    pub album: Option<String>,
    pub debug: bool,
}

pub open spec fn opt_param(key: Seq<char>, v: Option<String>) -> Seq<(Seq<char>, Seq<char>)> {
    match v {
        Some(x) => seq![(key, x@)],
        None => Seq::empty(),
    }
}

/// The search parameters of `a`: each option given, under its name, in the
/// order title, query, artist, album.
pub open spec fn params_of(a: Args) -> Seq<(Seq<char>, Seq<char>)> {
    opt_param("title"@, a.title) + opt_param("query"@, a.query) + opt_param("artist"@, a.artist)
        + opt_param("album"@, a.album)
}

pub open spec fn param_views(v: Seq<(String, String)>) -> Seq<(Seq<char>, Seq<char>)> {
    v.map_values(|p: (String, String)| (p.0@, p.1@))
}

fn push_param(out: &mut Vec<(String, String)>, key: &str, v: &Option<String>)
    ensures
        param_views(final(out)@) == param_views(old(out)@) + opt_param(key@, *v),
{
    let ghost before = param_views(out@);
    match v {
        Some(x) => {
            out.push((key.to_owned(), x.clone()));
            assert(param_views(out@) =~= before + opt_param(key@, *v));
        },
        None => {
            assert(param_views(out@) =~= before + opt_param(key@, *v));
        },
    }
}

/// The search parameters that the command-line options give.
pub fn args_to_map(args: &Args) -> (r: Vec<(String, String)>)
    ensures
        param_views(r@) == params_of(*args),
{
    let mut map: Vec<(String, String)> = Vec::new();
    assert(param_views(map@) =~= Seq::empty());
    push_param(&mut map, "title", &args.title);
    push_param(&mut map, "query", &args.query);
    push_param(&mut map, "artist", &args.artist);
    push_param(&mut map, "album", &args.album);
    assert(param_views(map@) =~= params_of(*args));
    map
}

/// Automatic mode: a title or a query was given.
pub fn is_auto(args: &Args) -> (r: bool)
    ensures
        r == (args.title is Some || args.query is Some),
{
    args.title.is_some() || args.query.is_some()
}

/// `a` and `b` hold the same characters.
pub fn str_eq(a: &str, b: &str) -> (r: bool)
    ensures
        r == (a@ == b@),
{
    let n = a.unicode_len();
    if n != b.unicode_len() {
        return false;
    }
    let mut i: usize = 0;
    while i < n
        invariant
            n == a@.len() == b@.len(),
            i <= n,
            forall|j: int| 0 <= j < i ==> a@[j] == b@[j],
        decreases n - i,
    {
        if a.get_char(i) != b.get_char(i) {
            return false;
        }
        i = i + 1;
    }
    assert(a@ =~= b@);
    true
}

pub open spec fn has_key(params: Seq<(String, String)>, key: Seq<char>) -> bool {
    exists|i: int| 0 <= i < params.len() && (#[trigger] params[i]).0@ == key
}

fn find_key(params: &Vec<(String, String)>, key: &str) -> (r: bool)
    ensures
        r == has_key(params@, key@),
{
    let mut i: usize = 0;
    while i < params.len()
        invariant
            i <= params@.len(),
            forall|j: int| 0 <= j < i ==> (#[trigger] params@[j]).0@ != key@,
        decreases params@.len() - i,
    {
        if str_eq(params[i].0.as_str(), key) {
            return true;
        }
        i = i + 1;
    }
    false
}

/// Refuses parameters that hold both a free-text query `q` and a `track_name`.
pub fn check_params(params: &Vec<(String, String)>) -> (r: Result<(), LookupError>)
    ensures
        r is Err <==> has_key(params@, "q"@) && has_key(params@, "track_name"@),
        r is Err ==> r == Err::<(), LookupError>(LookupError::AmbiguousQuery),
{
    if find_key(params, "q") && find_key(params, "track_name") {
        Err(LookupError::AmbiguousQuery)
    } else {
        Ok(())
    }
}

/// Automatic mode plays the timed lyrics of the first result.
pub fn auto_lyrics(responses: &Vec<Response>) -> (r: Result<String, LookupError>)
    ensures
        responses@.len() == 0 ==> r == Err::<String, LookupError>(LookupError::NoResults),
        responses@.len() > 0 && responses@[0].synced_lyrics is None ==> r == Err::<
            String,
            LookupError,
        >(LookupError::NoSyncedLyrics),
        responses@.len() > 0 && responses@[0].synced_lyrics is Some ==> r is Ok && r->Ok_0@
            == responses@[0].synced_lyrics->Some_0@,
{
    if responses.len() == 0 {
        return Err(LookupError::NoResults);
    }
    match &responses[0].synced_lyrics {
        Some(l) => Ok(l.clone()),
        None => Err(LookupError::NoSyncedLyrics),
    }
}

/// The timed lyrics of a browsable result.
pub fn lyrics_at(responses: &Vec<Response>, i: usize) -> (r: String)
    requires
        i < responses@.len(),
        is_browsable(responses@[i as int]),
    ensures
        r@ == responses@[i as int].synced_lyrics->Some_0@,
{
    match &responses[i].synced_lyrics {
        Some(l) => l.clone(),
        None => String::new(),
    }
}

/// The step of the browser's state machine as seen from the result list:
/// a choice names the position of the result.
pub open spec fn through(s: Step, entries: Seq<usize>) -> Step {
    match s {
        Step::Select(k) => Step::Select(entries[k as int]),
        _ => s,
    }
}

/// The result browser: the browsable results and where the user stands.
pub struct Browser {
    pub entries: Vec<usize>,
    pub state: BrowserState,
}

impl Browser {
    pub open spec fn wf(&self) -> bool {
        &&& self.state.wf()
        &&& self.state.count == self.entries@.len()
        &&& self.state.page_size == PAGE_SIZE
    }

    /// The browser over `responses`, on its first page; it fails when no
    /// result can be browsed.
    pub fn open(responses: &Vec<Response>) -> (r: Result<Browser, LookupError>)
        ensures
            r is Err <==> browsable_indices(responses@).len() == 0,
            r is Err ==> r == Err::<Browser, LookupError>(LookupError::NoMatchingSongs),
            r is Ok ==> {
                let b = r->Ok_0;
                &&& b.wf()
                &&& b.state.page == 0
                &&& b.state.selected == 0
                &&& b.entries@.len() == browsable_indices(responses@).len()
                &&& forall|k: int|
                    0 <= k < b.entries@.len() ==> b.entries@[k] as int == browsable_indices(
                        responses@,
                    )[k]
            },
    {
        let entries = browsable(responses);
        if entries.len() == 0 {
            return Err(LookupError::NoMatchingSongs);
        }
        let state = BrowserState::new(entries.len(), PAGE_SIZE);
        Ok(Browser { entries, state })
    }

    /// Moves on a key as the state machine does; Enter names the chosen result.
    pub fn handle_key(&mut self, key: Key) -> (r: Step)
        requires
            old(self).wf(),
        ensures
            final(self).wf(),
            final(self).entries == old(self).entries,
            final(self).state == key_step(old(self).state, key).0,
            r == through(key_step(old(self).state, key).1, old(self).entries@),
    {
        match self.state.handle_key(key) {
            Step::Select(k) => Step::Select(self.entries[k]),
            s => s,
        }
    }
}

/// A result list with a browsable entry gives a browser whose choice on
/// Enter, before any other key, is the first browsable result.
pub proof fn lemma_enter_first(rs: Seq<Response>, b: Browser)
    requires
        b.wf(),
        b.state.page == 0,
        b.state.selected == 0,
        b.entries@.len() == browsable_indices(rs).len(),
        forall|k: int|
            0 <= k < b.entries@.len() ==> b.entries@[k] as int == browsable_indices(rs)[k],
    ensures
        through(key_step(b.state, Key::Enter).1, b.entries@) == Step::Select(b.entries@[0]),
        0 <= b.entries@[0] < rs.len(),
        is_browsable(rs[b.entries@[0] as int]),
{
    lemma_browsable_exact(rs);
    assert(b.entries@[0] as int == browsable_indices(rs)[0]);
}

/// What the interruptible wait does next.
#[derive(PartialEq, Eq, Structural, Debug, Clone, Copy)]
pub enum WaitStep {
    /// The time is up.
    Done,
    /// The interrupt key was pressed: stop playback.
    Interrupted,
    /// Poll for a key again.
    Poll,
}

/// The key that stops playback.
pub const INTERRUPT_KEY: char = 'c';

/// The wait is over once `duration_ms` have passed; before that, the
/// interrupt key stops it and any other key is ignored.
pub fn wait_step(elapsed_ms: u64, duration_ms: u64, pressed: Option<char>) -> (r: WaitStep)
    ensures
        elapsed_ms >= duration_ms ==> r == WaitStep::Done,
        elapsed_ms < duration_ms && pressed == Some(INTERRUPT_KEY) ==> r == WaitStep::Interrupted,
        elapsed_ms < duration_ms && pressed != Some(INTERRUPT_KEY) ==> r == WaitStep::Poll,
{
    if elapsed_ms >= duration_ms {
        WaitStep::Done
    } else {
        match pressed {
            Some(c) => if c == INTERRUPT_KEY {
                WaitStep::Interrupted
            } else {
                WaitStep::Poll
            },
            None => WaitStep::Poll,
        }
    }
}

} // verus!
