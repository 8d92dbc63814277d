//! The decisions of one run: which request the command line makes, and
//! when the cache is read, the network is asked and the cache is written.
//! The reading, asking and writing themselves happen outside; each is
//! reported back as an event.

use vstd::prelude::*;

use crate::config::CacheConfig;

verus! {

/// The subcommands.
#[derive(Clone, Debug, PartialEq, Eq)]
pub enum Command {
    /// `list`
    List,
    /// `completion <shell>`
    Completion { shell: String },
    /// `cache clear`
    CacheClear,
    /// `__complete [prefix]`
    Complete { prefix: Option<String> },
}

/// The parsed command line.
#[derive(Clone, Debug, PartialEq, Eq)]
pub struct CliArgs {
    /// `--no-cache`
    pub no_cache: bool,
    /// `--version`
    pub version: bool,
    pub command: Option<Command>,
    /// The template name given without a subcommand.
    pub template: Option<String>,
}

/// What a run does.
#[derive(Clone, Debug, PartialEq, Eq)]
pub enum Request {
    /// Print the version line.
    Version,
    /// Print the template names.
    List,
    /// Print a completion script.
    Completion { shell: String },
    /// Remove the cache.
    ClearCache,
    /// Print the completion candidates for a prefix.
    Complete { prefix: String },
    /// Append the named template to `.gitignore`.
    Install { name: String },
}

/// The request a command line makes: `--version` wins over everything;
/// then the subcommand; with none, a template name installs that template
/// and no name lists the templates. A missing completion prefix is empty.
pub open spec fn request_matches(cli: CliArgs, r: Request) -> bool {
    if cli.version {
        r == Request::Version
    } else {
        match cli.command {
            Some(Command::List) => r == Request::List,
            Some(Command::Completion { shell }) => r == (Request::Completion { shell }),
            Some(Command::CacheClear) => r == Request::ClearCache,
            Some(Command::Complete { prefix }) => r matches Request::Complete { prefix: p } && p@
                == match prefix {
                Some(s) => s@,
                None => Seq::<char>::empty(),
            },
            None => match cli.template {
                Some(name) => r == (Request::Install { name }),
                None => r == Request::List,
            },
        }
    }
}

/// `--version` wins: whatever subcommand or template name comes with it, or
/// none, the request is to print the version. Without it, a template name and
/// no subcommand installs that template, and neither lists the templates.
pub proof fn lemma_version_flag_wins(cli: CliArgs, r: Request)
    requires
        request_matches(cli, r),
    ensures
        cli.version ==> r == Request::Version,
        !cli.version ==> r != Request::Version,
        !cli.version && cli.command is None && cli.template is None ==> r == Request::List,
        !cli.version && cli.command is None && cli.template is Some ==> r == (Request::Install {
            name: cli.template->0,
        }),
{
}

/// The request that a parsed command line makes.
pub fn plan_request(cli: CliArgs) -> (r: Request)
    ensures
        request_matches(cli, r),
{
    if cli.version {
        return Request::Version;
    }
    match cli.command {
        Some(Command::List) => Request::List,
        Some(Command::Completion { shell }) => Request::Completion { shell },
        Some(Command::CacheClear) => Request::ClearCache,
        Some(Command::Complete { prefix }) => match prefix {
            Some(p) => Request::Complete { prefix: p },
            None => Request::Complete { prefix: String::new() },
        },
        None => match cli.template {
            Some(name) => Request::Install { name },
            None => Request::List,
        },
    }
}

/// The cache is on for a run: the settings allow it and `--no-cache` was
/// not given.
pub open spec fn cache_on(config: CacheConfig, no_cache: bool) -> bool {
    config.enabled && !no_cache
}

/// Whether this run may use the cache.
pub fn cache_enabled(config: &CacheConfig, no_cache: bool) -> (r: bool)
    ensures
        r == cache_on(*config, no_cache),
{
    config.enabled && !no_cache
}

/// The line printed after a template was appended.
pub fn installed_message(name: &str, gitignore_path: &str) -> (r: String)
    ensures
        r@ == "appended "@ + name@ + " to "@ + gitignore_path@ + "\n"@,
{
    let mut r = String::from_str("appended ");
    r.append(name);
    r.append(" to ");
    r.append(gitignore_path);
    r.append("\n");
    r
}

/// The line printed after the cache was removed.
pub const CACHE_CLEARED: &'static str = "cache cleared\n";

/// Where fetching one piece of data (the template list, or one template)
/// stands.
#[derive(Clone, Copy, Debug, PartialEq, Eq)]
pub enum FetchStage {
    Start,
    ReadingCache,
    Fetching,
    WritingCache,
    Done,
    /// Reading the cache, fetching or writing the cache failed; the run fails.
    Failed,
}

/// What happened outside.
#[derive(Clone, Copy, Debug, PartialEq, Eq)]
pub enum FetchEvent {
    /// The data is wanted.
    Begin,
    /// The cache held fresh data.
    CacheHit,
    /// The cache held nothing fresh.
    CacheMiss,
    /// The data came from the network.
    Fetched,
    /// The fetched data was written to the cache.
    CacheWritten,
    /// The cache could not be read or decoded.
    CacheReadFailed,
    /// The network request failed.
    FetchFailed,
    /// The fetched data could not be written to the cache.
    CacheWriteFailed,
}

/// What to do next.
#[derive(Clone, Copy, Debug, PartialEq, Eq)]
pub enum FetchAction {
    /// Read the cache (and check freshness).
    ReadCache,
    /// Fetch from the network.
    Fetch,
    /// Write the fetched data to the cache.
    WriteCache,
    /// Hand out the data read from the cache.
    UseCached,
    /// Hand out the fetched data.
    UseFetched,
    /// Give up and report the failure.
    Fail,
}

/// The step from a stage on an event: the next stage and the action, or
/// `None` where the event cannot happen in that stage.
pub open spec fn next_step(cache_enabled: bool, stage: FetchStage, event: FetchEvent) -> Option<
    (FetchStage, FetchAction),
> {
    match (stage, event) {
        (FetchStage::Start, FetchEvent::Begin) => if cache_enabled {
            Some((FetchStage::ReadingCache, FetchAction::ReadCache))
        } else {
            Some((FetchStage::Fetching, FetchAction::Fetch))
        },
        (FetchStage::ReadingCache, FetchEvent::CacheHit) => Some(
            (FetchStage::Done, FetchAction::UseCached),
        ),
        (FetchStage::ReadingCache, FetchEvent::CacheMiss) => Some(
            (FetchStage::Fetching, FetchAction::Fetch),
        ),
        (FetchStage::Fetching, FetchEvent::Fetched) => if cache_enabled {
            Some((FetchStage::WritingCache, FetchAction::WriteCache))
        } else {
            Some((FetchStage::Done, FetchAction::UseFetched))
        },
        (FetchStage::WritingCache, FetchEvent::CacheWritten) => Some(
            (FetchStage::Done, FetchAction::UseFetched),
        ),
        (FetchStage::ReadingCache, FetchEvent::CacheReadFailed) => Some(
            (FetchStage::Failed, FetchAction::Fail),
        ),
        (FetchStage::Fetching, FetchEvent::FetchFailed) => Some(
            (FetchStage::Failed, FetchAction::Fail),
        ),
        (FetchStage::WritingCache, FetchEvent::CacheWriteFailed) => Some(
            (FetchStage::Failed, FetchAction::Fail),
        ),
        _ => None,
    }
}

/// Fetching one piece of data through the cache: read the cache first when
/// it is on, fetch when it held nothing fresh, and write what was fetched
/// back when it is on. Any failure along the way (a cache that cannot be
/// read or decoded, a failed request, a failed write) ends the fetch with
/// that failure; a broken cache is not fetched around.
#[derive(Clone, Copy, Debug, PartialEq, Eq)]
pub struct CachedFetch {
    pub cache_enabled: bool,
    pub stage: FetchStage,
}

impl CachedFetch {
    /// A fetch that has not begun.
    pub fn new(cache_enabled: bool) -> (r: Self)
        ensures
            r.cache_enabled == cache_enabled,
            r.stage == FetchStage::Start,
    {
        CachedFetch { cache_enabled, stage: FetchStage::Start }
    }

    /// Takes one event; gives the action to perform, or `None` (and stays
    /// where it is) when the event cannot happen now.
    pub fn step(&mut self, event: FetchEvent) -> (r: Option<FetchAction>)
        ensures
            final(self).cache_enabled == old(self).cache_enabled,
            match next_step(old(self).cache_enabled, old(self).stage, event) {
                Some((stage, action)) => final(self).stage == stage && r == Some(action),
                None => final(self).stage == old(self).stage && r is None,
            },
    {
        let next = match (self.stage, event) {
            (FetchStage::Start, FetchEvent::Begin) => if self.cache_enabled {
                Some((FetchStage::ReadingCache, FetchAction::ReadCache))
            } else {
                Some((FetchStage::Fetching, FetchAction::Fetch))
            },
            (FetchStage::ReadingCache, FetchEvent::CacheHit) => Some(
                (FetchStage::Done, FetchAction::UseCached),
            ),
            (FetchStage::ReadingCache, FetchEvent::CacheMiss) => Some(
                (FetchStage::Fetching, FetchAction::Fetch),
            ),
            (FetchStage::Fetching, FetchEvent::Fetched) => if self.cache_enabled {
                Some((FetchStage::WritingCache, FetchAction::WriteCache))
            } else {
                Some((FetchStage::Done, FetchAction::UseFetched))
            },
            (FetchStage::WritingCache, FetchEvent::CacheWritten) => Some(
                (FetchStage::Done, FetchAction::UseFetched),
            ),
            (FetchStage::ReadingCache, FetchEvent::CacheReadFailed) => Some(
                (FetchStage::Failed, FetchAction::Fail),
            ),
            (FetchStage::Fetching, FetchEvent::FetchFailed) => Some(
                (FetchStage::Failed, FetchAction::Fail),
            ),
            (FetchStage::WritingCache, FetchEvent::CacheWriteFailed) => Some(
                (FetchStage::Failed, FetchAction::Fail),
            ),
            _ => None,
        };
        match next {
            Some((stage, action)) => {
                self.stage = stage;
                Some(action)
            },
            None => None,
        }
    }
}

/// The actions that a sequence of events draws from a fetch at `stage`;
/// events that cannot happen are passed over.
pub open spec fn run_actions(cache_enabled: bool, stage: FetchStage, events: Seq<FetchEvent>) -> Seq<
    FetchAction,
>
    decreases events.len(),
{
    if events.len() == 0 {
        Seq::empty()
    } else {
        match next_step(cache_enabled, stage, events[0]) {
            Some((s, a)) => seq![a] + run_actions(cache_enabled, s, events.drop_first()),
            None => run_actions(cache_enabled, stage, events.drop_first()),
        }
    }
}

/// The number of fetches among the actions.
pub open spec fn fetch_count(actions: Seq<FetchAction>) -> nat
    decreases actions.len(),
{
    if actions.len() == 0 {
        0
    } else {
        (if actions[0] == FetchAction::Fetch { 1nat } else { 0nat }) + fetch_count(actions.drop_first())
    }
}

/// With the cache off (`--no-cache`, or off in the settings) the cache is
/// neither read nor written, whatever happens.
pub proof fn lemma_cache_off_never_touches_cache(events: Seq<FetchEvent>)
    ensures
        forall|i: int|
            0 <= i < run_actions(false, FetchStage::Start, events).len() ==> {
                let a = #[trigger] run_actions(false, FetchStage::Start, events)[i];
                a != FetchAction::ReadCache && a != FetchAction::WriteCache
            },
{
    lemma_off_stage(FetchStage::Start, events);
}

/// `--no-cache` overrides the settings: whatever they say, a run with it
/// neither reads nor writes the cache.
pub proof fn lemma_no_cache_flag_wins(config: CacheConfig, events: Seq<FetchEvent>)
    ensures
        !cache_on(config, true),
        forall|i: int|
            0 <= i < run_actions(cache_on(config, true), FetchStage::Start, events).len() ==> {
                let a = #[trigger] run_actions(cache_on(config, true), FetchStage::Start, events)[i];
                a != FetchAction::ReadCache && a != FetchAction::WriteCache
            },
{
    lemma_cache_off_never_touches_cache(events);
}

proof fn lemma_off_stage(stage: FetchStage, events: Seq<FetchEvent>)
    requires
        stage != FetchStage::ReadingCache,
        stage != FetchStage::WritingCache,
    ensures
        forall|i: int|
            0 <= i < run_actions(false, stage, events).len() ==> {
                let a = #[trigger] run_actions(false, stage, events)[i];
                a != FetchAction::ReadCache && a != FetchAction::WriteCache
            },
    decreases events.len(),
{
    if events.len() > 0 {
        lemma_off_stage(stage, events.drop_first());
        match next_step(false, stage, events[0]) {
            Some((s, a)) => {
                lemma_off_stage(s, events.drop_first());
                let rest = run_actions(false, s, events.drop_first());
                assert(run_actions(false, stage, events) == seq![a] + rest);
                assert forall|i: int| 0 < i < 1 + rest.len() implies (seq![a] + rest)[i] == rest[i - 1] by {}
            },
            None => {},
        }
    }
}

/// A fetch asks the network at most once, whatever happens.
pub proof fn lemma_fetches_at_most_once(cache_enabled: bool, events: Seq<FetchEvent>)
    ensures
        fetch_count(run_actions(cache_enabled, FetchStage::Start, events)) <= 1,
{
    lemma_fetch_count_from(cache_enabled, FetchStage::Start, events);
}

proof fn lemma_fetch_count_concat(a: Seq<FetchAction>, b: Seq<FetchAction>)
    ensures
        fetch_count(a + b) == fetch_count(a) + fetch_count(b),
    decreases a.len(),
{
    if a.len() == 0 {
        assert(a + b =~= b);
    } else {
        assert((a + b).drop_first() =~= a.drop_first() + b);
        lemma_fetch_count_concat(a.drop_first(), b);
    }
}

proof fn lemma_fetch_count_from(cache_enabled: bool, stage: FetchStage, events: Seq<FetchEvent>)
    ensures
        fetch_count(run_actions(cache_enabled, stage, events)) <= (if stage == FetchStage::Start
            || stage == FetchStage::ReadingCache {
            1nat
        } else {
            0nat
        }),
    decreases events.len(),
{
    if events.len() > 0 {
        match next_step(cache_enabled, stage, events[0]) {
            Some((s, a)) => {
                lemma_fetch_count_from(cache_enabled, s, events.drop_first());
                let rest = run_actions(cache_enabled, s, events.drop_first());
                assert(run_actions(cache_enabled, stage, events) == seq![a] + rest);
                lemma_fetch_count_concat(seq![a], rest);
                assert(seq![a].drop_first() =~= Seq::<FetchAction>::empty());
                assert(fetch_count(seq![a]) == (if a == FetchAction::Fetch { 1nat } else { 0nat }) + fetch_count(Seq::<FetchAction>::empty()));
            },
            None => {
                lemma_fetch_count_from(cache_enabled, stage, events.drop_first());
            },
        }
    }
}

/// Fresh data in the cache spares the network: once the cache reports a
/// hit, the cached data is handed out and nothing else happens.
pub proof fn lemma_hit_spares_network(rest: Seq<FetchEvent>)
    ensures
        run_actions(true, FetchStage::Start, seq![FetchEvent::Begin, FetchEvent::CacheHit] + rest)
            == seq![FetchAction::ReadCache, FetchAction::UseCached],
{
    let evs = seq![FetchEvent::Begin, FetchEvent::CacheHit] + rest;
    assert(evs[0] == FetchEvent::Begin);
    assert(evs.drop_first()[0] == FetchEvent::CacheHit);
    assert(evs.drop_first().drop_first() =~= rest);
    lemma_done_is_quiet(true, FetchStage::Done, rest);
    assert(run_actions(true, FetchStage::ReadingCache, evs.drop_first()) =~= seq![FetchAction::UseCached]);
    assert(run_actions(true, FetchStage::Start, evs) =~= seq![FetchAction::ReadCache, FetchAction::UseCached]);
}

/// A finished or failed fetch does nothing more.
proof fn lemma_done_is_quiet(cache_enabled: bool, stage: FetchStage, events: Seq<FetchEvent>)
    requires
        stage == FetchStage::Done || stage == FetchStage::Failed,
    ensures
        run_actions(cache_enabled, stage, events) == Seq::<FetchAction>::empty(),
    decreases events.len(),
{
    if events.len() > 0 {
        lemma_done_is_quiet(cache_enabled, stage, events.drop_first());
    }
}

/// A cache that cannot be read fails the fetch: the network is not asked,
/// and nothing happens after the failure.
pub proof fn lemma_broken_cache_fails(rest: Seq<FetchEvent>)
    ensures
        run_actions(true, FetchStage::Start, seq![FetchEvent::Begin, FetchEvent::CacheReadFailed] + rest)
            == seq![FetchAction::ReadCache, FetchAction::Fail],
{
    let evs = seq![FetchEvent::Begin, FetchEvent::CacheReadFailed] + rest;
    assert(evs[0] == FetchEvent::Begin);
    assert(evs.drop_first()[0] == FetchEvent::CacheReadFailed);
    assert(evs.drop_first().drop_first() =~= rest);
    lemma_done_is_quiet(true, FetchStage::Failed, rest);
    assert(run_actions(true, FetchStage::ReadingCache, evs.drop_first()) =~= seq![FetchAction::Fail]);
    assert(run_actions(true, FetchStage::Start, evs) =~= seq![FetchAction::ReadCache, FetchAction::Fail]);
}

/// With the cache on, what was fetched is written to the cache before it is
/// handed out.
pub proof fn lemma_written_before_use(events: Seq<FetchEvent>)
    ensures
        forall|i: int|
            0 <= i < run_actions(true, FetchStage::Start, events).len()
                && #[trigger] run_actions(true, FetchStage::Start, events)[i]
                == FetchAction::UseFetched ==> exists|j: int|
                0 <= j < i && run_actions(true, FetchStage::Start, events)[j]
                    == FetchAction::WriteCache,
{
    lemma_written_before_use_from(FetchStage::Start, events);
}

proof fn lemma_written_before_use_from(stage: FetchStage, events: Seq<FetchEvent>)
    ensures
        ({
            let acts = run_actions(true, stage, events);
            forall|i: int|
                0 <= i < acts.len() && #[trigger] acts[i] == FetchAction::UseFetched
                    ==> (stage == FetchStage::WritingCache || exists|j: int|
                    0 <= j < i && acts[j] == FetchAction::WriteCache)
        }),
    decreases events.len(),
{
    if events.len() > 0 {
        match next_step(true, stage, events[0]) {
            Some((s, a)) => {
                lemma_written_before_use_from(s, events.drop_first());
                let rest = run_actions(true, s, events.drop_first());
                let acts = run_actions(true, stage, events);
                assert(acts == seq![a] + rest);
                assert forall|i: int|
                    0 <= i < acts.len() && #[trigger] acts[i] == FetchAction::UseFetched implies (
                    stage == FetchStage::WritingCache || exists|j: int|
                        0 <= j < i && acts[j] == FetchAction::WriteCache) by {
                    if i > 0 {
                        assert(acts[i] == rest[i - 1]);
                        if s == FetchStage::WritingCache {
                            assert(a == FetchAction::WriteCache);
                            assert(acts[0] == FetchAction::WriteCache);
                        } else {
                            let j = choose|j: int| 0 <= j < i - 1 && rest[j] == FetchAction::WriteCache;
                            assert(acts[j + 1] == FetchAction::WriteCache);
                        }
                    }
                }
            },
            None => {
                lemma_written_before_use_from(stage, events.drop_first());
            },
        }
    }
}

} // verus!
