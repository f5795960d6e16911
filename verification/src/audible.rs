//! How the Audible metadata of a book is found.
use crate::commands::BuildArgs;
use crate::config::Config;
use vstd::prelude::*;

verus! {

// ---------------------------------------------------------------------------
// Options
// ---------------------------------------------------------------------------

/// What the options of a build say about Audible
#[derive(Debug, Clone, Copy, PartialEq, Eq, Structural)]
pub struct LookupOptions {
    /// Search by name where a book carries no ASIN
    pub auto_match: bool,
    /// Fetch chapters after metadata
    pub fetch_chapters: bool,
}

/// Whether a build fetches Audible metadata
pub fn wants_audible(args: &BuildArgs, config: &Config) -> (r: bool)
    ensures
        r == (args.fetch_audible || config.metadata.audible.enabled),
{
    args.fetch_audible || config.metadata.audible.enabled
}

/// The region that a build asks for.
pub open spec fn asked_region(given: Option<String>, configured: String) -> String {
    if given is Some {
        given->0
    } else {
        configured
    }
}

/// The region that a build asks for: that of the command line, or else that of the configuration
pub fn region_name(args: &BuildArgs, config: &Config) -> (r: String)
    ensures
        r == match args.audible_region {
            Some(region) => region,
            None => config.metadata.audible.region,
        },
        r == asked_region(args.audible_region, config.metadata.audible.region),
{
    match &args.audible_region {
        Some(region) => region.clone(),
        None => config.metadata.audible.region.clone(),
    }
}

/// The region to use: the one that a name stands for, or else the usual one
pub fn region_or<R>(named: Option<R>, usual: R) -> (r: R)
    ensures
        r == match named {
            Some(region) => region,
            None => usual,
        },
{
    match named {
        Some(region) => region,
        None => usual,
    }
}

/// The options of the lookups of a build.
pub open spec fn options_of(args: BuildArgs, config: Config) -> LookupOptions {
    LookupOptions {
        auto_match: args.audible_auto_match || config.metadata.audible.auto_match,
        fetch_chapters: config.metadata.audible.fetch_chapters,
    }
}

/// The options of the lookups of a build
pub fn lookup_options(args: &BuildArgs, config: &Config) -> (r: LookupOptions)
    ensures
        r.auto_match == (args.audible_auto_match || config.metadata.audible.auto_match),
        r.fetch_chapters == config.metadata.audible.fetch_chapters,
        r == options_of(*args, *config),
{
    LookupOptions {
        auto_match: args.audible_auto_match || config.metadata.audible.auto_match,
        fetch_chapters: config.metadata.audible.fetch_chapters,
    }
}

// ---------------------------------------------------------------------------
// The lookup of a book
// ---------------------------------------------------------------------------

/// How a lookup ended
pub enum LookupOutcome {
    /// The metadata was in the cache
    Cached { asin: String, matched: bool },
    /// The metadata was fetched
    Fetched { asin: String, matched: bool },
    /// The metadata could not be fetched
    FetchFailed { asin: String, matched: bool },
    /// No book has the name
    NoMatch,
    /// The search by name failed
    SearchFailed,
    /// The book carries no ASIN, and is not searched for
    NotAttempted,
}

impl LookupOutcome {
    /// The ASIN that was found.
    pub open spec fn asin(self) -> Option<String> {
        match self {
            Self::Cached { asin, .. } | Self::Fetched { asin, .. } | Self::FetchFailed {
                asin,
                ..
            } => Some(asin),
            _ => None,
        }
    }

    /// Whether there is metadata for the book.
    pub open spec fn has_metadata(self) -> bool {
        self is Cached || self is Fetched
    }

    /// The ASIN that was found
    pub fn found_asin(&self) -> (r: Option<String>)
        ensures
            r == self.asin(),
    {
        match self {
            Self::Cached { asin, .. } | Self::Fetched { asin, .. } | Self::FetchFailed {
                asin,
                ..
            } => Some(asin.clone()),
            Self::NoMatch | Self::SearchFailed | Self::NotAttempted => None,
        }
    }
}

/// Where a lookup stands: what it waits for
pub enum LookupState {
    /// Whether the name of the book carries an ASIN
    Detecting,
    /// What a search by name finds
    Searching,
    /// Whether the metadata is in the cache
    ReadingCache { asin: String, matched: bool },
    /// Whether the metadata can be fetched
    Fetching { asin: String, matched: bool },
    /// That the metadata has been put into the cache
    Storing { asin: String, matched: bool },
    /// That the chapters have been asked for
    FetchingChapters { asin: String, matched: bool },
    Finished(LookupOutcome),
}

/// What a lookup asks for
pub enum LookupAction {
    Search,
    ReadCache { asin: String },
    Fetch { asin: String },
    Store { asin: String },
    FetchChapters { asin: String },
    Finish,
}

/// What comes back
pub enum LookupEvent {
    /// The ASIN in the name of the book
    Detected(Option<String>),
    /// The ASINs that a search found, the best first
    Found(Vec<String>),
    SearchFailed,
    CacheHit,
    CacheMiss,
    Fetched,
    FetchFailed,
    /// The cache was written, or could not be
    Stored,
    /// The chapters were fetched, or there are none
    ChaptersFetched,
}

/// Whether an event answers what a lookup waits for.
pub open spec fn answers(state: LookupState, event: LookupEvent) -> bool {
    match state {
        LookupState::Detecting => event is Detected,
        LookupState::Searching => event is Found || event is SearchFailed,
        LookupState::ReadingCache { .. } => event is CacheHit || event is CacheMiss,
        LookupState::Fetching { .. } => event is Fetched || event is FetchFailed,
        LookupState::Storing { .. } => event is Stored,
        LookupState::FetchingChapters { .. } => event is ChaptersFetched,
        LookupState::Finished(_) => false,
    }
}

/// A lookup that has ended.
pub open spec fn ended(outcome: LookupOutcome) -> (LookupState, LookupAction) {
    (LookupState::Finished(outcome), LookupAction::Finish)
}

/// A lookup of a known ASIN: the cache is asked first.
pub open spec fn lookup_of(asin: String, matched: bool) -> (LookupState, LookupAction) {
    (LookupState::ReadingCache { asin, matched }, LookupAction::ReadCache { asin })
}

/// Where a lookup goes on an event, and what it asks for then.
pub open spec fn lookup_next(options: LookupOptions, state: LookupState, event: LookupEvent) -> (
    LookupState,
    LookupAction,
) {
    match (state, event) {
        (LookupState::Detecting, LookupEvent::Detected(Some(asin))) => lookup_of(asin, false),
        (LookupState::Detecting, LookupEvent::Detected(None)) => if options.auto_match {
            (LookupState::Searching, LookupAction::Search)
        } else {
            ended(LookupOutcome::NotAttempted)
        },
        (LookupState::Searching, LookupEvent::Found(asins)) => if asins@.len() > 0 {
            lookup_of(asins@[0], true)
        } else {
            ended(LookupOutcome::NoMatch)
        },
        (LookupState::Searching, _) => ended(LookupOutcome::SearchFailed),
        (LookupState::ReadingCache { asin, matched }, LookupEvent::CacheHit) => ended(
            LookupOutcome::Cached { asin, matched },
        ),
        (LookupState::ReadingCache { asin, matched }, _) => (
            LookupState::Fetching { asin, matched },
            LookupAction::Fetch { asin },
        ),
        (LookupState::Fetching { asin, matched }, LookupEvent::Fetched) => (
            LookupState::Storing { asin, matched },
            LookupAction::Store { asin },
        ),
        (LookupState::Fetching { asin, matched }, _) => ended(
            LookupOutcome::FetchFailed { asin, matched },
        ),
        (LookupState::Storing { asin, matched }, _) => if options.fetch_chapters {
            (LookupState::FetchingChapters { asin, matched }, LookupAction::FetchChapters { asin })
        } else {
            ended(LookupOutcome::Fetched { asin, matched })
        },
        (LookupState::FetchingChapters { asin, matched }, _) => ended(
            LookupOutcome::Fetched { asin, matched },
        ),
        (LookupState::Finished(outcome), _) => ended(outcome),
        (LookupState::Detecting, _) => ended(LookupOutcome::NotAttempted),
    }
}

/// Start the lookup of a known ASIN
pub fn begin_lookup(asin: String, matched: bool) -> (r: (LookupState, LookupAction))
    ensures
        r == lookup_of(asin, matched),
{
    (LookupState::ReadingCache { asin: asin.clone(), matched }, LookupAction::ReadCache { asin })
}

fn end_lookup(outcome: LookupOutcome) -> (r: (LookupState, LookupAction))
    ensures
        r == ended(outcome),
{
    (LookupState::Finished(outcome), LookupAction::Finish)
}

/// Take a lookup one step further
pub fn lookup_step(options: &LookupOptions, state: LookupState, event: LookupEvent) -> (r: (
    LookupState,
    LookupAction,
))
    requires
        answers(state, event),
    ensures
        r == lookup_next(*options, state, event),
{
    match state {
        LookupState::Detecting => match event {
            LookupEvent::Detected(Some(asin)) => begin_lookup(asin, false),
            _ => if options.auto_match {
                (LookupState::Searching, LookupAction::Search)
            } else {
                end_lookup(LookupOutcome::NotAttempted)
            },
        },
        LookupState::Searching => match event {
            LookupEvent::Found(asins) => if asins.len() > 0 {
                begin_lookup(asins[0].clone(), true)
            } else {
                end_lookup(LookupOutcome::NoMatch)
            },
            _ => end_lookup(LookupOutcome::SearchFailed),
        },
        LookupState::ReadingCache { asin, matched } => match event {
            LookupEvent::CacheHit => end_lookup(LookupOutcome::Cached { asin, matched }),
            _ => (
                LookupState::Fetching { asin: asin.clone(), matched },
                LookupAction::Fetch { asin },
            ),
        },
        LookupState::Fetching { asin, matched } => match event {
            LookupEvent::Fetched => (
                LookupState::Storing { asin: asin.clone(), matched },
                LookupAction::Store { asin },
            ),
            _ => end_lookup(LookupOutcome::FetchFailed { asin, matched }),
        },
        LookupState::Storing { asin, matched } => if options.fetch_chapters {
            (
                LookupState::FetchingChapters { asin: asin.clone(), matched },
                LookupAction::FetchChapters { asin },
            )
        } else {
            end_lookup(LookupOutcome::Fetched { asin, matched })
        },
        LookupState::FetchingChapters { asin, matched } => end_lookup(
            LookupOutcome::Fetched { asin, matched },
        ),
        LookupState::Finished(outcome) => end_lookup(outcome),
    }
}

/// The number of books with metadata.
pub open spec fn with_metadata(outcomes: Seq<LookupOutcome>) -> nat {
    outcomes.filter(|o: LookupOutcome| o.has_metadata()).len()
}

/// Count the books for which metadata was found
pub fn fetched_count(outcomes: &[LookupOutcome]) -> (r: usize)
    ensures
        r == with_metadata(outcomes@),
{
    let mut count: usize = 0;
    let mut i: usize = 0;
    proof {
        reveal(Seq::filter);
    }
    while i < outcomes.len()
        invariant
            i <= outcomes.len(),
            count == with_metadata(outcomes@.take(i as int)),
            count <= i,
        decreases outcomes.len() - i,
    {
        proof {
            reveal(Seq::filter);
            assert(outcomes@.take(i + 1).drop_last() =~= outcomes@.take(i as int));
        }
        match &outcomes[i] {
            LookupOutcome::Cached { .. } | LookupOutcome::Fetched { .. } => {
                count = count + 1;
            },
            _ => {},
        }
        i = i + 1;
    }
    assert(outcomes@.take(outcomes@.len() as int) =~= outcomes@);
    count
}

// ---------------------------------------------------------------------------
// Laws
// ---------------------------------------------------------------------------

/// All that a lookup can learn from outside
pub struct Replies {
    /// The ASIN in the name of the book
    pub asin: Option<String>,
    /// What a search finds, unless it fails
    pub search: Option<Vec<String>>,
    /// Whether the metadata is in the cache
    pub cached: bool,
    /// Whether the metadata can be fetched
    pub fetched: bool,
}

/// What comes back on an action.
pub open spec fn reply(replies: Replies, action: LookupAction) -> LookupEvent {
    match action {
        LookupAction::Search => match replies.search {
            Some(asins) => LookupEvent::Found(asins),
            None => LookupEvent::SearchFailed,
        },
        LookupAction::ReadCache { .. } => if replies.cached {
            LookupEvent::CacheHit
        } else {
            LookupEvent::CacheMiss
        },
        LookupAction::Fetch { .. } => if replies.fetched {
            LookupEvent::Fetched
        } else {
            LookupEvent::FetchFailed
        },
        LookupAction::Store { .. } => LookupEvent::Stored,
        _ => LookupEvent::ChaptersFetched,
    }
}

/// Where a lookup is after an event and at most `steps` answers to what it asks for.
pub open spec fn run(
    options: LookupOptions,
    replies: Replies,
    state: LookupState,
    event: LookupEvent,
    steps: nat,
) -> LookupState
    decreases steps,
{
    let (next, action) = lookup_next(options, state, event);
    if steps == 0 || action is Finish {
        next
    } else {
        run(options, replies, next, reply(replies, action), (steps - 1) as nat)
    }
}

/// How the lookup of a known ASIN ends: the cache goes before a fetch.
pub open spec fn asin_outcome(
    asin: String,
    matched: bool,
    replies: Replies,
) -> LookupOutcome {
    if replies.cached {
        LookupOutcome::Cached { asin, matched }
    } else if replies.fetched {
        LookupOutcome::Fetched { asin, matched }
    } else {
        LookupOutcome::FetchFailed { asin, matched }
    }
}

/// How a lookup ends: an ASIN in the name goes before a search, and of a search the first result
/// counts.
pub open spec fn expected_outcome(options: LookupOptions, replies: Replies) -> LookupOutcome {
    match (replies.asin, replies.search) {
        (Some(asin), _) => asin_outcome(asin, false, replies),
        (None, _) if !options.auto_match => LookupOutcome::NotAttempted,
        (None, None) => LookupOutcome::SearchFailed,
        (None, Some(asins)) => if asins@.len() == 0 {
            LookupOutcome::NoMatch
        } else {
            asin_outcome(asins@[0], true, replies)
        },
    }
}

/// Every lookup ends, after five answers at most, as the replies from outside say.
pub proof fn a_lookup_ends_as_its_replies_say(options: LookupOptions, replies: Replies)
    ensures
        run(options, replies, LookupState::Detecting, LookupEvent::Detected(replies.asin), 5)
            == LookupState::Finished(expected_outcome(options, replies)),
{
    reveal_with_fuel(run, 6);
}

/// The lookup of a known ASIN ends, after four answers at most, with metadata if it is in the
/// cache or can be fetched, and only then.
pub proof fn a_known_asin_is_looked_up(
    options: LookupOptions,
    replies: Replies,
    asin: String,
    matched: bool,
)
    ensures
        run(
            options,
            replies,
            lookup_of(asin, matched).0,
            reply(replies, lookup_of(asin, matched).1),
            4,
        ) == LookupState::Finished(asin_outcome(asin, matched, replies)),
        asin_outcome(asin, matched, replies).has_metadata() <==> replies.cached
            || replies.fetched,
        asin_outcome(asin, matched, replies).asin() == Some(asin),
{
    reveal_with_fuel(run, 5);
}

/// What comes back on an action answers what the lookup then waits for.
pub proof fn replies_are_answers(
    options: LookupOptions,
    replies: Replies,
    state: LookupState,
    event: LookupEvent,
)
    requires
        answers(state, event),
    ensures
        ({
            let (next, action) = lookup_next(options, state, event);
            action is Finish <==> next is Finished
        }),
        ({
            let (next, action) = lookup_next(options, state, event);
            !(action is Finish) ==> answers(next, reply(replies, action))
        }),
{
}

/// Metadata is fetched only where the cache does not hold it, and chapters only where the options
/// say so.
pub proof fn a_fetch_follows_a_cache_miss(
    options: LookupOptions,
    state: LookupState,
    event: LookupEvent,
)
    requires
        answers(state, event),
    ensures
        lookup_next(options, state, event).1 is Fetch ==> state is ReadingCache
            && event is CacheMiss,
        lookup_next(options, state, event).1 is Store ==> state is Fetching && event is Fetched,
        lookup_next(options, state, event).1 is FetchChapters ==> options.fetch_chapters,
{
}

/// The ASIN that a lookup works on.
pub open spec fn asin_at_work(state: LookupState) -> Option<String> {
    match state {
        LookupState::ReadingCache { asin, .. } => Some(asin),
        LookupState::Fetching { asin, .. } => Some(asin),
        LookupState::Storing { asin, .. } => Some(asin),
        LookupState::FetchingChapters { asin, .. } => Some(asin),
        LookupState::Finished(LookupOutcome::Cached { asin, .. }) => Some(asin),
        LookupState::Finished(LookupOutcome::Fetched { asin, .. }) => Some(asin),
        LookupState::Finished(LookupOutcome::FetchFailed { asin, .. }) => Some(asin),
        _ => None,
    }
}

/// The ASIN that an action is about.
pub open spec fn asin_asked_for(action: LookupAction) -> Option<String> {
    match action {
        LookupAction::ReadCache { asin } => Some(asin),
        LookupAction::Fetch { asin } => Some(asin),
        LookupAction::Store { asin } => Some(asin),
        LookupAction::FetchChapters { asin } => Some(asin),
        _ => None,
    }
}

/// A lookup that works on an ASIN works on the same one until it ends, and asks for no other.
pub proof fn a_lookup_keeps_its_asin(
    options: LookupOptions,
    state: LookupState,
    event: LookupEvent,
)
    requires
        answers(state, event),
        asin_at_work(state) is Some,
    ensures
        asin_at_work(lookup_next(options, state, event).0) == asin_at_work(state),
        !(lookup_next(options, state, event).0 is Finished) ==> asin_asked_for(
            lookup_next(options, state, event).1,
        ) == asin_at_work(state),
{
}

/// An ASIN in the name of a book is the one that is looked up, whatever the options; without one
/// the book is searched for where the options say so, and is left alone otherwise.
pub proof fn an_asin_in_the_name_is_looked_up(options: LookupOptions, asin: String)
    ensures
        lookup_next(
            options,
            LookupState::Detecting,
            LookupEvent::Detected(Some(asin)),
        ) == (
            LookupState::ReadingCache { asin, matched: false },
            LookupAction::ReadCache { asin },
        ),
        options.auto_match ==> lookup_next(
            options,
            LookupState::Detecting,
            LookupEvent::Detected(None),
        ) == (LookupState::Searching, LookupAction::Search),
        !options.auto_match ==> lookup_next(
            options,
            LookupState::Detecting,
            LookupEvent::Detected(None),
        ).0 == LookupState::Finished(LookupOutcome::NotAttempted),
{
}

/// Of what a search finds the first is looked up, as a match; a search that finds nothing or fails
/// ends the lookup.
pub proof fn the_first_that_is_found_is_looked_up(options: LookupOptions, found: Vec<String>)
    ensures
        found@.len() > 0 ==> lookup_next(
            options,
            LookupState::Searching,
            LookupEvent::Found(found),
        ) == (
            LookupState::ReadingCache { asin: found@[0], matched: true },
            LookupAction::ReadCache { asin: found@[0] },
        ),
        found@.len() == 0 ==> lookup_next(
            options,
            LookupState::Searching,
            LookupEvent::Found(found),
        ).0 == LookupState::Finished(LookupOutcome::NoMatch),
        lookup_next(options, LookupState::Searching, LookupEvent::SearchFailed).0
            == LookupState::Finished(LookupOutcome::SearchFailed),
{
}

/// What the cache holds is used as it is; what it does not hold is fetched, put into the cache,
/// and, where the options say so, followed by its chapters; what cannot be fetched is told.
pub proof fn the_cache_comes_first_and_is_filled(
    options: LookupOptions,
    asin: String,
    matched: bool,
)
    ensures
        lookup_next(
            options,
            LookupState::ReadingCache { asin, matched },
            LookupEvent::CacheHit,
        ).0 == LookupState::Finished(LookupOutcome::Cached { asin, matched }),
        lookup_next(
            options,
            LookupState::ReadingCache { asin, matched },
            LookupEvent::CacheMiss,
        ) == (LookupState::Fetching { asin, matched }, LookupAction::Fetch { asin }),
        lookup_next(options, LookupState::Fetching { asin, matched }, LookupEvent::Fetched) == (
            LookupState::Storing { asin, matched },
            LookupAction::Store { asin },
        ),
        lookup_next(options, LookupState::Fetching { asin, matched }, LookupEvent::FetchFailed).0
            == LookupState::Finished(LookupOutcome::FetchFailed { asin, matched }),
        options.fetch_chapters ==> lookup_next(
            options,
            LookupState::Storing { asin, matched },
            LookupEvent::Stored,
        ) == (
            LookupState::FetchingChapters { asin, matched },
            LookupAction::FetchChapters { asin },
        ),
        !options.fetch_chapters ==> lookup_next(
            options,
            LookupState::Storing { asin, matched },
            LookupEvent::Stored,
        ).0 == LookupState::Finished(LookupOutcome::Fetched { asin, matched }),
        lookup_next(
            options,
            LookupState::FetchingChapters { asin, matched },
            LookupEvent::ChaptersFetched,
        ).0 == LookupState::Finished(LookupOutcome::Fetched { asin, matched }),
        lookup_of(asin, matched) == (
            LookupState::ReadingCache { asin, matched },
            LookupAction::ReadCache { asin },
        ),
{
}

/// Metadata is there after a hit in the cache and after a fetch, and only then; the ASIN is known
/// after a failed fetch too.
pub proof fn outcomes_tell_what_was_found(asin: String, matched: bool)
    ensures
        (LookupOutcome::Cached { asin, matched }).has_metadata(),
        (LookupOutcome::Fetched { asin, matched }).has_metadata(),
        !(LookupOutcome::FetchFailed { asin, matched }).has_metadata(),
        !LookupOutcome::NoMatch.has_metadata(),
        !LookupOutcome::SearchFailed.has_metadata(),
        !LookupOutcome::NotAttempted.has_metadata(),
        (LookupOutcome::Cached { asin, matched }).asin() == Some(asin),
        (LookupOutcome::Fetched { asin, matched }).asin() == Some(asin),
        (LookupOutcome::FetchFailed { asin, matched }).asin() == Some(asin),
        LookupOutcome::NoMatch.asin() is None,
        LookupOutcome::SearchFailed.asin() is None,
        LookupOutcome::NotAttempted.asin() is None,
{
}

/// One more book adds one to the count of those with metadata if it has some, and nothing if not.
pub proof fn one_more_lookup_is_counted(outcomes: Seq<LookupOutcome>, last: LookupOutcome)
    ensures
        with_metadata(Seq::<LookupOutcome>::empty()) == 0,
        last is Cached || last is Fetched ==> with_metadata(outcomes.push(last)) == with_metadata(
            outcomes,
        ) + 1,
        !(last is Cached || last is Fetched) ==> with_metadata(outcomes.push(last))
            == with_metadata(outcomes),
{
    reveal(Seq::filter);
    assert(outcomes.push(last).drop_last() =~= outcomes);
}

/// The region on the command line goes before that of the configuration.
pub proof fn the_region_of_the_command_line_goes_first(region: String, configured: String)
    ensures
        asked_region(Some(region), configured) == region,
        asked_region(None, configured) == configured,
{
}

/// A build that finds no ASIN in the name of a book searches for it if the command line or the
/// configuration asks for that, and gives the book up otherwise; chapters are fetched once the
/// metadata is stored if and only if the configuration asks for them.
pub proof fn lookups_follow_their_options(args: BuildArgs, config: Config, asin: String)
    ensures
        ({
            let options = options_of(args, config);
            let start = lookup_next(options, LookupState::Detecting, LookupEvent::Detected(None));
            let stored = lookup_next(
                options,
                LookupState::Storing { asin, matched: false },
                LookupEvent::Stored,
            );
            &&& start.1 is Search <==> args.audible_auto_match
                || config.metadata.audible.auto_match
            &&& start.1 is Finish <==> !args.audible_auto_match
                && !config.metadata.audible.auto_match
            &&& stored.1 is FetchChapters <==> config.metadata.audible.fetch_chapters
            &&& stored.1 is Finish <==> !config.metadata.audible.fetch_chapters
        }),
{
}

} // verus!
