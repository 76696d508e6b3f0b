//! What holds of loading, committing and matching as a whole.

use vstd::prelude::*;

use crate::catalog::catalog_refusal;
use crate::catalog::entry_fault;
use crate::catalog::first_entry_fault;
use crate::catalog::free;
use crate::catalog::valid_catalog;
use crate::catalog::ModelView;
use crate::store::first_subscription_fault;
use crate::store::admits;
use crate::store::in_force;
use crate::store::initial_state;
use crate::store::state_read;
use crate::store::state_refusal;
use crate::store::step_after;
use crate::store::subscription_fault;
use crate::store::subscriptions_refusal;
use crate::store::temporary_suffix_text;
use crate::store::valid_state;
use crate::store::valid_subscriptions;
use crate::store::wants;
use crate::store::CommitStep;
use crate::store::LoadError;
use crate::store::LoadErrorView;
use crate::store::ReadError;
use crate::store::State;
use crate::store::StateView;
use crate::store::StepOutcome;
use crate::store::Subscription;
use crate::store::SubscriptionError;
use crate::store::SubscriptionView;
use crate::strings::ascii_digit;
use crate::strings::blank;
use crate::strings::decimal;
use crate::strings::lemma_decimal_digits;
use crate::strings::lemma_decimal_injective;
use crate::strings::lemma_trimmed_blank;
use crate::strings::lemma_trimmed_padded;
use crate::strings::lowered;
use crate::strings::occurs_in;
use crate::strings::trimmed;
use crate::text_laws::parts_occur;
use crate::text_laws::what_occurs_is_a_part;

verus! {

/// What a file holds.
pub enum Contents {
    /// Part of a state at most.
    Unfinished,
    /// A whole state, which may not have reached the disk yet.
    Written(StateView),
    /// A whole state that has reached the disk.
    Durable(StateView),
}

/// The files that a commit has to do with.
pub struct Disk {
    /// The state file, if there is one.
    pub file: Option<Contents>,
    /// The temporary file, if there is one.
    pub temporary: Option<Contents>,
    /// An attempt to remove the temporary file has failed.
    pub stuck: bool,
}

/// The files before a commit.
pub open spec fn disk_before(file: Option<Contents>) -> Disk {
    Disk { file, temporary: None, stuck: false }
}

/// The files after the action of a step in committing `next`. An action that does not go well
/// leaves them as they were; a write that fails leaves the temporary file unfinished.
pub open spec fn disk_after(
    disk: Disk,
    next: StateView,
    step: CommitStep,
    outcome: StepOutcome,
) -> Disk {
    if outcome is Done {
        match step {
            CommitStep::CreateTemporary => Disk { temporary: Some(Contents::Unfinished), ..disk },
            CommitStep::Write => Disk { temporary: Some(Contents::Written(next)), ..disk },
            CommitStep::Sync => Disk {
                temporary: match disk.temporary {
                    Some(Contents::Written(state)) => Some(Contents::Durable(state)),
                    other => other,
                },
                ..disk
            },
            CommitStep::Rename => Disk { file: disk.temporary, temporary: None, ..disk },
            CommitStep::RemoveTemporary => Disk { temporary: None, ..disk },
            _ => disk,
        }
    } else if step is RemoveTemporary {
        Disk { stuck: true, ..disk }
    } else {
        disk
    }
}

/// Where a commit of `next` stands, and which files there are, once its actions have gone as
/// told.
pub open spec fn commit_run(
    file: Option<Contents>,
    next: StateView,
    outcomes: Seq<StepOutcome>,
) -> (CommitStep, Disk)
    decreases outcomes.len(),
{
    if outcomes.len() == 0 {
        (CommitStep::FindName, disk_before(file))
    } else {
        let (step, disk) = commit_run(file, next, outcomes.drop_last());
        (step_after(step, outcomes.last()), disk_after(disk, next, step, outcomes.last()))
    }
}

/// Which files every step of a commit finds.
spec fn step_finds(
    file: Option<Contents>,
    next: StateView,
    step: CommitStep,
    disk: Disk,
) -> bool {
    let before = disk_before(file);
    match step {
        CommitStep::FindName => disk == before,
        CommitStep::CreateTemporary => disk == before,
        CommitStep::Write => disk == (Disk { temporary: Some(Contents::Unfinished), ..before }),
        CommitStep::Sync => disk == (Disk { temporary: Some(Contents::Written(next)), ..before }),
        CommitStep::Rename => disk == (Disk {
            temporary: Some(Contents::Durable(next)),
            ..before
        }),
        CommitStep::RemoveTemporary => disk.file == file && !disk.stuck,
        CommitStep::Committed => disk == disk_before(Some(Contents::Durable(next))),
        CommitStep::Failed => disk.file == file && (disk.temporary is Some ==> disk.stuck),
    }
}

proof fn lemma_step_finds(file: Option<Contents>, next: StateView, outcomes: Seq<StepOutcome>)
    ensures
        step_finds(
            file,
            next,
            commit_run(file, next, outcomes).0,
            commit_run(file, next, outcomes).1,
        ),
    decreases outcomes.len(),
{
    if outcomes.len() > 0 {
        lemma_step_finds(file, next, outcomes.drop_last());
    }
}

/// However its actions go, a commit that has failed has left the state file as it was, and has
/// left no temporary file unless its removal failed.
pub proof fn failed_commit_keeps_the_state_file(
    file: Option<Contents>,
    next: StateView,
    outcomes: Seq<StepOutcome>,
)
    requires
        commit_run(file, next, outcomes).0 is Failed,
    ensures
        commit_run(file, next, outcomes).1.file == file,
        commit_run(file, next, outcomes).1.temporary is Some ==> commit_run(
            file,
            next,
            outcomes,
        ).1.stuck,
{
    lemma_step_finds(file, next, outcomes);
}

/// Once a commit is complete the state file holds the whole next state, on the disk, and no
/// temporary file is left.
pub proof fn committed_state_is_in_the_file(
    file: Option<Contents>,
    next: StateView,
    outcomes: Seq<StepOutcome>,
)
    requires
        commit_run(file, next, outcomes).0 is Committed,
    ensures
        commit_run(file, next, outcomes).1 == disk_before(Some(Contents::Durable(next))),
{
    lemma_step_finds(file, next, outcomes);
}

/// At every moment of a commit the state file is as it was before, or holds the whole next
/// state on the disk.
pub proof fn state_file_is_never_partial(
    file: Option<Contents>,
    next: StateView,
    outcomes: Seq<StepOutcome>,
)
    ensures
        commit_run(file, next, outcomes).1.file == file || commit_run(
            file,
            next,
            outcomes,
        ).1.file == Some(Contents::Durable(next)),
{
    lemma_step_finds(file, next, outcomes);
}

/// What reading the state file gives: that there is none, or the state that it holds. Nothing
/// is said of a file that holds part of a state.
pub open spec fn read_gives(file: Option<Contents>, read: Result<State, ReadError>) -> bool {
    match file {
        None => read == Err::<State, ReadError>(ReadError::NotFound),
        Some(Contents::Unfinished) => true,
        Some(Contents::Written(state)) => read matches Ok(held) && held@ == state,
        Some(Contents::Durable(state)) => read matches Ok(held) && held@ == state,
    }
}

/// Where the state in force is the one that reading the file leads to, it still is when a
/// commit has come to its end, however that went.
pub proof fn file_keeps_the_state_in_force(
    file: Option<Contents>,
    present: StateView,
    next: StateView,
    outcomes: Seq<StepOutcome>,
    earlier: Result<State, ReadError>,
    later: Result<State, ReadError>,
)
    requires
        !(file matches Some(Contents::Unfinished)),
        read_gives(file, earlier),
        state_read(earlier) == Some(present),
        commit_run(file, next, outcomes).0 is Committed || commit_run(
            file,
            next,
            outcomes,
        ).0 is Failed,
        read_gives(commit_run(file, next, outcomes).1.file, later),
    ensures
        state_read(later) == Some(in_force(present, next, commit_run(file, next, outcomes).0)),
{
    lemma_step_finds(file, next, outcomes);
}

/// Temporary files of different processes, or with different numbers, have different names.
pub proof fn temporary_names_do_not_collide(
    process: u32,
    sequence: u64,
    other_process: u32,
    other_sequence: u64,
)
    requires
        temporary_suffix_text(process, sequence) == temporary_suffix_text(
            other_process,
            other_sequence,
        ),
    ensures
        process == other_process,
        sequence == other_sequence,
{
    reveal_strlit(".");
    reveal_strlit(".tmp");
    let p = decimal(process as nat);
    let q = decimal(other_process as nat);
    let m = decimal(sequence as nat);
    let n = decimal(other_sequence as nat);
    let a = temporary_suffix_text(process, sequence);
    let b = temporary_suffix_text(other_process, other_sequence);
    lemma_decimal_digits(process as nat);
    lemma_decimal_digits(other_process as nat);
    let x = p.len() as int;
    let y = q.len() as int;
    assert(a[1 + x] == '.');
    assert(b[1 + y] == '.');
    if x < y {
        assert(b[1 + x] == q[x]);
        assert(ascii_digit(q[x]));
    }
    if y < x {
        assert(a[1 + y] == p[y]);
        assert(ascii_digit(p[y]));
    }
    assert(a.subrange(1, 1 + x) =~= p);
    assert(b.subrange(1, 1 + y) =~= q);
    assert(a.len() == 1 + x + 1 + m.len() + 4);
    assert(b.len() == 1 + y + 1 + n.len() + 4);
    assert(a.subrange(2 + x, 2 + x + m.len()) =~= m);
    assert(b.subrange(2 + y, 2 + y + n.len()) =~= n);
    lemma_decimal_injective(process as nat, other_process as nat);
    lemma_decimal_injective(sequence as nat, other_sequence as nat);
}

/// Where there is no file yet the initial state is loaded: nothing is wrong with it.
pub proof fn initial_state_is_valid(error: LoadErrorView)
    ensures
        valid_state(initial_state()),
        !state_refusal(initial_state(), error),
{
    valid_states_are_not_refused(initial_state(), error);
}

/// A valid state is refused for nothing.
pub proof fn valid_states_are_not_refused(state: StateView, error: LoadErrorView)
    requires
        valid_state(state),
    ensures
        !state_refusal(state, error),
{
    if state_refusal(state, error) {
        match error {
            LoadErrorView::Read(_) => {},
            LoadErrorView::Catalog(fault) => {
                assert(valid_catalog(state.catalog));
                let i = choose|i: int| #[trigger]
                    first_entry_fault(state.catalog, i) && entry_fault(state.catalog[i]) == Some(
                        fault,
                    );
                assert(entry_fault(state.catalog[i]) is None);
            },
            LoadErrorView::Subscription(fault) => {
                let g = choose|g: u64| #[trigger]
                    first_subscription_fault(state.subscriptions, g) && subscription_fault(
                        g,
                        state.subscriptions[g],
                    ) == Some(fault);
                assert(state.subscriptions.contains_key(g));
            },
        }
    }
}

/// A state that is not initialized and has no catalog is judged by its subscriptions alone.
pub proof fn empty_catalog_is_allowed_before_initialization(state: StateView)
    requires
        !state.initialized,
        state.catalog.len() == 0,
    ensures
        valid_state(state) <==> valid_subscriptions(state.subscriptions),
{
}

/// An initialized state has a valid catalog, or it is refused.
pub proof fn initialized_state_needs_a_catalog(state: StateView)
    requires
        state.initialized,
        valid_state(state),
    ensures
        valid_catalog(state.catalog),
{
}

/// Whitespace around a search makes no difference.
pub proof fn search_ignores_surrounding_whitespace(
    sub: SubscriptionView,
    before: Seq<char>,
    after: Seq<char>,
    model: ModelView,
)
    requires
        blank(before),
        blank(after),
    ensures
        wants(SubscriptionView { search: before + sub.search + after, ..sub }, model) == wants(
            sub,
            model,
        ),
{
    lemma_trimmed_padded(before, sub.search, after);
}

/// The case of a search, of a name and of an id makes no difference.
pub proof fn search_ignores_case(
    sub: SubscriptionView,
    search: Seq<char>,
    model: ModelView,
    name: Seq<char>,
    id: Seq<char>,
)
    requires
        lowered(trimmed(search)) == lowered(trimmed(sub.search)),
        lowered(name) == lowered(model.name),
        lowered(id) == lowered(model.id),
    ensures
        wants(SubscriptionView { search, ..sub }, ModelView { name, id, ..model }) == wants(
            sub,
            model,
        ),
{
}

/// A search that has been trimmed and lowercased beforehand finds the same models, where doing
/// both again changes nothing more.
pub proof fn prepared_search_finds_the_same(
    sub: SubscriptionView,
    prepared: Seq<char>,
    model: ModelView,
)
    requires
        prepared == lowered(trimmed(sub.search)),
        lowered(trimmed(prepared)) == prepared,
    ensures
        wants(SubscriptionView { search: prepared, ..sub }, model) == wants(sub, model),
{
}

/// A blank search filters nothing.
pub proof fn blank_search_filters_nothing(sub: SubscriptionView, model: ModelView)
    requires
        blank(sub.search),
    ensures
        wants(sub, model) == admits(sub, model),
{
    lemma_trimmed_blank(sub.search);
}

/// Emptying the search loses no model.
pub proof fn emptied_search_loses_no_model(sub: SubscriptionView, model: ModelView)
    requires
        wants(sub, model),
    ensures
        wants(SubscriptionView { search: Seq::empty(), ..sub }, model),
{
    blank_search_filters_nothing(SubscriptionView { search: Seq::empty(), ..sub }, model);
}

/// Asking for less context, or for paid models too, loses no model.
pub proof fn looser_filters_want_no_less(
    sub: SubscriptionView,
    min_context: u32,
    free_only: bool,
    model: ModelView,
)
    requires
        wants(sub, model),
        min_context <= sub.min_context,
        free_only ==> sub.free_only,
    ensures
        wants(SubscriptionView { min_context, free_only, ..sub }, model),
{
}

/// Whom a subscription notifies, and how, makes no difference to what it wants.
pub proof fn delivery_settings_do_not_filter(
    sub: SubscriptionView,
    other: SubscriptionView,
    model: ModelView,
)
    requires
        sub.free_only == other.free_only,
        sub.min_context == other.min_context,
        sub.search == other.search,
    ensures
        wants(sub, model) == wants(other, model),
{
}

/// What a model's description says makes no difference to whether it is wanted.
pub proof fn descriptions_are_not_searched(
    sub: SubscriptionView,
    model: ModelView,
    description: Seq<char>,
)
    ensures
        wants(sub, ModelView { description, ..model }) == wants(sub, model),
{
}

/// A subscription wants a model that passes its filters wherever the search, trimmed and in
/// lowercase, stands in the lowercase name or id.
pub proof fn models_with_the_search_in_name_or_id_are_wanted(
    sub: SubscriptionView,
    model: ModelView,
    before: Seq<char>,
    after: Seq<char>,
)
    requires
        sub.free_only ==> free(model),
        sub.min_context <= model.context_length,
        ({
            ||| lowered(model.name) == before + lowered(trimmed(sub.search)) + after
            ||| lowered(model.id) == before + lowered(trimmed(sub.search)) + after
        }),
    ensures
        wants(sub, model),
{
    parts_occur(before, lowered(trimmed(sub.search)), after);
}

/// A subscription wants a model only if that passes its filters, and the search, unless it is
/// blank, stands in the name or in the id.
pub proof fn wanted_models_hold_the_search(sub: SubscriptionView, model: ModelView) -> (around: (
    Seq<char>,
    Seq<char>,
))
    requires
        wants(sub, model),
    ensures
        sub.free_only ==> free(model),
        sub.min_context <= model.context_length,
        ({
            ||| lowered(trimmed(sub.search)).len() == 0
            ||| lowered(model.name) == around.0 + lowered(trimmed(sub.search)) + around.1
            ||| lowered(model.id) == around.0 + lowered(trimmed(sub.search)) + around.1
        }),
{
    let query = lowered(trimmed(sub.search));
    if occurs_in(lowered(model.name), query) {
        what_occurs_is_a_part(lowered(model.name), query)
    } else if occurs_in(lowered(model.id), query) {
        what_occurs_is_a_part(lowered(model.id), query)
    } else {
        (query, query)
    }
}

/// Apart from its search a subscription goes by whether a model is free and by its context.
pub proof fn subscriptions_filter_by_price_and_context(sub: SubscriptionView, model: ModelView)
    ensures
        admits(sub, model) <==> (!sub.free_only || free(model)) && sub.min_context
            <= model.context_length,
{
}

/// Subscriptions are valid exactly if no guild, channel or role has the id zero, and no role
/// that of its guild.
pub proof fn valid_subscriptions_have_proper_ids(subs: Map<u64, SubscriptionView>)
    ensures
        valid_subscriptions(subs) <==> forall|guild: u64| #[trigger]
            subs.contains_key(guild) ==> {
                &&& guild != 0
                &&& subs[guild].channel_id != 0
                &&& subs[guild].role_id != Some(0u64)
                &&& subs[guild].role_id != Some(guild)
            },
{
    assert forall|guild: u64| #[trigger] subs.contains_key(guild) implies (subscription_fault(
        guild,
        subs[guild],
    ) is None <==> guild != 0 && subs[guild].channel_id != 0 && subs[guild].role_id != Some(0u64)
        && subs[guild].role_id != Some(guild)) by {}
}

/// Subscriptions are refused for the guild with the least id among those at fault: for a guild
/// or channel of zero first, then for a role of zero, then for a role that is the guild.
pub proof fn subscriptions_are_refused_for_the_first_guild_at_fault(
    subs: Map<u64, SubscriptionView>,
    error: SubscriptionError,
) -> (guild: u64)
    requires
        subscriptions_refusal(subs, error),
    ensures
        subs.contains_key(guild),
        forall|g: u64| #[trigger]
            subs.contains_key(g) && g < guild ==> {
                &&& g != 0
                &&& subs[g].channel_id != 0
                &&& subs[g].role_id != Some(0u64)
                &&& subs[g].role_id != Some(g)
            },
        error is ZeroId <==> guild == 0 || subs[guild].channel_id == 0,
        error is ZeroRole <==> guild != 0 && subs[guild].channel_id != 0 && subs[guild].role_id
            == Some(0u64),
        error is RoleIsGuild <==> guild != 0 && subs[guild].channel_id != 0 && subs[guild].role_id
            == Some(guild),
{
    let guild = choose|guild: u64| #[trigger]
        first_subscription_fault(subs, guild) && subscription_fault(guild, subs[guild]) == Some(
            error,
        );
    assert forall|g: u64| #[trigger] subs.contains_key(g) && g < guild implies {
        &&& g != 0
        &&& subs[g].channel_id != 0
        &&& subs[g].role_id != Some(0u64)
        &&& subs[g].role_id != Some(g)
    } by {
        assert(subscription_fault(g, subs[g]) is None);
    }
    guild
}

/// A state is valid exactly if its subscriptions are, and its catalog is too unless it is empty
/// and the bot is not initialized.
pub proof fn states_are_judged_by_catalog_and_subscriptions(state: StateView)
    ensures
        valid_state(state) <==> {
            &&& valid_subscriptions(state.subscriptions)
            &&& !state.initialized && state.catalog.len() == 0 || valid_catalog(state.catalog)
        },
{
}

/// A state is refused for what its catalog is refused for; for its subscriptions only where
/// nothing is wrong with the catalog.
pub proof fn catalogs_are_judged_before_subscriptions(state: StateView, error: LoadErrorView)
    requires
        state_refusal(state, error),
    ensures
        match error {
            LoadErrorView::Read(_) => false,
            LoadErrorView::Catalog(fault) => {
                &&& state.initialized || state.catalog.len() > 0
                &&& catalog_refusal(state.catalog, fault)
            },
            LoadErrorView::Subscription(fault) => {
                &&& !state.initialized && state.catalog.len() == 0 || valid_catalog(state.catalog)
                &&& subscriptions_refusal(state.subscriptions, fault)
            },
        },
{
}

/// What is read is what is loaded; a missing file leads to a state that is not initialized, with
/// no catalog, no subscription and no fetch; any other failure to none.
pub proof fn loading_starts_from_what_was_read(
    state: State,
    present: StateView,
    next: StateView,
    reached: CommitStep,
)
    ensures
        state_read(Ok(state)) == Some(state@),
        state_read(Err(ReadError::NotFound)) == Some(
            StateView {
                initialized: false,
                catalog: Seq::empty(),
                subscriptions: Map::empty(),
                last_success: None,
            },
        ),
        state_read(Err(ReadError::Unreadable)) is None,
        state_read(Err(ReadError::Malformed)) is None,
        in_force(present, next, reached) == if reached is Committed {
            next
        } else {
            present
        },
{
}

/// How the actions of a commit go that completes: the name is found, any number of temporary
/// names is taken, and then everything is done.
spec fn smooth(taken: nat) -> Seq<StepOutcome> {
    seq![StepOutcome::Done] + Seq::new(taken, |i: int| StepOutcome::AlreadyExists) + seq![
        StepOutcome::Done,
        StepOutcome::Done,
        StepOutcome::Done,
        StepOutcome::Done,
    ]
}

proof fn lemma_run_next(
    file: Option<Contents>,
    next: StateView,
    outcomes: Seq<StepOutcome>,
    outcome: StepOutcome,
)
    ensures
        commit_run(file, next, outcomes.push(outcome)).0 == step_after(
            commit_run(file, next, outcomes).0,
            outcome,
        ),
{
    assert(outcomes.push(outcome).drop_last() =~= outcomes);
}

/// The actions that have gone before a step, while the commit goes well.
proof fn lemma_history(file: Option<Contents>, next: StateView, outcomes: Seq<StepOutcome>) -> (
    taken: nat)
    ensures
        match commit_run(file, next, outcomes).0 {
            CommitStep::FindName => outcomes.len() == 0,
            CommitStep::CreateTemporary => outcomes == smooth(taken).take(taken as int + 1),
            CommitStep::Write => outcomes == smooth(taken).take(taken as int + 2),
            CommitStep::Sync => outcomes == smooth(taken).take(taken as int + 3),
            CommitStep::Rename => outcomes == smooth(taken).take(taken as int + 4),
            CommitStep::Committed => outcomes.len() >= taken + 5 && outcomes.take(taken as int + 5)
                == smooth(taken),
            _ => true,
        },
    decreases outcomes.len(),
{
    if outcomes.len() == 0 {
        0
    } else {
        let front = outcomes.drop_last();
        let last = outcomes.last();
        let before = lemma_history(file, next, front);
        let step = commit_run(file, next, front).0;
        let reached = commit_run(file, next, outcomes).0;
        assert(outcomes =~= front.push(last));
        let taken = if step is FindName {
            0
        } else if step is CreateTemporary && last is AlreadyExists {
            before + 1
        } else {
            before
        };
        match reached {
            CommitStep::CreateTemporary => {
                assert(outcomes =~= smooth(taken).take(taken as int + 1));
            },
            CommitStep::Write => {
                assert(outcomes =~= smooth(taken).take(taken as int + 2));
            },
            CommitStep::Sync => {
                assert(outcomes =~= smooth(taken).take(taken as int + 3));
            },
            CommitStep::Rename => {
                assert(outcomes =~= smooth(taken).take(taken as int + 4));
            },
            CommitStep::Committed => {
                if step is Committed {
                    assert(outcomes.take(taken as int + 5) =~= front.take(taken as int + 5));
                } else {
                    assert(outcomes.take(taken as int + 5) =~= smooth(taken));
                }
            },
            _ => {},
        }
        taken
    }
}

/// A commit completes only if the name is found, a temporary file is created, however many
/// names were taken, and it is then written, flushed and renamed without a failure.
pub proof fn only_smooth_commits_complete(
    file: Option<Contents>,
    next: StateView,
    outcomes: Seq<StepOutcome>,
) -> (taken: nat)
    requires
        commit_run(file, next, outcomes).0 is Committed,
    ensures
        outcomes.len() >= taken + 5,
        outcomes[0] is Done,
        forall|i: int| 1 <= i <= taken ==> #[trigger] outcomes[i] is AlreadyExists,
        forall|i: int| taken < i < taken + 5 ==> #[trigger] outcomes[i] is Done,
{
    let taken = lemma_history(file, next, outcomes);
    assert forall|i: int| 0 <= i < taken + 5 implies #[trigger] outcomes[i] == smooth(taken)[i] by {
        assert(outcomes.take(taken as int + 5)[i] == outcomes[i]);
    }
    taken
}

proof fn lemma_names_taken(file: Option<Contents>, next: StateView, taken: nat)
    ensures
        commit_run(file, next, smooth(taken).take(taken as int + 1)).0 is CreateTemporary,
    decreases taken,
{
    let first = Seq::<StepOutcome>::empty();
    if taken == 0 {
        lemma_run_next(file, next, first, StepOutcome::Done);
        assert(smooth(taken).take(1) =~= first.push(StepOutcome::Done));
    } else {
        let fewer = (taken - 1) as nat;
        lemma_names_taken(file, next, fewer);
        lemma_run_next(file, next, smooth(fewer).take(taken as int), StepOutcome::AlreadyExists);
        assert(smooth(taken).take(taken as int + 1) =~= smooth(fewer).take(taken as int).push(
            StepOutcome::AlreadyExists,
        ));
    }
}

/// A commit whose actions all go well completes, however many temporary names were taken.
pub proof fn smooth_commits_complete(file: Option<Contents>, next: StateView, taken: nat)
    ensures
        commit_run(
            file,
            next,
            seq![StepOutcome::Done] + Seq::new(taken, |i: int| StepOutcome::AlreadyExists) + seq![
                StepOutcome::Done,
                StepOutcome::Done,
                StepOutcome::Done,
                StepOutcome::Done,
            ],
        ).0 is Committed,
{
    lemma_names_taken(file, next, taken);
    let done = StepOutcome::Done;
    let created = smooth(taken).take(taken as int + 1);
    lemma_run_next(file, next, created, done);
    lemma_run_next(file, next, created.push(done), done);
    lemma_run_next(file, next, created.push(done).push(done), done);
    lemma_run_next(file, next, created.push(done).push(done).push(done), done);
    assert(smooth(taken) =~= created.push(done).push(done).push(done).push(done));
}

/// A failure ends a commit: at once where there is no temporary file yet, and after one attempt
/// to remove that where there is. Only a temporary name that is taken is tried again. What has
/// come to its end stays there.
pub proof fn failures_end_a_commit(
    file: Option<Contents>,
    next: StateView,
    outcomes: Seq<StepOutcome>,
    outcome: StepOutcome,
    last: StepOutcome,
)
    ensures
        ({
            let step = commit_run(file, next, outcomes).0;
            let then = commit_run(file, next, outcomes.push(outcome)).0;
            let finally = commit_run(file, next, outcomes.push(outcome).push(last)).0;
            &&& step is FindName && !(outcome is Done) ==> then is Failed
            &&& step is CreateTemporary && outcome is Error ==> then is Failed
            &&& step is CreateTemporary && outcome is AlreadyExists ==> then is CreateTemporary
            &&& (step is Write || step is Sync || step is Rename) && !(outcome is Done) ==> then
                is RemoveTemporary && finally is Failed
            &&& step is RemoveTemporary ==> then is Failed
            &&& step is Committed || step is Failed ==> then == step
        }),
{
    lemma_run_next(file, next, outcomes, outcome);
    lemma_run_next(file, next, outcomes.push(outcome), last);
}

/// A temporary file's name tells the process and then the number, after a point each, and ends
/// in `.tmp`.
pub proof fn temporary_names_tell_process_and_number(process: u32, sequence: u64)
    ensures
        temporary_suffix_text(process, sequence) == "."@ + decimal(process as nat) + "."@ + decimal(
            sequence as nat,
        ) + ".tmp"@,
{
}

/// Subscriptions, states and errors are seen with all that they hold.
pub proof fn the_store_is_seen_whole(sub: Subscription, state: State, error: LoadError)
    ensures
        sub@.channel_id == sub.channel_id,
        sub@.role_id == sub.role_id,
        sub@.free_only == sub.free_only,
        sub@.search == sub.search@,
        sub@.min_context == sub.min_context,
        sub@.ping_enabled == sub.ping_enabled,
        sub@.compact == sub.compact,
        sub@.pending.len() == sub.pending@.len(),
        forall|i: int|
            0 <= i < sub.pending@.len() ==> #[trigger] sub@.pending[i] == sub.pending@[i]@,
        state@.initialized == state.initialized,
        state@.catalog == state.catalog@,
        state@.last_success == state.last_success,
        forall|guild: u64| #[trigger]
            state@.subscriptions.contains_key(guild) <==> state.subscriptions@.contains_key(guild),
        forall|guild: u64|
            state.subscriptions@.contains_key(guild) ==> #[trigger] state@.subscriptions[guild]
                == state.subscriptions@[guild]@,
        error matches LoadError::Read(cause) ==> error@ == LoadErrorView::Read(cause),
        error matches LoadError::Catalog(cause) ==> error@ == LoadErrorView::Catalog(cause@),
        error matches LoadError::Subscription(cause) ==> error@ == LoadErrorView::Subscription(
            cause,
        ),
{
}

} // verus!
