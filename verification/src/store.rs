//! The state that the bot keeps: subscriptions beside the catalog, and how it is loaded and
//! committed.

use std::collections::BTreeMap;
use std::path::PathBuf;

use vstd::prelude::*;
use vstd::std_specs::cmp::OrdSpec;
use vstd::std_specs::iter::IteratorSpec;

use crate::catalog::catalog_refusal;
use crate::catalog::event_views;
use crate::catalog::free;
use crate::catalog::valid_catalog;
use crate::catalog::validate;
use crate::catalog::CatalogError;
use crate::catalog::CatalogErrorView;
use crate::catalog::Event;
use crate::catalog::EventView;
use crate::catalog::Model;
use crate::catalog::ModelView;
use crate::ordered_map::OrderedMap;
use crate::strings::blank;
use crate::strings::contains;
use crate::strings::decimal;
use crate::strings::lemma_trimmed_blank;
use crate::strings::lower;
use crate::strings::lowered;
use crate::strings::occurs_in;
use crate::strings::push_decimal;
use crate::strings::trim;
use crate::strings::trimmed;

verus! {

/// What a guild has subscribed to, and the events that it has not been told of yet.
#[derive(Debug, PartialEq)]
pub struct Subscription {
    pub channel_id: u64,
    pub role_id: Option<u64>,
    pub free_only: bool,
    pub search: String,
    pub min_context: u32,
    pub ping_enabled: bool,
    pub compact: bool,
    pub pending: Vec<Event>,
}

/// What a [`Subscription`] stands for.
pub struct SubscriptionView {
    pub channel_id: u64,
    pub role_id: Option<u64>,
    pub free_only: bool,
    pub search: Seq<char>,
    pub min_context: u32,
    pub ping_enabled: bool,
    pub compact: bool,
    pub pending: Seq<EventView>,
}

impl View for Subscription {
    type V = SubscriptionView;

    open spec fn view(&self) -> SubscriptionView {
        SubscriptionView {
            channel_id: self.channel_id,
            role_id: self.role_id,
            free_only: self.free_only,
            search: self.search@,
            min_context: self.min_context,
            ping_enabled: self.ping_enabled,
            compact: self.compact,
            pending: event_views(self.pending@),
        }
    }
}

impl Clone for Subscription {
    fn clone(&self) -> (r: Self)
        ensures
            r@ == self@,
    {
        let mut pending: Vec<Event> = Vec::new();
        let mut i: usize = 0;
        while i < self.pending.len()
            invariant
                i <= self.pending@.len(),
                pending@.len() == i,
                forall|j: int| 0 <= j < i ==> (#[trigger] pending@[j])@ == self.pending@[j]@,
            decreases self.pending@.len() - i,
        {
            pending.push(self.pending[i].clone());
            i = i + 1;
        }
        assert(event_views(pending@) =~= event_views(self.pending@));
        Subscription {
            channel_id: self.channel_id,
            role_id: self.role_id,
            free_only: self.free_only,
            search: self.search.clone(),
            min_context: self.min_context,
            ping_enabled: self.ping_enabled,
            compact: self.compact,
            pending,
        }
    }
}

/// The setting that a subscription has where none was saved.
pub fn default_true() -> (r: bool)
    ensures
        r,
{
    true
}

/// Whether the query occurs in the name or in the id.
pub open spec fn query_occurs(query: Seq<char>, name: Seq<char>, id: Seq<char>) -> bool {
    occurs_in(name, query) || occurs_in(id, query)
}

/// Whether a subscription wants a model, apart from its search: a free one if it wants only
/// those, with at least the context that it asks for.
pub open spec fn admits(sub: SubscriptionView, model: ModelView) -> bool {
    (sub.free_only ==> free(model)) && sub.min_context <= model.context_length
}

/// Whether a subscription wants a model: its search, without surrounding whitespace, is empty
/// or occurs in the name or the id, whatever the case.
pub open spec fn wants(sub: SubscriptionView, model: ModelView) -> bool {
    let query = lowered(trimmed(sub.search));
    admits(sub, model) && (query.len() == 0 || query_occurs(
        query,
        lowered(model.name),
        lowered(model.id),
    ))
}

/// Whether the query is empty, or occurs in the name or in the id.
pub fn search_hits(query: &str, name: &str, id: &str) -> (r: bool)
    ensures
        r == (query@.len() == 0 || query_occurs(query@, name@, id@)),
{
    query.is_empty() || contains(name, query) || contains(id, query)
}

impl Subscription {
    /// Whether the subscription wants a model, apart from its search.
    pub fn admits(&self, model: &Model) -> (r: bool)
        ensures
            r == admits(self@, model@),
    {
        !((self.free_only && !model.is_free()) || model.context_length < self.min_context as u64)
    }

    /// Whether the subscription wants a model.
    pub fn matches(&self, model: &Model) -> (r: bool)
        ensures
            r == wants(self@, model@),
            blank(self.search@) ==> r == admits(self@, model@),
    {
        proof {
            lemma_trimmed_blank(self.search@);
        }
        if !self.admits(model) {
            return false;
        }
        let query = lower(trim(self.search.as_str()));
        let name = lower(model.name.as_str());
        let id = lower(model.id.as_str());
        search_hits(query.as_str(), name.as_str(), id.as_str())
    }
}

/// The state that the bot keeps.
#[derive(Debug)]
pub struct State {
    pub initialized: bool,
    pub catalog: OrderedMap<Model>,
    pub subscriptions: BTreeMap<u64, Subscription>,
    pub last_success: Option<u64>,
}

/// What a [`State`] stands for.
pub struct StateView {
    pub initialized: bool,
    pub catalog: Seq<(Seq<char>, ModelView)>,
    pub subscriptions: Map<u64, SubscriptionView>,
    pub last_success: Option<u64>,
}

impl View for State {
    type V = StateView;

    open spec fn view(&self) -> StateView {
        StateView {
            initialized: self.initialized,
            catalog: self.catalog@,
            subscriptions: self.subscriptions@.map_values(|s: Subscription| s@),
            last_success: self.last_success,
        }
    }
}

/// The state of a bot that has not run yet.
pub open spec fn initial_state() -> StateView {
    StateView {
        initialized: false,
        catalog: Seq::empty(),
        subscriptions: Map::empty(),
        last_success: None,
    }
}

impl Default for State {
    fn default() -> (r: Self)
        ensures
            r@ == initial_state(),
    {
        let subscriptions: BTreeMap<u64, Subscription> = BTreeMap::new();
        assert(subscriptions@.map_values(|s: Subscription| s@) =~= Map::<
            u64,
            SubscriptionView,
        >::empty());
        State { initialized: false, catalog: OrderedMap::new(), subscriptions, last_success: None }
    }
}

impl Clone for State {
    fn clone(&self) -> (r: Self)
        ensures
            r@ == self@,
    {
        assert forall|a: Model, b: Model| #[trigger] cloned(a, b) implies a@ == b@ by {}
        State {
            initialized: self.initialized,
            catalog: self.catalog.clone(),
            subscriptions: self.subscriptions.clone(),
            last_success: self.last_success,
        }
    }
}

/// Why a subscription is refused.
#[derive(Clone, Copy, Debug, PartialEq, Eq, Structural)]
pub enum SubscriptionError {
    ZeroId,
    ZeroRole,
    RoleIsGuild,
}

/// The text that reports an error.
pub open spec fn subscription_message(error: SubscriptionError) -> Seq<char> {
    match error {
        SubscriptionError::ZeroId => "subscription IDs must be nonzero"@,
        SubscriptionError::ZeroRole => "subscription role ID must be nonzero"@,
        SubscriptionError::RoleIsGuild => "subscription role ID must differ from guild ID"@,
    }
}

impl SubscriptionError {
    /// The text that reports the error.
    pub fn message(&self) -> (r: String)
        ensures
            r@ == subscription_message(*self),
    {
        match self {
            SubscriptionError::ZeroId => "subscription IDs must be nonzero".to_owned(),
            SubscriptionError::ZeroRole => "subscription role ID must be nonzero".to_owned(),
            SubscriptionError::RoleIsGuild => {
                "subscription role ID must differ from guild ID".to_owned()
            },
        }
    }
}

/// What is wrong with the subscription of a guild: an id of zero, or a role that is the
/// guild's own.
pub open spec fn subscription_fault(guild: u64, sub: SubscriptionView) -> Option<
    SubscriptionError,
> {
    if guild == 0 || sub.channel_id == 0 {
        Some(SubscriptionError::ZeroId)
    } else if sub.role_id == Some(0u64) {
        Some(SubscriptionError::ZeroRole)
    } else if sub.role_id == Some(guild) {
        Some(SubscriptionError::RoleIsGuild)
    } else {
        None
    }
}

/// Subscriptions none of which has a fault.
pub open spec fn valid_subscriptions(subs: Map<u64, SubscriptionView>) -> bool {
    forall|guild: u64| #[trigger]
        subs.contains_key(guild) ==> subscription_fault(guild, subs[guild]) is None
}

/// The guild is the first, in the order of the ids, whose subscription has a fault.
pub open spec fn first_subscription_fault(subs: Map<u64, SubscriptionView>, guild: u64) -> bool {
    &&& subs.contains_key(guild)
    &&& subscription_fault(guild, subs[guild]) is Some
    &&& forall|g: u64| #[trigger]
        subs.contains_key(g) && g < guild ==> subscription_fault(g, subs[g]) is None
}

/// The error for which subscriptions are refused: the fault of the first faulty one.
pub open spec fn subscriptions_refusal(
    subs: Map<u64, SubscriptionView>,
    error: SubscriptionError,
) -> bool {
    exists|guild: u64| #[trigger]
        first_subscription_fault(subs, guild) && subscription_fault(guild, subs[guild]) == Some(
            error,
        )
}

/// The fault of a guild's subscription.
fn check_subscription(guild: u64, sub: &Subscription) -> (r: Option<SubscriptionError>)
    ensures
        r == subscription_fault(guild, sub@),
{
    if guild == 0 || sub.channel_id == 0 {
        return Some(SubscriptionError::ZeroId);
    }
    if let Some(role) = sub.role_id {
        if role == 0 {
            return Some(SubscriptionError::ZeroRole);
        }
        if role == guild {
            return Some(SubscriptionError::RoleIsGuild);
        }
    }
    None
}

/// Checks the ids of every subscription.
pub fn validate_ids(state: &State) -> (r: Result<(), SubscriptionError>)
    ensures
        r is Ok <==> valid_subscriptions(state@.subscriptions),
        r matches Err(error) ==> subscriptions_refusal(state@.subscriptions, error),
{
    let ghost subs = state@.subscriptions;
    let ghost held = state.subscriptions@;
    let entries = state.subscriptions.iter();
    proof {
        let order = entries.remaining();
        let keys = order.map_values(|kv: (&u64, &Subscription)| *kv.0);
        assert forall|x: int, y: int| 0 <= x < y < order.len() implies *(
        #[trigger] order[x]).0 < *(#[trigger] order[y]).0 by {
            assert(keys[x].cmp_spec(&keys[y]) is Less);
        }
        assert forall|guild: u64| #[trigger] held.contains_key(guild) implies exists|x: int|
            0 <= x < order.len() && *(#[trigger] order[x]).0 == guild by {
            assert(order.contains((&guild, &held[guild])));
        }
    }
    for entry in it: entries
        invariant
            subs == state@.subscriptions,
            held == state.subscriptions@,
            forall|x: int, y: int|
                0 <= x < y < it.seq().len() ==> *(#[trigger] it.seq()[x]).0 < *(
                #[trigger] it.seq()[y]).0,
            forall|x: int|
                0 <= x < it.seq().len() ==> held.contains_key(*(#[trigger] it.seq()[x]).0)
                    && held[*it.seq()[x].0] == *it.seq()[x].1,
            forall|guild: u64| #[trigger]
                held.contains_key(guild) ==> exists|x: int|
                    0 <= x < it.seq().len() && *(#[trigger] it.seq()[x]).0 == guild,
            forall|x: int|
                0 <= x < it.index() ==> subscription_fault(
                    *(#[trigger] it.seq()[x]).0,
                    it.seq()[x].1@,
                ) is None,
    {
        if let Some(error) = check_subscription(*entry.0, entry.1) {
            proof {
                let guild = *entry.0;
                assert(held.contains_key(guild));
                assert forall|g: u64| #[trigger]
                    subs.contains_key(g) && g < guild implies subscription_fault(
                    g,
                    subs[g],
                ) is None by {
                    assert(held.contains_key(g));
                }
                assert(first_subscription_fault(subs, guild));
            }
            return Err(error);
        }
    }
    proof {
        assert forall|g: u64| #[trigger] subs.contains_key(g) implies subscription_fault(
            g,
            subs[g],
        ) is None by {
            assert(held.contains_key(g));
        }
    }
    Ok(())
}

/// `std::path::PathBuf`, carried along unread.
#[verifier::external_type_specification]
#[verifier::external_body]
pub struct ExPathBuf(PathBuf);

/// Why reading the state file gave no state.
#[derive(Clone, Copy, Debug, PartialEq, Eq, Structural)]
pub enum ReadError {
    NotFound,
    Unreadable,
    Malformed,
}

/// Why a state is not loaded.
#[derive(Debug, PartialEq)]
pub enum LoadError {
    Read(ReadError),
    Catalog(CatalogError),
    Subscription(SubscriptionError),
}

/// What a [`LoadError`] stands for.
pub enum LoadErrorView {
    Read(ReadError),
    Catalog(CatalogErrorView),
    Subscription(SubscriptionError),
}

impl View for LoadError {
    type V = LoadErrorView;

    open spec fn view(&self) -> LoadErrorView {
        match self {
            LoadError::Read(error) => LoadErrorView::Read(*error),
            LoadError::Catalog(error) => LoadErrorView::Catalog(error@),
            LoadError::Subscription(error) => LoadErrorView::Subscription(*error),
        }
    }
}

/// Whether the catalog of a state has to be valid: once the bot is initialized, or as soon as
/// there is one.
pub open spec fn catalog_counts(state: StateView) -> bool {
    state.initialized || state.catalog.len() > 0
}

/// A state that may be loaded.
pub open spec fn valid_state(state: StateView) -> bool {
    (catalog_counts(state) ==> valid_catalog(state.catalog)) && valid_subscriptions(
        state.subscriptions,
    )
}

/// The error for which a state is refused: that of its catalog, if that counts, before that
/// of its subscriptions.
pub open spec fn state_refusal(state: StateView, error: LoadErrorView) -> bool {
    match error {
        LoadErrorView::Read(_) => false,
        LoadErrorView::Catalog(fault) => catalog_counts(state) && catalog_refusal(
            state.catalog,
            fault,
        ),
        LoadErrorView::Subscription(fault) => {
            &&& catalog_counts(state) ==> valid_catalog(state.catalog)
            &&& subscriptions_refusal(state.subscriptions, fault)
        },
    }
}

/// Checks a state before it is used.
pub fn check_state(state: &State) -> (r: Result<(), LoadError>)
    ensures
        r is Ok <==> valid_state(state@),
        r matches Err(error) ==> state_refusal(state@, error@),
{
    if state.initialized || !state.catalog.is_empty() {
        if let Err(error) = validate(&state.catalog) {
            return Err(LoadError::Catalog(error));
        }
    }
    match validate_ids(state) {
        Ok(_) => Ok(()),
        Err(error) => Err(LoadError::Subscription(error)),
    }
}

/// The state that reading the file leads to: what it holds, or the initial state where there
/// is no file.
pub open spec fn state_read(read: Result<State, ReadError>) -> Option<StateView> {
    match read {
        Ok(state) => Some(state@),
        Err(ReadError::NotFound) => Some(initial_state()),
        Err(_) => None,
    }
}

/// The state that is in force once a commit has come to its end: the next one if it was
/// committed, and the present one if not.
pub open spec fn in_force(present: StateView, next: StateView, reached: CommitStep) -> StateView {
    if reached is Committed {
        next
    } else {
        present
    }
}

/// The state that is in force, and the file that it is kept in.
#[derive(Debug)]
pub struct Store {
    pub state: State,
    pub path: PathBuf,
}

impl Store {
    /// The store of a file, from what reading it gave.
    pub fn load(path: PathBuf, read: Result<State, ReadError>) -> (r: Result<Self, LoadError>)
        ensures
            r is Ok <==> (state_read(read) matches Some(state) && valid_state(state)),
            match r {
                Ok(store) => state_read(read) == Some(store.state@) && store.path == path,
                Err(error) => match state_read(read) {
                    Some(state) => state_refusal(state, error@),
                    None => read is Err && error@ == LoadErrorView::Read(read->Err_0),
                },
            },
    {
        let state: State = match read {
            Ok(state) => state,
            Err(ReadError::NotFound) => State::default(),
            Err(error) => {
                return Err(LoadError::Read(error));
            },
        };
        match check_state(&state) {
            Ok(_) => Ok(Store { state, path }),
            Err(error) => Err(error),
        }
    }

    /// Puts the next state in force if it has been committed to the file, and keeps the
    /// present one if not.
    pub fn commit(&mut self, next: State, reached: CommitStep) -> (r: Result<(), CommitError>)
        ensures
            r is Ok <==> reached is Committed,
            r is Ok ==> final(self).state == next,
            r is Err ==> final(self).state == old(self).state,
            final(self).state@ == in_force(old(self).state@, next@, reached),
            final(self).path == old(self).path,
    {
        match reached {
            CommitStep::Committed => {
                self.state = next;
                Ok(())
            },
            _ => Err(CommitError),
        }
    }
}

/// That a state was not committed.
#[derive(Clone, Copy, Debug, PartialEq, Eq)]
pub struct CommitError;

/// The step that a commit stands at, which names the action that it takes next.
#[derive(Clone, Copy, Debug, PartialEq, Eq, Structural)]
pub enum CommitStep {
    /// Find the name of the state file in its path.
    FindName,
    /// Create a temporary file that does not exist yet.
    CreateTemporary,
    /// Write the state to the temporary file.
    Write,
    /// Flush the temporary file to the disk.
    Sync,
    /// Rename the temporary file to the state file.
    Rename,
    /// Remove the temporary file.
    RemoveTemporary,
    /// The state is committed.
    Committed,
    /// The state is not committed.
    Failed,
}

/// How an action went.
#[derive(Clone, Copy, Debug, PartialEq, Eq, Structural)]
pub enum StepOutcome {
    Done,
    AlreadyExists,
    Error,
}

/// The step after an action: on to the next one where it went well; another temporary file
/// where the one tried exists; the temporary file's removal where a later action failed.
pub open spec fn step_after(step: CommitStep, outcome: StepOutcome) -> CommitStep {
    match step {
        CommitStep::FindName => if outcome is Done {
            CommitStep::CreateTemporary
        } else {
            CommitStep::Failed
        },
        CommitStep::CreateTemporary => match outcome {
            StepOutcome::Done => CommitStep::Write,
            StepOutcome::AlreadyExists => CommitStep::CreateTemporary,
            StepOutcome::Error => CommitStep::Failed,
        },
        CommitStep::Write => if outcome is Done {
            CommitStep::Sync
        } else {
            CommitStep::RemoveTemporary
        },
        CommitStep::Sync => if outcome is Done {
            CommitStep::Rename
        } else {
            CommitStep::RemoveTemporary
        },
        CommitStep::Rename => if outcome is Done {
            CommitStep::Committed
        } else {
            CommitStep::RemoveTemporary
        },
        CommitStep::RemoveTemporary => CommitStep::Failed,
        CommitStep::Committed => CommitStep::Committed,
        CommitStep::Failed => CommitStep::Failed,
    }
}

impl CommitStep {
    /// The step that a commit starts with.
    pub fn start() -> (r: Self)
        ensures
            r is FindName,
    {
        CommitStep::FindName
    }

    /// The step after the action of this one.
    pub fn next(self, outcome: StepOutcome) -> (r: Self)
        ensures
            r == step_after(self, outcome),
    {
        let done = matches!(outcome, StepOutcome::Done);
        match self {
            CommitStep::FindName => if done {
                CommitStep::CreateTemporary
            } else {
                CommitStep::Failed
            },
            CommitStep::CreateTemporary => match outcome {
                StepOutcome::Done => CommitStep::Write,
                StepOutcome::AlreadyExists => CommitStep::CreateTemporary,
                StepOutcome::Error => CommitStep::Failed,
            },
            CommitStep::Write => if done {
                CommitStep::Sync
            } else {
                CommitStep::RemoveTemporary
            },
            CommitStep::Sync => if done {
                CommitStep::Rename
            } else {
                CommitStep::RemoveTemporary
            },
            CommitStep::Rename => if done {
                CommitStep::Committed
            } else {
                CommitStep::RemoveTemporary
            },
            CommitStep::RemoveTemporary => CommitStep::Failed,
            CommitStep::Committed => CommitStep::Committed,
            CommitStep::Failed => CommitStep::Failed,
        }
    }
}

/// What a temporary file's name adds to that of the state file.
pub open spec fn temporary_suffix_text(process: u32, sequence: u64) -> Seq<char> {
    "."@ + decimal(process as nat) + "."@ + decimal(sequence as nat) + ".tmp"@
}

/// What the name of a temporary file adds to that of the state file: the process that writes
/// it and a number of its own.
pub fn temporary_suffix(process: u32, sequence: u64) -> (r: String)
    ensures
        r@ == temporary_suffix_text(process, sequence),
{
    let mut suffix = ".".to_owned();
    push_decimal(&mut suffix, process as u64);
    suffix.append(".");
    push_decimal(&mut suffix, sequence);
    suffix.append(".tmp");
    suffix
}

} // verus!
