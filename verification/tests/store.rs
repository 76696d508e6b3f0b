use std::collections::BTreeMap;
use std::path::PathBuf;

use model_radar::catalog::{CatalogError, Event, Model};
use model_radar::ordered_map::OrderedMap;
use model_radar::store::{
    default_true, search_hits, temporary_suffix, validate_ids, CommitError, CommitStep, LoadError,
    ReadError, State, StepOutcome, Store, Subscription, SubscriptionError,
};

fn populated_state() -> State {
    let mut pricing = OrderedMap::new();
    pricing.insert("prompt".into(), "0".into());
    pricing.insert("completion".into(), "0".into());
    let model = Model {
        id: "example/model".into(),
        name: "Example".into(),
        description: "Description".into(),
        context_length: 8192,
        pricing,
    };
    let mut catalog = OrderedMap::new();
    catalog.insert(model.id.clone(), model.clone());
    State {
        initialized: true,
        catalog,
        subscriptions: BTreeMap::from([
            (
                u64::MAX,
                Subscription {
                    channel_id: 42,
                    role_id: Some(99),
                    free_only: true,
                    search: " Example ".into(),
                    min_context: 8192,
                    ping_enabled: false,
                    compact: true,
                    pending: vec![Event {
                        model,
                        kind: "new".into(),
                    }],
                },
            ),
            (
                1,
                Subscription {
                    channel_id: 43,
                    role_id: None,
                    free_only: false,
                    search: String::new(),
                    min_context: 0,
                    ping_enabled: true,
                    compact: false,
                    pending: Vec::new(),
                },
            ),
        ]),
        last_success: Some(123456),
    }
}

fn state_path() -> PathBuf {
    PathBuf::from("state.json")
}

#[test]
fn subscription_filters_match_name_or_id_and_combine_constraints() {
    let state = populated_state();
    let mut model = state.catalog.get("example/model").unwrap().clone();
    model.name = "Friendly ÉXAMPLE".into();
    let mut sub = state.subscriptions[&u64::MAX].clone();
    for search in ["", " \t\n", " EXAMPLE/MO ", " fRiEnDlY ", "éxample"] {
        sub.search = search.into();
        assert!(sub.matches(&model), "{search:?}");
    }
    for search in ["missing", "Description", "friendly example/model"] {
        sub.search = search.into();
        assert!(!sub.matches(&model), "{search:?}");
    }
    sub.search = "friendly".into();
    sub.min_context = 8193;
    assert!(!sub.matches(&model));
    sub.min_context = 8192;
    assert!(sub.matches(&model));
    model.pricing.insert("prompt".into(), "1".into());
    assert!(!sub.matches(&model));
    sub.free_only = false;
    assert!(sub.matches(&model));
    sub.search = "missing".into();
    assert!(!sub.matches(&model));
    sub.search.clear();
    model.context_length = 0;
    assert!(!sub.matches(&model));
    sub.min_context = 0;
    assert!(sub.matches(&model));
    sub.min_context = u32::MAX;
    model.context_length = u64::MAX;
    assert!(sub.matches(&model));
    model.pricing = OrderedMap::new();
    sub.free_only = true;
    assert!(!sub.matches(&model));
}

#[test]
fn search_hits_name_or_id() {
    assert!(search_hits("", "", ""));
    assert!(search_hits("b", "abc", "x"));
    assert!(search_hits("x", "abc", "x"));
    assert!(!search_hits("B", "abc", "x"));
}

#[test]
fn padding_a_search_changes_nothing() {
    let state = populated_state();
    let model = state.catalog.get("example/model").unwrap();
    let mut sub = state.subscriptions[&u64::MAX].clone();
    for (search, wanted) in [("eXample", true), ("missing", false), ("", true)] {
        for (before, after) in [("", ""), ("\u{3000}\t", "\n"), (" ", "\u{a0} ")] {
            sub.search = format!("{before}{search}{after}");
            assert_eq!(sub.matches(model), wanted, "{:?}", sub.search);
        }
    }
}

#[test]
fn searches_may_be_prepared_or_emptied() {
    let state = populated_state();
    let mut model = state.catalog.get("example/model").unwrap().clone();
    let mut sub = state.subscriptions[&u64::MAX].clone();
    for (search, wanted) in [(" EXAMPLE/MO ", true), ("ÉXAMPLE", false), ("Description", false)] {
        sub.search = search.into();
        assert_eq!(sub.matches(&model), wanted);
        sub.search = search.trim().to_lowercase();
        assert_eq!(sub.matches(&model), wanted);
        sub.search.clear();
        assert!(sub.matches(&model));
    }
    model.description = "missing".into();
    sub.search = "missing".into();
    assert!(!sub.matches(&model));
    sub.search = "example".into();
    assert!(sub.matches(&model));
}

#[test]
fn delivery_settings_do_not_filter() {
    let state = populated_state();
    let model = state.catalog.get("example/model").unwrap();
    let mut sub = state.subscriptions[&u64::MAX].clone();
    assert!(sub.matches(model) && sub.admits(model));
    sub.channel_id = 7;
    sub.role_id = None;
    sub.ping_enabled = default_true();
    sub.compact = false;
    sub.pending.clear();
    assert!(sub.matches(model));
    sub.search = " UNMATCHED ÉXAMPLE ".into();
    assert!(!sub.matches(model) && sub.admits(model));
}

#[test]
fn missing_file_gives_the_initial_state() {
    let store = Store::load(state_path(), Err(ReadError::NotFound)).unwrap();
    assert!(!store.state.initialized);
    assert!(store.state.catalog.is_empty());
    assert!(store.state.subscriptions.is_empty());
    assert_eq!(store.state.last_success, None);
    assert_eq!(store.path, state_path());
}

#[test]
fn unreadable_and_malformed_files_are_errors() {
    for error in [ReadError::Unreadable, ReadError::Malformed] {
        let loaded = Store::load(state_path(), Err(error));
        assert_eq!(loaded.err(), Some(LoadError::Read(error)));
    }
}

#[test]
fn loading_keeps_the_state_as_it_was_saved() {
    let saved = populated_state();
    let loaded = Store::load(state_path(), Ok(saved.clone())).unwrap();
    assert_eq!(loaded.state.catalog, saved.catalog);
    assert_eq!(loaded.state.subscriptions, saved.subscriptions);
    assert_eq!(loaded.state.last_success, Some(123456));
    assert!(loaded.state.initialized);
    assert_eq!(loaded.state.subscriptions[&u64::MAX].pending.len(), 1);
}

#[test]
fn invalid_subscription_ids_are_refused() {
    for (guild, channel, role, error) in [
        (0, 42, None, SubscriptionError::ZeroId),
        (1, 0, None, SubscriptionError::ZeroId),
        (1, 42, Some(0), SubscriptionError::ZeroRole),
        (1, 42, Some(1), SubscriptionError::RoleIsGuild),
    ] {
        for ping_enabled in [false, true] {
            let mut state = populated_state();
            let mut sub = state.subscriptions[&u64::MAX].clone();
            sub.channel_id = channel;
            sub.role_id = role;
            sub.ping_enabled = ping_enabled;
            state.subscriptions = BTreeMap::from([(guild, sub)]);
            assert_eq!(validate_ids(&state), Err(error));
            let loaded = Store::load(state_path(), Ok(state));
            assert_eq!(loaded.err(), Some(LoadError::Subscription(error)));
        }
    }
    assert_eq!(validate_ids(&populated_state()), Ok(()));
}

#[test]
fn first_faulty_guild_decides_the_error() {
    let mut state = populated_state();
    let mut role_is_guild = state.subscriptions[&1].clone();
    role_is_guild.role_id = Some(5);
    let mut zero_role = state.subscriptions[&1].clone();
    zero_role.role_id = Some(0);
    state.subscriptions.insert(9, zero_role);
    state.subscriptions.insert(5, role_is_guild);
    assert_eq!(validate_ids(&state), Err(SubscriptionError::RoleIsGuild));
}

#[test]
fn subscription_errors_have_their_messages() {
    assert_eq!(
        SubscriptionError::ZeroId.message(),
        "subscription IDs must be nonzero"
    );
    assert_eq!(
        SubscriptionError::ZeroRole.message(),
        "subscription role ID must be nonzero"
    );
    assert_eq!(
        SubscriptionError::RoleIsGuild.message(),
        "subscription role ID must differ from guild ID"
    );
}

#[test]
fn catalogs_count_once_initialized_or_not_empty() {
    for initialized in [false, true] {
        for invalid in ["empty", "key", "id", "name"] {
            let mut state = populated_state();
            state.initialized = initialized;
            let mut model = state.catalog.get("example/model").unwrap().clone();
            state.catalog = OrderedMap::new();
            match invalid {
                "empty" => {}
                "key" => {
                    state.catalog.insert("wrong/key".into(), model);
                }
                "id" => {
                    model.id = " ".into();
                    state.catalog.insert(model.id.clone(), model);
                }
                _ => {
                    model.name = " ".into();
                    state.catalog.insert(model.id.clone(), model);
                }
            }
            let loaded = Store::load(state_path(), Ok(state));
            assert_eq!(loaded.is_ok(), !initialized && invalid == "empty");
            if initialized && invalid == "empty" {
                assert_eq!(loaded.err(), Some(LoadError::Catalog(CatalogError::Empty)));
            }
        }
    }
}

fn run(outcomes: &[StepOutcome]) -> Vec<CommitStep> {
    let mut steps = vec![CommitStep::start()];
    for outcome in outcomes {
        steps.push(steps[steps.len() - 1].next(*outcome));
    }
    steps
}

#[test]
fn commit_writes_syncs_and_renames() {
    let done = StepOutcome::Done;
    assert_eq!(
        run(&[done, StepOutcome::AlreadyExists, done, done, done, done]),
        vec![
            CommitStep::FindName,
            CommitStep::CreateTemporary,
            CommitStep::CreateTemporary,
            CommitStep::Write,
            CommitStep::Sync,
            CommitStep::Rename,
            CommitStep::Committed,
        ]
    );
}

#[test]
fn failed_commits_clean_up_after_themselves() {
    let (done, error) = (StepOutcome::Done, StepOutcome::Error);
    assert_eq!(run(&[error])[1], CommitStep::Failed);
    assert_eq!(run(&[done, error])[2], CommitStep::Failed);
    for length in 2..5 {
        let mut outcomes = vec![done; length];
        outcomes.push(error);
        outcomes.push(done);
        let steps = run(&outcomes);
        assert_eq!(steps[length + 1], CommitStep::RemoveTemporary);
        assert_eq!(steps[length + 2], CommitStep::Failed);
    }
}

#[test]
fn only_a_committed_state_comes_into_force() {
    let mut store = Store::load(state_path(), Err(ReadError::NotFound)).unwrap();
    let refused = store.commit(populated_state(), CommitStep::Failed);
    assert_eq!(refused, Err(CommitError));
    assert!(!store.state.initialized);
    assert!(store.state.catalog.is_empty());
    let taken = store.commit(populated_state(), CommitStep::Committed);
    assert_eq!(taken, Ok(()));
    assert!(store.state.initialized);
    assert_eq!(store.state.catalog.len(), 1);
    assert_eq!(store.path, state_path());
    let reloaded = Store::load(state_path(), Ok(store.state.clone())).unwrap();
    assert_eq!(reloaded.state.subscriptions, populated_state().subscriptions);
    assert_eq!(reloaded.state.catalog, populated_state().catalog);
}

#[test]
fn temporary_names_tell_process_and_number() {
    assert_eq!(temporary_suffix(7, 42), ".7.42.tmp");
    assert_eq!(temporary_suffix(0, u64::MAX), ".0.18446744073709551615.tmp");
    assert_ne!(temporary_suffix(1, 23), temporary_suffix(12, 3));
}
