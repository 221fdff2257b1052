use projects::crud::{create_record, delete_record, update_record, CrudError};
use projects::chain::fetch_latest;
use projects::entries::{
    entry_eq, entry_hash_eq, hash_entry, wire_element_eq, Entry, EntryType, GoalMember, Member,
    PriorityMode, ProjectMeta, WireElement,
};
use projects::goal_member::archive_goal_members;
use projects::hashes::AgentPubKey;
use projects::header::{address_of, clone_header_hash, header_hash_eq, Header, HeaderHash, HeaderKind};
use projects::ledger::{ensure_path, Ledger, LinkBase};
use projects::member::{fetch_members, init_signal};
use projects::project_meta::{
    check_project_meta_exists, fetch_project_meta, simple_create_project_meta,
};
use projects::signals::{unwrap_signal, wrap_signal, ActionType, SignalEnvelope, SignalInner};

fn empty_ledger(author: u64) -> Ledger {
    Ledger {
        author: AgentPubKey::new(author),
        next_seq: 0,
        records: Vec::new(),
        links: Vec::new(),
        paths: Vec::new(),
    }
}

fn goal_address(seq: u64) -> HeaderHash {
    address_of(&Header { author: AgentPubKey::new(50), seq, kind: HeaderKind::Create })
}

fn member_entry(goal_seq: u64, assignee: u64, stamp: u64) -> Entry {
    Entry::GoalMember(GoalMember::new(
        goal_address(goal_seq),
        AgentPubKey::new(assignee),
        AgentPubKey::new(1),
        stamp,
        false,
    ))
}

fn sample_meta(name: &str) -> ProjectMeta {
    ProjectMeta::new(
        AgentPubKey::new(1),
        4242,
        name.to_string(),
        Some("img".to_string()),
        "passphrase words".to_string(),
        false,
        PriorityMode::Vote,
        vec![goal_address(3)],
    )
}

#[test]
fn content_hash_depends_on_content_alone() {
    // identical content gives identical hashes, whoever builds the values
    let e1 = member_entry(0, 7, 1000);
    let e2 = member_entry(0, 7, 1000);
    assert!(entry_hash_eq(&hash_entry(&e1), &hash_entry(&e2)));
    // differing content gives differing hashes: no collisions
    let e3 = member_entry(0, 7, 1001);
    assert!(!entry_hash_eq(&hash_entry(&e1), &hash_entry(&e3)));
    let e4 = member_entry(1, 7, 1000);
    assert!(!entry_hash_eq(&hash_entry(&e1), &hash_entry(&e4)));
}

#[test]
fn fetch_of_empty_path_is_empty() {
    // a path with zero links yields an empty set, never an error
    let ledger = empty_ledger(1);
    let fetched = fetch_latest(&ledger, &LinkBase::Path("goal_member".to_string()));
    assert_eq!(fetched.len(), 0);
}

#[test]
fn create_then_fetch_returns_exactly_the_created_element() {
    let mut ledger = empty_ledger(1);
    let peers = vec![AgentPubKey::new(2)];
    let (wire, signal) = create_record(&mut ledger, member_entry(0, 7, 1000), false, peers)
        .expect("create");
    let fetched = fetch_latest(&ledger, &LinkBase::Path("goal_member".to_string()));
    assert_eq!(fetched.len(), 1);
    assert!(wire_element_eq(&fetched[0], &wire));
    // the change signal names the record type and carries the element
    let sig = signal.expect("a non-imported create signals");
    match unwrap_signal(sig.signal) {
        SignalInner::Entry(env) => {
            assert_eq!(env.entry_type, "goal_member");
            assert!(matches!(env.action, ActionType::Create));
            assert!(wire_element_eq(&env.data, &wire));
        },
        _ => panic!("expected an entry signal"),
    }
    assert_eq!(sig.agents, vec![AgentPubKey::new(2)]);
}

#[test]
fn imported_create_fires_no_signal() {
    let mut ledger = empty_ledger(1);
    let (_, signal) = create_record(&mut ledger, member_entry(0, 7, 1000), true, Vec::new())
        .expect("create");
    assert!(signal.is_none());
}

fn comment_entry(text: &str, stamp: u64) -> Entry {
    Entry::GoalComment(projects::entries::GoalComment::new(
        goal_address(0),
        text.to_string(),
        AgentPubKey::new(1),
        stamp,
    ))
}

#[test]
fn update_then_fetch_returns_updated_content_same_record() {
    let mut ledger = empty_ledger(1);
    let (wire, _) = create_record(&mut ledger, comment_entry("first", 1000), true, Vec::new())
        .expect("create");
    let before = fetch_latest(&ledger, &LinkBase::Path("goal_comment".to_string()));
    let links_before = ledger.links.len();
    let updated = comment_entry("edited", 2000);
    let (new_wire, signal) = update_record(&mut ledger, &wire.header_hash, updated, Vec::new())
        .expect("update");
    // the index is untouched: readers follow the chain from the old edge
    assert_eq!(ledger.links.len(), links_before);
    let after = fetch_latest(&ledger, &LinkBase::Path("goal_comment".to_string()));
    assert_eq!(before.len(), 1);
    assert_eq!(after.len(), 1);
    // same logical record, new content under the update's header
    assert!(entry_eq(&after[0].entry, &comment_entry("edited", 2000)));
    assert!(wire_element_eq(&after[0], &new_wire));
    match unwrap_signal(signal.signal) {
        SignalInner::Entry(env) => assert!(matches!(env.action, ActionType::Update)),
        _ => panic!("expected an entry signal"),
    }
}

#[test]
fn chained_updates_resolve_to_the_newest_revision() {
    // an update of an update: the chain is followed to its newest tip
    let mut ledger = empty_ledger(1);
    let (w0, _) = create_record(&mut ledger, comment_entry("v0", 1), true, Vec::new()).unwrap();
    let (w1, _) =
        update_record(&mut ledger, &w0.header_hash, comment_entry("v1", 2), Vec::new()).unwrap();
    let (w2, _) =
        update_record(&mut ledger, &w1.header_hash, comment_entry("v2", 3), Vec::new()).unwrap();
    let after = fetch_latest(&ledger, &LinkBase::Path("goal_comment".to_string()));
    assert_eq!(after.len(), 1);
    assert!(wire_element_eq(&after[0], &w2));
}

#[test]
fn update_of_unknown_header_is_not_found() {
    let mut ledger = empty_ledger(1);
    let missing = goal_address(9);
    let r = update_record(&mut ledger, &missing, member_entry(0, 7, 1), Vec::new());
    assert_eq!(r.unwrap_err(), CrudError::NotFound);
    assert_eq!(ledger.records.len(), 0);
}

#[test]
fn delete_of_unknown_header_is_not_found() {
    let mut ledger = empty_ledger(1);
    let missing = goal_address(9);
    let r = delete_record(&mut ledger, &missing, Vec::new());
    assert!(matches!(r, Err(CrudError::NotFound)));
}

#[test]
fn delete_of_project_meta_is_forbidden() {
    let mut ledger = empty_ledger(1);
    let wire = simple_create_project_meta(&mut ledger, sample_meta("p")).expect("create");
    let r = delete_record(&mut ledger, &wire.header_hash, Vec::new());
    assert!(matches!(r, Err(CrudError::DeleteForbidden)));
}

#[test]
fn delete_removes_record_from_fetch() {
    let mut ledger = empty_ledger(1);
    let (wire, _) = create_record(&mut ledger, member_entry(0, 7, 1000), true, Vec::new())
        .expect("create");
    let (hh, signal) = delete_record(&mut ledger, &wire.header_hash, Vec::new()).expect("delete");
    assert!(header_hash_eq(&hh, &wire.header_hash));
    match unwrap_signal(signal.signal) {
        SignalInner::Entry(env) => assert!(matches!(env.action, ActionType::Delete)),
        _ => panic!("expected an entry signal"),
    }
    let after = fetch_latest(&ledger, &LinkBase::Path("goal_member".to_string()));
    assert_eq!(after.len(), 0);
}

#[test]
fn singleton_project_meta() {
    let mut ledger = empty_ledger(1);
    assert!(!check_project_meta_exists(&ledger));
    assert!(matches!(fetch_project_meta(&ledger), Err(CrudError::NotFound)));
    // the first create succeeds
    let wire = simple_create_project_meta(&mut ledger, sample_meta("first")).expect("create");
    assert!(check_project_meta_exists(&ledger));
    let fetched = fetch_project_meta(&ledger).expect("fetch");
    assert!(wire_element_eq(&fetched, &wire));
    // a second create, while the first is discoverable, is refused
    let second = simple_create_project_meta(&mut ledger, sample_meta("second"));
    assert_eq!(second.unwrap_err(), CrudError::SingletonViolation);
}

#[test]
fn path_anchor_creation_is_idempotent() {
    let mut ledger = empty_ledger(1);
    ensure_path(&mut ledger, &"project_meta".to_string());
    ensure_path(&mut ledger, &"project_meta".to_string());
    assert_eq!(ledger.paths.len(), 1);
}

#[test]
fn archive_goal_members_removes_exactly_the_matching_ones() {
    let mut ledger = empty_ledger(1);
    let (w1, _) = create_record(&mut ledger, member_entry(0, 7, 1), true, Vec::new()).unwrap();
    let (_w2, _) = create_record(&mut ledger, member_entry(1, 8, 2), true, Vec::new()).unwrap();
    let (w3, _) = create_record(&mut ledger, member_entry(0, 9, 3), true, Vec::new()).unwrap();
    let peers = Vec::new();
    let (archived, signals) = archive_goal_members(&mut ledger, &goal_address(0), &peers);
    // exactly the two members of goal 0, in fetch order
    assert_eq!(archived.len(), 2);
    assert!(header_hash_eq(&archived[0], &w1.header_hash));
    assert!(header_hash_eq(&archived[1], &w3.header_hash));
    // one delete signal per archived element, carrying that element
    assert_eq!(signals.len(), 2);
    let expected = [&w1, &w3];
    for (sig, wire) in signals.into_iter().zip(expected) {
        assert_eq!(sig.agents, peers);
        match unwrap_signal(sig.signal) {
            SignalInner::Entry(env) => {
                assert_eq!(env.entry_type, "goal_member");
                assert!(matches!(env.action, ActionType::Delete));
                assert!(wire_element_eq(&env.data, wire));
            },
            _ => panic!("expected an entry signal"),
        }
    }
    // the unrelated member is intact
    let after = fetch_latest(&ledger, &LinkBase::Path("goal_member".to_string()));
    assert_eq!(after.len(), 1);
    assert!(entry_eq(&after[0].entry, &member_entry(1, 8, 2)));
}

#[test]
fn fetch_members_lists_joined_agents() {
    let mut ledger = empty_ledger(1);
    let me = Entry::Member(Member { address: AgentPubKey::new(1) });
    let (wire, _) = create_record(&mut ledger, me, true, Vec::new()).unwrap();
    let members = fetch_members(&ledger);
    assert_eq!(members.len(), 1);
    assert!(wire_element_eq(&members[0], &wire));
    // ownership-tracked types link the author's identity as well
    let by_agent = fetch_latest(&ledger, &LinkBase::Agent(AgentPubKey::new(1)));
    assert_eq!(by_agent.len(), 1);
}

#[test]
fn init_signal_announces_this_agent() {
    let ledger = empty_ledger(42);
    let peers = vec![AgentPubKey::new(7), AgentPubKey::new(8)];
    let sig = init_signal(&ledger, peers);
    match unwrap_signal(sig.signal) {
        SignalInner::Member(m) => {
            assert_eq!(m.entry_type, "member");
            assert_eq!(m.data.address, AgentPubKey::new(42));
        },
        _ => panic!("expected a member signal"),
    }
    assert_eq!(sig.agents.len(), 2);
}

#[test]
fn transport_wrapping_round_trips() {
    let env = SignalEnvelope {
        entry_type: "goal_member".to_string(),
        action: ActionType::Create,
        data: WireElement {
            entry: member_entry(0, 7, 1),
            header_hash: goal_address(0),
            entry_hash: hash_entry(&member_entry(0, 7, 1)),
        },
    };
    let wrapped = wrap_signal(SignalInner::Entry(env));
    match unwrap_signal(wrapped) {
        SignalInner::Entry(env) => {
            assert_eq!(env.entry_type, "goal_member");
            assert!(entry_eq(&env.data.entry, &member_entry(0, 7, 1)));
        },
        _ => panic!("expected the entry signal back"),
    }
}

#[test]
fn priority_mode_ui_names() {
    assert_eq!(PriorityMode::Universal.ui_name(), "Universal");
    assert_eq!(PriorityMode::Vote.ui_name(), "Vote");
    assert_eq!(
        PriorityMode::from_ui_name(&"Universal".to_string()),
        PriorityMode::Universal
    );
    assert_eq!(PriorityMode::from_ui_name(&"Vote".to_string()), PriorityMode::Vote);
    // anything unrecognized falls back to voting
    assert_eq!(PriorityMode::from_ui_name(&"garbled".to_string()), PriorityMode::Vote);
    // round trip
    assert_eq!(
        PriorityMode::from_ui_name(&PriorityMode::Universal.ui_name()),
        PriorityMode::Universal
    );
}

#[test]
fn creates_of_identical_content_share_one_address() {
    // content addressing: two creates of byte-identical content target the
    // same entry hash, so both index edges resolve to the first chain
    let mut ledger = empty_ledger(1);
    let (w1, _) = create_record(&mut ledger, member_entry(0, 7, 1000), true, Vec::new()).unwrap();
    let (w2, _) = create_record(&mut ledger, member_entry(0, 7, 1000), true, Vec::new()).unwrap();
    assert!(entry_hash_eq(&w1.entry_hash, &w2.entry_hash));
    let fetched = fetch_latest(&ledger, &LinkBase::Path("goal_member".to_string()));
    assert_eq!(fetched.len(), 2);
    assert!(wire_element_eq(&fetched[0], &fetched[1]));
}

#[test]
fn new_constructors_carry_their_fields() {
    let gm = GoalMember::new(goal_address(0), AgentPubKey::new(2), AgentPubKey::new(3), 9, true);
    assert_eq!(gm.agent_address, AgentPubKey::new(2));
    assert_eq!(gm.user_edit_hash, AgentPubKey::new(3));
    assert_eq!(gm.unix_timestamp, 9);
    assert!(gm.is_imported);
    let gc = projects::entries::GoalComment::new(
        goal_address(1),
        "hello".to_string(),
        AgentPubKey::new(4),
        77,
    );
    assert_eq!(gc.content, "hello");
    assert_eq!(gc.agent_address, AgentPubKey::new(4));
    let pm = sample_meta("n");
    assert_eq!(pm.name, "n");
    assert_eq!(pm.priority_mode, PriorityMode::Vote);
    assert!(header_hash_eq(&pm.top_priority_goals[0], &goal_address(3)));
}
