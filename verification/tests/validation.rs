use projects::entries::{Entry, GoalMember, Member, PriorityMode, ProjectMeta};
use projects::hashes::AgentPubKey;
use projects::header::{address_of, Header, HeaderHash, HeaderKind};
use projects::ledger::{Ledger, Record};
use projects::project_meta::{
    validate_create_entry_project_meta, validate_delete_entry_project_meta,
    validate_update_entry_project_meta,
};
use projects::validate::{ValidateCallbackResult, ValidateData, ValidationError};

fn empty_ledger(author: u64) -> Ledger {
    Ledger {
        author: AgentPubKey::new(author),
        next_seq: 0,
        records: Vec::new(),
        links: Vec::new(),
        paths: Vec::new(),
    }
}

fn sample_project_meta(creator: u64) -> ProjectMeta {
    ProjectMeta::new(
        AgentPubKey::new(creator),
        102391293,
        "greenfield".to_string(),
        None,
        "secret words".to_string(),
        false,
        PriorityMode::Universal,
        Vec::new(),
    )
}

#[test]
fn test_validate_create_entry_project_meta() {
    let author = AgentPubKey::new(5);
    let create_header = Header { author, seq: 0, kind: HeaderKind::Create };

    // without an entry, validation fails
    let no_entry = ValidateData { header: create_header, entry: None };
    assert_eq!(
        validate_create_entry_project_meta(&no_entry),
        ValidateCallbackResult::Invalid(ValidationError::DeserializationFailed),
    );

    // an entry whose creator is not the agent committing fails
    let wrong_creator = ValidateData {
        header: Header { author, seq: 0, kind: HeaderKind::Create },
        entry: Some(Entry::ProjectMeta(sample_project_meta(99))),
    };
    assert_eq!(
        validate_create_entry_project_meta(&wrong_creator),
        ValidateCallbackResult::Invalid(ValidationError::AuthorMismatch),
    );

    // success case: the creator equals the committing agent
    let good = ValidateData {
        header: Header { author, seq: 0, kind: HeaderKind::Create },
        entry: Some(Entry::ProjectMeta(sample_project_meta(5))),
    };
    assert_eq!(validate_create_entry_project_meta(&good), ValidateCallbackResult::Valid);
}

#[test]
fn test_validate_update_entry_project_meta() {
    let author = AgentPubKey::new(5);
    let original_header = Header { author, seq: 0, kind: HeaderKind::Create };
    let original_address = address_of(&original_header);
    let update_header = Header {
        author,
        seq: 1,
        kind: HeaderKind::Update { original: Box::new(address_of(&original_header)) },
    };

    let ledger = empty_ledger(5);

    // without an entry, validation fails
    let no_entry = ValidateData {
        header: Header {
            author,
            seq: 1,
            kind: HeaderKind::Update { original: Box::new(address_of(&original_header)) },
        },
        entry: None,
    };
    assert_eq!(
        validate_update_entry_project_meta(&no_entry, &ledger),
        ValidateCallbackResult::Invalid(ValidationError::DeserializationFailed),
    );

    let project_meta = sample_project_meta(5);
    let offered = ValidateData {
        header: update_header,
        entry: Some(Entry::ProjectMeta(project_meta)),
    };

    // while the original revision is not locally present, the outcome is a
    // deferral naming exactly the missing header
    assert_eq!(
        validate_update_entry_project_meta(&offered, &ledger),
        ValidateCallbackResult::UnresolvedDependencies(vec![original_address]),
    );

    // can't edit the passphrase
    let invalid_original = ProjectMeta::new(
        AgentPubKey::new(5),
        102391293,
        "greenfield".to_string(),
        None,
        "test".to_string(),
        false,
        PriorityMode::Universal,
        Vec::new(),
    );
    let mut with_invalid = empty_ledger(5);
    with_invalid.records.push(Record {
        header: Header { author, seq: 0, kind: HeaderKind::Create },
        entry: Some(Entry::ProjectMeta(invalid_original)),
    });
    with_invalid.next_seq = 1;
    assert_eq!(
        validate_update_entry_project_meta(&offered, &with_invalid),
        ValidateCallbackResult::Invalid(ValidationError::EditableFieldsViolated),
    );

    // success case: name and image may differ (only)
    let valid_original = ProjectMeta::new(
        AgentPubKey::new(5),
        102391293,
        "test".to_string(),
        Some("hi".to_string()),
        "secret words".to_string(),
        false,
        PriorityMode::Universal,
        Vec::new(),
    );
    let mut with_valid = empty_ledger(5);
    with_valid.records.push(Record {
        header: Header { author, seq: 0, kind: HeaderKind::Create },
        entry: Some(Entry::ProjectMeta(valid_original)),
    });
    with_valid.next_seq = 1;
    assert_eq!(
        validate_update_entry_project_meta(&offered, &with_valid),
        ValidateCallbackResult::Valid,
    );
}

#[test]
fn test_validate_delete_entry_project_meta() {
    let author = AgentPubKey::new(5);
    let target = Header { author, seq: 0, kind: HeaderKind::Create };
    let delete_header = Header {
        author,
        seq: 1,
        kind: HeaderKind::Delete { deleted: Box::new(address_of(&target)) },
    };
    let data = ValidateData { header: delete_header, entry: None };
    assert_eq!(
        validate_delete_entry_project_meta(&data),
        ValidateCallbackResult::Invalid(ValidationError::DeleteForbidden),
    );
}

#[test]
fn project_meta_create_import_bypass() {
    // an imported entry may record a different author than the committer:
    // the mismatch that is otherwise rejected validates as Valid
    let author = AgentPubKey::new(5);
    let mut imported = sample_project_meta(99);
    imported.is_imported = true;
    let data = ValidateData {
        header: Header { author, seq: 0, kind: HeaderKind::Create },
        entry: Some(Entry::ProjectMeta(imported)),
    };
    assert_eq!(validate_create_entry_project_meta(&data), ValidateCallbackResult::Valid);

    // the same mismatch without the flag stays rejected
    let mut plain = sample_project_meta(99);
    plain.is_imported = false;
    let data = ValidateData {
        header: Header { author, seq: 0, kind: HeaderKind::Create },
        entry: Some(Entry::ProjectMeta(plain)),
    };
    assert_eq!(
        validate_create_entry_project_meta(&data),
        ValidateCallbackResult::Invalid(ValidationError::AuthorMismatch),
    );
}

fn goal_address(seq: u64) -> HeaderHash {
    address_of(&Header { author: AgentPubKey::new(50), seq, kind: HeaderKind::Create })
}

#[test]
fn goal_member_create_requires_existing_goal() {
    let ledger = empty_ledger(5);
    let author = AgentPubKey::new(5);
    let entry = GoalMember::new(goal_address(0), AgentPubKey::new(7), author, 1000, false);
    let data = ValidateData {
        header: Header { author, seq: 0, kind: HeaderKind::Create },
        entry: Some(Entry::GoalMember(entry)),
    };
    // the referenced goal does not exist anywhere: a hard dependency
    assert_eq!(
        projects::goal_member::validate_create_entry_goal_member(&data, &ledger),
        ValidateCallbackResult::Invalid(ValidationError::NotFound),
    );
}

#[test]
fn goal_member_create_author_invariant_and_import_bypass() {
    // a ledger holding the goal's header
    let mut ledger = empty_ledger(5);
    ledger.records.push(Record {
        header: Header { author: AgentPubKey::new(50), seq: 0, kind: HeaderKind::Create },
        entry: Some(Entry::Member(Member { address: AgentPubKey::new(50) })),
    });
    let goal = goal_address(0);
    let author = AgentPubKey::new(5);

    // mismatched author, not imported: rejected
    let mismatched = GoalMember::new(
        projects::header::clone_header_hash(&goal),
        AgentPubKey::new(7),
        AgentPubKey::new(99),
        1000,
        false,
    );
    let data = ValidateData {
        header: Header { author, seq: 0, kind: HeaderKind::Create },
        entry: Some(Entry::GoalMember(mismatched)),
    };
    assert_eq!(
        projects::goal_member::validate_create_entry_goal_member(&data, &ledger),
        ValidateCallbackResult::Invalid(ValidationError::AuthorMismatch),
    );

    // the same mismatch with is_imported set is accepted: the deliberate
    // trust-boundary bypass for bulk migration
    let imported = GoalMember::new(goal, AgentPubKey::new(7), AgentPubKey::new(99), 1000, true);
    let data = ValidateData {
        header: Header { author, seq: 0, kind: HeaderKind::Create },
        entry: Some(Entry::GoalMember(imported)),
    };
    assert_eq!(
        projects::goal_member::validate_create_entry_goal_member(&data, &ledger),
        ValidateCallbackResult::Valid,
    );
}

#[test]
fn goal_member_update_forbidden_delete_open() {
    let author = AgentPubKey::new(5);
    let data = ValidateData {
        header: Header { author, seq: 3, kind: HeaderKind::Create },
        entry: None,
    };
    assert_eq!(
        projects::goal_member::validate_update_entry_goal_member(&data),
        ValidateCallbackResult::Invalid(ValidationError::UpdateForbidden),
    );
    assert_eq!(
        projects::goal_member::validate_delete_entry_goal_member(&data),
        ValidateCallbackResult::Valid,
    );
}

#[test]
fn validation_is_idempotent_once_dependency_arrives() {
    // the same offered revision, validated twice against the same ledger,
    // gives the same final outcome
    let author = AgentPubKey::new(5);
    let original_header = Header { author, seq: 0, kind: HeaderKind::Create };
    let update_header = Header {
        author,
        seq: 1,
        kind: HeaderKind::Update { original: Box::new(address_of(&original_header)) },
    };
    let offered = ValidateData {
        header: update_header,
        entry: Some(Entry::ProjectMeta(sample_project_meta(5))),
    };
    let mut ledger = empty_ledger(5);
    ledger.records.push(Record {
        header: original_header,
        entry: Some(Entry::ProjectMeta(sample_project_meta(5))),
    });
    ledger.next_seq = 1;
    let first = validate_update_entry_project_meta(&offered, &ledger);
    let second = validate_update_entry_project_meta(&offered, &ledger);
    assert_eq!(first, ValidateCallbackResult::Valid);
    assert_eq!(first, second);
}
