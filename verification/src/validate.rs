use crate::chain::{first_with_header, lemma_first_with_header};
use crate::entries::{clone_entry, Entry, EntryView};
use crate::hashes::AgentPubKey;
use crate::header::{clone_header_hash, Header, HeaderHash, HeaderKind};
use crate::ledger::{Ledger, LedgerView};
use vstd::prelude::*;

verus! {

/// Why a revision is permanently rejected. Unresolved dependencies are not
/// here: they are a deferral, never a rejection.
#[derive(Clone, Copy, PartialEq, Eq, Structural, Debug)]
pub enum ValidationError {
    /// The offered entry is missing or does not deserialize against the
    /// record type's declared schema.
    DeserializationFailed,
    /// A declared foreign-key reference resolves to nothing at all: a hard
    /// dependency that must exist, unlike update-chain dependencies, which
    /// may merely be slow to arrive.
    NotFound,
    /// The entry's self-reported author does not equal the header's
    /// cryptographic author identity.
    AuthorMismatch,
    /// An update changed a field the record type declares immutable.
    EditableFieldsViolated,
    /// The record type forbids updates entirely.
    UpdateForbidden,
    /// The record type forbids deletes entirely.
    DeleteForbidden,
}

/// What validation tells the substrate about one offered revision: accept
/// it, reject it permanently, or defer because a needed prior revision is
/// not locally available yet. A deferral is retried by the substrate once
/// the dependency arrives; it is never surfaced as a failure.
#[derive(PartialEq, Eq, Debug)]
pub enum ValidateCallbackResult {
    Valid,
    Invalid(ValidationError),
    UnresolvedDependencies(Vec<HeaderHash>),
}

/// Mathematical model of a validation outcome.
#[verifier::ext_equal]
pub enum ValidateOutcome {
    Valid,
    Invalid(ValidationError),
    UnresolvedDependencies(Seq<HeaderHash>),
}

impl View for ValidateCallbackResult {
    type V = ValidateOutcome;

    open spec fn view(&self) -> ValidateOutcome {
        match self {
            ValidateCallbackResult::Valid => ValidateOutcome::Valid,
            ValidateCallbackResult::Invalid(e) => ValidateOutcome::Invalid(*e),
            ValidateCallbackResult::UnresolvedDependencies(v) => {
                ValidateOutcome::UnresolvedDependencies(v@)
            },
        }
    }
}

/// One offered revision, as the substrate hands it to validation: the
/// header and the entry it carries, if any. Validation is stateless and
/// idempotent over this value and the local ledger; the same revision may
/// be offered more than once.
#[derive(Debug)]
pub struct ValidateData {
    pub header: Header,
    pub entry: Option<Entry>,
}

/// Mathematical model of one offered revision.
#[verifier::ext_equal]
pub struct ValidateDataView {
    pub header: Header,
    pub entry: Option<EntryView>,
}

impl View for ValidateData {
    type V = ValidateDataView;

    open spec fn view(&self) -> ValidateDataView {
        ValidateDataView {
            header: self.header,
            entry: match self.entry {
                Some(e) => Some(e@),
                None => None,
            },
        }
    }
}

// --- the author-equals-creator invariant ---

/// The outcome of the author-equals-creator check: the revision must be a
/// create, and its entry's self-reported author must equal the header's
/// author identity.
pub open spec fn spec_validate_author(value: AgentPubKey, d: ValidateDataView) -> ValidateOutcome {
    if (d.header.kind matches HeaderKind::Create) && value == d.header.author {
        ValidateOutcome::Valid
    } else {
        ValidateOutcome::Invalid(ValidationError::AuthorMismatch)
    }
}

/// Checks the author-equals-creator invariant for one offered create.
pub fn validate_value_matches_create_author(value: &AgentPubKey, d: &ValidateData) -> (r:
    ValidateCallbackResult)
    ensures
        r@ == spec_validate_author(*value, d@),
{
    let is_create = matches!(&d.header.kind, HeaderKind::Create);
    if is_create && value.id == d.header.author.id {
        ValidateCallbackResult::Valid
    } else {
        ValidateCallbackResult::Invalid(ValidationError::AuthorMismatch)
    }
}

// --- resolving a validation dependency ---

/// What resolving a referenced prior revision yields: its entry; a
/// deferral naming the missing header while it has not arrived; or a
/// rejection when the header resolves to a revision that carries no entry.
pub open spec fn spec_resolve_dependency(lv: LedgerView, hh: HeaderHash) -> Result<
    EntryView,
    ValidateOutcome,
> {
    let f = first_with_header(lv.records, *hh.header);
    if f == -1 {
        Err(ValidateOutcome::UnresolvedDependencies(seq![hh]))
    } else {
        match lv.records[f].entry {
            Some(e) => Ok(e),
            None => Err(ValidateOutcome::Invalid(ValidationError::DeserializationFailed)),
        }
    }
}

/// Resolves a referenced prior revision against the local ledger, for a
/// validation decision that depends on it.
pub fn resolve_dependency(l: &Ledger, hh: &HeaderHash) -> (r: Result<Entry, ValidateCallbackResult>)
    ensures
        match r {
            Ok(e) => spec_resolve_dependency(l@, *hh) == Ok::<EntryView, ValidateOutcome>(e@),
            Err(out) => spec_resolve_dependency(l@, *hh) == Err::<EntryView, ValidateOutcome>(out@),
        },
{
    match crate::chain::find_first_header(l, &hh.header) {
        None => {
            let mut missing: Vec<HeaderHash> = Vec::new();
            missing.push(clone_header_hash(hh));
            proof {
                assert(missing@ =~= seq![*hh]);
            }
            Err(ValidateCallbackResult::UnresolvedDependencies(missing))
        },
        Some(f) => {
            proof {
                lemma_first_with_header(l@.records, *hh.header);
            }
            match &l.records[f].entry {
                Some(e) => Ok(clone_entry(e)),
                None => Err(
                    ValidateCallbackResult::Invalid(ValidationError::DeserializationFailed),
                ),
            }
        },
    }
}

} // verus!
