use crate::chain::{fetch_latest, spec_fetch};
use crate::crud::{create_record, spec_after_create, spec_create_header, spec_wire_for, CrudError};
use crate::entries::{
    path_name, spec_path_name, Entry, EntryType, EntryView, ProjectMeta, WireElement,
};
use crate::hashes::AgentPubKey;
use crate::header::HeaderKind;
use crate::ledger::{path_exists, Ledger, LedgerView, LinkBase, LinkBaseView};
use crate::validate::{
    resolve_dependency, spec_resolve_dependency, spec_validate_author,
    validate_value_matches_create_author, ValidateCallbackResult, ValidateData, ValidateDataView,
    ValidateOutcome, ValidationError,
};
use vstd::prelude::*;

verus! {

/// The outcome of validating an offered project-meta create: the entry
/// must deserialize as project metadata, and — unless it is flagged as
/// imported — its self-reported creator must equal the committing author.
pub open spec fn spec_validate_create_project_meta(d: ValidateDataView) -> ValidateOutcome {
    match d.entry {
        Some(EntryView::ProjectMeta(pm)) => {
            if pm.is_imported {
                ValidateOutcome::Valid
            } else {
                spec_validate_author(pm.creator_address, d)
            }
        },
        _ => ValidateOutcome::Invalid(ValidationError::DeserializationFailed),
    }
}

/// Creates must carry project metadata whose `creator_address` matches the
/// committing author — unless `is_imported` is true, the deliberate
/// trust-boundary bypass that lets bulk historical migration record a
/// different author than the committer.
pub fn validate_create_entry_project_meta(d: &ValidateData) -> (r: ValidateCallbackResult)
    ensures
        r@ == spec_validate_create_project_meta(d@),
{
    match &d.entry {
        Some(Entry::ProjectMeta(pm)) => {
            if pm.is_imported {
                ValidateCallbackResult::Valid
            } else {
                validate_value_matches_create_author(&pm.creator_address, d)
            }
        },
        _ => ValidateCallbackResult::Invalid(ValidationError::DeserializationFailed),
    }
}

/// The outcome of validating an offered project-meta update: deferred
/// while the superseded revision is missing locally; once it is present,
/// rejected exactly when a field the type declares immutable — creator,
/// creation time, or passphrase — differs from the original.
pub open spec fn spec_validate_update_project_meta(
    lv: LedgerView,
    d: ValidateDataView,
) -> ValidateOutcome {
    match d.entry {
        Some(EntryView::ProjectMeta(pm)) => {
            match d.header.kind {
                HeaderKind::Update { original } => {
                    match spec_resolve_dependency(lv, *original) {
                        Err(out) => out,
                        Ok(EntryView::ProjectMeta(orig)) => {
                            if pm.creator_address == orig.creator_address && pm.created_at
                                == orig.created_at && pm.passphrase == orig.passphrase {
                                ValidateOutcome::Valid
                            } else {
                                ValidateOutcome::Invalid(ValidationError::EditableFieldsViolated)
                            }
                        },
                        Ok(_) => ValidateOutcome::Invalid(ValidationError::DeserializationFailed),
                    }
                },
                _ => ValidateOutcome::Invalid(ValidationError::UpdateForbidden),
            }
        },
        _ => ValidateOutcome::Invalid(ValidationError::DeserializationFailed),
    }
}

/// Updates may change name and image only. While the superseded revision
/// is not locally available the outcome is a deferral naming it; once it
/// is, the outcome is final: valid exactly when creator, creation time and
/// passphrase are unchanged.
///
/// The substrate dispatches update headers here, so an offered revision
/// whose entry deserializes always carries an update header.
pub fn validate_update_entry_project_meta(d: &ValidateData, l: &Ledger) -> (r:
    ValidateCallbackResult)
    requires
        (d@.entry matches Some(e) && e matches EntryView::ProjectMeta(_)) ==> (d@.header.kind
            matches HeaderKind::Update { .. }),
    ensures
        r@ == spec_validate_update_project_meta(l@, d@),
{
    match &d.entry {
        Some(Entry::ProjectMeta(pm)) => {
            match &d.header.kind {
                HeaderKind::Update { original } => {
                    match resolve_dependency(l, original) {
                        Err(out) => out,
                        Ok(Entry::ProjectMeta(orig)) => {
                            if pm.creator_address.id == orig.creator_address.id && pm.created_at
                                == orig.created_at && pm.passphrase == orig.passphrase {
                                ValidateCallbackResult::Valid
                            } else {
                                ValidateCallbackResult::Invalid(
                                    ValidationError::EditableFieldsViolated,
                                )
                            }
                        },
                        Ok(_) => ValidateCallbackResult::Invalid(
                            ValidationError::DeserializationFailed,
                        ),
                    }
                },
                _ => ValidateCallbackResult::Invalid(ValidationError::UpdateForbidden),
            }
        },
        _ => ValidateCallbackResult::Invalid(ValidationError::DeserializationFailed),
    }
}

/// Once the superseded revision is locally present, the update validation
/// outcome is final: Valid or Invalid, never a deferral — and validation
/// is a function of the offered revision and the ledger alone, so
/// re-validating the same input gives the same outcome.
pub proof fn lemma_update_validation_final(lv: LedgerView, d: ValidateDataView)
    requires
        d.header.kind matches HeaderKind::Update { original } && crate::chain::first_with_header(
            lv.records,
            *original.header,
        ) != -1,
    ensures
        !(spec_validate_update_project_meta(lv, d) matches
        ValidateOutcome::UnresolvedDependencies(_)),
{
}

/// Deletes of project metadata are never allowed: the record lives as long
/// as the project.
pub fn validate_delete_entry_project_meta(d: &ValidateData) -> (r: ValidateCallbackResult)
    ensures
        r@ == ValidateOutcome::Invalid(ValidationError::DeleteForbidden),
{
    let _ = d;
    ValidateCallbackResult::Invalid(ValidationError::DeleteForbidden)
}

// --- the singleton record of a project ---

/// Creates the project's one metadata record. Project metadata is a
/// singleton: the create fails, changing nothing, exactly when a metadata
/// record is already discoverable under the type's path. No change signal
/// fires for this record type.
pub fn simple_create_project_meta(l: &mut Ledger, entry: ProjectMeta) -> (r: Result<
    WireElement,
    CrudError,
>)
    requires
        old(l)@.wf(),
        old(l).next_seq < u64::MAX,
    ensures
        final(l)@.wf(),
        ({
            let lv = old(l)@;
            let e = Entry::ProjectMeta(entry)@;
            let occupied = spec_fetch(
                lv.records,
                lv.links,
                LinkBaseView::Path(spec_path_name(EntryType::ProjectMeta)),
            ).len() != 0;
            match r {
                Err(err) => occupied && err == CrudError::SingletonViolation && final(l)@ == lv,
                Ok(w) => !occupied && final(l)@ == spec_after_create(lv, e) && w@ == spec_wire_for(
                    spec_create_header(lv),
                    e,
                ),
            }
        }),
{
    match create_record(l, Entry::ProjectMeta(entry), true, Vec::new()) {
        Ok((w, _)) => Ok(w),
        Err(e) => Err(e),
    }
}

/// Reads the project's metadata record: the current value of the first
/// record discoverable under the type's path. Fails with `NotFound`
/// exactly when none exists.
pub fn fetch_project_meta(l: &Ledger) -> (r: Result<WireElement, CrudError>)
    requires
        l@.wf(),
    ensures
        ({
            let ws = spec_fetch(
                l@.records,
                l@.links,
                LinkBaseView::Path(spec_path_name(EntryType::ProjectMeta)),
            );
            match r {
                Ok(w) => ws.len() != 0 && w@ == ws[0],
                Err(e) => e == CrudError::NotFound && ws.len() == 0,
            }
        }),
{
    let base = LinkBase::Path(path_name(EntryType::ProjectMeta));
    let mut ws = fetch_latest(l, &base);
    if ws.len() == 0 {
        proof {
            assert(ws@.map_values(|w: WireElement| w@).len() == 0);
        }
        Err(CrudError::NotFound)
    } else {
        let w = ws.remove(0);
        proof {
            assert(w@ == spec_fetch(
                l@.records,
                l@.links,
                LinkBaseView::Path(spec_path_name(EntryType::ProjectMeta)),
            )[0]);
        }
        Ok(w)
    }
}

/// Whether the project-meta path anchor exists locally: the cheap
/// existence probe used while joining a project.
pub fn check_project_meta_exists(l: &Ledger) -> (r: bool)
    ensures
        r == l@.paths.contains(spec_path_name(EntryType::ProjectMeta)),
{
    path_exists(l, &path_name(EntryType::ProjectMeta))
}

} // verus!
