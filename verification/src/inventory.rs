//! The inventory primitives: register, re-status, re-point and remove the
//! entries of the external-id inventory.
use vstd::prelude::*;
use crate::error::{AtomicMutateError, Refusal, refusal};
use crate::model::{AtomicStore, InventoryEntry, InventoryStatus, ostr};
use crate::section::ostr_ref;
use crate::order::str_eq;
use crate::text::{cat3, is_blank, is_blank_seq, owned, trim, trim_seq};
use crate::validate::{
    inventory_id_problem, section_ref_problem, validate_inventory_id, validate_section_ref_input,
};

verus! {

/// The refusal of a mutation on an inventory id that is not registered.
pub open spec fn inventory_missing_msg(id: Seq<char>) -> Seq<char> {
    "inventory_id `"@ + id + "` not present in atomic store"@
}

/// The refusal of a second registration of the same id.
pub open spec fn inventory_taken_msg(id: Seq<char>) -> Seq<char> {
    "inventory_id `"@ + id
        + "` already registered (use set_inventory_status / set_inventory_section_ref / remove_inventory_entry to mutate)"@
}

/// An optional free-text value as stored: a blank one reads as absent.
pub open spec fn kept_text(o: Option<Seq<char>>) -> Option<Seq<char>> {
    match o {
        Some(s) => if is_blank_seq(s) {
            None
        } else {
            Some(s)
        },
        None => None,
    }
}

/// The problem with an optional section reference, if any.
pub open spec fn opt_section_ref_problem(o: Option<Seq<char>>) -> Option<Seq<char>> {
    match o {
        Some(s) => section_ref_problem(s),
        None => None,
    }
}

/// The problem with an optional free-text value given to a new entry: an
/// empty (blank) one is refused in favour of `None`, and so are whitespace
/// edges.
pub open spec fn opt_text_problem(field: Seq<char>, o: Option<Seq<char>>) -> Option<Seq<char>> {
    match o {
        Some(s) => if is_blank_seq(s) {
            Some(field + ": must be non-empty (pass None for no value)"@)
        } else if trim_seq(s) != s {
            Some(field + ": leading or trailing whitespace not allowed (`"@ + s + "`)"@)
        } else {
            None
        },
        None => None,
    }
}

/// Why [`add_inventory_entry`] refuses, in the order it checks.
pub open spec fn add_inventory_problem(
    store: AtomicStore,
    id: Seq<char>,
    section_ref: Option<Seq<char>>,
    source: Option<Seq<char>>,
    reason: Option<Seq<char>>,
) -> Option<Refusal> {
    if inventory_id_problem(id) is Some {
        Some(Refusal::Validation(inventory_id_problem(id)->0))
    } else if store.inventory_entries@.contains_key(id) {
        Some(Refusal::Validation(inventory_taken_msg(id)))
    } else if opt_section_ref_problem(section_ref) is Some {
        Some(Refusal::Validation(opt_section_ref_problem(section_ref)->0))
    } else if opt_text_problem("source"@, source) is Some {
        Some(Refusal::Validation(opt_text_problem("source"@, source)->0))
    } else if opt_text_problem("reason"@, reason) is Some {
        Some(Refusal::Validation(opt_text_problem("reason"@, reason)->0))
    } else {
        None
    }
}

/// Check an optional free-text value given to a new entry.
fn check_opt_text(field: &str, o: Option<&str>) -> (r: Result<(), AtomicMutateError>)
    ensures
        match r {
            Ok(()) => opt_text_problem(field@, ostr_ref(o)) is None,
            Err(e) => refusal(e) == Refusal::Validation(opt_text_problem(field@, ostr_ref(o))->0)
                && opt_text_problem(field@, ostr_ref(o)) is Some,
        },
{
    match o {
        Some(s) => {
            if is_blank(s) {
                let mut m = owned(field);
                m.append(": must be non-empty (pass None for no value)");
                return Err(AtomicMutateError::Validation(m));
            }
            let t = trim(s);
            if !str_eq(t.as_str(), s) {
                let mut m = owned(field);
                m.append(": leading or trailing whitespace not allowed (`");
                m.append(s);
                m.append("`)");
                return Err(AtomicMutateError::Validation(m));
            }
            Ok(())
        },
        None => Ok(()),
    }
}

/// The stored text of an optional argument.
fn owned_opt(o: Option<&str>) -> (r: Option<String>)
    ensures
        ostr(r) == ostr_ref(o),
{
    match o {
        Some(s) => Some(owned(s)),
        None => None,
    }
}

/// The stored text of an optional free-text argument: blank reads as absent.
fn kept_opt(o: Option<&str>) -> (r: Option<String>)
    ensures
        ostr(r) == kept_text(ostr_ref(o)),
{
    match o {
        Some(s) => if is_blank(s) {
            None
        } else {
            Some(owned(s))
        },
        None => None,
    }
}

/// Check an optional section reference.
fn check_opt_section_ref(o: Option<&str>) -> (r: Result<(), AtomicMutateError>)
    ensures
        match r {
            Ok(()) => opt_section_ref_problem(ostr_ref(o)) is None,
            Err(e) => refusal(e) == Refusal::Validation(opt_section_ref_problem(ostr_ref(o))->0)
                && opt_section_ref_problem(ostr_ref(o)) is Some,
        },
{
    match o {
        Some(s) => validate_section_ref_input(s),
        None => Ok(()),
    }
}

/// Register a new inventory entry. The id must be well formed and not yet
/// registered; a section reference must be in canonical form; a source or
/// reason, where given, must be non-empty with no whitespace edges (pass
/// `None` for no value) and is stored as given.
pub fn add_inventory_entry(
    store: &mut AtomicStore,
    inventory_id: &str,
    status: InventoryStatus,
    section_ref: Option<&str>,
    source: Option<&str>,
    reason: Option<&str>,
) -> (r: Result<(), AtomicMutateError>)
    ensures
        final(store).wf(),
        ({
            let p = add_inventory_problem(
                *old(store),
                inventory_id@,
                ostr_ref(section_ref),
                ostr_ref(source),
                ostr_ref(reason),
            );
            match r {
                Ok(()) => {
                    let e = final(store).inventory_entries@[inventory_id@];
                    &&& p is None
                    &&& final(store).inventory_entries@.dom() == old(
                        store,
                    ).inventory_entries@.dom().insert(inventory_id@)
                    &&& forall|k: Seq<char>|
                        #[trigger] old(store).inventory_entries@.contains_key(k)
                            ==> final(store).inventory_entries@[k] == old(
                            store,
                        ).inventory_entries@[k]
                    &&& e.status == status
                    &&& ostr(e.section_ref) == ostr_ref(section_ref)
                    &&& ostr(e.source) == ostr_ref(source)
                    &&& ostr(e.reason) == ostr_ref(reason)
                    &&& final(store).same_but_inventory(*old(store))
                },
                Err(e) => *final(store) == *old(store) && p == Some(refusal(e)),
            }
        }),
{
    store.establish_wf();
    validate_inventory_id(inventory_id)?;
    if store.inventory_entries.contains_key(inventory_id) {
        return Err(
            AtomicMutateError::Validation(
                cat3(
                    "inventory_id `",
                    inventory_id,
                    "` already registered (use set_inventory_status / set_inventory_section_ref / remove_inventory_entry to mutate)",
                ),
            ),
        );
    }
    check_opt_section_ref(section_ref)?;
    check_opt_text("source", source)?;
    check_opt_text("reason", reason)?;
    let entry = InventoryEntry {
        status,
        section_ref: owned_opt(section_ref),
        source: owned_opt(source),
        reason: owned_opt(reason),
    };
    store.inventory_entries.insert(owned(inventory_id), entry);
    Ok(())
}

/// Re-status an existing inventory entry. `reason`: `None` keeps the stored
/// reason, a blank one clears it, any other replaces it.
pub fn set_inventory_status(
    store: &mut AtomicStore,
    inventory_id: &str,
    new_status: InventoryStatus,
    reason: Option<&str>,
) -> (r: Result<(), AtomicMutateError>)
    ensures
        final(store).wf(),
        match r {
            Ok(()) => {
                let o = old(store).inventory_entries@[inventory_id@];
                let e = final(store).inventory_entries@[inventory_id@];
                &&& inventory_id_problem(inventory_id@) is None
                &&& old(store).inventory_entries@.contains_key(inventory_id@)
                &&& final(store).inventory_entries@ == old(store).inventory_entries@.insert(
                    inventory_id@,
                    e,
                )
                &&& e.status == new_status
                &&& e.section_ref == o.section_ref
                &&& e.source == o.source
                &&& match reason {
                    None => e.reason == o.reason,
                    Some(t) => ostr(e.reason) == kept_text(Some(t@)),
                }
                &&& final(store).same_but_inventory(*old(store))
            },
            Err(e) => {
                &&& *final(store) == *old(store)
                &&& if inventory_id_problem(inventory_id@) is Some {
                    refusal(e) == Refusal::Validation(inventory_id_problem(inventory_id@)->0)
                } else {
                    !old(store).inventory_entries@.contains_key(inventory_id@) && refusal(e)
                        == Refusal::NotFound(inventory_missing_msg(inventory_id@))
                }
            },
        },
{
    store.establish_wf();
    validate_inventory_id(inventory_id)?;
    let mut entry = match store.inventory_entries.remove(inventory_id) {
        Some(e) => e,
        None => {
            return Err(
                AtomicMutateError::NotFound(
                    cat3("inventory_id `", inventory_id, "` not present in atomic store"),
                ),
            );
        },
    };
    entry.status = new_status;
    match reason {
        Some(t) => {
            entry.reason = kept_opt(Some(t));
        },
        None => {},
    }
    store.inventory_entries.insert(owned(inventory_id), entry);
    proof {
        assert(final(store).inventory_entries@ =~= old(store).inventory_entries@.insert(
            inventory_id@,
            store.inventory_entries@[inventory_id@],
        ));
    }
    Ok(())
}

/// Re-point (or, with `None`, unset) the section reference of an existing
/// inventory entry. A given reference must be in canonical form.
pub fn set_inventory_section_ref(
    store: &mut AtomicStore,
    inventory_id: &str,
    section_ref: Option<&str>,
) -> (r: Result<(), AtomicMutateError>)
    ensures
        final(store).wf(),
        match r {
            Ok(()) => {
                let o = old(store).inventory_entries@[inventory_id@];
                let e = final(store).inventory_entries@[inventory_id@];
                &&& inventory_id_problem(inventory_id@) is None
                &&& opt_section_ref_problem(ostr_ref(section_ref)) is None
                &&& old(store).inventory_entries@.contains_key(inventory_id@)
                &&& final(store).inventory_entries@ == old(store).inventory_entries@.insert(
                    inventory_id@,
                    e,
                )
                &&& e.status == o.status
                &&& ostr(e.section_ref) == ostr_ref(section_ref)
                &&& e.source == o.source
                &&& e.reason == o.reason
                &&& final(store).same_but_inventory(*old(store))
            },
            Err(e) => {
                &&& *final(store) == *old(store)
                &&& if inventory_id_problem(inventory_id@) is Some {
                    refusal(e) == Refusal::Validation(inventory_id_problem(inventory_id@)->0)
                } else if opt_section_ref_problem(ostr_ref(section_ref)) is Some {
                    refusal(e) == Refusal::Validation(
                        opt_section_ref_problem(ostr_ref(section_ref))->0,
                    )
                } else {
                    !old(store).inventory_entries@.contains_key(inventory_id@) && refusal(e)
                        == Refusal::NotFound(inventory_missing_msg(inventory_id@))
                }
            },
        },
{
    store.establish_wf();
    validate_inventory_id(inventory_id)?;
    check_opt_section_ref(section_ref)?;
    let mut entry = match store.inventory_entries.remove(inventory_id) {
        Some(e) => e,
        None => {
            return Err(
                AtomicMutateError::NotFound(
                    cat3("inventory_id `", inventory_id, "` not present in atomic store"),
                ),
            );
        },
    };
    entry.section_ref = owned_opt(section_ref);
    store.inventory_entries.insert(owned(inventory_id), entry);
    proof {
        assert(final(store).inventory_entries@ =~= old(store).inventory_entries@.insert(
            inventory_id@,
            store.inventory_entries@[inventory_id@],
        ));
    }
    Ok(())
}

/// Remove an inventory entry. The reason must not be blank.
pub fn remove_inventory_entry(store: &mut AtomicStore, inventory_id: &str, reason: &str) -> (r:
    Result<(), AtomicMutateError>)
    ensures
        final(store).wf(),
        match r {
            Ok(()) => {
                &&& inventory_id_problem(inventory_id@) is None
                &&& !is_blank_seq(reason@)
                &&& old(store).inventory_entries@.contains_key(inventory_id@)
                &&& final(store).inventory_entries@ == old(store).inventory_entries@.remove(
                    inventory_id@,
                )
                &&& final(store).same_but_inventory(*old(store))
            },
            Err(e) => {
                &&& *final(store) == *old(store)
                &&& if inventory_id_problem(inventory_id@) is Some {
                    refusal(e) == Refusal::Validation(inventory_id_problem(inventory_id@)->0)
                } else if is_blank_seq(reason@) {
                    refusal(e) == Refusal::Validation(
                        "remove_inventory_entry: --reason mandatory (audit-trail safeguard)"@,
                    )
                } else {
                    !old(store).inventory_entries@.contains_key(inventory_id@) && refusal(e)
                        == Refusal::NotFound(inventory_missing_msg(inventory_id@))
                }
            },
        },
{
    store.establish_wf();
    validate_inventory_id(inventory_id)?;
    if is_blank(reason) {
        return Err(
            AtomicMutateError::Validation(
                owned("remove_inventory_entry: --reason mandatory (audit-trail safeguard)"),
            ),
        );
    }
    match store.inventory_entries.remove(inventory_id) {
        Some(_) => Ok(()),
        None => Err(
            AtomicMutateError::NotFound(
                cat3("inventory_id `", inventory_id, "` not present in atomic store"),
            ),
        ),
    }
}

} // verus!
