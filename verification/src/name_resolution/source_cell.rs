//! The write-once slot that ties a scope to its source.
//!
//! The slot is a `once_cell::unsync::OnceCell`. Nothing in this file is
//! proved: each function states what the cell's documentation and source
//! say of the one method it calls. The cell can be set through a shared
//! reference; here it is set through a unique one only, so that a slot that
//! is borrowed shared keeps its value.

use vstd::prelude::*;
use once_cell::unsync::OnceCell;
use crate::parser::SourceId;

verus! {

/// `once_cell::unsync::OnceCell`, a cell that is written at most once. Its
/// inside is not visible to the proofs.
#[verifier::external_type_specification]
#[verifier::external_body]
#[verifier::reject_recursive_types(T)]
pub struct ExOnceCell<T>(OnceCell<T>);

/// What a source slot holds: nothing, or the source it was set to.
pub uninterp spec fn slot_value(cell: OnceCell<SourceId>) -> Option<SourceId>;

/// What setting a slot answers: `Ok`, or the rejected source in `Err`.
pub type SetOutcome = Result<(), SourceId>;

/// `OnceCell::new`: the new cell is empty.
#[verifier::external_body]
pub(crate) fn slot_new() -> (cell: OnceCell<SourceId>)
    ensures
        slot_value(cell) is None,
{
    OnceCell::new()
}

/// `OnceCell::get`: a reference to the value if the cell was set, else
/// nothing.
#[verifier::external_body]
pub(crate) fn slot_get(cell: &OnceCell<SourceId>) -> (value: Option<&SourceId>)
    ensures
        match value {
            Some(source) => slot_value(*cell) == Some(*source),
            None => slot_value(*cell) is None,
        },
{
    cell.get()
}

/// `OnceCell::set`: an empty cell takes the value and the call returns
/// `Ok`; a cell that was set keeps what it has and hands the argument back
/// in `Err`.
#[verifier::external_body]
pub(crate) fn slot_set(cell: &mut OnceCell<SourceId>, source: SourceId) -> (outcome: SetOutcome)
    ensures
        slot_value(*old(cell)) is None ==> outcome is Ok && slot_value(*final(cell)) == Some(
            source,
        ),
        slot_value(*old(cell)) is Some ==> outcome == SetOutcome::Err(source) && slot_value(
            *final(cell),
        ) == slot_value(*old(cell)),
{
    cell.set(source)
}

/// `OnceCell::clone`: the copy holds what the cell holds.
#[verifier::external_body]
pub(crate) fn slot_clone(cell: &OnceCell<SourceId>) -> (copy: OnceCell<SourceId>)
    ensures
        slot_value(copy) == slot_value(*cell),
{
    cell.clone()
}

} // verus!
