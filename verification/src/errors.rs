use vstd::prelude::*;

verus! {

/// Why a report run was aborted. Every variant is fatal: the pipeline
/// produces no partial output once one of these is raised.
#[derive(Debug, Clone, PartialEq, Eq)]
pub enum PlanError {
    /// The production plan references a product with no specification.
    SpecificationNotFound(String),
    /// A material in the projection has no delivery lead time entry.
    DeliveryLeadTimeNotFound(String),
    /// A source date (day number, source name) is not week-aligned.
    InvalidWeekAlignment(u32, String),
    /// A source file name does not follow the `name_date` convention.
    MalformedSourceIdentifier(String),
}

} // verus!
