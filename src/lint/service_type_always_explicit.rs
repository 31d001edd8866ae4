//! A service should say which type it is.

use vstd::prelude::*;

use crate::items::{entry_category, lookup, EntryView, SystemdUnit};
use crate::lint::{finding, LintCode, LintResult, LintSeverity};

verus! {

pub const MESSAGE: &'static str = "Service Type= should always be explicit. Fill the Type= field.";

/// The unit has a `Service` category but no `Type`.
pub open spec fn service_without_type(u: Seq<EntryView>) -> bool {
    &&& exists|i: int| 0 <= i < u.len() && entry_category(#[trigger] u[i]) == "Service"@
    &&& lookup(u, "Type"@) is None
}

pub fn lint(unit: &SystemdUnit) -> (r: Result<(), LintResult>)
    ensures
        r is Err <==> service_without_type(unit@),
        r is Err ==> finding(
            r,
            LintSeverity::Warning,
            LintCode::WarnServiceTypeShouldAlwaysBeExplicit,
            MESSAGE@,
        ),
{
    if !unit.has_category("Service") {
        return Ok(());
    }
    if unit.lookup_by_key("Type").is_none() {
        return Err(
            LintResult {
                severity: LintSeverity::Warning,
                message: String::from_str(MESSAGE),
                code: LintCode::WarnServiceTypeShouldAlwaysBeExplicit,
            },
        );
    }
    Ok(())
}

} // verus!
