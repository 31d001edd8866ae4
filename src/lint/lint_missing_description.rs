//! A unit should describe itself.

use vstd::prelude::*;

use crate::items::{lookup, DirectiveEntry, EntryView, SystemdUnit};
use crate::lint::{finding, LintCode, LintResult, LintSeverity};

verus! {

pub const MESSAGE: &'static str = "Consider filling the Description= field";

/// The unit has no `Description`, or a single one without a value.
pub open spec fn lacks_description(u: Seq<EntryView>) -> bool {
    match lookup(u, "Description"@) {
        None => true,
        Some(EntryView::Solo(d)) => d.value is None,
        Some(EntryView::Many(_)) => false,
    }
}

pub fn lint(unit: &SystemdUnit) -> (r: Result<(), LintResult>)
    ensures
        r is Err <==> lacks_description(unit@),
        r is Err ==> finding(r, LintSeverity::Lint, LintCode::LintMissingDescription, MESSAGE@),
{
    let missing = match unit.lookup_by_key("Description") {
        None => true,
        Some(DirectiveEntry::Solo(entry)) => entry.value().is_none(),
        Some(DirectiveEntry::Many(_)) => false,
    };
    if missing {
        Err(
            LintResult {
                severity: LintSeverity::Lint,
                message: String::from_str(MESSAGE),
                code: LintCode::LintMissingDescription,
            },
        )
    } else {
        Ok(())
    }
}

} // verus!
