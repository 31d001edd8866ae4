//! A simple service must say what it starts.

use vstd::prelude::*;

use crate::items::{lookup, DirectiveEntry, EntryView, SystemdUnit};
use crate::lint::{finding, LintCode, LintResult, LintSeverity};
use crate::text::same_text;

verus! {

pub const MESSAGE: &'static str = "Service with Type==Simple MUST set ExecStart= field";

/// The unit has a single `Type=Simple` but no `ExecStart`.
pub open spec fn simple_without_exec_start(u: Seq<EntryView>) -> bool {
    &&& lookup(u, "Type"@) matches Some(EntryView::Solo(d)) && d.value == Some("Simple"@)
    &&& lookup(u, "ExecStart"@) is None
}

pub fn lint(unit: &SystemdUnit) -> (r: Result<(), LintResult>)
    ensures
        r is Err <==> simple_without_exec_start(unit@),
        r is Err ==> finding(
            r,
            LintSeverity::Error,
            LintCode::ErrorServiceSimpleMustHaveExecstart,
            MESSAGE@,
        ),
{
    if let Some(DirectiveEntry::Solo(type_entry)) = unit.lookup_by_key("Type") {
        let simple = match type_entry.value() {
            Some(v) => same_text(v, "Simple"),
            None => false,
        };
        if !simple {
            return Ok(());
        }
        if !unit.has_key("ExecStart") {
            return Err(
                LintResult {
                    severity: LintSeverity::Error,
                    message: String::from_str(MESSAGE),
                    code: LintCode::ErrorServiceSimpleMustHaveExecstart,
                },
            );
        }
    }
    Ok(())
}

} // verus!
