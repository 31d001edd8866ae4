//! A D-Bus service must name its bus.

use vstd::prelude::*;

use crate::items::{lookup, EntryView, SystemdUnit};
use crate::lint::{finding, LintCode, LintResult, LintSeverity};
use crate::support::{has_solo_value, SystemdUnitExt};

verus! {

pub const MESSAGE: &'static str = "You must fill the BusName= directive in a dbus service";

/// The unit has a single `Type=dbus` but no `BusName`.
pub open spec fn dbus_without_bus_name(u: Seq<EntryView>) -> bool {
    &&& has_solo_value(u, "Type"@, "dbus"@)
    &&& lookup(u, "BusName"@) is None
}

pub fn lint(unit: &SystemdUnit) -> (r: Result<(), LintResult>)
    ensures
        r is Err <==> dbus_without_bus_name(unit@),
        r is Err ==> finding(
            r,
            LintSeverity::Error,
            LintCode::ErrorMissingBusNameDirectiveInDBusService,
            MESSAGE@,
        ),
{
    if !unit.key_have_solo_value("Type", "dbus") {
        return Ok(());
    }
    if !unit.has_key("BusName") {
        Err(
            LintResult {
                severity: LintSeverity::Error,
                message: String::from_str(MESSAGE),
                code: LintCode::ErrorMissingBusNameDirectiveInDBusService,
            },
        )
    } else {
        Ok(())
    }
}

} // verus!
