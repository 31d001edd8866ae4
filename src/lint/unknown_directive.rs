//! Every directive must be one that systemd documents, unless it stands in
//! an extension category.

use vstd::prelude::*;

use crate::items::{entry_category, entry_key, entry_wf, DirectiveEntry, EntryView, SystemdUnit};
use crate::lint::{is_extension, starts_with_x_dash, LintCode, LintResult, LintSeverity};
use crate::text::strings_view;

verus! {

pub const MESSAGE: &'static str = "Unknown directive found: ";

/// An entry whose key is not documented and whose category is no extension.
pub open spec fn undocumented(e: EntryView, known: Seq<Seq<char>>) -> bool {
    !known.contains(entry_key(e)) && !is_extension(entry_category(e))
}

/// Entries of extension categories are not checked.
fn should_be_skipped(unit_entry: &DirectiveEntry) -> (r: bool)
    requires
        entry_wf(unit_entry@),
    ensures
        r == is_extension(entry_category(unit_entry@)),
{
    let cat = unit_entry.category();
    starts_with_x_dash(cat.as_str())
}

fn is_documented(known_directives: &Vec<String>, key: &String) -> (r: bool)
    ensures
        r == strings_view(known_directives@).contains(key@),
{
    let ghost ks = strings_view(known_directives@);
    for j in 0..known_directives.len()
        invariant
            ks == strings_view(known_directives@),
            forall|q: int| 0 <= q < j ==> #[trigger] ks[q] != key@,
    {
        assert(ks[j as int] == known_directives@[j as int]@);
        if known_directives[j].eq(key) {
            return true;
        }
    }
    false
}

/// Reports the first entry, in the unit's order, whose key is not among
/// `known_directives` and whose category is no extension.
pub fn lint(unit: &SystemdUnit, known_directives: &Vec<String>) -> (r: Result<(), LintResult>)
    ensures
        r is Ok <==> forall|i: int|
            0 <= i < unit@.len() ==> !undocumented(#[trigger] unit@[i], strings_view(known_directives@)),
        r matches Err(e) ==> exists|i: int|
            {
                &&& 0 <= i < unit@.len()
                &&& undocumented(#[trigger] unit@[i], strings_view(known_directives@))
                &&& forall|q: int|
                    0 <= q < i ==> !undocumented(#[trigger] unit@[q], strings_view(known_directives@))
                &&& e.message@ == MESSAGE@ + entry_key(unit@[i])
                &&& e.severity == LintSeverity::Error
                &&& e.code == LintCode::ErrorUnknownDirective
            },
{
    let ghost known = strings_view(known_directives@);
    let entries = unit.keys();
    for j in 0..entries.len()
        invariant
            known == strings_view(known_directives@),
            entries@.len() == unit@.len(),
            forall|q: int| 0 <= q < entries@.len() ==> (#[trigger] entries@[q])@ == unit@[q],
            forall|q: int| 0 <= q < unit@.len() ==> entry_wf(#[trigger] unit@[q]),
            forall|q: int| 0 <= q < j ==> !undocumented(#[trigger] unit@[q], known),
    {
        let unit_entry = entries[j];
        assert(unit_entry@ == unit@[j as int]);
        let key = unit_entry.key();
        if !is_documented(known_directives, &key) && !should_be_skipped(unit_entry) {
            let mut message = String::from_str(MESSAGE);
            message.append(key.as_str());
            return Err(
                LintResult {
                    severity: LintSeverity::Error,
                    message,
                    code: LintCode::ErrorUnknownDirective,
                },
            );
        }
    }
    Ok(())
}

} // verus!
