//! Every category must be one that systemd knows, or an extension.

use vstd::prelude::*;

use crate::items::{category_set, EntryView, SystemdUnit};
use crate::lint::{is_extension, starts_with_x_dash, LintCode, LintResult, LintSeverity};
use crate::text::{lemma_lex_total, lex_lt, same_text, strings_view};

verus! {

pub const MESSAGE: &'static str = "Unknown category: ";

/// The categories that systemd documents.
pub open spec fn known_category(c: Seq<char>) -> bool {
    ||| c == "Unit"@
    ||| c == "Service"@
    ||| c == "Install"@
    ||| c == "Mount"@
    ||| c == "Socket"@
    ||| c == "Automount"@
    ||| c == "BusName"@
    ||| c == "Path"@
    ||| c == "Timer"@
}

/// A category that passes: an extension or a known one.
pub open spec fn accepted_category(c: Seq<char>) -> bool {
    is_extension(c) || known_category(c)
}

fn is_known_category(c: &str) -> (r: bool)
    ensures
        r == known_category(c@),
{
    same_text(c, "Unit") || same_text(c, "Service") || same_text(c, "Install") || same_text(
        c,
        "Mount",
    ) || same_text(c, "Socket") || same_text(c, "Automount") || same_text(c, "BusName")
        || same_text(c, "Path") || same_text(c, "Timer")
}

/// Reports the first category, in sorted order, that is neither known nor an
/// extension.
pub fn lint(unit: &SystemdUnit) -> (r: Result<(), LintResult>)
    ensures
        r is Ok <==> forall|c: Seq<char>| #[trigger]
            category_set(unit@).contains(c) ==> accepted_category(c),
        r matches Err(e) ==> exists|c: Seq<char>|
            {
                &&& #[trigger] category_set(unit@).contains(c)
                &&& !accepted_category(c)
                &&& forall|c2: Seq<char>|
                    category_set(unit@).contains(c2) && lex_lt(c2, c) ==> accepted_category(c2)
                &&& e.message@ == MESSAGE@ + c
                &&& e.severity == LintSeverity::Error
                &&& e.code == LintCode::ErrorUnknownCategory
            },
{
    let cats = unit.categories();
    let ghost cs = strings_view(cats@);
    assert forall|c: Seq<char>| category_set(unit@).contains(c) <==> cs.contains(c) by {
        assert(cs.to_set().contains(c) == cs.contains(c));
    }
    for j in 0..cats.len()
        invariant
            cs == strings_view(cats@),
            forall|c: Seq<char>| category_set(unit@).contains(c) <==> cs.contains(c),
            forall|i: int, k: int| 0 <= i < k < cs.len() ==> lex_lt(#[trigger] cs[i], #[trigger] cs[k]),
            forall|q: int| 0 <= q < j ==> accepted_category(#[trigger] cs[q]),
    {
        let cat = &cats[j];
        assert(cs[j as int] == cat@);
        if !starts_with_x_dash(cat.as_str()) && !is_known_category(cat.as_str()) {
            let mut message = String::from_str(MESSAGE);
            message.append(cat.as_str());
            proof {
                assert(cs.contains(cat@));
                assert forall|c2: Seq<char>|
                    category_set(unit@).contains(c2) && lex_lt(c2, cat@) implies accepted_category(
                    c2,
                ) by {
                    assert(cs.contains(c2));
                    let q = choose|q: int| 0 <= q < cs.len() && cs[q] == c2;
                    lemma_lex_total(c2, cat@);
                    if q > j {
                        assert(lex_lt(cs[j as int], cs[q]));
                    }
                }
            }
            return Err(
                LintResult {
                    severity: LintSeverity::Error,
                    message,
                    code: LintCode::ErrorUnknownCategory,
                },
            );
        }
    }
    assert forall|c: Seq<char>| #[trigger] category_set(unit@).contains(c) implies accepted_category(
        c,
    ) by {
        assert(cs.contains(c));
        let q = choose|q: int| 0 <= q < cs.len() && cs[q] == c;
    }
    Ok(())
}

} // verus!
