//! Questions that lint rules ask of a unit about single-valued keys.

use vstd::prelude::*;

use crate::items::{lookup, DirectiveEntry, EntryView, SystemdUnit};
use crate::text::same_text;

verus! {

/// Key `key` has a `Solo` entry whose value is `v`.
pub open spec fn has_solo_value(u: Seq<EntryView>, key: Seq<char>, v: Seq<char>) -> bool {
    lookup(u, key) matches Some(EntryView::Solo(d)) && d.value == Some(v)
}

pub trait SystemdUnitExt {
    /// Key exists and has value Solo(expected_value).
    fn key_have_solo_value(&self, key: &str, expected_value: &str) -> bool;

    /// Key may exist; if it does, it has value Solo(expected_value).
    fn key_may_have_solo_value(&self, key: &str, expected_value: &str) -> bool;
}

fn solo_value_is(entry: &DirectiveEntry, expected_value: &str) -> (r: bool)
    ensures
        r == (entry@ matches EntryView::Solo(d) && d.value == Some(expected_value@)),
{
    match entry {
        DirectiveEntry::Solo(d) => match d.value() {
            Some(v) => same_text(v, expected_value),
            None => false,
        },
        DirectiveEntry::Many(_) => false,
    }
}

impl SystemdUnitExt for SystemdUnit {
    fn key_have_solo_value(&self, key: &str, expected_value: &str) -> (r: bool)
        ensures
            r == has_solo_value(self@, key@, expected_value@),
    {
        match self.lookup_by_key(key) {
            Some(entry) => solo_value_is(entry, expected_value),
            None => false,
        }
    }

    fn key_may_have_solo_value(&self, key: &str, expected_value: &str) -> (r: bool)
        ensures
            r == (lookup(self@, key@) is None || has_solo_value(self@, key@, expected_value@)),
    {
        match self.lookup_by_key(key) {
            Some(entry) => solo_value_is(entry, expected_value),
            None => true,
        }
    }
}

} // verus!
