//! Lint rules: checks of a parsed unit that report one finding each.

use vstd::prelude::*;

pub mod dbus_missing_bus_name_directive;
pub mod lint_missing_description;
pub mod service_execstart_not_set;
pub mod service_type_always_explicit;
pub mod unknown_category;
pub mod unknown_directive;

verus! {

/// How much a finding matters.
#[derive(PartialEq, Eq, Structural, Copy, Clone, Debug)]
pub enum LintSeverity {
    Ignore,
    Lint,
    Warning,
    Error,
}

/// What a lint rule found.
#[derive(PartialEq, Eq, Clone, Debug)]
pub struct LintResult {
    pub severity: LintSeverity,
    pub message: String,
    pub code: LintCode,
}

/// The rule that a finding comes from.
#[derive(PartialEq, Eq, Structural, Copy, Clone, Debug)]
pub enum LintCode {
    LintMissingDescription,
    WarnServiceTypeShouldAlwaysBeExplicit,
    ErrorServiceSimpleMustHaveExecstart,
    ErrorUnknownDirective,
    ErrorUnknownCategory,
    ErrorMissingBusNameDirectiveInDBusService,
}

/// The number under which each rule is documented.
pub open spec fn code_number(c: LintCode) -> u32 {
    match c {
        LintCode::LintMissingDescription => 20000,
        LintCode::WarnServiceTypeShouldAlwaysBeExplicit => 30000,
        LintCode::ErrorServiceSimpleMustHaveExecstart => 40000,
        LintCode::ErrorUnknownDirective => 40001,
        LintCode::ErrorUnknownCategory => 40002,
        LintCode::ErrorMissingBusNameDirectiveInDBusService => 40003,
    }
}

impl LintCode {
    /// The number under which the rule is documented.
    pub fn number(self) -> (r: u32)
        ensures
            r == code_number(self),
    {
        match self {
            LintCode::LintMissingDescription => 20000,
            LintCode::WarnServiceTypeShouldAlwaysBeExplicit => 30000,
            LintCode::ErrorServiceSimpleMustHaveExecstart => 40000,
            LintCode::ErrorUnknownDirective => 40001,
            LintCode::ErrorUnknownCategory => 40002,
            LintCode::ErrorMissingBusNameDirectiveInDBusService => 40003,
        }
    }
}

/// A finding with a fixed message.
pub open spec fn finding(
    r: Result<(), LintResult>,
    severity: LintSeverity,
    code: LintCode,
    message: Seq<char>,
) -> bool {
    r matches Err(e) && e.severity == severity && e.code == code && e.message@ == message
}

/// Whether a category name is reserved for extensions: it starts with `X-`.
pub open spec fn is_extension(c: Seq<char>) -> bool {
    c.len() >= 2 && c[0] == 'X' && c[1] == '-'
}

/// Whether a category name starts with `X-`.
pub fn starts_with_x_dash(c: &str) -> (r: bool)
    ensures
        r == is_extension(c@),
{
    c.unicode_len() >= 2 && c.get_char(0) == 'X' && c.get_char(1) == '-'
}

} // verus!
