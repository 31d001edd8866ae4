use systemd_lint::lint::{
    dbus_missing_bus_name_directive, lint_missing_description, service_execstart_not_set,
    service_type_always_explicit, unknown_category, unknown_directive, LintCode, LintSeverity,
};
use systemd_lint::parse_string;

fn catalog() -> Vec<String> {
    vec![
        "Description".to_string(),
        "After".to_string(),
        "Requires".to_string(),
        "Type".to_string(),
        "ExecStart".to_string(),
        "ExecStartPre".to_string(),
        "BusName".to_string(),
        "WantedBy".to_string(),
    ]
}

#[test]
fn dbus_missing_bus_name_directive_success_case() {
    let input = "
        [Service]
        Type=dbus
        BusName=my-service
    ";
    let unit = parse_string(input).unwrap();
    let res = dbus_missing_bus_name_directive::lint(&unit);
    assert!(res.is_ok())
}

#[test]
fn success_case_not_dbus_service() {
    let input = "
        [Service]
        Type=simple
        ExecStart=/bin/true
    ";
    let unit = parse_string(input).unwrap();
    let res = dbus_missing_bus_name_directive::lint(&unit);
    assert!(res.is_ok());
}

#[test]
fn success_case_not_service() {
    let input = "
        [Unit]
        Description= a dummy file
    ";
    let unit = parse_string(input).unwrap();
    let res = dbus_missing_bus_name_directive::lint(&unit);
    assert!(res.is_ok());
}

#[test]
fn dbus_missing_bus_name_directive_error_case_missing_directive() {
    let input = "
        [Service]
        Type=dbus
    ";
    let unit = parse_string(input).unwrap();
    let res = dbus_missing_bus_name_directive::lint(&unit);
    assert!(res.is_err());
}

#[test]
fn lint_missing_description_success_case() {
    let input = "
        [Unit]
        Description= a dummy unit
        [Service]
        ExecStart=/bin/true
    ";
    let unit = parse_string(input).unwrap();
    let res = lint_missing_description::lint(&unit);
    assert!(res.is_ok())
}

#[test]
fn lint_missing_description_error_case_missing_directive() {
    let input = "
        [Service]
        ExecStart=/bin/true
    ";
    let unit = parse_string(input).unwrap();
    let res = lint_missing_description::lint(&unit);
    assert!(res.is_err());
}

#[test]
fn error_case_missing_value() {
    let input = "
        [Unit]
        Description=
        [Service]
        ExecStart=/bin/true
    ";
    let unit = parse_string(input).unwrap();
    let res = lint_missing_description::lint(&unit);
    assert!(res.is_err());
}

#[test]
fn service_execstart_not_set_success_case() {
    let input = "
        [Service]
        Type=Simple
        ExecStart=/bin/true
    ";
    let unit = parse_string(input).unwrap();
    let res = service_execstart_not_set::lint(&unit);
    assert!(res.is_ok())
}

#[test]
fn service_execstart_not_set_error_case() {
    let input = "
        [Service]
        Type=Simple
    ";
    let unit = parse_string(input).unwrap();
    let res = service_execstart_not_set::lint(&unit);
    assert!(res.is_err());
}

#[test]
fn service_type_always_explicit_success_case() {
    let input = "
        [Service]
        Type=Simple
        ExecStart=/bin/true
    ";
    let unit = parse_string(input).unwrap();
    let res = service_type_always_explicit::lint(&unit);
    assert!(res.is_ok())
}

#[test]
fn service_type_always_explicit_error_case() {
    let input = "
        [Service]
        ExecStart=/bin/true
    ";
    let unit = parse_string(input).unwrap();
    let res = service_type_always_explicit::lint(&unit);
    assert!(res.is_err());
}

#[test]
fn unknown_category_success_case() {
    let input = "
        [Unit]
        Description= a dummy unit
        [Service]
        ExecStart=/bin/true
        [Install]
        DummyOne=1
        [Mount]
        DummyTwo=1
        [Socket]
        DummyThree=1
        [Automount]
        DummyFour=1
        [BusName]
        DummyFive=1
        [Path]
        DummySix=1
        [Timer]
        DummySeven=1
    ";
    let unit = parse_string(input).unwrap();
    let res = unknown_category::lint(&unit);
    assert!(res.is_ok())
}

#[test]
fn unknown_category_error_case() {
    let input = "
        [Services]
        ExecStart=/bin/true
    ";
    let unit = parse_string(input).unwrap();
    let res = unknown_category::lint(&unit);
    assert!(res.is_err());
}

#[test]
fn error_message_should_contains_the_bad_category() {
    let input = "
        [Services]
        ExecStart=/bin/true
    ";
    let unit = parse_string(input).unwrap();
    let res = unknown_category::lint(&unit).unwrap_err();
    assert!(res.message.contains("Services"))
}

#[test]
fn success_lint_should_skip_x_categories() {
    let input = "
        [Unit]
        Description=Some Monitoring Service

        [Service]
        ExecStart=/bin/monitorme

        [X-Fleet]
        MachineMetadata=location=chicago
        Conflicts=monitor*
    ";
    let unit = parse_string(input).unwrap();
    let res = unknown_category::lint(&unit);
    assert!(res.is_ok())
}

#[test]
fn success_case_in_known_category() {
    let input = "
        [Unit]
        Description= a dummy unit
    ";
    let unit = parse_string(input).unwrap();
    let res = unknown_directive::lint(&unit, &catalog());
    assert!(res.is_ok())
}

#[test]
fn success_case_x_categories_should_be_skipped() {
    let input = "
        [X-Fleet]
        MachineMetadata=location=chicago
    ";
    let unit = parse_string(input).unwrap();
    let res = unknown_directive::lint(&unit, &catalog());
    assert!(res.is_ok(), "{:?}", res)
}

#[test]
fn unknown_directive_error_case() {
    let input = "
        [Service]
        ExecStrat=/bin/true
    ";
    let unit = parse_string(input).unwrap();
    let res = unknown_directive::lint(&unit, &catalog());
    assert!(res.is_err());
}

#[test]
fn error_case_message_contains_unknown_directive_name() {
    let input = "
        [Service]
        ExecStrat=/bin/true
    ";
    let unit = parse_string(input).unwrap();
    let res = unknown_directive::lint(&unit, &catalog()).unwrap_err();
    assert!(res.message.contains("ExecStrat"))
}

#[test]
fn findings_carry_severity_code_and_message() {
    let unit = parse_string("[Service]\nType=Simple\n").unwrap();
    let res = service_execstart_not_set::lint(&unit).unwrap_err();
    assert_eq!(LintSeverity::Error, res.severity);
    assert_eq!(LintCode::ErrorServiceSimpleMustHaveExecstart, res.code);
    assert_eq!("Service with Type==Simple MUST set ExecStart= field", res.message);
    assert_eq!(40000, res.code.number());

    let res = lint_missing_description::lint(&unit).unwrap_err();
    assert_eq!(LintSeverity::Lint, res.severity);
    assert_eq!(20000, res.code.number());

    let res = service_type_always_explicit::lint(&parse_string("[Service]\nA=b\n").unwrap())
        .unwrap_err();
    assert_eq!(LintSeverity::Warning, res.severity);
    assert_eq!(30000, res.code.number());
}

#[test]
fn unknown_category_reports_the_first_in_sorted_order() {
    let unit = parse_string("[Zeta]\nA=1\n[Unit]\nB=2\n[Alpha]\nC=3\n").unwrap();
    let res = unknown_category::lint(&unit).unwrap_err();
    assert_eq!("Unknown category: Alpha", res.message);
    assert_eq!(LintCode::ErrorUnknownCategory, res.code);
    assert_eq!(40002, res.code.number());
}

#[test]
fn unknown_category_short_names_are_checked() {
    let unit = parse_string("[X]\nA=1\n").unwrap();
    let res = unknown_category::lint(&unit).unwrap_err();
    assert_eq!("Unknown category: X", res.message);
}

#[test]
fn unknown_directive_reports_the_first_in_unit_order() {
    let unit = parse_string("[Service]\nFoo=1\nExecStart=/bin/true\nBar=2\n").unwrap();
    let res = unknown_directive::lint(&unit, &catalog()).unwrap_err();
    assert_eq!("Unknown directive found: Foo", res.message);
    assert_eq!(40001, res.code.number());
}

#[test]
fn unknown_directive_with_empty_catalog_flags_everything_outside_extensions() {
    let unit = parse_string("[X-Ext]\nFoo=1\n[Unit]\nDescription=d\n").unwrap();
    let res = unknown_directive::lint(&unit, &vec![]).unwrap_err();
    assert_eq!("Unknown directive found: Description", res.message);
}

#[test]
fn dbus_lint_needs_a_single_type() {
    let unit = parse_string("[Service]\nType=dbus\nType=dbus\n").unwrap();
    assert!(dbus_missing_bus_name_directive::lint(&unit).is_ok());
    let res = dbus_missing_bus_name_directive::lint(&parse_string("[Service]\nType=dbus\n").unwrap())
        .unwrap_err();
    assert_eq!(40003, res.code.number());
}
