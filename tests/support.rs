use systemd_lint::parse_string;
use systemd_lint::support::SystemdUnitExt;

#[test]
fn support_it_exists() {
    let input = "
                [Unit]
                Description= a dummy unit
            ";
    let unit = parse_string(input).unwrap();

    assert!(unit.key_have_solo_value("Description", "a dummy unit"))
}

#[test]
fn support_should_check_value() {
    let input = "
                [Unit]
                Description= a dummy unit
            ";
    let unit = parse_string(input).unwrap();

    assert!(false == unit.key_have_solo_value("Description", "not this"))
}

#[test]
fn should_fail_if_key_does_not_exists() {
    let input = "
                [Unit]
                Description= a dummy unit
            ";
    let unit = parse_string(input).unwrap();

    assert!(false == unit.key_have_solo_value("ExecStart", ""))
}

#[test]
fn support_should_fail_if_key_have_not_solo() {
    let input = "
                [Service]
                ExecStartPre=/bin/true
                ExecStartPre=/bin/true
                ExecStart=/bin/true
            ";
    let unit = parse_string(input).unwrap();

    assert!(false == unit.key_have_solo_value("ExecStartPre", "/bin/true"))
}

#[test]
fn key_may_have_solo_value_it_exists() {
    let input = "
                [Unit]
                Description= a dummy unit
            ";
    let unit = parse_string(input).unwrap();

    assert!(unit.key_may_have_solo_value("Description", "a dummy unit"))
}

#[test]
fn key_may_have_solo_value_should_check_value() {
    let input = "
                [Unit]
                Description= a dummy unit
            ";
    let unit = parse_string(input).unwrap();

    assert!(false == unit.key_may_have_solo_value("Description", "not this"))
}

#[test]
fn should_be_ok_if_key_does_not_exists() {
    let input = "
                [Unit]
                Description= a dummy unit
            ";
    let unit = parse_string(input).unwrap();

    assert!(true == unit.key_may_have_solo_value("ExecStart", ""))
}

#[test]
fn key_may_have_solo_value_should_fail_if_key_have_not_solo() {
    let input = "
                [Service]
                ExecStartPre=/bin/true
                ExecStartPre=/bin/true
                ExecStart=/bin/true
            ";
    let unit = parse_string(input).unwrap();

    assert!(false == unit.key_may_have_solo_value("ExecStartPre", "/bin/true"))
}
