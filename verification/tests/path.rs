use braillepcap::interface::{check_interface_name, validate_interface_name, InterfaceListing};
use braillepcap::path::{confirm_under_home, plan_path, PathPlan};

fn plan(path: &str, home: Option<&str>) -> Result<(char, String), String> {
    plan_path(path, home).map(|p| match p {
        PathPlan::Stdin => ('-', String::new()),
        PathPlan::Relative(v) => ('r', v.into_iter().collect()),
        PathPlan::Absolute(v) => ('a', v.into_iter().collect()),
    })
}

#[test]
fn rejects_path_traversal() {
    let result = plan("~/../../etc/passwd", Some("/home/user"));
    assert_eq!(result, Err("Path traversal is not allowed: ~/../../etc/passwd".to_string()));
}

#[test]
fn plans_paths_like_expand_path() {
    assert_eq!(plan("-", None), Ok(('-', String::new())));
    assert_eq!(plan("x.pcap", None), Err("HOME is not set".to_string()));
    assert_eq!(plan("~/cap.pcap", Some("/home/u")), Ok(('a', "/home/u/cap.pcap".to_string())));
    assert_eq!(plan("~/cap.pcap", Some("/home/u/")), Ok(('a', "/home/u/cap.pcap".to_string())));
    assert_eq!(plan("~//tmp/x", Some("/home/u")), Ok(('a', "/tmp/x".to_string())));
    assert_eq!(plan("~/", Some("/home/u")), Ok(('a', "/home/u/".to_string())));
    assert_eq!(plan("cap.pcap", Some("/home/u")), Ok(('r', "cap.pcap".to_string())));
    assert_eq!(plan("~x/cap", Some("/home/u")), Ok(('r', "~x/cap".to_string())));
    assert!(plan("a/../b", Some("/h")).is_err());
    assert!(plan("a/..b", Some("/h")).is_ok());
    assert!(plan("..", Some("/h")).is_err());
}

#[test]
fn home_containment_is_by_component() {
    assert!(confirm_under_home("p", "/home/user/x", "/home/user").is_ok());
    assert!(confirm_under_home("p", "/home/user", "/home/user/").is_ok());
    assert!(confirm_under_home("p", "/home//user/./x", "/home/user").is_ok());
    assert_eq!(
        confirm_under_home("p", "/home/username", "/home/user"),
        Err("Path escapes HOME: p".to_string())
    );
    assert!(confirm_under_home("p", "/etc/passwd", "/home/user").is_err());
    assert!(confirm_under_home("p", "/etc", "").is_ok());
}

#[test]
fn interface_names_are_checked() {
    assert_eq!(check_interface_name("  "), Err("Interface name cannot be empty".to_string()));
    assert_eq!(check_interface_name("en 0"), Err("Invalid interface name: 'en 0'".to_string()));
    assert!(check_interface_name("a/b").is_err());
    assert!(check_interface_name("a\\b").is_err());
    assert!(check_interface_name("eth0").is_ok());
    let names = InterfaceListing::Names(vec!["lo".to_string(), "eth0".to_string()]);
    assert!(validate_interface_name("eth0", &names).is_ok());
    assert_eq!(
        validate_interface_name("wlan0", &names),
        Err("Interface 'wlan0' does not exist on this system. Check /sys/class/net or pass a valid interface name.".to_string())
    );
    assert_eq!(
        validate_interface_name("eth0", &InterfaceListing::Unreadable),
        Err("Unable to inspect system interfaces for 'eth0': /sys/class/net is not accessible".to_string())
    );
    assert!(validate_interface_name("en0", &InterfaceListing::NotChecked).is_ok());
}
