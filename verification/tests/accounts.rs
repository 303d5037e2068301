use lsl::accounts::{
    add_user_to_guest_group, find_home_and_shell, format_group_line, format_passwd_line,
    format_shadow_line, get_guest_user_ids_from_host, get_host_home_dir, get_host_user_details,
    is_user_known,
};
use lsl::action::FaultKind;

const PASSWD: &str = "root:x:0:0:root:/root:/bin/bash\nkim:x:1000:1001:Kim:/home/kim:/bin/zsh\n";

#[test]
fn the_caller_of_sudo_is_the_user() {
    let who = get_host_user_details(
        Some("kim"),
        Some("1000"),
        Some("1001"),
        Some("root"),
        0,
        0,
    );
    assert_eq!(who, ("kim".to_string(), 1000, 1001));
}

#[test]
fn without_sudo_the_process_tells_the_user() {
    let plain = get_host_user_details(None, None, None, Some("lee"), 5, 6);
    assert_eq!(plain, ("lee".to_string(), 5, 6));
    let broken = get_host_user_details(Some("kim"), Some("x"), Some("1001"), None, 5, 6);
    assert_eq!(broken, ("root".to_string(), 5, 6));
    let partial = get_host_user_details(Some("kim"), Some("1000"), None, Some("lee"), 5, 6);
    assert_eq!(partial, ("lee".to_string(), 5, 6));
}

#[test]
fn homes_of_the_user() {
    assert_eq!(get_host_home_dir(Some("kim"), Some("/root")), "/home/kim");
    assert_eq!(get_host_home_dir(None, Some("/srv/lee")), "/srv/lee");
    assert_eq!(get_host_home_dir(None, None), "/root");
}

#[test]
fn ids_come_from_the_user_table() {
    assert_eq!(get_guest_user_ids_from_host(PASSWD, "kim"), Some((1000, 1001)));
    assert_eq!(get_guest_user_ids_from_host(PASSWD, "root"), Some((0, 0)));
    assert_eq!(get_guest_user_ids_from_host(PASSWD, "lee"), None);
    assert_eq!(get_guest_user_ids_from_host("kim:x:1000\n", "kim"), None);
    assert_eq!(get_guest_user_ids_from_host("kim:x:a:1\nkim:x:1:1:", "kim"), None);
    assert_eq!(get_guest_user_ids_from_host("kim:x:1\nkim:x:1:2", "kim"), Some((1, 2)));
}

#[test]
fn home_and_shell_come_from_the_user_table() {
    let pair = |a: &str, b: &str| (a.to_string(), b.to_string());
    assert_eq!(find_home_and_shell(Some(PASSWD), "kim"), pair("/home/kim", "/bin/zsh"));
    assert_eq!(find_home_and_shell(Some(PASSWD), "lee"), pair("/root", "/bin/bash"));
    assert_eq!(find_home_and_shell(None, "kim"), pair("/root", "/bin/bash"));
    let odd = "root:x:0:0:root:/other:/bin/sh\n";
    assert_eq!(find_home_and_shell(Some(odd), "root"), pair("/root", "/bin/bash"));
    let short = "kim:x:1:1:Kim:/home/kim\nkim:x:1:1:Kim:/h:/s\n";
    assert_eq!(find_home_and_shell(Some(short), "kim"), pair("/h", "/s"));
}

#[test]
fn known_users_are_found_among_readable_lines() {
    assert!(is_user_known(PASSWD.as_bytes(), "kim"));
    assert!(!is_user_known(PASSWD.as_bytes(), "ki"));
    assert!(!is_user_known(b"", "kim"));
    assert!(is_user_known(b"\xff\xfe\nkim:x:1:1::/:/bin/sh\n", "kim"));
    assert!(!is_user_known(b"kim:\xff\n", "kim"));
}

#[test]
fn account_lines() {
    assert_eq!(format_passwd_line("kim", 1000, 1001), "kim:x:1000:1001:kim:/home/kim:/bin/bash\n");
    assert_eq!(format_group_line("kim", 1001), "kim:x:1001:\n");
    assert_eq!(format_shadow_line("kim"), "kim:*:19000:0:99999:7:::\n");
}

#[test]
fn an_added_user_is_found() {
    let table = format!("{}{}", PASSWD, format_passwd_line("lee", 1002, 1003));
    assert_eq!(get_guest_user_ids_from_host(&table, "lee"), Some((1002, 1003)));
    assert_eq!(get_guest_user_ids_from_host(&table, "kim"), Some((1000, 1001)));
    assert!(is_user_known(table.as_bytes(), "lee"));
}

#[test]
fn members_are_added_to_a_group() {
    let added = add_user_to_guest_group(b"sudo:x:27:\nwheel:x:10:\n", "kim", "sudo");
    assert_eq!(added, Ok(Some("sudo:x:27:kim\nwheel:x:10:\n".to_string())));
    let second = add_user_to_guest_group(b"sudo:x:27:lee", "kim", "sudo");
    assert_eq!(second, Ok(Some("sudo:x:27:lee,kim\n".to_string())));
}

#[test]
fn members_are_not_added_twice() {
    assert_eq!(add_user_to_guest_group(b"sudo:x:27:kim\n", "kim", "sudo"), Ok(None));
    assert_eq!(add_user_to_guest_group(b"sudo:x:27:lee,kim,max\n", "kim", "sudo"), Ok(None));
    assert_eq!(add_user_to_guest_group(b"wheel:x:10:\n", "kim", "sudo"), Ok(None));
    let once = add_user_to_guest_group(b"sudo:x:27:\n", "kim", "sudo").unwrap().unwrap();
    assert_eq!(add_user_to_guest_group(once.as_bytes(), "kim", "sudo"), Ok(None));
}

#[test]
fn a_name_within_another_is_no_member() {
    let added = add_user_to_guest_group(b"sudo:x:27:alice\n", "ali", "sudo");
    assert_eq!(added, Ok(Some("sudo:x:27:alice,ali\n".to_string())));
    let added = add_user_to_guest_group(b"sudo:x:27:\n", "sud", "sudo");
    assert_eq!(added, Ok(Some("sudo:x:27:sud\n".to_string())));
    let added = add_user_to_guest_group(b"sudo:x:27:alice,bob\n", "x", "sudo");
    assert_eq!(added, Ok(Some("sudo:x:27:alice,bob,x\n".to_string())));
}

#[test]
fn any_name_is_added_once() {
    for user in ["kim", "a,b", "a:b", "x:27:", ",", ":", "b", ""] {
        for table in ["sudo:x:27:\n", "sudo:x:27:alice\n", "sudo:x:27:a,bob\n", "sudo:x\n"] {
            let first = add_user_to_guest_group(table.as_bytes(), user, "sudo").unwrap();
            let once = first.unwrap_or(table.to_string());
            assert_eq!(add_user_to_guest_group(once.as_bytes(), user, "sudo"), Ok(None));
        }
    }
    let added = add_user_to_guest_group(b"sudo:x:27:\n", "a,b", "sudo");
    assert_eq!(added, Ok(Some("sudo:x:27:a,b\n".to_string())));
    assert_eq!(add_user_to_guest_group(b"sudo:x:27:alice\n", "", "sudo"), Ok(None));
}

#[test]
fn a_group_table_must_be_text() {
    let fault = add_user_to_guest_group(b"sudo:x:27:\n\xff\n", "kim", "sudo").unwrap_err();
    assert_eq!(fault.kind, FaultKind::InvalidData);
    assert_eq!(fault.message, "stream did not contain valid UTF-8");
}

#[test]
fn text_beyond_ascii_survives() {
    let added = add_user_to_guest_group("sudo:x:27:jürgen\n".as_bytes(), "kim", "sudo");
    assert_eq!(added, Ok(Some("sudo:x:27:jürgen,kim\n".to_string())));
}
