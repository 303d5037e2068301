use lsl::action::{AccountOf, Packages};
use lsl::interview::{choose_tools, is_fit_username, prompt_for_user_setup, Interview};

fn answered(answers: &[&str]) -> Interview {
    let mut interview = prompt_for_user_setup("kali");
    for answer in answers {
        interview = interview.answer(answer);
    }
    interview
}

#[test]
fn names_of_users() {
    assert!(is_fit_username("kim_1"));
    assert!(is_fit_username("jürgen"));
    assert!(!is_fit_username(""));
    assert!(!is_fit_username("root"));
    assert!(!is_fit_username("a b"));
    assert!(!is_fit_username("a:b"));
    assert!(!is_fit_username("a-b"));
    assert!(!is_fit_username("a€"));
}

#[test]
fn sets_of_tools() {
    assert_eq!(choose_tools(""), Some(Packages::Core));
    assert_eq!(choose_tools("1"), Some(Packages::Minimal));
    assert_eq!(choose_tools("2"), Some(Packages::Core));
    assert_eq!(choose_tools("3"), Some(Packages::Headless));
    assert_eq!(choose_tools("4"), None);
    assert_eq!(choose_tools("22"), None);
}

#[test]
fn good_answers_are_taken() {
    let interview = answered(&[" kim\n", "box-1\n", "pw\n", "pw\n", "rpw\n", "rpw\n", "3\n"]);
    assert!(interview.is_over());
    assert_eq!(
        interview.finish(),
        Some(AccountOf {
            username: "kim".to_string(),
            hostname: "box-1".to_string(),
            password: "pw".to_string(),
            root_password: "rpw".to_string(),
            packages: Packages::Headless,
        })
    );
}

#[test]
fn empty_answers_mean_defaults() {
    let interview = answered(&["kim", "\n", "pw", "pw", "\n", "\n"]);
    assert_eq!(
        interview.finish(),
        Some(AccountOf {
            username: "kim".to_string(),
            hostname: "lsl-kali".to_string(),
            password: "pw".to_string(),
            root_password: "pw".to_string(),
            packages: Packages::Core,
        })
    );
}

#[test]
fn questions_and_notes() {
    let mut interview = prompt_for_user_setup("kali");
    let mut seen = Vec::new();
    for answer in ["root", "kim", "a b", "", "pw", "px", "pw", "pw", "r", "x", "r", "9", "1"] {
        seen.push((interview.note().to_string(), interview.prompt(), interview.hidden()));
        interview = interview.answer(answer);
    }
    assert!(interview.is_over());
    let line = |note: &str, prompt: &str, hidden: bool| (note.to_string(), prompt.to_string(), hidden);
    let menu = "  1) Minimal  - Base OS only (fastest setup)\n  2) Core     - Essential pentesting tools (~1GB)\n  3) Headless - Complete CLI security tools (~3-4GB)\nSelect option [1-3] (default: 2): ";
    assert_eq!(
        seen,
        [
            line(
                "\n=== LSL Guest User Configuration ===\nPlease configure the default UNIX user account (like standard OS setup).\n",
                "Enter new UNIX username: ",
                false
            ),
            line(
                "Invalid username. Use only alphanumeric characters and underscores.\n",
                "Enter new UNIX username: ",
                false
            ),
            line("", "Enter guest hostname (default: lsl-kali): ", false),
            line(
                "Invalid hostname. Use only alphanumeric characters and hyphens.\n",
                "Enter guest hostname (default: lsl-kali): ",
                false
            ),
            line("", "Enter new UNIX password for 'kim': ", true),
            line("", "Retype new UNIX password: ", true),
            line(
                "Passwords do not match or are empty. Please try again.\n",
                "Enter new UNIX password for 'kim': ",
                true
            ),
            line("", "Retype new UNIX password: ", true),
            line(
                "Enter new UNIX password for root (press Enter to use the same password):\n",
                "Enter root password: ",
                true
            ),
            line("", "Retype root password: ", true),
            line("Passwords do not match. Please try again.\n", "Retype root password: ", true),
            line("\nChoose Kali Linux package set (like tasksel / archinstall):\n", menu, false),
            line("Invalid option. Please enter 1, 2, or 3.\n", menu, false),
        ]
    );
    let account = interview.finish().unwrap();
    assert_eq!(account.packages, Packages::Minimal);
    assert_eq!(account.root_password, "r");
}

#[test]
fn empty_passwords_are_refused() {
    let interview = answered(&["kim", "", "", ""]);
    assert_eq!(interview.note(), "Passwords do not match or are empty. Please try again.\n");
    assert_eq!(interview.finish(), None);
}

#[test]
fn an_interview_ends_for_good() {
    let interview = answered(&["kim", "", "pw", "pw", "", ""]).answer("more");
    assert!(interview.is_over());
    assert_eq!(interview.prompt(), "");
    assert_eq!(interview.finish().unwrap().username, "kim");
}
