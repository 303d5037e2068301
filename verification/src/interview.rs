//! Asking for the account that a guest is to have.
//!
//! The interview is a sequence of questions. Each answer leads to the next
//! question or, if it will not do, to the same one again.
use vstd::prelude::*;

use crate::accounts::plain_name;
use crate::action::{Account, AccountOf, AccountView, Packages};
use crate::text::{alphanumeric, chars_of, is_alphanumeric, same, trim, trimmed};

verus! {

// -------------------------------------------------------------------- questions

/// What is being asked, with what is known already.
pub enum QuestionOf<T> {
    /// The name of the user.
    Username { distro: T },
    /// The host name.
    Hostname { distro: T, username: T },
    /// The user's password.
    Password { username: T, hostname: T },
    /// The user's password again.
    Retype { username: T, hostname: T, password: T },
    /// The superuser's password.
    RootPassword { username: T, hostname: T, password: T },
    /// The superuser's password again.
    RetypeRoot { username: T, hostname: T, password: T, root_password: T },
    /// Which tools to install.
    Tools { username: T, hostname: T, password: T, root_password: T },
    /// Nothing more.
    Nothing { account: AccountOf<T> },
}

pub type Question = QuestionOf<String>;

pub type QuestionView = QuestionOf<Seq<char>>;

impl View for Question {
    type V = QuestionView;

    open spec fn view(&self) -> QuestionView {
        match *self {
            QuestionOf::Username { distro } => QuestionOf::Username { distro: distro@ },
            QuestionOf::Hostname { distro, username } => QuestionOf::Hostname {
                distro: distro@,
                username: username@,
            },
            QuestionOf::Password { username, hostname } => QuestionOf::Password {
                username: username@,
                hostname: hostname@,
            },
            QuestionOf::Retype { username, hostname, password } => QuestionOf::Retype {
                username: username@,
                hostname: hostname@,
                password: password@,
            },
            QuestionOf::RootPassword { username, hostname, password } => QuestionOf::RootPassword {
                username: username@,
                hostname: hostname@,
                password: password@,
            },
            QuestionOf::RetypeRoot { username, hostname, password, root_password } => QuestionOf::RetypeRoot {
                username: username@,
                hostname: hostname@,
                password: password@,
                root_password: root_password@,
            },
            QuestionOf::Tools { username, hostname, password, root_password } => QuestionOf::Tools {
                username: username@,
                hostname: hostname@,
                password: password@,
                root_password: root_password@,
            },
            QuestionOf::Nothing { account } => QuestionOf::Nothing { account: account@ },
        }
    }
}

/// An interview: what is to be told first, and what is being asked.
pub struct InterviewOf<T> {
    pub note: T,
    pub question: QuestionOf<T>,
}

pub type Interview = InterviewOf<String>;

pub type InterviewView = InterviewOf<Seq<char>>;

impl View for Interview {
    type V = InterviewView;

    open spec fn view(&self) -> InterviewView {
        InterviewOf { note: self.note@, question: self.question@ }
    }
}

// ---------------------------------------------------------------------- answers

/// Letters, digits and one other character.
pub open spec fn made_of(s: Seq<char>, other: char) -> bool {
    forall|i: int| 0 <= i < s.len() ==> is_alphanumeric(#[trigger] s[i]) || s[i] == other
}

fn is_made_of(s: &str, other: char) -> (r: bool)
    ensures
        r == made_of(s@, other),
{
    let chars: Vec<char> = chars_of(s);
    let mut i: usize = 0;
    while i < chars.len()
        invariant
            i <= chars@.len(),
            chars@ == s@,
            forall|j: int|
                0 <= j < i ==> is_alphanumeric(#[trigger] chars@[j]) || chars@[j] == other,
        decreases chars@.len() - i,
    {
        if !alphanumeric(chars[i]) && chars[i] != other {
            assert(!is_alphanumeric(s@[i as int]) && s@[i as int] != other);
            return false;
        }
        i = i + 1;
    }
    true
}

/// A name that a user may have.
pub open spec fn fit_username(s: Seq<char>) -> bool {
    s.len() > 0 && made_of(s, '_') && s != "root"@
}

/// Tells whether a user may have the name.
pub fn is_fit_username(s: &str) -> (r: bool)
    ensures
        r == fit_username(s@),
{
    !s.is_empty() && is_made_of(s, '_') && !same(s, "root")
}

/// A name that a host may have.
pub open spec fn fit_hostname(s: Seq<char>) -> bool {
    s.len() > 0 && made_of(s, '-')
}

/// The tools that an answer chooses.
pub open spec fn chosen_tools(answer: Seq<char>) -> Option<Packages> {
    if answer.len() == 0 || answer == "2"@ {
        Some(Packages::Core)
    } else if answer == "1"@ {
        Some(Packages::Minimal)
    } else if answer == "3"@ {
        Some(Packages::Headless)
    } else {
        None
    }
}

/// Finds the tools that an answer chooses.
pub fn choose_tools(answer: &str) -> (r: Option<Packages>)
    ensures
        r == chosen_tools(answer@),
{
    if answer.is_empty() || same(answer, "2") {
        Some(Packages::Core)
    } else if same(answer, "1") {
        Some(Packages::Minimal)
    } else if same(answer, "3") {
        Some(Packages::Headless)
    } else {
        None
    }
}

/// The interview at a question, with a note.
pub open spec fn asking(note: Seq<char>, question: QuestionView) -> InterviewView {
    InterviewOf { note, question }
}

/// The start of an interview.
pub open spec fn greeted(distro: Seq<char>) -> InterviewView {
    asking(
        "\n=== LSL Guest User Configuration ===\nPlease configure the default UNIX user account (like standard OS setup).\n"@,
        QuestionOf::Username { distro },
    )
}

/// The interview after an answer. White space around an answer does not count.
pub open spec fn answered(interview: InterviewView, answer: Seq<char>) -> InterviewView {
    let a = trimmed(answer);
    match interview.question {
        QuestionOf::Username { distro } => if fit_username(a) {
            asking(Seq::empty(), QuestionOf::Hostname { distro, username: a })
        } else {
            asking(
                "Invalid username. Use only alphanumeric characters and underscores.\n"@,
                QuestionOf::Username { distro },
            )
        },
        QuestionOf::Hostname { distro, username } => if a.len() == 0 {
            asking(Seq::empty(), QuestionOf::Password { username, hostname: "lsl-"@ + distro })
        } else if fit_hostname(a) {
            asking(Seq::empty(), QuestionOf::Password { username, hostname: a })
        } else {
            asking(
                "Invalid hostname. Use only alphanumeric characters and hyphens.\n"@,
                QuestionOf::Hostname { distro, username },
            )
        },
        QuestionOf::Password { username, hostname } => asking(
            Seq::empty(),
            QuestionOf::Retype { username, hostname, password: a },
        ),
        QuestionOf::Retype { username, hostname, password } => if a == password && a.len() > 0 {
            asking(
                "Enter new UNIX password for root (press Enter to use the same password):\n"@,
                QuestionOf::RootPassword { username, hostname, password },
            )
        } else {
            asking(
                "Passwords do not match or are empty. Please try again.\n"@,
                QuestionOf::Password { username, hostname },
            )
        },
        QuestionOf::RootPassword { username, hostname, password } => if a.len() == 0 {
            asking(
                "\nChoose Kali Linux package set (like tasksel / archinstall):\n"@,
                QuestionOf::Tools { username, hostname, password, root_password: password },
            )
        } else {
            asking(
                Seq::empty(),
                QuestionOf::RetypeRoot { username, hostname, password, root_password: a },
            )
        },
        QuestionOf::RetypeRoot { username, hostname, password, root_password } => if a
            == root_password {
            asking(
                "\nChoose Kali Linux package set (like tasksel / archinstall):\n"@,
                QuestionOf::Tools { username, hostname, password, root_password },
            )
        } else {
            asking(
                "Passwords do not match. Please try again.\n"@,
                QuestionOf::RetypeRoot { username, hostname, password, root_password },
            )
        },
        QuestionOf::Tools { username, hostname, password, root_password } => match chosen_tools(
            a,
        ) {
            Some(packages) => asking(
                Seq::empty(),
                QuestionOf::Nothing {
                    account: AccountOf { username, hostname, password, root_password, packages },
                },
            ),
            None => asking(
                "Invalid option. Please enter 1, 2, or 3.\n"@,
                QuestionOf::Tools { username, hostname, password, root_password },
            ),
        },
        QuestionOf::Nothing { account } => interview,
    }
}

/// What a question says.
pub open spec fn prompt_text(question: QuestionView) -> Seq<char> {
    match question {
        QuestionOf::Username { distro } => "Enter new UNIX username: "@,
        QuestionOf::Hostname { distro, username } => "Enter guest hostname (default: lsl-"@
            + distro + "): "@,
        QuestionOf::Password { username, hostname } => "Enter new UNIX password for '"@ + username
            + "': "@,
        QuestionOf::Retype { username, hostname, password } => "Retype new UNIX password: "@,
        QuestionOf::RootPassword { username, hostname, password } => "Enter root password: "@,
        QuestionOf::RetypeRoot { username, hostname, password, root_password } =>
            "Retype root password: "@,
        QuestionOf::Tools { username, hostname, password, root_password } =>
            "  1) Minimal  - Base OS only (fastest setup)\n  2) Core     - Essential pentesting tools (~1GB)\n  3) Headless - Complete CLI security tools (~3-4GB)\nSelect option [1-3] (default: 2): "@,
        QuestionOf::Nothing { account } => Seq::empty(),
    }
}

/// A question whose answer is not to be seen.
pub open spec fn secret(question: QuestionView) -> bool {
    question is Password || question is Retype || question is RootPassword || question
        is RetypeRoot
}

/// Starts to ask for the account of a distribution.
pub fn prompt_for_user_setup(distro_name: &str) -> (r: Interview)
    ensures
        r@ == greeted(distro_name@),
{
    InterviewOf {
        note: "\n=== LSL Guest User Configuration ===\nPlease configure the default UNIX user account (like standard OS setup).\n".to_owned(),
        question: QuestionOf::Username { distro: distro_name.to_owned() },
    }
}

impl Interview {
    /// What is to be told before the question.
    pub fn note(&self) -> (r: &str)
        ensures
            r@ == self@.note,
    {
        self.note.as_str()
    }

    /// What the question says.
    pub fn prompt(&self) -> (r: String)
        ensures
            r@ == prompt_text(self@.question),
    {
        match &self.question {
            QuestionOf::Username { distro } => "Enter new UNIX username: ".to_owned(),
            QuestionOf::Hostname { distro, username } =>
                "Enter guest hostname (default: lsl-".to_owned().concat(distro.as_str()).concat(
                "): ",
            ),
            QuestionOf::Password { username, hostname } =>
                "Enter new UNIX password for '".to_owned().concat(username.as_str()).concat("': "),
            QuestionOf::Retype { username, hostname, password } =>
                "Retype new UNIX password: ".to_owned(),
            QuestionOf::RootPassword { username, hostname, password } =>
                "Enter root password: ".to_owned(),
            QuestionOf::RetypeRoot { username, hostname, password, root_password } =>
                "Retype root password: ".to_owned(),
            QuestionOf::Tools { username, hostname, password, root_password } =>
                "  1) Minimal  - Base OS only (fastest setup)\n  2) Core     - Essential pentesting tools (~1GB)\n  3) Headless - Complete CLI security tools (~3-4GB)\nSelect option [1-3] (default: 2): ".to_owned(),
            QuestionOf::Nothing { account } => String::new(),
        }
    }

    /// Tells whether the answer is not to be seen.
    pub fn hidden(&self) -> (r: bool)
        ensures
            r == secret(self@.question),
    {
        match &self.question {
            QuestionOf::Password { username, hostname } => true,
            QuestionOf::Retype { username, hostname, password } => true,
            QuestionOf::RootPassword { username, hostname, password } => true,
            QuestionOf::RetypeRoot { username, hostname, password, root_password } => true,
            _ => false,
        }
    }

    /// Tells whether nothing more is asked.
    pub fn is_over(&self) -> (r: bool)
        ensures
            r == (self@.question is Nothing),
    {
        match &self.question {
            QuestionOf::Nothing { account } => true,
            _ => false,
        }
    }

    /// The account, once nothing more is asked.
    pub fn finish(self) -> (r: Option<Account>)
        ensures
            match r {
                Some(a) => self@.question == (QuestionView::Nothing { account: a@ }),
                None => !(self@.question is Nothing),
            },
    {
        match self.question {
            QuestionOf::Nothing { account } => Some(account),
            _ => None,
        }
    }

    /// Takes an answer.
    pub fn answer(self, answer: &str) -> (r: Interview)
        ensures
            r@ == answered(self@, answer@),
    {
        let a: String = trim(answer);
        match self.question {
            QuestionOf::Username { distro } => if is_fit_username(a.as_str()) {
                InterviewOf {
                    note: String::new(),
                    question: QuestionOf::Hostname { distro, username: a },
                }
            } else {
                InterviewOf {
                    note: "Invalid username. Use only alphanumeric characters and underscores.\n".to_owned(),
                    question: QuestionOf::Username { distro },
                }
            },
            QuestionOf::Hostname { distro, username } => if a.as_str().is_empty() {
                let hostname: String = "lsl-".to_owned().concat(distro.as_str());
                InterviewOf {
                    note: String::new(),
                    question: QuestionOf::Password { username, hostname },
                }
            } else if is_made_of(a.as_str(), '-') {
                InterviewOf {
                    note: String::new(),
                    question: QuestionOf::Password { username, hostname: a },
                }
            } else {
                InterviewOf {
                    note: "Invalid hostname. Use only alphanumeric characters and hyphens.\n".to_owned(),
                    question: QuestionOf::Hostname { distro, username },
                }
            },
            QuestionOf::Password { username, hostname } => InterviewOf {
                note: String::new(),
                question: QuestionOf::Retype { username, hostname, password: a },
            },
            QuestionOf::Retype { username, hostname, password } => if same(
                a.as_str(),
                password.as_str(),
            ) && !a.as_str().is_empty() {
                InterviewOf {
                    note: "Enter new UNIX password for root (press Enter to use the same password):\n".to_owned(),
                    question: QuestionOf::RootPassword { username, hostname, password },
                }
            } else {
                InterviewOf {
                    note: "Passwords do not match or are empty. Please try again.\n".to_owned(),
                    question: QuestionOf::Password { username, hostname },
                }
            },
            QuestionOf::RootPassword { username, hostname, password } => if a.as_str().is_empty() {
                let root_password: String = password.clone();
                InterviewOf {
                    note: "\nChoose Kali Linux package set (like tasksel / archinstall):\n".to_owned(),
                    question: QuestionOf::Tools { username, hostname, password, root_password },
                }
            } else {
                InterviewOf {
                    note: String::new(),
                    question: QuestionOf::RetypeRoot {
                        username,
                        hostname,
                        password,
                        root_password: a,
                    },
                }
            },
            QuestionOf::RetypeRoot { username, hostname, password, root_password } => if same(
                a.as_str(),
                root_password.as_str(),
            ) {
                InterviewOf {
                    note: "\nChoose Kali Linux package set (like tasksel / archinstall):\n".to_owned(),
                    question: QuestionOf::Tools { username, hostname, password, root_password },
                }
            } else {
                InterviewOf {
                    note: "Passwords do not match. Please try again.\n".to_owned(),
                    question: QuestionOf::RetypeRoot {
                        username,
                        hostname,
                        password,
                        root_password,
                    },
                }
            },
            QuestionOf::Tools { username, hostname, password, root_password } => {
                match choose_tools(a.as_str()) {
                    Some(packages) => InterviewOf {
                        note: String::new(),
                        question: QuestionOf::Nothing {
                            account: AccountOf {
                                username,
                                hostname,
                                password,
                                root_password,
                                packages,
                            },
                        },
                    },
                    None => InterviewOf {
                        note: "Invalid option. Please enter 1, 2, or 3.\n".to_owned(),
                        question: QuestionOf::Tools {
                            username,
                            hostname,
                            password,
                            root_password,
                        },
                    },
                }
            },
            QuestionOf::Nothing { account } => InterviewOf {
                note: self.note,
                question: QuestionOf::Nothing { account },
            },
        }
    }
}

// ------------------------------------------------------------------------- laws

/// A host name that an interview can lead to: one that was given, or that of the
/// distribution.
pub open spec fn settled_hostname(distro: Seq<char>, hostname: Seq<char>) -> bool {
    fit_hostname(hostname) || hostname == "lsl-"@ + distro
}

/// An account that an interview can lead to.
pub open spec fn sound_account(distro: Seq<char>, account: AccountView) -> bool {
    &&& fit_username(account.username)
    &&& settled_hostname(distro, account.hostname)
    &&& account.password.len() > 0
    &&& account.root_password.len() > 0
}

/// What is known at a question is sound.
pub open spec fn sound(distro: Seq<char>, question: QuestionView) -> bool {
    match question {
        QuestionOf::Username { distro: d } => d == distro,
        QuestionOf::Hostname { distro: d, username } => d == distro && fit_username(username),
        QuestionOf::Password { username, hostname } => fit_username(username)
            && settled_hostname(distro, hostname),
        QuestionOf::Retype { username, hostname, password } => fit_username(username)
            && settled_hostname(distro, hostname),
        QuestionOf::RootPassword { username, hostname, password } => fit_username(username)
            && settled_hostname(distro, hostname) && password.len() > 0,
        QuestionOf::RetypeRoot { username, hostname, password, root_password } => fit_username(
            username,
        ) && settled_hostname(distro, hostname) && password.len() > 0 && root_password.len() > 0,
        QuestionOf::Tools { username, hostname, password, root_password } => fit_username(username)
            && settled_hostname(distro, hostname) && password.len() > 0 && root_password.len() > 0,
        QuestionOf::Nothing { account } => sound_account(distro, account),
    }
}

/// Whatever is answered, what is known stays sound; so an interview that ends, ends
/// with a sound account.
pub proof fn law_interview_stays_sound(
    distro: Seq<char>,
    interview: InterviewView,
    answer: Seq<char>,
)
    requires
        sound(distro, interview.question),
    ensures
        sound(distro, greeted(distro).question),
        sound(distro, answered(interview, answer).question),
{
}

/// An interview that has ended stays as it is.
pub proof fn law_interview_ends_for_good(interview: InterviewView, answer: Seq<char>)
    requires
        interview.question is Nothing,
    ensures
        answered(interview, answer) == interview,
{
}

/// Answers that will do are taken as they are given, white space aside, and in
/// order.
pub proof fn law_good_answers_are_taken(
    distro: Seq<char>,
    username: Seq<char>,
    hostname: Seq<char>,
    password: Seq<char>,
    root_password: Seq<char>,
    tools: Seq<char>,
    packages: Packages,
)
    requires
        fit_username(trimmed(username)),
        fit_hostname(trimmed(hostname)),
        trimmed(password).len() > 0,
        trimmed(root_password).len() > 0,
        chosen_tools(trimmed(tools)) == Some(packages),
    ensures
        ({
            let named = answered(answered(greeted(distro), username), hostname);
            let locked = answered(answered(named, password), password);
            let rooted = answered(answered(locked, root_password), root_password);
            answered(rooted, tools).question == (QuestionView::Nothing {
                account: AccountOf {
                    username: trimmed(username),
                    hostname: trimmed(hostname),
                    password: trimmed(password),
                    root_password: trimmed(root_password),
                    packages,
                },
            })
        }),
{
}

/// No answer at all stands for the default host name, the user's own password and
/// the middle set of tools.
pub proof fn law_empty_answers_mean_defaults(
    distro: Seq<char>,
    username: Seq<char>,
    password: Seq<char>,
    blank: Seq<char>,
)
    requires
        trimmed(blank).len() == 0,
        password.len() > 0,
    ensures
        answered(
            asking(Seq::empty(), QuestionOf::Hostname { distro, username }),
            blank,
        ).question == (QuestionView::Password { username, hostname: "lsl-"@ + distro }),
        ({
            let hostname = "lsl-"@ + distro;
            let asked = asking(
                Seq::empty(),
                QuestionOf::RootPassword { username, hostname, password },
            );
            answered(answered(asked, blank), blank).question == (QuestionView::Nothing {
                account: AccountOf {
                    username,
                    hostname,
                    password,
                    root_password: password,
                    packages: Packages::Core,
                },
            })
        }),
{
}

/// A name that the interview takes can be written to the account files and read
/// back.
pub proof fn law_taken_names_are_plain(username: Seq<char>)
    requires
        fit_username(username),
    ensures
        plain_name(username),
{
    if username.contains(':') {
        let i = choose|i: int| 0 <= i < username.len() && username[i] == ':';
        assert(is_alphanumeric(username[i]) || username[i] == '_');
    }
    if username.contains('\n') {
        let i = choose|i: int| 0 <= i < username.len() && username[i] == '\n';
        assert(is_alphanumeric(username[i]) || username[i] == '_');
    }
}

/// A name is taken for the user exactly if it has a character, all of them are letters,
/// digits or underscores, and it is not the superuser's; any other is asked for again. White
/// space around it does not count.
pub proof fn law_username_is_checked(distro: Seq<char>, note: Seq<char>, answer: Seq<char>)
    ensures
        ({
            let a = trimmed(answer);
            let fit = a.len() > 0 && a != "root"@ && forall|i: int|
                0 <= i < a.len() ==> is_alphanumeric(#[trigger] a[i]) || a[i] == '_';
            let next = answered(asking(note, QuestionOf::Username { distro }), answer).question;
            &&& fit ==> next == (QuestionView::Hostname { distro, username: a })
            &&& !fit ==> next == (QuestionView::Username { distro })
        }),
{
}

/// A host name is taken exactly if all its characters are letters, digits or hyphens; any
/// other is asked for again, and for none the distribution's name is taken.
pub proof fn law_hostname_is_checked(
    distro: Seq<char>,
    username: Seq<char>,
    note: Seq<char>,
    answer: Seq<char>,
)
    ensures
        ({
            let a = trimmed(answer);
            let fit = forall|i: int|
                0 <= i < a.len() ==> is_alphanumeric(#[trigger] a[i]) || a[i] == '-';
            let next = answered(
                asking(note, QuestionOf::Hostname { distro, username }),
                answer,
            ).question;
            &&& a.len() == 0 ==> next == (QuestionView::Password {
                username,
                hostname: "lsl-"@ + distro,
            })
            &&& a.len() > 0 && fit ==> next == (QuestionView::Password { username, hostname: a })
            &&& a.len() > 0 && !fit ==> next == (QuestionView::Hostname { distro, username })
        }),
{
}

/// A password is taken exactly if it was typed twice the same and is not empty; else it is
/// asked for again from the start. The superuser's password is the user's where none is
/// typed; else it is asked for until it was typed once more the same.
pub proof fn law_passwords_are_typed_twice(
    username: Seq<char>,
    hostname: Seq<char>,
    password: Seq<char>,
    note: Seq<char>,
    first: Seq<char>,
    second: Seq<char>,
)
    ensures
        ({
            let asked = answered(asking(note, QuestionOf::Password { username, hostname }), first);
            let next = answered(asked, second).question;
            let a = trimmed(first);
            if a == trimmed(second) && a.len() > 0 {
                next == (QuestionView::RootPassword { username, hostname, password: a })
            } else {
                next == (QuestionView::Password { username, hostname })
            }
        }),
        ({
            let asked = answered(
                asking(note, QuestionOf::RootPassword { username, hostname, password }),
                first,
            );
            let a = trimmed(first);
            if a.len() == 0 {
                asked.question == (QuestionView::Tools {
                    username,
                    hostname,
                    password,
                    root_password: password,
                })
            } else {
                answered(asked, second).question == if a == trimmed(second) {
                    QuestionView::Tools { username, hostname, password, root_password: a }
                } else {
                    QuestionView::RetypeRoot { username, hostname, password, root_password: a }
                }
            }
        }),
{
}

/// The tools that are chosen are those of the number that was typed: the base system, the
/// core tools, which are also taken where nothing is typed, or the whole suite. Anything
/// else is asked for again. The account that comes of it is what was answered before.
pub proof fn law_tools_are_those_of_the_number(
    username: Seq<char>,
    hostname: Seq<char>,
    password: Seq<char>,
    root_password: Seq<char>,
    note: Seq<char>,
    answer: Seq<char>,
)
    ensures
        ({
            let a = trimmed(answer);
            let asked = QuestionView::Tools { username, hostname, password, root_password };
            let next = answered(asking(note, asked), answer).question;
            let with = |packages: Packages| QuestionView::Nothing {
                account: AccountOf { username, hostname, password, root_password, packages },
            };
            &&& a == "1"@ ==> next == with(Packages::Minimal)
            &&& a == "2"@ || a.len() == 0 ==> next == with(Packages::Core)
            &&& a == "3"@ ==> next == with(Packages::Headless)
            &&& a != "1"@ && a != "2"@ && a != "3"@ && a.len() > 0 ==> next == asked
        }),
{
    reveal_strlit("1");
    reveal_strlit("2");
    reveal_strlit("3");
    assert("1"@[0] == '1' && "2"@[0] == '2' && "3"@[0] == '3');
}

/// Passwords are typed unseen, and everything else is seen; what is asked for names the
/// distribution or the user where that matters.
pub proof fn law_only_passwords_are_hidden(question: QuestionView)
    ensures
        match question {
            QuestionOf::Username { distro } => !secret(question),
            QuestionOf::Hostname { distro, username } => !secret(question) && prompt_text(question)
                == "Enter guest hostname (default: lsl-"@ + distro + "): "@,
            QuestionOf::Password { username, hostname } => secret(question) && prompt_text(question)
                == "Enter new UNIX password for '"@ + username + "': "@,
            QuestionOf::Retype { username, hostname, password } => secret(question),
            QuestionOf::RootPassword { username, hostname, password } => secret(question),
            QuestionOf::RetypeRoot { username, hostname, password, root_password } => secret(
                question,
            ),
            QuestionOf::Tools { username, hostname, password, root_password } => !secret(question),
            QuestionOf::Nothing { account } => !secret(question),
        },
{
}

} // verus!
