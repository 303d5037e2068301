//! What a guest is given when it is first entered.
use vstd::prelude::*;

use crate::action::{
    line, no_words, words, Account, AccountView, ActionOf, ActionView, Packages, Style,
};
use crate::config::{distro_path, get_distro_path, get_merged_path, merged_path};
use crate::distro::{format_hosts, hosts_text};
use crate::path::{join_path, path_join};
use crate::task::{attempt, heedless, no_steps, StepView, Steps};
use crate::text::{
    all_blank, begins, closes, decimal, format_decimal, holds, is_blank, law_parts_are_found,
    law_trimmed, trim, trimmed,
};

verus! {

// ---------------------------------------------------------------------- scripts

/// The script that sets the time zone.
pub open spec fn zone_script(zone: Seq<char>) -> Seq<char> {
    "ln -sf /usr/share/zoneinfo/"@ + zone + " /etc/localtime && echo '"@ + zone
        + "' > /etc/timezone"@
}

fn write_zone_script(zone: &str) -> (r: String)
    ensures
        r@ == zone_script(zone@),
{
    "ln -sf /usr/share/zoneinfo/".to_owned().concat(zone).concat(" /etc/localtime && echo '").concat(
        zone,
    ).concat("' > /etc/timezone")
}

/// The script that makes the user in the guest, with the numbers that the user has on the
/// host: a group or a user who has them already is renamed.
pub open spec fn user_script(user: Seq<char>, uid: u32, gid: u32) -> Seq<char> {
    "existing_group=$(getent group "@ + decimal(gid as nat)
        + " | cut -d: -f1); if [ ! -z \"$existing_group\" ] && [ \"$existing_group\" != \""@
        + user + "\" ]; then groupmod -n \""@ + user
        + "\" \"$existing_group\"; fi; existing_user=$(getent passwd "@ + decimal(uid as nat)
        + " | cut -d: -f1); if [ ! -z \"$existing_user\" ] && [ \"$existing_user\" != \""@ + user
        + "\" ]; then usermod -l \""@ + user + "\" -d \"/home/"@ + user
        + "\" -m \"$existing_user\"; else if ! getent group \""@ + user
        + "\" >/dev/null; then groupadd -g "@ + decimal(gid as nat) + " \""@ + user
        + "\" || groupadd \""@ + user + "\"; fi; if ! getent passwd \""@ + user
        + "\" >/dev/null; then useradd -u "@ + decimal(uid as nat) + " -g "@ + decimal(gid as nat)
        + " -m -s /bin/zsh \""@ + user + "\" || useradd -m -s /bin/zsh \""@ + user
        + "\"; fi; fi; usermod -s /bin/zsh \""@ + user + "\""@
}

fn write_user_script(user: &str, uid: u32, gid: u32) -> (r: String)
    ensures
        r@ == user_script(user@, uid, gid),
{
    "existing_group=$(getent group ".to_owned().concat(format_decimal(gid).as_str()).concat(
        " | cut -d: -f1); if [ ! -z \"$existing_group\" ] && [ \"$existing_group\" != \"",
    ).concat(user).concat("\" ]; then groupmod -n \"").concat(user).concat(
        "\" \"$existing_group\"; fi; existing_user=$(getent passwd ",
    ).concat(format_decimal(uid).as_str()).concat(
        " | cut -d: -f1); if [ ! -z \"$existing_user\" ] && [ \"$existing_user\" != \"",
    ).concat(user).concat("\" ]; then usermod -l \"").concat(user).concat("\" -d \"/home/").concat(
        user,
    ).concat("\" -m \"$existing_user\"; else if ! getent group \"").concat(user).concat(
        "\" >/dev/null; then groupadd -g ",
    ).concat(format_decimal(gid).as_str()).concat(" \"").concat(user).concat("\" || groupadd \"").concat(
        user,
    ).concat("\"; fi; if ! getent passwd \"").concat(user).concat("\" >/dev/null; then useradd -u ").concat(
        format_decimal(uid).as_str(),
    ).concat(" -g ").concat(format_decimal(gid).as_str()).concat(" -m -s /bin/zsh \"").concat(user).concat(
        "\" || useradd -m -s /bin/zsh \"",
    ).concat(user).concat("\"; fi; fi; usermod -s /bin/zsh \"").concat(user).concat("\"")
}

/// The script that sets the passwords.
pub open spec fn password_script(user: Seq<char>, password: Seq<char>, root_password: Seq<char>) -> Seq<char> {
    "echo '"@ + user + ":"@ + password + "' | chpasswd && echo 'root:"@ + root_password
        + "' | chpasswd"@
}

fn write_password_script(user: &str, password: &str, root_password: &str) -> (r: String)
    ensures
        r@ == password_script(user@, password@, root_password@),
{
    "echo '".to_owned().concat(user).concat(":").concat(password).concat(
        "' | chpasswd && echo 'root:",
    ).concat(root_password).concat("' | chpasswd")
}

/// The script that gives the user the shell's start file.
pub open spec fn copy_script(user: Seq<char>) -> Seq<char> {
    "cp /etc/skel/.zshrc /home/"@ + user + "/.zshrc && chown -R "@ + user + ":"@ + user
        + " /home/"@ + user
}

fn write_copy_script(user: &str) -> (r: String)
    ensures
        r@ == copy_script(user@),
{
    "cp /etc/skel/.zshrc /home/".to_owned().concat(user).concat("/.zshrc && chown -R ").concat(user).concat(
        ":",
    ).concat(user).concat(" /home/").concat(user)
}

/// The time zone of the host, given what its file holds.
pub open spec fn zone_of(content: Option<Seq<char>>) -> Seq<char> {
    match content {
        Some(text) => trimmed(text),
        None => "UTC"@,
    }
}

/// Finds the time zone of the host.
pub fn find_zone(content: Option<&str>) -> (r: String)
    ensures
        r@ == zone_of(crate::accounts::slice_text(content)),
{
    match content {
        Some(text) => trim(text),
        None => "UTC".to_owned(),
    }
}

// ------------------------------------------------------------------------ steps

/// Writing the host name into the guest and reading the time zone of the host.
pub open spec fn identity_steps(name: Seq<char>, hostname: Seq<char>) -> Seq<StepView> {
    no_steps().push(attempt(line(Style::Cyan, "[LSL] Running guest user configuration..."@))).push(
        attempt(ActionOf::WriteText { path: merged_path(name, "etc/hostname"@), text: hostname }),
    ).push(
        attempt(
            ActionOf::WriteText {
                path: path_join(distro_path(name, "diff"@), "etc/hostname"@),
                text: hostname,
            },
        ),
    ).push(
        attempt(
            ActionOf::WriteText {
                path: merged_path(name, "etc/hosts"@),
                text: hosts_text(hostname),
            },
        ),
    ).push(attempt(line(Style::Cyan, "[LSL] Configuring system timezone and locales..."@))).push(
        attempt(ActionOf::ReadText { path: "/etc/timezone"@ }),
    )
}

/// Makes the steps that write the host name and read the time zone.
pub fn write_identity(name: &str, hostname: &str) -> (r: Steps)
    ensures
        r@ == identity_steps(name@, hostname@),
{
    Steps::new().say(Style::Cyan, "[LSL] Running guest user configuration...".to_owned()).attempt(
        ActionOf::WriteText {
            path: get_merged_path(name, "etc/hostname"),
            text: hostname.to_owned(),
        },
    ).attempt(
        ActionOf::WriteText {
            path: join_path(get_distro_path(name, "diff").as_str(), "etc/hostname"),
            text: hostname.to_owned(),
        },
    ).attempt(
        ActionOf::WriteText {
            path: get_merged_path(name, "etc/hosts"),
            text: format_hosts(hostname),
        },
    ).say(Style::Cyan, "[LSL] Configuring system timezone and locales...".to_owned()).attempt(
        ActionOf::ReadText { path: "/etc/timezone".to_owned() },
    )
}

/// Installing what every guest has.
pub open spec fn base_steps(pid: u32, zone: Seq<char>) -> Seq<StepView> {
    no_steps().push(
        attempt(
            ActionOf::InGuest {
                pid,
                args: no_words().push("bash"@).push("-c"@).push(zone_script(zone)),
            },
        ),
    ).push(attempt(line(Style::Cyan, "[LSL] Updating package database..."@))).push(
        attempt(ActionOf::InGuest { pid, args: no_words().push("apt-get"@).push("update"@) }),
    ).push(
        attempt(
            line(
                Style::Cyan,
                "[LSL] Installing Zsh, locales, DHCP client, networking, DBus, and Kali default configurations..."@,
            ),
        ),
    ).push(
        attempt(
            ActionOf::InGuest {
                pid,
                args: no_words().push("apt-get"@).push("install"@).push("-y"@).push("locales"@).push(
                    "zsh"@,
                ).push("kali-defaults"@).push("zsh-autosuggestions"@).push(
                    "zsh-syntax-highlighting"@,
                ).push("isc-dhcp-client"@).push("iputils-ping"@).push("net-tools"@).push(
                    "iproute2"@,
                ).push("curl"@).push("wget"@).push("ca-certificates"@).push("dbus-x11"@).push(
                    "fastfetch"@,
                ),
            },
        ),
    ).push(attempt(line(Style::Cyan, "[LSL] Generating locale (en_US.UTF-8)..."@))).push(
        attempt(
            ActionOf::InGuest {
                pid,
                args: no_words().push("sed"@).push("-i"@).push(
                    "s/# en_US.UTF-8 UTF-8/en_US.UTF-8 UTF-8/"@,
                ).push("/etc/locale.gen"@),
            },
        ),
    ).push(attempt(ActionOf::InGuest { pid, args: no_words().push("locale-gen"@) })).push(
        attempt(
            ActionOf::InGuest {
                pid,
                args: no_words().push("update-locale"@).push("LANG=en_US.UTF-8"@),
            },
        ),
    )
}

fn install_base(pid: u32, zone: &str) -> (r: Steps)
    ensures
        r@ == base_steps(pid, zone@),
{
    Steps::new().attempt(
        ActionOf::InGuest {
            pid,
            args: words().with("bash").with("-c").with(write_zone_script(zone).as_str()).items,
        },
    ).say(Style::Cyan, "[LSL] Updating package database...".to_owned()).attempt(
        ActionOf::InGuest { pid, args: words().with("apt-get").with("update").items },
    ).say(
        Style::Cyan,
        "[LSL] Installing Zsh, locales, DHCP client, networking, DBus, and Kali default configurations...".to_owned(),
    ).attempt(
        ActionOf::InGuest {
            pid,
            args: words().with("apt-get").with("install").with("-y").with("locales").with("zsh").with(
                "kali-defaults",
            ).with("zsh-autosuggestions").with("zsh-syntax-highlighting").with("isc-dhcp-client").with(
                "iputils-ping",
            ).with("net-tools").with("iproute2").with("curl").with("wget").with("ca-certificates").with(
                "dbus-x11",
            ).with("fastfetch").items,
        },
    ).say(Style::Cyan, "[LSL] Generating locale (en_US.UTF-8)...".to_owned()).attempt(
        ActionOf::InGuest {
            pid,
            args: words().with("sed").with("-i").with("s/# en_US.UTF-8 UTF-8/en_US.UTF-8 UTF-8/").with(
                "/etc/locale.gen",
            ).items,
        },
    ).attempt(ActionOf::InGuest { pid, args: words().with("locale-gen").items }).attempt(
        ActionOf::InGuest {
            pid,
            args: words().with("update-locale").with("LANG=en_US.UTF-8").items,
        },
    )
}

/// Installing the tools that were chosen.
pub open spec fn package_steps(pid: u32, packages: Packages) -> Seq<StepView> {
    match packages {
        Packages::Core => no_steps().push(
            attempt(
                line(
                    Style::Cyan,
                    "[LSL] Installing Kali Core tools (this may take a few minutes)..."@,
                ),
            ),
        ).push(
            attempt(
                ActionOf::InGuest {
                    pid,
                    args: no_words().push("apt-get"@).push("install"@).push("-y"@).push(
                        "kali-linux-core"@,
                    ),
                },
            ),
        ),
        Packages::Headless => no_steps().push(
            attempt(
                line(
                    Style::Cyan,
                    "[LSL] Installing Kali Headless security suite (this will take several minutes)..."@,
                ),
            ),
        ).push(
            attempt(
                ActionOf::InGuest {
                    pid,
                    args: no_words().push("apt-get"@).push("install"@).push("-y"@).push(
                        "kali-linux-headless"@,
                    ),
                },
            ),
        ),
        Packages::Minimal => no_steps().push(
            attempt(line(Style::Cyan, "[LSL] Skipping optional packages (minimal install)..."@)),
        ),
    }
}

fn install_packages(pid: u32, packages: Packages) -> (r: Steps)
    ensures
        r@ == package_steps(pid, packages),
{
    match packages {
        Packages::Core => Steps::new().say(
            Style::Cyan,
            "[LSL] Installing Kali Core tools (this may take a few minutes)...".to_owned(),
        ).attempt(
            ActionOf::InGuest {
                pid,
                args: words().with("apt-get").with("install").with("-y").with(
                    "kali-linux-core",
                ).items,
            },
        ),
        Packages::Headless => Steps::new().say(
            Style::Cyan,
            "[LSL] Installing Kali Headless security suite (this will take several minutes)...".to_owned(),
        ).attempt(
            ActionOf::InGuest {
                pid,
                args: words().with("apt-get").with("install").with("-y").with(
                    "kali-linux-headless",
                ).items,
            },
        ),
        Packages::Minimal => Steps::new().say(
            Style::Cyan,
            "[LSL] Skipping optional packages (minimal install)...".to_owned(),
        ),
    }
}

/// Installing all that the guest is to have, and asking who runs the program.
pub open spec fn equip_steps(
    pid: u32,
    zone: Seq<char>,
    packages: Packages,
    user: Seq<char>,
) -> Seq<StepView> {
    (base_steps(pid, zone) + package_steps(pid, packages)).push(
        attempt(
            line(Style::Cyan, "[LSL] Configuring guest user account '"@ + user + "'..."@),
        ),
    ).push(attempt(ActionOf::AskUser))
}

/// Makes the steps that install all that the guest is to have.
pub fn equip(pid: u32, zone: &str, packages: Packages, user: &str) -> (r: Steps)
    ensures
        r@ == equip_steps(pid, zone@, packages, user@),
{
    install_base(pid, zone).then_all(install_packages(pid, packages)).say(
        Style::Cyan,
        "[LSL] Configuring guest user account '".to_owned().concat(user).concat("'..."),
    ).attempt(ActionOf::AskUser)
}

/// Making the user in the guest, with passwords, groups and a start file, and loading
/// the configuration.
pub open spec fn enlist_steps(pid: u32, account: AccountView, uid: u32, gid: u32) -> Seq<StepView> {
    no_steps().push(
        attempt(
            ActionOf::InGuest {
                pid,
                args: no_words().push("bash"@).push("-c"@).push(
                    user_script(account.username, uid, gid),
                ),
            },
        ),
    ).push(attempt(line(Style::Cyan, "[LSL] Setting passwords..."@))).push(
        attempt(
            ActionOf::InGuest {
                pid,
                args: no_words().push("bash"@).push("-c"@).push(
                    password_script(account.username, account.password, account.root_password),
                ),
            },
        ),
    ).push(attempt(line(Style::Cyan, "[LSL] Adding user to sudoers groups..."@))).push(
        attempt(
            ActionOf::InGuest { pid, args: no_words().push("groupadd"@).push("-f"@).push("sudo"@) },
        ),
    ).push(
        attempt(
            ActionOf::InGuest {
                pid,
                args: no_words().push("groupadd"@).push("-f"@).push("wheel"@),
            },
        ),
    ).push(
        attempt(
            ActionOf::InGuest {
                pid,
                args: no_words().push("usermod"@).push("-aG"@).push("sudo"@).push(account.username),
            },
        ),
    ).push(
        attempt(
            ActionOf::InGuest {
                pid,
                args: no_words().push("usermod"@).push("-aG"@).push("wheel"@).push(
                    account.username,
                ),
            },
        ),
    ).push(
        attempt(
            ActionOf::InGuest {
                pid,
                args: no_words().push("bash"@).push("-c"@).push(copy_script(account.username)),
            },
        ),
    ).push(attempt(ActionOf::LoadConfig))
}

/// Makes the steps that make the user in the guest.
pub fn enlist(pid: u32, account: &Account, uid: u32, gid: u32) -> (r: Steps)
    ensures
        r@ == enlist_steps(pid, account@, uid, gid),
{
    Steps::new().attempt(
        ActionOf::InGuest {
            pid,
            args: words().with("bash").with("-c").with(
                write_user_script(account.username.as_str(), uid, gid).as_str(),
            ).items,
        },
    ).say(Style::Cyan, "[LSL] Setting passwords...".to_owned()).attempt(
        ActionOf::InGuest {
            pid,
            args: words().with("bash").with("-c").with(
                write_password_script(
                    account.username.as_str(),
                    account.password.as_str(),
                    account.root_password.as_str(),
                ).as_str(),
            ).items,
        },
    ).say(Style::Cyan, "[LSL] Adding user to sudoers groups...".to_owned()).attempt(
        ActionOf::InGuest { pid, args: words().with("groupadd").with("-f").with("sudo").items },
    ).attempt(
        ActionOf::InGuest { pid, args: words().with("groupadd").with("-f").with("wheel").items },
    ).attempt(
        ActionOf::InGuest {
            pid,
            args: words().with("usermod").with("-aG").with("sudo").with(
                account.username.as_str(),
            ).items,
        },
    ).attempt(
        ActionOf::InGuest {
            pid,
            args: words().with("usermod").with("-aG").with("wheel").with(
                account.username.as_str(),
            ).items,
        },
    ).attempt(
        ActionOf::InGuest {
            pid,
            args: words().with("bash").with("-c").with(
                write_copy_script(account.username.as_str()).as_str(),
            ).items,
        },
    ).attempt(ActionOf::LoadConfig)
}

// ------------------------------------------------------------------------- laws

/// The script that makes the user names the numbers that the user has on the host, and
/// them alone, whatever they are: the group with the host's group number is renamed or
/// made, the user with the host's user number is renamed or made, and a new user gets
/// the host's user number as user number and the host's group number as group number.
/// What stands around the numbers is the same for all of them, and is about the user.
pub proof fn law_guest_user_has_the_hosts_numbers(user: Seq<char>) -> (parts: Seq<Seq<char>>)
    ensures
        parts.len() == 5,
        forall|uid: u32, gid: u32| #[trigger]
            user_script(user, uid, gid) == parts[0] + decimal(gid as nat) + parts[1] + decimal(
                uid as nat,
            ) + parts[2] + decimal(gid as nat) + parts[3] + decimal(uid as nat) + " -g "@
                + decimal(gid as nat) + parts[4],
        parts[0] == "existing_group=$(getent group "@,
        closes(
            parts[1],
            "\" ]; then groupmod -n \""@ + user
                + "\" \"$existing_group\"; fi; existing_user=$(getent passwd "@,
        ),
        closes(
            parts[2],
            "\" ]; then usermod -l \""@ + user + "\" -d \"/home/"@ + user
                + "\" -m \"$existing_user\"; else if ! getent group \""@ + user
                + "\" >/dev/null; then groupadd -g "@,
        ),
        parts[3] == " \""@ + user + "\" || groupadd \""@ + user
            + "\"; fi; if ! getent passwd \""@ + user + "\" >/dev/null; then useradd -u "@,
        parts[4] == " -m -s /bin/zsh \""@ + user + "\" || useradd -m -s /bin/zsh \""@ + user
            + "\"; fi; fi; usermod -s /bin/zsh \""@ + user + "\""@,
{
    let a = "existing_group=$(getent group "@;
    let b0 = " | cut -d: -f1); if [ ! -z \"$existing_group\" ] && [ \"$existing_group\" != \""@;
    let b1 = "\" ]; then groupmod -n \""@;
    let b2 = "\" \"$existing_group\"; fi; existing_user=$(getent passwd "@;
    let b = b0 + user + b1 + user + b2;
    let c0 = " | cut -d: -f1); if [ ! -z \"$existing_user\" ] && [ \"$existing_user\" != \""@;
    let c1 = "\" ]; then usermod -l \""@;
    let c2 = "\" -d \"/home/"@;
    let c3 = "\" -m \"$existing_user\"; else if ! getent group \""@;
    let c4 = "\" >/dev/null; then groupadd -g "@;
    let c = c0 + user + c1 + user + c2 + user + c3 + user + c4;
    let d0 = " \""@;
    let d1 = "\" || groupadd \""@;
    let d2 = "\"; fi; if ! getent passwd \""@;
    let d3 = "\" >/dev/null; then useradd -u "@;
    let d = d0 + user + d1 + user + d2 + user + d3;
    let e0 = " -m -s /bin/zsh \""@;
    let e1 = "\" || useradd -m -s /bin/zsh \""@;
    let e2 = "\"; fi; fi; usermod -s /bin/zsh \""@;
    let e3 = "\""@;
    let e = e0 + user + e1 + user + e2 + user + e3;
    let parts = Seq::empty().push(a).push(b).push(c).push(d).push(e);
    let b_end = b1 + user + b2;
    let c_end = c1 + user + c2 + user + c3 + user + c4;
    lemma_put_behind(b0 + user, b1, user, b2);
    lemma_put_behind(c0 + user, c1, user, c2);
    lemma_put_behind(c0 + user, c1 + user + c2, user, c3);
    lemma_put_behind(c0 + user, c1 + user + c2 + user + c3, user, c4);
    law_parts_are_found(b0 + user, b_end, Seq::empty());
    law_parts_are_found(c0 + user, c_end, Seq::empty());
    assert forall|uid: u32, gid: u32| #[trigger]
        user_script(user, uid, gid) == parts[0] + decimal(gid as nat) + parts[1] + decimal(
            uid as nat,
        ) + parts[2] + decimal(gid as nat) + parts[3] + decimal(uid as nat) + " -g "@ + decimal(
            gid as nat,
        ) + parts[4] by {
        let u = decimal(uid as nat);
        let g = decimal(gid as nat);
        let s1 = a + g;
        lemma_put_behind(s1, b0, user, b1);
        lemma_put_behind(s1, b0 + user + b1, user, b2);
        let s2 = s1 + b + u;
        lemma_put_behind(s2, c0, user, c1);
        lemma_put_behind(s2, c0 + user + c1, user, c2);
        lemma_put_behind(s2, c0 + user + c1 + user + c2, user, c3);
        lemma_put_behind(s2, c0 + user + c1 + user + c2 + user + c3, user, c4);
        let s3 = s2 + c + g;
        lemma_put_behind(s3, d0, user, d1);
        lemma_put_behind(s3, d0 + user + d1, user, d2);
        lemma_put_behind(s3, d0 + user + d1 + user + d2, user, d3);
        let s4 = s3 + d + u + " -g "@ + g;
        lemma_put_behind(s4, e0, user, e1);
        lemma_put_behind(s4, e0 + user + e1, user, e2);
        lemma_put_behind(s4, e0 + user + e1 + user + e2, user, e3);
    }
    parts
}

/// It does not matter which texts are put together first.
proof fn lemma_put_behind(s: Seq<char>, a: Seq<char>, m: Seq<char>, b: Seq<char>)
    ensures
        s + (a + m + b) == s + a + m + b,
{
    assert(s + (a + m + b) =~= s + a + m + b);
}

/// The user's password is set for the user, and the superuser's for the superuser, whatever
/// they are; and nothing else is done.
pub proof fn law_passwords_go_to_their_users(
    user: Seq<char>,
    password: Seq<char>,
    root_password: Seq<char>,
)
    ensures
        begins(
            password_script(user, password, root_password),
            "echo '"@ + user + ":"@ + password + "' | chpasswd && "@,
        ),
        closes(
            password_script(user, password, root_password),
            "echo 'root:"@ + root_password + "' | chpasswd"@,
        ),
        password_script(user, password, root_password).len() == user.len() + password.len()
            + root_password.len() + 46,
{
    lemma_password_pieces();
    let l1 = "' | chpasswd && "@;
    let l2 = "echo 'root:"@;
    let end = "' | chpasswd"@;
    let start = "echo '"@ + user + ":"@ + password;
    let head = start + l1;
    let tail = l2 + root_password + end;
    assert(start + (l1 + l2) =~= head + l2);
    lemma_put_behind(head, l2, root_password, end);
    assert(password_script(user, password, root_password) == head + tail);
    law_parts_are_found(Seq::empty(), head, tail);
    law_parts_are_found(head, tail, Seq::empty());
}

/// The middle of the script that sets the passwords.
proof fn lemma_password_pieces()
    ensures
        "' | chpasswd && echo 'root:"@ == "' | chpasswd && "@ + "echo 'root:"@,
        "' | chpasswd && "@.len() == 16,
        "echo 'root:"@.len() == 11,
        "' | chpasswd"@.len() == 12,
        "echo '"@.len() == 6,
        ":"@.len() == 1,
{
    reveal_strlit("' | chpasswd && echo 'root:");
    reveal_strlit("' | chpasswd && ");
    reveal_strlit("echo 'root:");
    reveal_strlit("echo '");
    reveal_strlit(":");
    reveal_strlit("' | chpasswd");
    assert("' | chpasswd && echo 'root:"@ =~= "' | chpasswd && "@ + "echo 'root:"@);
}

/// What makes the user runs in the guest that is set up: the scripts that make the user
/// with the host's numbers and set the passwords, the programs that put the user into the
/// groups whose members may become the superuser, and the script that gives the user a start
/// file of their own. Nothing that fails stops them.
pub proof fn law_enlists_the_user(pid: u32, account: AccountView, uid: u32, gid: u32)
    ensures
        ({
            let steps = enlist_steps(pid, account, uid, gid);
            let user = account.username;
            &&& steps.len() == 10
            &&& heedless(steps)
            &&& bash_script(steps[0].action, pid) == Some(user_script(user, uid, gid))
            &&& bash_script(steps[2].action, pid) == Some(
                password_script(user, account.password, account.root_password),
            )
            &&& steps[4].action == (ActionView::InGuest { pid, args: no_words().push("groupadd"@).push("-f"@).push("sudo"@) })
            &&& steps[5].action == (ActionView::InGuest {
                pid,
                args: no_words().push("groupadd"@).push("-f"@).push("wheel"@),
            })
            &&& steps[6].action == (ActionView::InGuest {
                pid,
                args: no_words().push("usermod"@).push("-aG"@).push("sudo"@).push(user),
            })
            &&& steps[7].action == (ActionView::InGuest {
                pid,
                args: no_words().push("usermod"@).push("-aG"@).push("wheel"@).push(user),
            })
            &&& bash_script(steps[8].action, pid) == Some(copy_script(user))
            &&& steps[9].action is LoadConfig
            &&& begins(copy_script(user), "cp /etc/skel/.zshrc /home/"@ + user + "/.zshrc && "@)
            &&& closes(copy_script(user), "chown -R "@ + user + ":"@ + user + " /home/"@ + user)
        }),
{
    let user = account.username;
    reveal_strlit("/.zshrc && chown -R ");
    reveal_strlit("/.zshrc && ");
    reveal_strlit("chown -R ");
    assert("/.zshrc && chown -R "@ =~= "/.zshrc && "@ + "chown -R "@);
    let head = "cp /etc/skel/.zshrc /home/"@ + user + "/.zshrc && "@;
    let tail = "chown -R "@ + user + ":"@ + user + " /home/"@ + user;
    assert(copy_script(user) =~= head + tail);
    law_parts_are_found(Seq::empty(), head, tail);
    law_parts_are_found(head, tail, Seq::empty());
}

/// The script that an action has the shell of a guest run.
pub open spec fn bash_script(action: ActionView, pid: u32) -> Option<Seq<char>> {
    match action {
        ActionOf::InGuest { pid: p, args } => if p == pid && args.len() == 3 && args[0] == "bash"@
            && args[1] == "-c"@ {
            Some(args[2])
        } else {
            None
        },
        _ => None,
    }
}

/// A guest gets the host's time zone: its clock is set by that zone, and the zone is
/// written down, whatever it is; the zone is what the host's file holds, without the
/// blanks around it, or `UTC` where there is no such file.
pub proof fn law_guest_keeps_the_hosts_time(pid: u32, zone: Seq<char>, content: Seq<char>)
    ensures
        bash_script(base_steps(pid, zone)[0].action, pid) == Some(zone_script(zone)),
        begins(zone_script(zone), "ln -sf /usr/share/zoneinfo/"@ + zone + " /etc/localtime && "@),
        closes(zone_script(zone), "echo '"@ + zone + "' > /etc/timezone"@),
        zone_of(None) == "UTC"@,
        ({
            let z = zone_of(Some(content));
            &&& holds(content, z)
            &&& z.len() > 0 ==> !is_blank(z[0]) && !is_blank(z.last())
            &&& exists|a: Seq<char>, b: Seq<char>|
                content == #[trigger] (a + z + b) && all_blank(a) && all_blank(b)
        }),
{
    reveal_strlit(" /etc/localtime && echo '");
    reveal_strlit(" /etc/localtime && ");
    reveal_strlit("echo '");
    assert(" /etc/localtime && echo '"@ =~= " /etc/localtime && "@ + "echo '"@);
    let head = "ln -sf /usr/share/zoneinfo/"@ + zone + " /etc/localtime && "@;
    let tail = "echo '"@ + zone + "' > /etc/timezone"@;
    assert(zone_script(zone) =~= head + tail);
    law_parts_are_found(Seq::empty(), head, tail);
    law_parts_are_found(head, tail, Seq::empty());
    let (a, b) = law_trimmed(content);
    law_parts_are_found(a, trimmed(content), b);
}

/// What is installed is what was chosen: the core tools, the whole suite, or nothing.
pub proof fn law_chosen_tools_are_installed(pid: u32, packages: Packages)
    ensures
        ({
            let steps = package_steps(pid, packages);
            &&& heedless(steps)
            &&& packages == Packages::Minimal ==> steps.len() == 1 && steps[0].action is Say
            &&& packages == Packages::Core ==> steps.len() == 2 && steps[0].action is Say
                && steps[1].action == (ActionView::InGuest {
                pid,
                args: no_words().push("apt-get"@).push("install"@).push("-y"@).push("kali-linux-core"@),
            })
            &&& packages == Packages::Headless ==> steps.len() == 2 && steps[0].action is Say
                && steps[1].action == (ActionView::InGuest {
                pid,
                args: no_words().push("apt-get"@).push("install"@).push("-y"@).push("kali-linux-headless"@),
            })
        }),
{
}

/// Everything that a guest is given is installed in the guest that is set up: first its
/// time zone and what every guest has, then the tools that were chosen. Last the
/// program asks who runs it. Nothing that fails stops it.
pub proof fn law_guest_is_equipped(
    pid: u32,
    zone: Seq<char>,
    packages: Packages,
    user: Seq<char>,
)
    ensures
        ({
            let steps = equip_steps(pid, zone, packages, user);
            let chosen = package_steps(pid, packages);
            &&& heedless(steps)
            &&& steps.len() == 9 + chosen.len() + 2
            &&& bash_script(steps[0].action, pid) == Some(zone_script(zone))
            &&& steps[2].action == (ActionView::InGuest { pid, args: no_words().push("apt-get"@).push("update"@) })
            &&& steps[4].action matches ActionOf::InGuest { pid: p, args } && p == pid
                && args.take(3) == no_words().push("apt-get"@).push("install"@).push("-y"@) && args.len() == 17
                && args.contains("zsh"@) && args.contains("locales"@) && args.contains(
                "isc-dhcp-client"@,
            ) && args.contains("dbus-x11"@) && args.contains("fastfetch"@) && args.contains(
                "kali-defaults"@,
            )
            &&& forall|i: int| 6 <= i < 9 ==> (#[trigger] steps[i]).action is InGuest
                && steps[i].action->InGuest_pid == pid
            &&& forall|i: int|
                9 <= i < 9 + chosen.len() ==> #[trigger] steps[i] == chosen[i - 9]
            &&& steps.last().action is AskUser
        }),
{
    let steps = equip_steps(pid, zone, packages, user);
    let args = steps[4].action->InGuest_args;
    assert(base_steps(pid, zone).len() == 9);
    assert(args.take(3) =~= no_words().push("apt-get"@).push("install"@).push("-y"@));
    assert(args[3] == "locales"@ && args[4] == "zsh"@ && args[5] == "kali-defaults"@);
    assert(args[8] == "isc-dhcp-client"@ && args[15] == "dbus-x11"@ && args[16] == "fastfetch"@);
}

/// The host name that was chosen is what the guest's own file of it says, in the guest
/// as it runs and in what is kept of it, and what the guest's table of hosts calls the
/// guest.
pub proof fn law_guest_bears_its_hostname(name: Seq<char>, hostname: Seq<char>)
    ensures
        ({
            let steps = identity_steps(name, hostname);
            &&& heedless(steps)
            &&& steps.len() == 6
            &&& steps[1].action == (ActionView::WriteText {
                path: merged_path(name, "etc/hostname"@),
                text: hostname,
            })
            &&& steps[2].action == (ActionView::WriteText {
                path: path_join(distro_path(name, "diff"@), "etc/hostname"@),
                text: hostname,
            })
            &&& steps[3].action matches ActionOf::WriteText { path, text } && path == merged_path(
                name,
                "etc/hosts"@,
            ) && begins(text, "127.0.0.1\tlocalhost\n127.0.1.1\t"@ + hostname + "\n"@) && closes(
                text,
                "::1\t\tlocalhost ip6-localhost ip6-loopback\n"@,
            ) && text.len() == hostname.len() + 73
            &&& steps[5].action == (ActionView::ReadText { path: "/etc/timezone"@ })
        }),
{
    reveal_strlit("127.0.0.1\tlocalhost\n127.0.1.1\t");
    reveal_strlit("\n::1\t\tlocalhost ip6-localhost ip6-loopback\n");
    reveal_strlit("\n");
    reveal_strlit("::1\t\tlocalhost ip6-localhost ip6-loopback\n");
    let rest = "::1\t\tlocalhost ip6-localhost ip6-loopback\n"@;
    assert("\n::1\t\tlocalhost ip6-localhost ip6-loopback\n"@ =~= "\n"@ + rest);
    let head = "127.0.0.1\tlocalhost\n127.0.1.1\t"@ + hostname + "\n"@;
    assert(hosts_text(hostname) =~= head + rest);
    law_parts_are_found(Seq::empty(), head, rest);
    law_parts_are_found(head, rest, Seq::empty());
}

} // verus!
