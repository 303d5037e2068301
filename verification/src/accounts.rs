//! The account files of a guest: who is in them, and what is added to them.
use vstd::prelude::*;
use vstd::utf8::{
    decode_utf8, encode_utf8, encode_utf8_decode_utf8, encode_utf8_valid_utf8, valid_utf8,
};

use crate::action::{fault, no_words, Fault, FaultKind, FaultOf, FaultView};
use crate::encoding::{law_appended_bytes, law_encoded_lines_decode, lemma_decoded_line};
use crate::text::{
    begins, chars_of, closes, decimal, decode, ends, ends_with, fields, format_decimal, inner,
    is_digit, law_decimal_reads_back, law_parts_are_found, lemma_decimal, lemma_fields_push_sep,
    lemma_split_add, lemma_split_nonempty, lines, lines_by, matches_at, number, only, parse_u32,
    same, split_byte_lines, split_fields, split_lines, stands_at, starts_with, texts, without_last,
};

verus! {

// ------------------------------------------------------------------ host account

/// Who runs the program: the user who called `sudo`, if that is fully known, else
/// the user of the process.
pub open spec fn host_user(
    sudo_user: Option<Seq<char>>,
    sudo_uid: Option<Seq<char>>,
    sudo_gid: Option<Seq<char>>,
    user: Option<Seq<char>>,
    uid: u32,
    gid: u32,
) -> (Seq<char>, u32, u32) {
    match (sudo_user, sudo_uid, sudo_gid) {
        (Some(name), Some(u), Some(g)) if number(u) is Some && number(g) is Some => (
            name,
            number(u)->0,
            number(g)->0,
        ),
        _ => (
            match user {
                Some(name) => name,
                None => "root"@,
            },
            uid,
            gid,
        ),
    }
}

/// The text of an optional string slice.
pub open spec fn slice_text(o: Option<&str>) -> Option<Seq<char>> {
    match o {
        Some(s) => Some(s@),
        None => None,
    }
}

/// Finds who runs the program, given the variables `SUDO_USER`, `SUDO_UID`,
/// `SUDO_GID` and `USER` and the identity of the process.
pub fn get_host_user_details(
    sudo_user: Option<&str>,
    sudo_uid: Option<&str>,
    sudo_gid: Option<&str>,
    user: Option<&str>,
    uid: u32,
    gid: u32,
) -> (r: (String, u32, u32))
    ensures
        (r.0@, r.1, r.2) == host_user(
            slice_text(sudo_user),
            slice_text(sudo_uid),
            slice_text(sudo_gid),
            slice_text(user),
            uid,
            gid,
        ),
{
    match (sudo_user, sudo_uid, sudo_gid) {
        (Some(name), Some(u), Some(g)) => {
            match (parse_u32(u), parse_u32(g)) {
                (Some(u), Some(g)) => {
                    return (name.to_owned(), u, g);
                },
                _ => {},
            }
        },
        _ => {},
    }
    match user {
        Some(name) => (name.to_owned(), uid, gid),
        None => ("root".to_owned(), uid, gid),
    }
}

/// The home directory of who runs the program.
pub open spec fn home_of(sudo_user: Option<Seq<char>>, home: Option<Seq<char>>) -> Seq<char> {
    match (sudo_user, home) {
        (Some(user), _) => "/home/"@ + user,
        (None, Some(h)) => h,
        (None, None) => "/root"@,
    }
}

/// Finds the home directory of who runs the program, given the variables
/// `SUDO_USER` and `HOME`.
pub fn get_host_home_dir(sudo_user: Option<&str>, home: Option<&str>) -> (r: String)
    ensures
        r@ == home_of(slice_text(sudo_user), slice_text(home)),
{
    match sudo_user {
        Some(user) => "/home/".to_owned().concat(user),
        None => match home {
            Some(h) => h.to_owned(),
            None => "/root".to_owned(),
        },
    }
}

// ---------------------------------------------------------------- the user table

/// A line of the user table that belongs to the user and has `width` fields.
pub open spec fn entry_of(line: Seq<char>, user: Seq<char>, width: int) -> bool {
    fields(line, ':').len() >= width && fields(line, ':')[0] == user
}

/// The identity in the first line of the user, among those from `i` on.
pub open spec fn ids_from(ls: Seq<Seq<char>>, user: Seq<char>, i: int) -> Option<(u32, u32)>
    decreases ls.len() - i,
{
    if i < 0 || i >= ls.len() {
        None
    } else if entry_of(ls[i], user, 4) {
        match (number(fields(ls[i], ':')[2]), number(fields(ls[i], ':')[3])) {
            (Some(uid), Some(gid)) => Some((uid, gid)),
            _ => None,
        }
    } else {
        ids_from(ls, user, i + 1)
    }
}

/// The user and group number of a user.
pub open spec fn guest_ids(passwd: Seq<char>, user: Seq<char>) -> Option<(u32, u32)> {
    ids_from(lines(passwd), user, 0)
}

/// Finds the user and group number of a user in the guest's user table.
pub fn get_guest_user_ids_from_host(passwd: &str, username: &str) -> (r: Option<(u32, u32)>)
    ensures
        r == guest_ids(passwd@, username@),
{
    let all: Vec<String> = split_lines(passwd);
    let ghost ls = lines(passwd@);
    assert(ls.len() == all@.len());
    let mut i: usize = 0;
    while i < all.len()
        invariant
            i <= all@.len(),
            texts(all@) == ls,
            ls.len() == all@.len(),
            ids_from(ls, username@, 0) == ids_from(ls, username@, i as int),
            ls == lines(passwd@),
        decreases all@.len() - i,
    {
        let parts: Vec<String> = split_fields(all[i].as_str(), ':');
        assert(texts(all@)[i as int] == all@[i as int]@);
        assert(fields(ls[i as int], ':').len() == parts@.len());
        if parts.len() >= 4 {
            assert(texts(parts@)[0] == parts@[0]@);
            assert(texts(parts@)[2] == parts@[2]@);
            assert(texts(parts@)[3] == parts@[3]@);
            if same(parts[0].as_str(), username) {
                return match (parse_u32(parts[2].as_str()), parse_u32(parts[3].as_str())) {
                    (Some(uid), Some(gid)) => Some((uid, gid)),
                    _ => None,
                };
            }
        }
        i = i + 1;
    }
    None
}

/// The home directory and shell in the first line of the user, among those from
/// `i` on.
pub open spec fn shell_from(ls: Seq<Seq<char>>, user: Seq<char>, i: int) -> (Seq<char>, Seq<char>)
    decreases ls.len() - i,
{
    if i < 0 || i >= ls.len() {
        ("/root"@, "/bin/bash"@)
    } else if entry_of(ls[i], user, 7) {
        (fields(ls[i], ':')[5], fields(ls[i], ':')[6])
    } else {
        shell_from(ls, user, i + 1)
    }
}

/// The home directory and shell of a user; the superuser, and a user who is not
/// in the table or whose table cannot be read, has `/root` and `/bin/bash`.
pub open spec fn home_and_shell(passwd: Option<Seq<char>>, user: Seq<char>) -> (
    Seq<char>,
    Seq<char>,
) {
    match passwd {
        Some(text) if user != "root"@ => shell_from(lines(text), user, 0),
        _ => ("/root"@, "/bin/bash"@),
    }
}

/// Finds the home directory and shell of a user.
pub fn find_home_and_shell(passwd: Option<&str>, user: &str) -> (r: (String, String))
    ensures
        (r.0@, r.1@) == home_and_shell(slice_text(passwd), user@),
{
    match passwd {
        Some(text) => {
            if !same(user, "root") {
                let all: Vec<String> = split_lines(text);
                let ghost ls = lines(text@);
                assert(ls.len() == all@.len());
                let mut i: usize = 0;
                while i < all.len()
                    invariant
                        i <= all@.len(),
                        texts(all@) == ls,
                        ls.len() == all@.len(),
                        shell_from(ls, user@, 0) == shell_from(ls, user@, i as int),
                        ls == lines(text@),
                        slice_text(passwd) == Some(text@),
                        user@ != "root"@,
                    decreases all@.len() - i,
                {
                    let parts: Vec<String> = split_fields(all[i].as_str(), ':');
                    assert(texts(all@)[i as int] == all@[i as int]@);
                    assert(fields(ls[i as int], ':').len() == parts@.len());
                    if parts.len() >= 7 {
                        assert(texts(parts@)[0] == parts@[0]@);
                        assert(texts(parts@)[5] == parts@[5]@);
                        assert(texts(parts@)[6] == parts@[6]@);
                        if same(parts[0].as_str(), user) {
                            return (parts[5].clone(), parts[6].clone());
                        }
                    }
                    i = i + 1;
                }
            }
        },
        None => {},
    }
    ("/root".to_owned(), "/bin/bash".to_owned())
}

/// A line that is readable and starts with the user's name and a colon.
pub open spec fn names_user(line: Seq<u8>, user: Seq<char>) -> bool {
    valid_utf8(line) && begins(decode_utf8(line), user + ":"@)
}

/// The user is in the table; lines that are no text do not count.
pub open spec fn user_known(passwd: Seq<u8>, user: Seq<char>) -> bool {
    exists|i: int|
        0 <= i < lines_by(passwd, 10u8, 13u8).len() && names_user(
            #[trigger] lines_by(passwd, 10u8, 13u8)[i],
            user,
        )
}

/// Tells whether the user is in the table.
pub fn is_user_known(passwd: &[u8], user: &str) -> (r: bool)
    ensures
        r == user_known(passwd@, user@),
{
    let all: Vec<Vec<u8>> = split_byte_lines(passwd);
    let ghost ls = lines_by(passwd@, 10u8, 13u8);
    assert(ls.len() == all@.len());
    let prefix: String = user.to_owned().concat(":");
    let mut i: usize = 0;
    while i < all.len()
        invariant
            i <= all@.len(),
            inner(all@) == ls,
            ls == lines_by(passwd@, 10u8, 13u8),
            ls.len() == all@.len(),
            prefix@ == user@ + ":"@,
            forall|j: int| 0 <= j < i ==> !names_user(#[trigger] ls[j], user@),
        decreases all@.len() - i,
    {
        assert(inner(all@)[i as int] == all@[i as int]@);
        match decode(all[i].as_slice()) {
            Some(text) => {
                if starts_with(text.as_str(), prefix.as_str()) {
                    assert(names_user(ls[i as int], user@));
                    return true;
                }
            },
            None => {},
        }
        i = i + 1;
    }
    false
}

/// The line of a new user in the user table.
pub open spec fn passwd_line(user: Seq<char>, uid: u32, gid: u32) -> Seq<char> {
    user + ":x:"@ + decimal(uid as nat) + ":"@ + decimal(gid as nat) + ":"@ + user + ":/home/"@
        + user + ":/bin/bash"@
}

/// Writes the line of a new user in the user table, with its end.
pub fn format_passwd_line(user: &str, uid: u32, gid: u32) -> (r: String)
    ensures
        r@ == passwd_line(user@, uid, gid).push('\n'),
{
    let mut r: String = user.to_owned().concat(":x:").concat(format_decimal(uid).as_str()).concat(
        ":",
    ).concat(format_decimal(gid).as_str()).concat(":").concat(user).concat(":/home/").concat(
        user,
    ).concat(":/bin/bash");
    r.push('\n');
    r
}

/// The line of a new user's own group in the group table.
pub open spec fn group_line(user: Seq<char>, gid: u32) -> Seq<char> {
    user + ":x:"@ + decimal(gid as nat) + ":"@
}

/// Writes the line of a new user's own group, with its end.
pub fn format_group_line(user: &str, gid: u32) -> (r: String)
    ensures
        r@ == group_line(user@, gid).push('\n'),
{
    let mut r: String = user.to_owned().concat(":x:").concat(format_decimal(gid).as_str()).concat(
        ":",
    );
    r.push('\n');
    r
}

/// The line of a new user in the password table: no password.
pub open spec fn shadow_line(user: Seq<char>) -> Seq<char> {
    user + ":*:19000:0:99999:7:::"@
}

/// Writes the line of a new user in the password table, with its end.
pub fn format_shadow_line(user: &str) -> (r: String)
    ensures
        r@ == shadow_line(user@).push('\n'),
{
    let mut r: String = user.to_owned().concat(":*:19000:0:99999:7:::");
    r.push('\n');
    r
}

// --------------------------------------------------------------- the group table

/// The user stands at place `p` of a line as its members do: behind a colon or a
/// comma, and before a comma or the end of the line.
pub open spec fn listed_at(line: Seq<char>, user: Seq<char>, p: int) -> bool {
    &&& 0 < p
    &&& stands_at(line, user, p)
    &&& line[p - 1] == ':' || line[p - 1] == ','
    &&& p + user.len() == line.len() || line[p + user.len()] == ','
}

/// A line of the group table lists the user. Nobody needs to be listed who has no
/// name.
pub open spec fn lists(line: Seq<char>, user: Seq<char>) -> bool {
    user.len() == 0 || exists|p: int| #[trigger] listed_at(line, user, p)
}

/// A line of the group that does not list the user.
pub open spec fn lacks(line: Seq<char>, user: Seq<char>, group: Seq<char>) -> bool {
    begins(line, group + ":"@) && !lists(line, user)
}

/// Tells whether a line of the group table lists the user.
fn is_member(line: &str, user: &str) -> (r: bool)
    ensures
        r == lists(line@, user@),
{
    let text: Vec<char> = chars_of(line);
    let name: Vec<char> = chars_of(user);
    let n: usize = text.len();
    let m: usize = name.len();
    if m == 0 {
        return true;
    }
    let mut p: usize = 1;
    while p < n
        invariant
            1 <= p,
            n == text@.len(),
            m == name@.len(),
            m > 0,
            text@ == line@,
            name@ == user@,
            forall|q: int| q < p ==> !#[trigger] listed_at(line@, user@, q),
        decreases n - p,
    {
        if (text[p - 1] == ':' || text[p - 1] == ',') && matches_at(&text, &name, p) {
            if p + m == n || text[p + m] == ',' {
                assert(listed_at(line@, user@, p as int));
                return true;
            }
        }
        p = p + 1;
    }
    assert(forall|q: int| !#[trigger] listed_at(line@, user@, q));
    false
}

/// A line of the group table with the user added to its members where the line is
/// the group's and does not list the user.
pub open spec fn with_member(line: Seq<char>, user: Seq<char>, group: Seq<char>) -> Seq<char> {
    if lacks(line, user, group) {
        if ends(line, ':') {
            line + user
        } else {
            line + ","@ + user
        }
    } else {
        line
    }
}

/// The lines, each with its end.
pub open spec fn unlines(ls: Seq<Seq<char>>) -> Seq<char>
    decreases ls.len(),
{
    if ls.len() == 0 {
        Seq::empty()
    } else {
        unlines(ls.drop_last()) + ls.last().push('\n')
    }
}

/// The texts of lines of bytes.
pub open spec fn decoded(ls: Seq<Seq<u8>>) -> Seq<Seq<char>> {
    ls.map_values(|l: Seq<u8>| decode_utf8(l))
}

/// All lines are text.
pub open spec fn readable(ls: Seq<Seq<u8>>) -> bool {
    forall|i: int| 0 <= i < ls.len() ==> valid_utf8(#[trigger] ls[i])
}

/// The error for a file that should hold text and does not.
pub open spec fn not_text() -> FaultView {
    FaultOf { kind: FaultKind::InvalidData, message: "stream did not contain valid UTF-8"@ }
}

/// The group table with the user added to the group; nothing where no line
/// changes; an error where the table is no text.
pub open spec fn regrouped(table: Seq<u8>, user: Seq<char>, group: Seq<char>) -> Result<
    Option<Seq<char>>,
    FaultView,
> {
    let ls = lines_by(table, 10u8, 13u8);
    if !readable(ls) {
        Err(not_text())
    } else if exists|i: int| 0 <= i < ls.len() && lacks(#[trigger] decoded(ls)[i], user, group) {
        Ok(Some(unlines(decoded(ls).map_values(|l: Seq<char>| with_member(l, user, group)))))
    } else {
        Ok(None)
    }
}

/// Adds a user to a group of the guest: gives the new group table, if it changes.
pub fn add_user_to_guest_group(table: &[u8], username: &str, group_name: &str) -> (r: Result<
    Option<String>,
    Fault,
>)
    ensures
        match r {
            Ok(Some(text)) => regrouped(table@, username@, group_name@) == Ok::<
                Option<Seq<char>>,
                FaultView,
            >(Some(text@)),
            Ok(None) => regrouped(table@, username@, group_name@) == Ok::<
                Option<Seq<char>>,
                FaultView,
            >(None),
            Err(f) => regrouped(table@, username@, group_name@) == Err::<
                Option<Seq<char>>,
                FaultView,
            >(f@),
        },
{
    let all: Vec<Vec<u8>> = split_byte_lines(table);
    let ghost ls = lines_by(table@, 10u8, 13u8);
    assert(ls.len() == all@.len());
    let prefix: String = group_name.to_owned().concat(":");
    let mut out: String = String::new();
    let mut modified: bool = false;
    let mut i: usize = 0;
    let ghost change = |l: Seq<char>| with_member(l, username@, group_name@);
    let ghost new_lines = decoded(ls).map_values(change);
    assert(new_lines.take(0) =~= Seq::empty());
    while i < all.len()
        invariant
            i <= all@.len(),
            inner(all@) == ls,
            ls.len() == all@.len(),
            prefix@ == group_name@ + ":"@,
            change == (|l: Seq<char>| with_member(l, username@, group_name@)),
            new_lines == decoded(ls).map_values(change),
            forall|j: int| 0 <= j < i ==> valid_utf8(#[trigger] ls[j]),
            out@ == unlines(new_lines.take(i as int)),
            modified == exists|j: int|
                0 <= j < i && lacks(#[trigger] decoded(ls)[j], username@, group_name@),
            ls == lines_by(table@, 10u8, 13u8),
        decreases all@.len() - i,
    {
        assert(inner(all@)[i as int] == all@[i as int]@);
        match decode(all[i].as_slice()) {
            None => {
                assert(!valid_utf8(ls[i as int]));
                return Err(
                    fault(FaultKind::InvalidData, "stream did not contain valid UTF-8"),
                );
            },
            Some(line) => {
                let ghost d = decoded(ls)[i as int];
                assert(d == line@);
                let mut new_line: String = line;
                if starts_with(new_line.as_str(), prefix.as_str()) && !is_member(
                    new_line.as_str(),
                    username,
                ) {
                    assert(lacks(d, username@, group_name@));
                    if ends_with(new_line.as_str(), ':') {
                        new_line = new_line.concat(username);
                    } else {
                        new_line = new_line.concat(",").concat(username);
                    }
                    modified = true;
                }
                assert(new_line@ == new_lines[i as int]);
                new_line.push('\n');
                assert(new_lines.take(i + 1).drop_last() =~= new_lines.take(i as int));
                assert(new_lines.take(i + 1).last() == new_lines[i as int]);
                out = out.concat(new_line.as_str());
            },
        }
        i = i + 1;
    }
    assert(new_lines.take(ls.len() as int) =~= new_lines);
    if modified {
        Ok(Some(out))
    } else {
        Ok(None)
    }
}

// ------------------------------------------------------------------------- laws

/// A table whose last line is complete.
pub open spec fn complete(table: Seq<char>) -> bool {
    table.len() == 0 || table.last() == '\n'
}

/// Appending a line to a table whose last line is complete adds that line, without
/// a carriage return at its end, and leaves the others as they were.
pub proof fn law_appended_line(table: Seq<char>, line: Seq<char>)
    requires
        complete(table),
        !line.contains('\n'),
    ensures
        lines(table + line.push('\n')) == lines(table).push(without_last(line, '\r')),
{
    let nl = '\n';
    let before = fields(table, nl);
    lemma_split_nonempty(table, only(nl));
    assert(before.last().len() == 0) by {
        if table.len() > 0 {
            assert(table =~= table.drop_last().push(nl));
            lemma_fields_push_sep(table.drop_last(), nl);
        }
    }
    assert(before.last() + line =~= line);
    lemma_split_add(table, line, nl);
    lemma_fields_push_sep(table + line, nl);
    assert(table + line.push(nl) =~= (table + line).push(nl));
    let after = before.drop_last().push(line).push(Seq::empty());
    assert(fields(table + line.push(nl), nl) == after);
    assert(after.drop_last() =~= before.drop_last().push(line));
    assert(lines(table + line.push(nl)) =~= lines(table).push(without_last(line, '\r')));
}

/// Lines that hold no line end are read back as they were written, except that a
/// carriage return at the end of a line is lost.
pub proof fn law_lines_read_back(ls: Seq<Seq<char>>)
    requires
        forall|i: int| 0 <= i < ls.len() ==> !(#[trigger] ls[i]).contains('\n'),
    ensures
        lines(unlines(ls)) == ls.map_values(|l: Seq<char>| without_last(l, '\r')),
        complete(unlines(ls)),
    decreases ls.len(),
{
    if ls.len() == 0 {
        assert(fields(Seq::empty(), '\n').drop_last() =~= Seq::empty());
        assert(lines(unlines(ls)) =~= ls.map_values(|l: Seq<char>| without_last(l, '\r')));
    } else {
        assert forall|i: int| 0 <= i < ls.drop_last().len() implies !(
        #[trigger] ls.drop_last()[i]).contains('\n') by {
            assert(!ls[i].contains('\n'));
        }
        law_lines_read_back(ls.drop_last());
        assert(!ls[ls.len() - 1].contains('\n'));
        law_appended_line(unlines(ls.drop_last()), ls.last());
        assert(lines(unlines(ls)) =~= ls.map_values(|l: Seq<char>| without_last(l, '\r')));
    }
}

/// A line that can be written and read back.
pub open spec fn plain_line(line: Seq<char>) -> bool {
    !line.contains('\n') && (line.len() == 0 || line.last() != '\r')
}

/// A name that an account file can hold.
pub open spec fn plain_name(user: Seq<char>) -> bool {
    !user.contains(':') && !user.contains('\n')
}

/// A separator and a field without one add that field.
proof fn lemma_next_field(s: Seq<char>, f: Seq<char>)
    requires
        !f.contains(':'),
    ensures
        fields(s.push(':') + f, ':') == fields(s, ':').push(f),
{
    lemma_fields_push_sep(s, ':');
    lemma_split_add(s.push(':'), f, ':');
    assert(fields(s, ':').push(Seq::empty()).drop_last() =~= fields(s, ':'));
    assert(Seq::<char>::empty() + f =~= f);
}

/// The fields of the line of a new user.
proof fn lemma_passwd_fields(user: Seq<char>, uid: u32, gid: u32)
    requires
        !user.contains(':'),
    ensures
        fields(passwd_line(user, uid, gid), ':') == no_words().push(user).push("x"@).push(
            decimal(uid as nat),
        ).push(decimal(gid as nat)).push(user).push("/home/"@ + user).push("/bin/bash"@),
{
    let u = decimal(uid as nat);
    let g = decimal(gid as nat);
    let home = "/home/"@ + user;
    lemma_decimal_plain(uid);
    lemma_decimal_plain(gid);
    lemma_contains_add("/home/"@, user, ':');
    reveal_strlit(":");
    assert(":"@ =~= Seq::empty().push(':'));
    assert(!"x"@.contains(':') && ":x:"@ =~= Seq::empty().push(':') + "x"@.push(':')) by {
        reveal_strlit("x");
        reveal_strlit(":x:");
    }
    assert(!"/home/"@.contains(':') && ":/home/"@ =~= Seq::empty().push(':') + "/home/"@) by {
        reveal_strlit("/home/");
        reveal_strlit(":/home/");
    }
    assert(!"/bin/bash"@.contains(':') && ":/bin/bash"@ =~= Seq::empty().push(':')
        + "/bin/bash"@) by {
        reveal_strlit("/bin/bash");
        reveal_strlit(":/bin/bash");
    }
    let nothing = Seq::<char>::empty();
    lemma_split_add(nothing, user, ':');
    assert(nothing + user =~= user);
    assert(fields(nothing, ':').drop_last() =~= Seq::empty());
    let s1 = user.push(':') + "x"@;
    lemma_next_field(user, "x"@);
    let s2 = s1.push(':') + u;
    lemma_next_field(s1, u);
    let s3 = s2.push(':') + g;
    lemma_next_field(s2, g);
    let s4 = s3.push(':') + user;
    lemma_next_field(s3, user);
    let s5 = s4.push(':') + home;
    lemma_next_field(s4, home);
    let s6 = s5.push(':') + "/bin/bash"@;
    lemma_next_field(s5, "/bin/bash"@);
    assert(user + ":x:"@ =~= s1.push(':'));
    assert(s2 + ":"@ =~= s2.push(':'));
    assert(s3 + ":"@ =~= s3.push(':'));
    assert(s4 + ":/home/"@ + user =~= s5);
    assert(s5 + ":/bin/bash"@ =~= s6);
}

/// The line of a new user is a line.
proof fn lemma_passwd_plain(user: Seq<char>, uid: u32, gid: u32)
    requires
        !user.contains('\n'),
    ensures
        plain_line(passwd_line(user, uid, gid)),
{
    let u = decimal(uid as nat);
    let g = decimal(gid as nat);
    lemma_decimal_plain(uid);
    lemma_decimal_plain(gid);
    reveal_strlit(":x:");
    reveal_strlit(":");
    reveal_strlit(":/home/");
    reveal_strlit(":/bin/bash");
    let t1 = user + ":x:"@;
    lemma_contains_add(user, ":x:"@, '\n');
    let t2 = t1 + u;
    lemma_contains_add(t1, u, '\n');
    let t3 = t2 + ":"@;
    lemma_contains_add(t2, ":"@, '\n');
    let t4 = t3 + g;
    lemma_contains_add(t3, g, '\n');
    let t5 = t4 + ":"@;
    lemma_contains_add(t4, ":"@, '\n');
    let t6 = t5 + user;
    lemma_contains_add(t5, user, '\n');
    let t7 = t6 + ":/home/"@;
    lemma_contains_add(t6, ":/home/"@, '\n');
    let t8 = t7 + user;
    lemma_contains_add(t7, user, '\n');
    let t9 = t8 + ":/bin/bash"@;
    lemma_contains_add(t8, ":/bin/bash"@, '\n');
    assert(t9.last() == 'h');
}

/// The line of a new user starts with the name and a colon.
proof fn lemma_passwd_begins(user: Seq<char>, uid: u32, gid: u32)
    ensures
        begins(passwd_line(user, uid, gid), user + ":"@),
{
    reveal_strlit(":x:");
    reveal_strlit(":");
    let line = passwd_line(user, uid, gid);
    let head = user + ":"@;
    assert(line.subrange(0, head.len() as int) =~= head);
}

/// A concatenation holds what either part holds.
proof fn lemma_contains_add(a: Seq<char>, b: Seq<char>, c: char)
    ensures
        (a + b).contains(c) == (a.contains(c) || b.contains(c)),
{
    if (a + b).contains(c) {
        let k = choose|k: int| 0 <= k < (a + b).len() && (a + b)[k] == c;
        if k < a.len() {
            assert(a[k] == c);
        } else {
            assert(b[k - a.len()] == c);
        }
    }
    if a.contains(c) {
        let k = choose|k: int| 0 <= k < a.len() && a[k] == c;
        assert((a + b)[k] == c);
    }
    if b.contains(c) {
        let k = choose|k: int| 0 <= k < b.len() && b[k] == c;
        assert((a + b)[k + a.len()] == c);
    }
}

/// A numeral holds neither a colon nor a line end.
proof fn lemma_decimal_plain(n: u32)
    ensures
        !decimal(n as nat).contains(':'),
        !decimal(n as nat).contains('\n'),
{
    lemma_decimal(n as nat);
    let d = decimal(n as nat);
    if d.contains(':') {
        let k = choose|k: int| 0 <= k < d.len() && d[k] == ':';
        assert(is_digit(d[k]));
    }
    if d.contains('\n') {
        let k = choose|k: int| 0 <= k < d.len() && d[k] == '\n';
        assert(is_digit(d[k]));
    }
}

/// A search that finds nothing among the first lines goes on behind them.
proof fn lemma_search_behind(ls: Seq<Seq<char>>, line: Seq<char>, user: Seq<char>, i: int)
    requires
        0 <= i <= ls.len(),
        forall|j: int| 0 <= j < ls.len() ==> !entry_of(#[trigger] ls[j], user, 4),
        entry_of(line, user, 7),
    ensures
        ids_from(ls.push(line), user, i) == ids_from(ls.push(line), user, ls.len() as int),
        shell_from(ls.push(line), user, i) == (fields(line, ':')[5], fields(line, ':')[6]),
    decreases ls.len() - i,
{
    let all = ls.push(line);
    if i < ls.len() {
        assert(all[i] == ls[i]);
        assert(!entry_of(ls[i], user, 4));
        assert(!entry_of(ls[i], user, 7));
        lemma_search_behind(ls, line, user, i + 1);
    }
}

/// A user who was added to the user table is found there with the numbers, the
/// home directory and the shell that were written, provided that the table was
/// complete and did not have the user before.
pub proof fn law_added_user_is_found(passwd: Seq<char>, user: Seq<char>, uid: u32, gid: u32)
    requires
        complete(passwd),
        plain_name(user),
        forall|j: int|
            0 <= j < lines(passwd).len() ==> !entry_of(#[trigger] lines(passwd)[j], user, 4),
    ensures
        ({
            let after = passwd + passwd_line(user, uid, gid).push('\n');
            &&& guest_ids(after, user) == Some((uid, gid))
            &&& user != "root"@ ==> home_and_shell(Some(after), user) == ("/home/"@ + user, "/bin/bash"@)
        }),
{
    let line = passwd_line(user, uid, gid);
    lemma_passwd_fields(user, uid, gid);
    lemma_passwd_plain(user, uid, gid);
    law_appended_line(passwd, line);
    let parts = fields(line, ':');
    assert(parts.len() == 7);
    assert(entry_of(line, user, 7));
    lemma_search_behind(lines(passwd), line, user, 0);
    law_decimal_reads_back(uid);
    law_decimal_reads_back(gid);
    assert(lines(passwd).push(line)[lines(passwd).len() as int] == line);
}

/// A table of bytes whose last line is complete.
pub open spec fn complete_bytes(table: Seq<u8>) -> bool {
    table.len() == 0 || table.last() == 10u8
}

/// A user who was added to the user table is known there, so that adding the same
/// user once more adds nothing; and where nobody of that name was known before, one
/// line and no other names the user.
pub proof fn law_added_user_is_known(passwd: Seq<u8>, user: Seq<char>, uid: u32, gid: u32)
    requires
        complete_bytes(passwd),
        !user.contains('\n'),
    ensures
        ({
            let after = passwd + encode_utf8(passwd_line(user, uid, gid).push('\n'));
            let ls = lines_by(after, 10u8, 13u8);
            &&& user_known(after, user)
            &&& !user_known(passwd, user) ==> forall|i: int|
                0 <= i < ls.len() ==> (names_user(#[trigger] ls[i], user) <==> i == ls.len() - 1)
        }),
{
    let line = passwd_line(user, uid, gid);
    let after = passwd + encode_utf8(line.push('\n'));
    lemma_passwd_plain(user, uid, gid);
    law_appended_bytes(passwd, line);
    let before = lines_by(passwd, 10u8, 13u8);
    let ls = lines_by(after, 10u8, 13u8);
    let i = before.len() as int;
    assert(ls[i] == encode_utf8(line));
    broadcast use {encode_utf8_valid_utf8, encode_utf8_decode_utf8};

    lemma_passwd_begins(user, uid, gid);
    assert(names_user(ls[i], user));
    assert forall|j: int| 0 <= j < i implies #[trigger] ls[j] == before[j] by {}
}

/// Once a user is in a line of a group, adding the user again changes nothing;
/// the line still is the group's, it lists the user, and it lists everyone whom it
/// listed before, but for a name that ends in a colon.
pub proof fn law_member_is_kept(
    line: Seq<char>,
    user: Seq<char>,
    group: Seq<char>,
    other: Seq<char>,
)
    ensures
        with_member(with_member(line, user, group), user, group) == with_member(line, user, group),
        !lacks(with_member(line, user, group), user, group),
        begins(line, group + ":"@) ==> begins(with_member(line, user, group), group + ":"@)
            && lists(with_member(line, user, group), user),
        !begins(line, group + ":"@) ==> with_member(line, user, group) == line,
        !ends(other, ':') && lists(line, other) ==> lists(with_member(line, user, group), other),
{
    let after = with_member(line, user, group);
    let head = group + ":"@;
    if lacks(line, user, group) {
        reveal_strlit(",");
        reveal_strlit(":");
        let p = after.len() - user.len();
        assert(after.subrange(p, p + user.len()) =~= user);
        assert(listed_at(after, user, p));
        assert(after.subrange(0, head.len() as int) =~= line.subrange(0, head.len() as int));
        assert(stands_at(after, head, 0));
        if !ends(other, ':') && lists(line, other) && other.len() > 0 {
            let q = choose|q: int| #[trigger] listed_at(line, other, q);
            let end = q + other.len();
            assert(after.subrange(q, end) =~= line.subrange(q, end));
            if end == line.len() {
                assert(line.subrange(q, end)[other.len() - 1] == other.last());
            }
            assert(listed_at(after, other, q));
        }
    }
}

/// Losing a carriage return at the end does not make a line lack a user whose
/// name does not end in one.
proof fn lemma_lacks_without_return(line: Seq<char>, user: Seq<char>, group: Seq<char>)
    requires
        !lacks(line, user, group),
        user.len() == 0 || user.last() != '\r',
    ensures
        !lacks(without_last(line, '\r'), user, group),
{
    let short = without_last(line, '\r');
    let head = group + ":"@;
    if short != line {
        if begins(short, head) {
            assert(line.subrange(0, head.len() as int) =~= short.subrange(0, head.len() as int));
            assert(stands_at(line, head, 0));
        }
        if lists(line, user) && user.len() > 0 {
            let p = choose|p: int| #[trigger] listed_at(line, user, p);
            let end = p + user.len();
            assert(line.subrange(p, end)[user.len() - 1] == user.last());
            assert(end < short.len());
            assert(short.subrange(p, end) =~= line.subrange(p, end));
            assert(listed_at(short, user, p));
        }
    }
}

/// Adding a user to a group twice is the same as adding the user once: the table
/// that the first addition wrote needs no other.
pub proof fn law_regrouping_is_idempotent(
    table: Seq<u8>,
    user: Seq<char>,
    group: Seq<char>,
    text: Seq<char>,
)
    requires
        regrouped(table, user, group) == Ok::<Option<Seq<char>>, FaultView>(Some(text)),
        plain_line(user),
    ensures
        regrouped(encode_utf8(text), user, group) == Ok::<Option<Seq<char>>, FaultView>(None),
{
    let raw = lines_by(table, 10u8, 13u8);
    let ls = decoded(raw);
    let after = ls.map_values(|l: Seq<char>| with_member(l, user, group));
    assert forall|i: int| 0 <= i < after.len() implies !(#[trigger] after[i]).contains('\n') by {
        assert(valid_utf8(raw[i]));
        lemma_decoded_line(table, i);
        if lacks(ls[i], user, group) {
            reveal_strlit(",");
            lemma_contains_add(ls[i], user, '\n');
            lemma_contains_add(ls[i], ","@, '\n');
            lemma_contains_add(ls[i] + ","@, user, '\n');
        }
    }
    law_lines_read_back(after);
    law_encoded_lines_decode(text);
    let again = lines_by(encode_utf8(text), 10u8, 13u8);
    let back = after.map_values(|l: Seq<char>| without_last(l, '\r'));
    assert(decoded(again) == back);
    assert forall|i: int| 0 <= i < again.len() implies !lacks(
        #[trigger] decoded(again)[i],
        user,
        group,
    ) by {
        assert(back.len() == again.len());
        law_member_is_kept(ls[i], user, group, user);
        assert(after[i] == with_member(ls[i], user, group));
        lemma_lacks_without_return(after[i], user, group);
        assert(back[i] == without_last(after[i], '\r'));
    }
}

/// The `i`-th line is the first that has at least `width` fields, parted by colons, the
/// first of which is the user's name.
pub open spec fn first_entry(ls: Seq<Seq<char>>, user: Seq<char>, width: int, i: int) -> bool {
    &&& 0 <= i < ls.len()
    &&& fields(ls[i], ':').len() >= width
    &&& fields(ls[i], ':')[0] == user
    &&& forall|j: int|
        0 <= j < i ==> fields(#[trigger] ls[j], ':').len() < width || fields(ls[j], ':')[0] != user
}

/// The numbers of a user are the third and fourth field of the user's first line in the
/// table, if both are numbers; a user who has no line, or whose first line has no
/// numbers, has none.
pub proof fn law_numbers_are_those_of_the_line(passwd: Seq<char>, user: Seq<char>)
    ensures
        forall|i: int| #[trigger]
            first_entry(lines(passwd), user, 4, i) ==> {
                let parts = fields(lines(passwd)[i], ':');
                &&& number(parts[2]) is Some && number(parts[3]) is Some ==> guest_ids(passwd, user)
                    == Some((number(parts[2])->0, number(parts[3])->0))
                &&& number(parts[2]) is None || number(parts[3]) is None ==> guest_ids(
                    passwd,
                    user,
                ) is None
            },
        (forall|i: int| !#[trigger] first_entry(lines(passwd), user, 4, i)) ==> guest_ids(
            passwd,
            user,
        ) is None,
{
    let ls = lines(passwd);
    let k = lemma_ids_from(ls, user, 0);
    assert forall|i: int| #[trigger] first_entry(ls, user, 4, i) implies i == k by {
        if i < k {
            assert(!entry_of(ls[i], user, 4));
        }
        if k < i && k < ls.len() {
            assert(fields(ls[k], ':').len() < 4 || fields(ls[k], ':')[0] != user);
        }
    }
    if k < ls.len() {
        assert(first_entry(ls, user, 4, k));
    }
}

/// Where a search for a user's numbers stops.
proof fn lemma_ids_from(ls: Seq<Seq<char>>, user: Seq<char>, i: int) -> (k: int)
    requires
        0 <= i <= ls.len(),
    ensures
        i <= k <= ls.len(),
        forall|j: int| i <= j < k ==> !entry_of(#[trigger] ls[j], user, 4),
        k < ls.len() ==> entry_of(ls[k], user, 4),
        ids_from(ls, user, i) == ids_from(ls, user, k),
    decreases ls.len() - i,
{
    if i < ls.len() && !entry_of(ls[i], user, 4) {
        lemma_ids_from(ls, user, i + 1)
    } else {
        i
    }
}

/// Where a search for a user's home stops.
proof fn lemma_shell_from(ls: Seq<Seq<char>>, user: Seq<char>, i: int) -> (k: int)
    requires
        0 <= i <= ls.len(),
    ensures
        i <= k <= ls.len(),
        forall|j: int| i <= j < k ==> !entry_of(#[trigger] ls[j], user, 7),
        k < ls.len() ==> entry_of(ls[k], user, 7),
        shell_from(ls, user, i) == shell_from(ls, user, k),
    decreases ls.len() - i,
{
    if i < ls.len() && !entry_of(ls[i], user, 7) {
        lemma_shell_from(ls, user, i + 1)
    } else {
        i
    }
}

/// A user's home and shell as a table of users tells them: those of the user's first
/// complete line; the superuser, and a user without one, has `/root` and `/bin/bash`.
pub open spec fn dwells(
    passwd: Seq<char>,
    user: Seq<char>,
    home: Seq<char>,
    shell: Seq<char>,
) -> bool {
    ||| exists|i: int|
        user != "root"@ && #[trigger] first_entry(lines(passwd), user, 7, i) && home == fields(
            lines(passwd)[i],
            ':',
        )[5] && shell == fields(lines(passwd)[i], ':')[6]
    ||| {
        &&& user == "root"@ || forall|i: int| !#[trigger] first_entry(lines(passwd), user, 7, i)
        &&& home == "/root"@
        &&& shell == "/bin/bash"@
    }
}

/// The home and the shell of a user are those that the table tells, and without a table
/// they are the superuser's.
pub proof fn law_home_is_that_of_the_line(passwd: Seq<char>, user: Seq<char>)
    ensures
        dwells(
            passwd,
            user,
            home_and_shell(Some(passwd), user).0,
            home_and_shell(Some(passwd), user).1,
        ),
        home_and_shell(None, user) == ("/root"@, "/bin/bash"@),
        home_and_shell(Some(passwd), "root"@) == ("/root"@, "/bin/bash"@),
{
    let ls = lines(passwd);
    let k = lemma_shell_from(ls, user, 0);
    if k < ls.len() {
        assert(first_entry(ls, user, 7, k));
    } else {
        assert forall|i: int| !#[trigger] first_entry(ls, user, 7, i) by {
            if 0 <= i < ls.len() {
                assert(!entry_of(ls[i], user, 7));
            }
        }
    }
}

/// Who runs the program is the user who called `sudo`, with the numbers that `sudo` tells,
/// where it tells a name and two numbers; else it is the user of the process with the
/// numbers of the process. The numbers never come from both.
pub proof fn law_host_user_is_the_caller(
    caller: Option<Seq<char>>,
    u: Option<Seq<char>>,
    g: Option<Seq<char>>,
    user: Option<Seq<char>>,
    uid: u32,
    gid: u32,
)
    ensures
        ({
            let who = host_user(caller, u, g, user, uid, gid);
            let told = caller is Some && (u matches Some(x) && number(x) is Some) && (g matches
                Some(y) && number(y) is Some);
            &&& told ==> Some(who.0) == caller && Some(who.1) == number(u->0) && Some(who.2)
                == number(g->0)
            &&& !told ==> who.1 == uid && who.2 == gid
            &&& !told && user is Some ==> Some(who.0) == user
            &&& !told && user is None ==> who.0 == "root"@
        }),
{
}

/// The home of who runs the program is that of the user who called `sudo`, below `/home`;
/// without one it is what the host says, and `/root` where it says nothing.
pub proof fn law_home_is_the_callers(caller: Seq<char>, home: Seq<char>, other: Option<Seq<char>>)
    ensures
        home_of(Some(caller), other) == "/home/"@ + caller,
        home_of(None, Some(home)) == home,
        home_of(None, None) == "/root"@,
{
}

/// The line that is added for a user has seven fields: the name, no password, the user's
/// number, the group's number, the name once more, the home below `/home` and the shell.
pub proof fn law_added_line_is_complete(user: Seq<char>, uid: u32, gid: u32)
    requires
        !user.contains(':'),
    ensures
        ({
            let parts = fields(passwd_line(user, uid, gid), ':');
            &&& parts.len() == 7
            &&& parts[0] == user
            &&& parts[1] == "x"@
            &&& number(parts[2]) == Some(uid)
            &&& number(parts[3]) == Some(gid)
            &&& parts[4] == user
            &&& parts[5] == "/home/"@ + user
            &&& parts[6] == "/bin/bash"@
        }),
{
    lemma_passwd_fields(user, uid, gid);
    law_decimal_reads_back(uid);
    law_decimal_reads_back(gid);
}

/// Adding a user to a group changes the lines of that group that do not list the user, and
/// no other; such a line keeps all it has and ends in the user's name, with a comma before
/// it unless the line ended in a colon. The lines keep their order and their number, and
/// the table is written exactly if a line changes.
pub proof fn law_only_the_group_changes(table: Seq<u8>, user: Seq<char>, group: Seq<char>)
    requires
        readable(lines_by(table, 10u8, 13u8)),
        user.len() > 0,
    ensures
        ({
            let ls = decoded(lines_by(table, 10u8, 13u8));
            match regrouped(table, user, group) {
                Ok(Some(text)) => exists|after: Seq<Seq<char>>|
                    text == #[trigger] unlines(after) && after.len() == ls.len() && forall|i: int|
                        0 <= i < ls.len() ==> #[trigger] after[i] == if begins(
                            ls[i],
                            group + ":"@,
                        ) && !member_of(ls[i], user) {
                            if ls[i].last() == ':' {
                                ls[i] + user
                            } else {
                                ls[i] + ","@ + user
                            }
                        } else {
                            ls[i]
                        },
                Ok(None) => forall|i: int|
                    0 <= i < ls.len() ==> !begins(#[trigger] ls[i], group + ":"@) || member_of(
                        ls[i],
                        user,
                    ),
                Err(f) => false,
            }
        }),
{
    let ls = decoded(lines_by(table, 10u8, 13u8));
    reveal_strlit(":");
    assert forall|i: int| 0 <= i < ls.len() implies lists(#[trigger] ls[i], user) == member_of(
        ls[i],
        user,
    ) by {
        lemma_member_of(ls[i], user);
    }
    let after = ls.map_values(|l: Seq<char>| with_member(l, user, group));
    if exists|i: int| 0 <= i < ls.len() && lacks(#[trigger] ls[i], user, group) {
        assert(regrouped(table, user, group) == Ok::<Option<Seq<char>>, FaultView>(
            Some(unlines(after)),
        ));
        assert forall|i: int| 0 <= i < ls.len() && begins(ls[i], group + ":"@) implies (
        #[trigger] ls[i]).len() > 0 by {}
    }
}

/// A name stands in a line of the group table as a member does: behind a colon or a comma,
/// and before a comma or the end.
pub open spec fn member_of(line: Seq<char>, user: Seq<char>) -> bool {
    exists|p: int|
        0 < p && #[trigger] stands_at(line, user, p) && (line[p - 1] == ':' || line[p - 1] == ',')
            && (p + user.len() == line.len() || line[p + user.len()] == ',')
}

proof fn lemma_member_of(line: Seq<char>, user: Seq<char>)
    requires
        user.len() > 0,
    ensures
        lists(line, user) == member_of(line, user),
{
    if lists(line, user) {
        let p = choose|p: int| #[trigger] listed_at(line, user, p);
        assert(stands_at(line, user, p));
    }
    if member_of(line, user) {
        let p = choose|p: int|
            0 < p && #[trigger] stands_at(line, user, p) && (line[p - 1] == ':' || line[p - 1]
                == ',') && (p + user.len() == line.len() || line[p + user.len()] == ',');
        assert(listed_at(line, user, p));
    }
}

/// A user is known exactly if a readable line of the table starts with the user's name and
/// a colon.
pub proof fn law_known_by_the_name(passwd: Seq<u8>, user: Seq<char>)
    ensures
        ({
            let ls = lines_by(passwd, 10u8, 13u8);
            user_known(passwd, user) <==> exists|i: int|
                0 <= i < ls.len() && valid_utf8(#[trigger] ls[i]) && starts_so(
                    decode_utf8(ls[i]),
                    user,
                )
        }),
{
    reveal_strlit(":");
    let ls = lines_by(passwd, 10u8, 13u8);
    assert forall|i: int| 0 <= i < ls.len() implies (names_user(#[trigger] ls[i], user) <==> (
    valid_utf8(ls[i]) && starts_so(decode_utf8(ls[i]), user))) by {
        let line = decode_utf8(ls[i]);
        let n = user.len() as int;
        if begins(line, user + ":"@) {
            assert((user + ":"@)[n] == ':');
            assert(line.subrange(0, n + 1)[n] == line[n]);
            assert(line.subrange(0, n) =~= (user + ":"@).subrange(0, n));
            assert((user + ":"@).subrange(0, n) =~= user);
        }
        if starts_so(line, user) {
            assert(line.subrange(0, n + 1) =~= user + ":"@);
        }
    }
    if user_known(passwd, user) {
        let i = choose|i: int| 0 <= i < ls.len() && names_user(#[trigger] ls[i], user);
        assert(valid_utf8(ls[i]));
    }
}

/// A line starts with a name and a colon.
pub open spec fn starts_so(line: Seq<char>, user: Seq<char>) -> bool {
    user.len() < line.len() && line.subrange(0, user.len() as int) == user && line[user.len() as int]
        == ':'
}

/// A table that is no text is an error, whatever group and user are meant.
pub proof fn law_unreadable_table_is_an_error(table: Seq<u8>, user: Seq<char>, group: Seq<char>)
    requires
        !readable(lines_by(table, 10u8, 13u8)),
    ensures
        regrouped(table, user, group) matches Err(f) && f.kind == FaultKind::InvalidData,
{
}

/// The lines are written one after the other, each with its end.
pub proof fn law_lines_are_written_in_order(ls: Seq<Seq<char>>, line: Seq<char>)
    ensures
        unlines(Seq::empty()) == Seq::<char>::empty(),
        unlines(ls.push(line)) == unlines(ls) + line + "\n"@,
{
    reveal_strlit("\n");
    assert(ls.push(line).drop_last() =~= ls);
    assert(unlines(ls) + line.push('\n') =~= unlines(ls) + line + "\n"@);
}

/// The lines that are added for a user, whatever the name, hold the user's own numbers, each
/// in its place, and no password: the user's number and then the group's in the user table,
/// and the group's in the group table.
pub proof fn law_added_lines_hold_the_numbers(user: Seq<char>, uid: u32, gid: u32)
    ensures
        begins(
            passwd_line(user, uid, gid),
            user + ":x:"@ + decimal(uid as nat) + ":"@ + decimal(gid as nat) + ":"@,
        ),
        closes(passwd_line(user, uid, gid), user + ":/home/"@ + user + ":/bin/bash"@),
        group_line(user, gid) == user + ":x:"@ + decimal(gid as nat) + ":"@,
        shadow_line(user) == user + ":*:19000:0:99999:7:::"@,
{
    let head = user + ":x:"@ + decimal(uid as nat) + ":"@ + decimal(gid as nat) + ":"@;
    let tail = user + ":/home/"@ + user + ":/bin/bash"@;
    assert(passwd_line(user, uid, gid) =~= head + tail);
    law_parts_are_found(Seq::empty(), head, tail);
    law_parts_are_found(head, tail, Seq::empty());
}

} // verus!
