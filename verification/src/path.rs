//! Unix paths as text.
use vstd::prelude::*;

use crate::text::{
    chars_of, fields, joined, law_join_fields, lemma_fields_behind, same, split_fields, texts,
};

verus! {

/// The path that `part` names when it is looked up from `base`: an absolute
/// part stands for itself, a relative one is put behind the base.
pub open spec fn path_join(base: Seq<char>, part: Seq<char>) -> Seq<char> {
    if part.len() > 0 && part[0] == '/' {
        part
    } else if base.len() == 0 || base.last() == '/' {
        base + part
    } else {
        base.push('/') + part
    }
}

/// Joins two paths.
pub fn join_path(base: &str, part: &str) -> (r: String)
    ensures
        r@ == path_join(base@, part@),
{
    let head: Vec<char> = chars_of(base);
    let tail: Vec<char> = chars_of(part);
    let n: usize = head.len();
    if tail.len() > 0 && tail[0] == '/' {
        part.to_owned()
    } else if n == 0 || head[n - 1] == '/' {
        let b: String = base.to_owned();
        b.concat(part)
    } else {
        let mut b: String = base.to_owned();
        b.push('/');
        b.concat(part)
    }
}

/// A relative part stays below the base: the base, followed by a slash where it
/// does not end in one, is the start of the joined path.
pub proof fn law_relative_part_stays_below(base: Seq<char>, part: Seq<char>)
    requires
        part.len() == 0 || part[0] != '/',
    ensures
        path_join(base, part).len() >= base.len(),
        path_join(base, part).take(base.len() as int) == base,
        base.len() > 0 && base.last() != '/' ==> path_join(base, part)[base.len() as int] == '/',
{
    assert(path_join(base, part).take(base.len() as int) =~= base);
}

/// A part of a path that names nothing: an empty one, between two slashes, or a dot.
pub open spec fn idle(part: Seq<char>) -> bool {
    part.len() == 0 || part == "."@
}

/// A path that starts at the root and whose first component is `home`. Slashes may
/// be repeated, and parts that name nothing do not count.
pub open spec fn under_home(path: Seq<char>) -> bool {
    let parts = fields(path, '/');
    path.len() > 0 && path[0] == '/' && exists|k: int|
        0 <= k < parts.len() && #[trigger] parts[k] == "home"@ && forall|j: int|
            0 <= j < k ==> idle(#[trigger] parts[j])
}

/// Tells whether a path is `/home` or lies below it.
pub fn is_under_home(path: &str) -> (r: bool)
    ensures
        r == under_home(path@),
{
    let head: Vec<char> = chars_of(path);
    if head.len() == 0 || head[0] != '/' {
        return false;
    }
    let parts: Vec<String> = split_fields(path, '/');
    let ghost all = fields(path@, '/');
    assert(all.len() == parts@.len());
    let mut i: usize = 0;
    while i < parts.len()
        invariant
            i <= parts@.len(),
            texts(parts@) == all,
            all == fields(path@, '/'),
            all.len() == parts@.len(),
            path@.len() > 0 && path@[0] == '/',
            forall|j: int| 0 <= j < i ==> idle(#[trigger] all[j]),
        decreases parts@.len() - i,
    {
        assert(texts(parts@)[i as int] == parts@[i as int]@);
        let part: &str = parts[i].as_str();
        proof {
            reveal_strlit("home");
            reveal_strlit(".");
            assert("home"@[1] != "."@[0]);
        }
        if same(part, "home") {
            assert(all[i as int] == "home"@);
            return true;
        }
        if !part.is_empty() && !same(part, ".") {
            assert(!idle(all[i as int]));
            return false;
        }
        i = i + 1;
    }
    proof {
        reveal_strlit("home");
        reveal_strlit(".");
    }
    false
}

/// An absolute part stands for itself; any other is put behind the base, with one slash
/// between them where the base does not end in one.
pub proof fn law_paths_are_joined(base: Seq<char>, part: Seq<char>)
    ensures
        part.len() > 0 && part[0] == '/' ==> path_join(base, part) == part,
        (part.len() == 0 || part[0] != '/') && base.len() > 0 && base.last() != '/' ==> path_join(
            base,
            part,
        ) == base + "/"@ + part,
        (part.len() == 0 || part[0] != '/') && (base.len() == 0 || base.last() == '/')
            ==> path_join(base, part) == base + part,
{
    reveal_strlit("/");
    assert(base.push('/') + part =~= base + "/"@ + part);
}

/// A path lies below `/home` if and only if its first component is `home`: slashes may be
/// repeated and dots may stand in between, but no other component may come first, and a
/// path that does not start at the root never lies there.
pub proof fn law_below_home(part: Seq<char>, rest: Seq<char>)
    requires
        !part.contains('/'),
    ensures
        rest.len() == 0 || rest[0] != '/' ==> !under_home(rest),
        under_home("/home"@),
        under_home("/home/"@ + rest),
        part.len() > 0 && part != "."@ && part != "home"@ ==> !under_home(
            Seq::empty().push('/') + part.push('/') + rest,
        ) && !under_home(Seq::empty().push('/') + part),
        part.len() == 0 || part == "."@ ==> (under_home(
            Seq::empty().push('/') + part.push('/') + rest,
        ) <==> under_home(Seq::empty().push('/') + rest)),
{
    reveal_strlit("/home");
    reveal_strlit("home");
    reveal_strlit("/home/");
    reveal_strlit(".");
    let nothing = Seq::<char>::empty();
    let slash = nothing.push('/');
    let home = "home"@;
    assert(!home.contains('/'));
    lemma_front_fields(home, rest);
    lemma_front_fields(part, rest);
    assert("/home/"@ + rest =~= slash + home.push('/') + rest);
    assert("/home"@ =~= slash + home);
    let f = fields("/home"@, '/');
    assert(f[1] == home && idle(f[0]));
    let g = fields("/home/"@ + rest, '/');
    assert(g[1] == home && idle(g[0]));
    let deep = slash + part.push('/') + rest;
    let flat = slash + part;
    let parts = fields(deep, '/');
    assert(parts[0] == nothing && parts[1] == part);
    let few = fields(flat, '/');
    assert(few[0] == nothing && few[1] == part);
    let short = slash + rest;
    let left = fields(short, '/');
    assert(deep[0] == '/' && flat[0] == '/' && short[0] == '/');
    if part.len() == 0 || part == "."@ {
        assert(parts.len() == left.len() + 1);
        assert forall|j: int| 1 <= j < left.len() implies #[trigger] left[j] == parts[j + 1] by {}
        if under_home(deep) {
            let k = choose|k: int|
                0 <= k < parts.len() && #[trigger] parts[k] == home && forall|j: int|
                    0 <= j < k ==> idle(#[trigger] parts[j]);
            assert(k >= 2);
            assert(left[k - 1] == home);
            assert forall|j: int| 0 <= j < k - 1 implies idle(#[trigger] left[j]) by {
                assert(idle(parts[j + 1]));
            }
        }
        if under_home(short) {
            let k = choose|k: int|
                0 <= k < left.len() && #[trigger] left[k] == home && forall|j: int|
                    0 <= j < k ==> idle(#[trigger] left[j]);
            assert(k >= 1);
            assert(parts[k + 1] == home);
            assert forall|j: int| 0 <= j < k + 1 implies idle(#[trigger] parts[j]) by {
                if j >= 2 {
                    assert(idle(left[j - 1]));
                }
            }
        }
    } else if part != home {
        if under_home(deep) {
            let k = choose|k: int|
                0 <= k < parts.len() && #[trigger] parts[k] == home && forall|j: int|
                    0 <= j < k ==> idle(#[trigger] parts[j]);
            assert(k >= 2);
            assert(idle(parts[1]));
        }
        if under_home(flat) {
            let k = choose|k: int|
                0 <= k < few.len() && #[trigger] few[k] == home && forall|j: int|
                    0 <= j < k ==> idle(#[trigger] few[j]);
            assert(few.len() == 2);
        }
    }
}

/// The fields of a path that starts with a component.
proof fn lemma_front_fields(part: Seq<char>, rest: Seq<char>)
    requires
        !part.contains('/'),
    ensures
        ({
            let nothing = Seq::<char>::empty();
            let slash = nothing.push('/');
            &&& fields(slash + part.push('/') + rest, '/') == Seq::empty().push(nothing).push(part)
                + fields(rest, '/')
            &&& fields(slash + part, '/') == Seq::empty().push(nothing).push(part)
            &&& fields(slash + rest, '/') == Seq::empty().push(nothing) + fields(rest, '/')
        }),
{
    let nothing = Seq::<char>::empty();
    let slash = nothing.push('/');
    let one = Seq::empty().push(nothing);
    let two = one.push(part);
    assert(!nothing.contains('/'));
    assert(two.drop_last() =~= one);
    assert(joined(one, '/') == nothing);
    assert(joined(two, '/') =~= slash + part);
    lemma_fields_behind(two, rest, '/');
    assert((slash + part).push('/') + rest =~= slash + part.push('/') + rest);
    lemma_fields_behind(one, rest, '/');
    assert(nothing.push('/') + rest =~= slash + rest);
    law_join_fields(two, '/');
}

} // verus!
