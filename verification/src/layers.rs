//! The layers of a guest's file system.
//!
//! The root file system that a distribution came with is the lower layer; what
//! changes goes to another directory, and the guest sees both as one.
use vstd::prelude::*;

use crate::action::{ActionOf, ActionView, MountFlags};
use crate::boot::{
    adjust_steps, home_steps, inside_steps, kernel_steps, overlay_options, prepare_steps,
    share_steps, stack_steps,
};
use crate::config::{distro_dir, distro_path, merged_path};
use crate::path::path_join;
use crate::provision::identity_steps;
use crate::session::hook_file;
use crate::task::StepView;
use crate::text::{begins, decimal, is_digit, lemma_decimal};

verus! {

/// A path that is a directory or lies in it.
pub open spec fn below(path: Seq<char>, dir: Seq<char>) -> bool {
    path == dir || begins(path, dir.push('/'))
}

/// The path that an action changes, if it changes one.
pub open spec fn touched(action: ActionView) -> Option<Seq<char>> {
    match action {
        ActionOf::CreateDirs { path } => Some(path),
        ActionOf::CreateFile { path } => Some(path),
        ActionOf::WriteText { path, text } => Some(path),
        ActionOf::AppendText { path, text } => Some(path),
        ActionOf::RemoveFile { path } => Some(path),
        ActionOf::RemoveDir { path } => Some(path),
        ActionOf::RemoveTree { path } => Some(path),
        ActionOf::SetMode { path, mode } => Some(path),
        ActionOf::SetOwner { path, uid, gid } => Some(path),
        ActionOf::StoreConfig { path, config } => Some(path),
        ActionOf::Mount { source, target, fstype, flags, data } => Some(target),
        _ => None,
    }
}

/// Steps that change nothing in a directory.
pub open spec fn spares(steps: Seq<StepView>, dir: Seq<char>) -> bool {
    forall|i: int|
        0 <= i < steps.len() ==> (touched((#[trigger] steps[i]).action) matches Some(p) ==> !below(
            p,
            dir,
        ))
}

/// The directory with a slash behind it.
spec fn stem(dir: Seq<char>) -> Seq<char> {
    if dir.len() == 0 || dir.last() == '/' {
        dir
    } else {
        dir.push('/')
    }
}

/// A path into another part of the distribution's directory than the root file
/// system.
spec fn apart(name: Seq<char>, path: Seq<char>) -> bool {
    let n = stem(distro_dir(name)).len() as int;
    path.len() > n && path[n] != 'r'
}

/// A relative path.
spec fn relative(part: Seq<char>) -> bool {
    part.len() > 0 && part[0] != '/'
}

/// Such a path does not lead into the root file system.
proof fn lemma_apart(name: Seq<char>, path: Seq<char>)
    requires
        apart(name, path),
    ensures
        !below(path, distro_path(name, "rootfs"@)),
{
    reveal_strlit("rootfs");
    let base = stem(distro_dir(name));
    let root = distro_path(name, "rootfs"@);
    assert(root =~= base + "rootfs"@);
    let n = base.len() as int;
    assert(root[n] == 'r');
    if begins(path, root.push('/')) {
        assert(path[n] == root.push('/')[n]);
    }
}

/// A part of the distribution's directory that is not the root file system.
proof fn lemma_part(name: Seq<char>, part: Seq<char>)
    requires
        relative(part),
        part[0] != 'r',
    ensures
        apart(name, distro_path(name, part)),
{
    let base = stem(distro_dir(name));
    assert(distro_path(name, part) =~= base + part);
}

/// What lies below such a path is such a path too.
proof fn lemma_within(name: Seq<char>, path: Seq<char>, part: Seq<char>)
    requires
        apart(name, path),
        relative(part),
    ensures
        apart(name, path_join(path, part)),
{
    let n = stem(distro_dir(name)).len() as int;
    assert(path_join(path, part)[n] == path[n]);
}

/// The files of the guest, seen through the layers, are no files of the root file
/// system.
proof fn lemma_merged(name: Seq<char>, part: Seq<char>)
    requires
        relative(part),
    ensures
        apart(name, merged_path(name, part)),
{
    reveal_strlit("merged");
    lemma_part(name, "merged"@);
    lemma_within(name, distro_path(name, "merged"@), part);
}

/// The parts of the distribution's directory that are written to.
proof fn lemma_parts(name: Seq<char>)
    ensures
        apart(name, distro_path(name, "diff"@)),
        apart(name, distro_path(name, "work"@)),
        apart(name, distro_path(name, "merged"@)),
        apart(name, path_join(distro_path(name, "diff"@), "etc/hostname"@)),
{
    reveal_strlit("diff");
    reveal_strlit("work");
    reveal_strlit("merged");
    reveal_strlit("etc/hostname");
    lemma_part(name, "diff"@);
    lemma_part(name, "work"@);
    lemma_part(name, "merged"@);
    lemma_within(name, distro_path(name, "diff"@), "etc/hostname"@);
}

/// The files of the guest that are written to.
proof fn lemma_files(name: Seq<char>, uid: u32)
    ensures
        apart(name, merged_path(name, "bin/ping"@)),
        apart(name, merged_path(name, "usr/bin/ping"@)),
        apart(name, merged_path(name, "etc/sudoers.d"@)),
        apart(name, merged_path(name, "proc"@)),
        apart(name, merged_path(name, "sys"@)),
        apart(name, merged_path(name, "dev"@)),
        apart(name, merged_path(name, "tmp"@)),
        apart(name, merged_path(name, "run"@)),
        apart(name, merged_path(name, "mnt/host"@)),
        apart(name, merged_path(name, "etc"@)),
        apart(name, merged_path(name, ".old_root"@)),
        apart(name, merged_path(name, "etc/hostname"@)),
        apart(name, merged_path(name, "etc/hosts"@)),
        apart(name, path_join(merged_path(name, "etc/sudoers.d"@), "lsl-sudoers"@)),
        apart(name, path_join(merged_path(name, "dev"@), "pts"@)),
        apart(name, path_join(merged_path(name, "tmp"@), ".X11-unix"@)),
        apart(name, path_join(merged_path(name, "run"@), "user"@)),
        apart(name, path_join(merged_path(name, "etc"@), "resolv.conf"@)),
        apart(name, path_join(path_join(merged_path(name, "run"@), "user"@), decimal(uid as nat))),
{
    reveal_strlit("bin/ping");
    lemma_merged(name, "bin/ping"@);
    reveal_strlit("usr/bin/ping");
    lemma_merged(name, "usr/bin/ping"@);
    reveal_strlit("etc/sudoers.d");
    lemma_merged(name, "etc/sudoers.d"@);
    reveal_strlit("proc");
    lemma_merged(name, "proc"@);
    reveal_strlit("sys");
    lemma_merged(name, "sys"@);
    reveal_strlit("dev");
    lemma_merged(name, "dev"@);
    reveal_strlit("tmp");
    lemma_merged(name, "tmp"@);
    reveal_strlit("run");
    lemma_merged(name, "run"@);
    reveal_strlit("mnt/host");
    lemma_merged(name, "mnt/host"@);
    reveal_strlit("etc");
    lemma_merged(name, "etc"@);
    reveal_strlit(".old_root");
    lemma_merged(name, ".old_root"@);
    reveal_strlit("etc/hostname");
    lemma_merged(name, "etc/hostname"@);
    reveal_strlit("etc/hosts");
    lemma_merged(name, "etc/hosts"@);
    reveal_strlit("lsl-sudoers");
    lemma_within(name, merged_path(name, "etc/sudoers.d"@), "lsl-sudoers"@);
    reveal_strlit("pts");
    lemma_within(name, merged_path(name, "dev"@), "pts"@);
    reveal_strlit(".X11-unix");
    lemma_within(name, merged_path(name, "tmp"@), ".X11-unix"@);
    reveal_strlit("user");
    lemma_within(name, merged_path(name, "run"@), "user"@);
    reveal_strlit("resolv.conf");
    lemma_within(name, merged_path(name, "etc"@), "resolv.conf"@);
    let d = decimal(uid as nat);
    lemma_decimal(uid as nat);
    assert(is_digit(d[0]));
    lemma_within(name, path_join(merged_path(name, "run"@), "user"@), d);
}

// ------------------------------------------------------------------------- laws

/// The root file system that a distribution came with stays as it is: neither
/// putting the guest's file system together, nor what the guest's init process
/// mounts, nor setting the guest up changes anything in it.
pub proof fn law_base_is_untouched(name: Seq<char>, uid: u32, hostname: Seq<char>)
    ensures
        spares(prepare_steps(name), distro_path(name, "rootfs"@)),
        spares(inside_steps(name, uid, hostname), distro_path(name, "rootfs"@)),
        spares(identity_steps(name, hostname), distro_path(name, "rootfs"@)),
{
    lemma_parts(name);
    lemma_files(name, uid);
    assert forall|p: Seq<char>| #[trigger] apart(name, p) implies !below(
        p,
        distro_path(name, "rootfs"@),
    ) by {
        lemma_apart(name, p);
    }
    let root = distro_path(name, "rootfs"@);
    assert(spares(stack_steps(name), root));
    assert(spares(adjust_steps(name), root));
    lemma_spares_add(stack_steps(name), adjust_steps(name), root);
    assert(spares(kernel_steps(name, hostname), root));
    assert(spares(share_steps(name, uid), root));
    assert(spares(home_steps(name), root));
    lemma_spares_add(kernel_steps(name, hostname), share_steps(name, uid), root);
    lemma_spares_add(
        kernel_steps(name, hostname) + share_steps(name, uid),
        home_steps(name),
        root,
    );
}

/// Two lists of steps that spare a directory spare it one after the other.
proof fn lemma_spares_add(a: Seq<StepView>, b: Seq<StepView>, dir: Seq<char>)
    requires
        spares(a, dir),
        spares(b, dir),
    ensures
        spares(a + b, dir),
{
    let all = a + b;
    assert forall|i: int| 0 <= i < all.len() implies (touched((#[trigger] all[i]).action) matches Some(
        p,
    ) ==> !below(p, dir)) by {
        if i < a.len() {
            assert(all[i] == a[i]);
        } else {
            assert(all[i] == b[i - a.len()]);
        }
    }
}

/// Nor does the login hook lie in the root file system.
pub proof fn law_hook_spares_the_base(name: Seq<char>)
    ensures
        !below(hook_file(name), distro_path(name, "rootfs"@)),
{
    reveal_strlit("etc/profile.d");
    reveal_strlit("fastfetch.sh");
    lemma_merged(name, "etc/profile.d"@);
    lemma_within(name, merged_path(name, "etc/profile.d"@), "fastfetch.sh"@);
    lemma_apart(name, hook_file(name));
}

/// What the guest changes is kept apart: the file system is put together from the
/// root file system below and the directory of changes above, and from nothing
/// else.
pub proof fn law_changes_go_to_the_upper_layer(name: Seq<char>)
    ensures
        prepare_steps(name)[5].action == (ActionView::Mount {
            source: Some("overlay"@),
            target: distro_path(name, "merged"@),
            fstype: Some("overlay"@),
            flags: MountFlags::Plain,
            data: Some(overlay_options(name)),
        }),
        forall|i: int|
            0 <= i < prepare_steps(name).len() && i != 5 ==> !((#[trigger] prepare_steps(
                name,
            )[i]).action is Mount),
{
}

} // verus!
