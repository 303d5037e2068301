//! Installing, importing and removing distributions.
use vstd::prelude::*;
use vstd::utf8::{decode_utf8, valid_utf8};

use crate::accounts::{
    add_user_to_guest_group, format_group_line, format_passwd_line, format_shadow_line, group_line,
    is_user_known, not_text, passwd_line, regrouped, shadow_line, user_known,
};
use crate::action::{
    command, fault, line, no_words, run, words, Action, ActionOf, ActionView, Fault, FaultKind,
    FaultOf, FaultView, Reply, ReplyOf, ReplyView, Style, ValueOf,
};
use crate::config::{
    config_file, distro_dir, distro_path, get_distro_dir, get_distro_path, law_forget_coherent,
    law_insert, law_register_coherent, lookup, registered, save_steps, ConfigView, DistroConfig,
    DistroView, GlobalConfig, LSL_DIR,
};
use crate::path::{join_path, path_join};
use crate::task::{
    after_replies, attempt, checked, entered, failing, giving, guarded, must, no_steps, pending,
    started, stray, take_stray, turned, Plan, StepView, Steps, Task, TaskView, Turn, TurnOf,
    TurnView,
};
use crate::text::{
    begins, closes, decimal, decode, fields, format_decimal, inner, is_before, joined,
    law_fields_join, law_parts_are_found, law_texts_are_ordered, lemma_fields_behind,
    lemma_joined_add, lines_by, precedes, same, split_byte_lines, split_fields, starts_with, texts,
};

verus! {

// ------------------------------------------------------------------ image index

/// A readable line of the index that lists the image wanted.
pub open spec fn lists_kali(text: Seq<char>) -> bool {
    begins(text, "kali;current;amd64;default;"@) && fields(text, ';').len() >= 6
}

/// An image that a line of the index lists: when it was built, and where it is.
pub struct ImageOf<T> {
    pub date: T,
    pub path: T,
}

pub type Image = ImageOf<String>;

pub type ImageView = ImageOf<Seq<char>>;

impl View for Image {
    type V = ImageView;

    open spec fn view(&self) -> ImageView {
        ImageOf { date: self.date@, path: self.path@ }
    }
}

/// The image that a line lists.
pub open spec fn image_of(text: Seq<char>) -> ImageView {
    ImageOf { date: fields(text, ';')[4], path: fields(text, ';')[5] }
}

/// The later of two images; of two that are as old as each other, the first.
pub open spec fn later(best: Option<ImageView>, image: ImageView) -> ImageView {
    match best {
        Some(b) => if precedes(b.date, image.date) {
            image
        } else {
            b
        },
        None => image,
    }
}

/// The path of the latest image, from line `i` on, where `best` is the latest before
/// it. A line that is no text is an error as long as no image was found, and is
/// passed over afterwards.
pub open spec fn image_from(ls: Seq<Seq<u8>>, i: int, best: Option<ImageView>) -> Result<
    Seq<char>,
    FaultView,
>
    decreases ls.len() - i,
{
    if i < 0 || i >= ls.len() {
        match best {
            Some(b) => Ok(b.path),
            None => Err(
                FaultOf {
                    kind: FaultKind::NotFound,
                    message: "Kali amd64 default image not found in index-system"@,
                },
            ),
        }
    } else if !valid_utf8(ls[i]) {
        if best is None {
            Err(not_text())
        } else {
            image_from(ls, i + 1, best)
        }
    } else if lists_kali(decode_utf8(ls[i])) {
        image_from(ls, i + 1, Some(later(best, image_of(decode_utf8(ls[i])))))
    } else {
        image_from(ls, i + 1, best)
    }
}

/// The path of the latest image in the index.
pub open spec fn image_path(index: Seq<u8>) -> Result<Seq<char>, FaultView> {
    image_from(lines_by(index, 10u8, 13u8), 0, None)
}

/// Keeps the later of two images.
fn keep_later(best: Option<Image>, image: Image) -> (r: Image)
    ensures
        r@ == later(
            match best {
                Some(b) => Some(b@),
                None => None,
            },
            image@,
        ),
{
    match best {
        Some(b) => if is_before(b.date.as_str(), image.date.as_str()) {
            image
        } else {
            b
        },
        None => image,
    }
}

/// Finds the path of the latest image in the index.
pub fn get_latest_kali_path(index: &[u8]) -> (r: Result<String, Fault>)
    ensures
        match r {
            Ok(path) => image_path(index@) == Ok::<Seq<char>, FaultView>(path@),
            Err(f) => image_path(index@) == Err::<Seq<char>, FaultView>(f@),
        },
{
    let all: Vec<Vec<u8>> = split_byte_lines(index);
    let ghost ls = lines_by(index@, 10u8, 13u8);
    assert(ls.len() == all@.len());
    let mut best: Option<Image> = None;
    let ghost mut known: Option<ImageView> = None;
    let mut i: usize = 0;
    while i < all.len()
        invariant
            i <= all@.len(),
            inner(all@) == ls,
            ls == lines_by(index@, 10u8, 13u8),
            ls.len() == all@.len(),
            known == match best {
                Some(b) => Some(b@),
                None => None,
            },
            image_from(ls, 0, None) == image_from(ls, i as int, known),
        decreases all@.len() - i,
    {
        assert(inner(all@)[i as int] == all@[i as int]@);
        match decode(all[i].as_slice()) {
            None => {
                if best.is_none() {
                    return Err(
                        fault(FaultKind::InvalidData, "stream did not contain valid UTF-8"),
                    );
                }
            },
            Some(text) => {
                if starts_with(text.as_str(), "kali;current;amd64;default;") {
                    let parts: Vec<String> = split_fields(text.as_str(), ';');
                    assert(fields(text@, ';').len() == parts@.len());
                    if parts.len() >= 6 {
                        assert(texts(parts@)[4] == parts@[4]@);
                        assert(texts(parts@)[5] == parts@[5]@);
                        let image: Image = ImageOf {
                            date: parts[4].clone(),
                            path: parts[5].clone(),
                        };
                        assert(image@ == image_of(text@));
                        let kept: Image = keep_later(best, image);
                        proof {
                            known = Some(kept@);
                        }
                        best = Some(kept);
                    }
                }
            },
        }
        i = i + 1;
    }
    match best {
        Some(b) => Ok(b.path),
        None => Err(
            fault(FaultKind::NotFound, "Kali amd64 default image not found in index-system"),
        ),
    }
}

/// A line of the index that lists an image.
pub open spec fn listing(ls: Seq<Seq<u8>>, i: int) -> bool {
    0 <= i < ls.len() && valid_utf8(ls[i]) && lists_kali(decode_utf8(ls[i]))
}

/// The image of a line that lists one.
pub open spec fn image_at(ls: Seq<Seq<u8>>, i: int) -> ImageView {
    image_of(decode_utf8(ls[i]))
}

/// From line `i` on the latest image is kept: the one that was the latest before it,
/// at line `at`, or a later one.
proof fn lemma_latest_from(ls: Seq<Seq<u8>>, i: int, at: int) -> (r: int)
    requires
        0 <= i <= ls.len(),
        at < i,
        listing(ls, at),
        forall|j: int| 0 <= j < i && #[trigger] listing(ls, j) ==> !precedes(
            image_at(ls, at).date,
            image_at(ls, j).date,
        ),
        forall|j: int| 0 <= j < at && #[trigger] listing(ls, j) ==> precedes(
            image_at(ls, j).date,
            image_at(ls, at).date,
        ),
    ensures
        listing(ls, r),
        forall|j: int| 0 <= j < r && #[trigger] listing(ls, j) ==> precedes(
            image_at(ls, j).date,
            image_at(ls, r).date,
        ),
        image_from(ls, i, Some(image_at(ls, at))) == Ok::<Seq<char>, FaultView>(
            image_at(ls, r).path,
        ),
        forall|j: int| #[trigger] listing(ls, j) ==> !precedes(
            image_at(ls, r).date,
            image_at(ls, j).date,
        ),
    decreases ls.len() - i,
{
    if i >= ls.len() {
        at
    } else if listing(ls, i) && precedes(image_at(ls, at).date, image_at(ls, i).date) {
        assert forall|j: int| 0 <= j < i + 1 && #[trigger] listing(ls, j) implies !precedes(
            image_at(ls, i).date,
            image_at(ls, j).date,
        ) by {
            law_texts_are_ordered(
                image_at(ls, at).date,
                image_at(ls, i).date,
                image_at(ls, j).date,
            );
            law_texts_are_ordered(
                image_at(ls, i).date,
                image_at(ls, j).date,
                image_at(ls, j).date,
            );
        }
        assert forall|j: int| 0 <= j < i && #[trigger] listing(ls, j) implies precedes(
            image_at(ls, j).date,
            image_at(ls, i).date,
        ) by {
            law_texts_are_ordered(
                image_at(ls, at).date,
                image_at(ls, j).date,
                image_at(ls, i).date,
            );
            law_texts_are_ordered(
                image_at(ls, j).date,
                image_at(ls, at).date,
                image_at(ls, i).date,
            );
        }
        lemma_latest_from(ls, i + 1, i)
    } else {
        lemma_latest_from(ls, i + 1, at)
    }
}

/// Up to the first line that lists an image nothing is found.
proof fn lemma_first_image(ls: Seq<Seq<u8>>, i: int, first: int)
    requires
        0 <= i <= first < ls.len(),
        listing(ls, first),
        forall|j: int| i <= j < first ==> valid_utf8(#[trigger] ls[j]) && !listing(ls, j),
    ensures
        image_from(ls, i, None) == image_from(ls, first + 1, Some(image_at(ls, first))),
    decreases first - i,
{
    if i < first {
        assert(valid_utf8(ls[i]) && !listing(ls, i));
        lemma_first_image(ls, i + 1, first);
    }
}

/// Where no line lists an image, or one that is no text comes first, none is found.
proof fn lemma_no_image(ls: Seq<Seq<u8>>, i: int, bad: int)
    requires
        0 <= i <= bad <= ls.len(),
        bad < ls.len() ==> !valid_utf8(ls[bad]),
        forall|j: int| i <= j < bad ==> valid_utf8(#[trigger] ls[j]) && !listing(ls, j),
    ensures
        image_from(ls, i, None) == image_from(ls, bad, None),
    decreases bad - i,
{
    if i < bad {
        assert(valid_utf8(ls[i]) && !listing(ls, i));
        lemma_no_image(ls, i + 1, bad);
    }
}

/// The first line, from `i` on, that is no text or lists an image; the end if there
/// is none.
spec fn stop_at(ls: Seq<Seq<u8>>, i: int) -> int
    decreases ls.len() - i,
{
    if i < 0 || i >= ls.len() || !valid_utf8(ls[i]) || listing(ls, i) {
        i
    } else {
        stop_at(ls, i + 1)
    }
}

proof fn lemma_stop_at(ls: Seq<Seq<u8>>, i: int)
    requires
        0 <= i <= ls.len(),
    ensures
        i <= stop_at(ls, i) <= ls.len(),
        forall|j: int| i <= j < stop_at(ls, i) ==> valid_utf8(#[trigger] ls[j]) && !listing(ls, j),
        stop_at(ls, i) < ls.len() ==> !valid_utf8(ls[stop_at(ls, i)]) || listing(
            ls,
            stop_at(ls, i),
        ),
    decreases ls.len() - i,
{
    if i < ls.len() && valid_utf8(ls[i]) && !listing(ls, i) {
        lemma_stop_at(ls, i + 1);
    }
}

/// The image that is found is listed, and none that is listed was built after it; of
/// several that are as old, it is the first. One
/// is found if a line lists one and all lines before it are text.
pub proof fn law_image_is_the_latest(index: Seq<u8>)
    ensures
        ({
            let ls = lines_by(index, 10u8, 13u8);
            &&& image_path(index) matches Ok(path) ==> exists|i: int| #[trigger]
                listing(ls, i) && image_at(ls, i).path == path && (forall|j: int| #[trigger]
                    listing(ls, j) ==> !precedes(image_at(ls, i).date, image_at(ls, j).date))
                    && forall|j: int|
                    0 <= j < i && #[trigger] listing(ls, j) ==> precedes(
                        image_at(ls, j).date,
                        image_at(ls, i).date,
                    )
            &&& image_path(index) matches Err(f) ==> f == not_text() || f == (FaultOf {
                kind: FaultKind::NotFound,
                message: "Kali amd64 default image not found in index-system"@,
            })
            &&& image_path(index) is Ok <==> exists|i: int| #[trigger]
                listing(ls, i) && forall|j: int| 0 <= j < i ==> valid_utf8(#[trigger] ls[j])
        }),
{
    let ls = lines_by(index, 10u8, 13u8);
    let k = stop_at(ls, 0);
    lemma_stop_at(ls, 0);
    if listing(ls, k) {
        lemma_first_image(ls, 0, k);
        assert forall|j: int| 0 <= j < k + 1 && #[trigger] listing(ls, j) implies !precedes(
            image_at(ls, k).date,
            image_at(ls, j).date,
        ) by {
            if j < k {
                assert(valid_utf8(ls[j]) && !listing(ls, j));
            }
            law_texts_are_ordered(
                image_at(ls, k).date,
                image_at(ls, k).date,
                image_at(ls, k).date,
            );
        }
        let r = lemma_latest_from(ls, k + 1, k);
        assert(listing(ls, r));
        assert forall|j: int| 0 <= j < k implies valid_utf8(#[trigger] ls[j]) by {}
    } else {
        lemma_no_image(ls, 0, k);
        assert forall|i: int| #[trigger] listing(ls, i) implies !forall|j: int|
            0 <= j < i ==> valid_utf8(#[trigger] ls[j]) by {
            if i < k {
                assert(valid_utf8(ls[i]) && !listing(ls, i));
            } else {
                assert(!valid_utf8(ls[k]));
            }
        }
    }
}

// -------------------------------------------------------------------- installing

/// A file in the directory of downloads.
pub open spec fn cached(file: Seq<char>) -> Seq<char> {
    path_join(path_join(LSL_DIR@, "cache"@), file)
}

fn cache_path(file: &str) -> (r: String)
    ensures
        r@ == cached(file@),
{
    join_path(join_path(LSL_DIR, "cache").as_str(), file)
}

/// A stage of installing.
pub enum InstallStage {
    /// The distribution must not be there yet.
    Check,
    /// The index is being fetched.
    Index,
    /// The image is being fetched and imported.
    Fetch,
}

impl View for InstallStage {
    type V = InstallStage;

    open spec fn view(&self) -> InstallStage {
        *self
    }
}

/// Looking whether the distribution is there.
pub open spec fn install_check_steps() -> Seq<StepView> {
    no_steps().push(attempt(ActionOf::Exists { path: distro_dir("kali"@) }))
}

/// Fetching and reading the index.
pub open spec fn index_steps() -> Seq<StepView> {
    no_steps().push(
        attempt(
            line(
                Style::Blue,
                "Fetching latest Kali release details from images.linuxcontainers.org..."@,
            ),
        ),
    ).push(
        checked(
            command(
                "curl"@,
                no_words().push("-sSL"@).push("-o"@).push(cached("index-system"@)).push(
                    "https://images.linuxcontainers.org/meta/1.0/index-system"@,
                ),
            ),
            "Failed to download index-system"@,
        ),
    ).push(must(ActionOf::ReadBytes { path: cached("index-system"@) }))
}

fn fetch_index() -> (r: Steps)
    ensures
        r@ == index_steps(),
{
    Steps::new().say(
        Style::Blue,
        "Fetching latest Kali release details from images.linuxcontainers.org...".to_owned(),
    ).checked(
        run(
            "curl",
            words().with("-sSL").with("-o").with(cache_path("index-system").as_str()).with(
                "https://images.linuxcontainers.org/meta/1.0/index-system",
            ),
        ),
        "Failed to download index-system",
    ).must(ActionOf::ReadBytes { path: cache_path("index-system") })
}

/// The address of the image.
pub open spec fn image_url(path: Seq<char>) -> Seq<char> {
    "https://images.linuxcontainers.org"@ + path + "rootfs.tar.xz"@
}

/// Fetching the image and importing it.
pub open spec fn fetch_steps(path: Seq<char>) -> Seq<StepView> {
    no_steps().push(
        attempt(
            ActionOf::Say {
                lead: "Downloading Kali rootfs from: "@,
                style: Style::Cyan,
                text: image_url(path),
                tail: Seq::empty(),
            },
        ),
    ).push(
        checked(
            command(
                "curl"@,
                no_words().push("-L"@).push("-#"@).push("-o"@).push(
                    cached("kali-rootfs.tar.xz"@),
                ).push(image_url(path)),
            ),
            "Failed to download Kali rootfs"@,
        ),
    ).push(
        must(ActionOf::Import { name: "kali"@, tar: cached("kali-rootfs.tar.xz"@) }),
    )
}

fn fetch_image(path: &str) -> (r: Steps)
    ensures
        r@ == fetch_steps(path@),
{
    let url: String = "https://images.linuxcontainers.org".to_owned().concat(path).concat(
        "rootfs.tar.xz",
    );
    let download: Action = run(
        "curl",
        words().with("-L").with("-#").with("-o").with(
            cache_path("kali-rootfs.tar.xz").as_str(),
        ).with(url.as_str()),
    );
    Steps::new().attempt(
        ActionOf::Say {
            lead: "Downloading Kali rootfs from: ".to_owned(),
            style: Style::Cyan,
            text: url,
            tail: String::new(),
        },
    ).checked(download, "Failed to download Kali rootfs").must(
        ActionOf::Import { name: "kali".to_owned(), tar: cache_path("kali-rootfs.tar.xz") },
    )
}

impl Plan for InstallStage {
    open spec fn rank(stage: InstallStage) -> nat {
        match stage {
            InstallStage::Check => 2,
            InstallStage::Index => 1,
            InstallStage::Fetch => 0,
        }
    }

    open spec fn next(stage: InstallStage, reply: ReplyView) -> TurnView<InstallStage> {
        match stage {
            InstallStage::Check => if reply == (ReplyView::Found { exists: true }) {
                failing(
                    FaultKind::AlreadyExists,
                    "Kali is already installed. Unregister it first if you want to reinstall."@,
                )
            } else {
                TurnOf::Go { stage: InstallStage::Index, steps: index_steps() }
            },
            InstallStage::Index => match reply {
                ReplyOf::Bytes { bytes } => match image_path(bytes) {
                    Ok(path) => TurnOf::Go { stage: InstallStage::Fetch, steps: fetch_steps(path) },
                    Err(f) => TurnOf::End { result: Err(f) },
                },
                _ => stray(),
            },
            InstallStage::Fetch => match reply {
                ReplyOf::Registered { distro } => giving(ValueOf::Distro { distro }),
                _ => stray(),
            },
        }
    }

    open spec fn halted(stage: InstallStage, fault: FaultView, clean: bool) -> TurnView<
        InstallStage,
    > {
        TurnOf::End { result: Err(fault) }
    }

    proof fn next_descends(stage: InstallStage, reply: ReplyView) {
    }

    proof fn halted_descends(stage: InstallStage, fault: FaultView, clean: bool) {
    }

    fn advance(self, reply: Reply) -> (r: Turn<Self>) {
        match self {
            InstallStage::Check => {
                let exists: bool = match reply {
                    ReplyOf::Found { exists } => exists,
                    _ => false,
                };
                if exists {
                    TurnOf::End {
                        result: Err(
                            fault(
                                FaultKind::AlreadyExists,
                                "Kali is already installed. Unregister it first if you want to reinstall.",
                            ),
                        ),
                    }
                } else {
                    TurnOf::Go { stage: InstallStage::Index, steps: fetch_index() }
                }
            },
            InstallStage::Index => match reply {
                ReplyOf::Bytes { bytes } => match get_latest_kali_path(bytes.as_slice()) {
                    Ok(path) => TurnOf::Go {
                        stage: InstallStage::Fetch,
                        steps: fetch_image(path.as_str()),
                    },
                    Err(f) => TurnOf::End { result: Err(f) },
                },
                _ => take_stray(),
            },
            InstallStage::Fetch => match reply {
                ReplyOf::Registered { distro } => TurnOf::End {
                    result: Ok(ValueOf::Distro { distro }),
                },
                _ => take_stray(),
            },
        }
    }

    fn halt(self, fault: Fault, clean: bool) -> (r: Turn<Self>) {
        TurnOf::End { result: Err(fault) }
    }
}

/// The task that installs the supported distribution.
pub open spec fn install_task() -> TaskView<InstallStage> {
    started(InstallStage::Check, install_check_steps())
}

/// Starts to install the supported distribution.
pub fn install_kali() -> (r: Task<InstallStage>)
    ensures
        r@ == install_task(),
{
    Task::start(
        InstallStage::Check,
        Steps::new().attempt(ActionOf::Exists { path: get_distro_dir("kali") }),
    )
}

// --------------------------------------------------------------------- importing

/// A stage of importing.
pub enum ImportStageOf<T, C, D> {
    /// The distribution must not be there yet.
    Check { name: T, tar: T },
    /// The archive is being unpacked.
    Unpack { name: T },
    /// The user who runs the program is being asked for.
    Owner { name: T, config: C },
    /// That user is being created in the guest.
    Account { name: T, config: C },
    /// The distribution is being registered.
    Register { distro: D },
    /// What was unpacked is being removed, after this fault.
    Discard { fault: FaultOf<T> },
}

pub type ImportStage = ImportStageOf<String, GlobalConfig, DistroConfig>;

pub type ImportStageView = ImportStageOf<Seq<char>, ConfigView, DistroView>;

impl View for ImportStage {
    type V = ImportStageView;

    open spec fn view(&self) -> ImportStageView {
        match *self {
            ImportStageOf::Check { name, tar } => ImportStageOf::Check { name: name@, tar: tar@ },
            ImportStageOf::Unpack { name } => ImportStageOf::Unpack { name: name@ },
            ImportStageOf::Owner { name, config } => ImportStageOf::Owner {
                name: name@,
                config: config@,
            },
            ImportStageOf::Account { name, config } => ImportStageOf::Account {
                name: name@,
                config: config@,
            },
            ImportStageOf::Register { distro } => ImportStageOf::Register { distro: distro@ },
            ImportStageOf::Discard { fault } => ImportStageOf::Discard { fault: fault@ },
        }
    }
}

/// Unpacking the archive into the directories of the distribution.
pub open spec fn unpack_steps(name: Seq<char>, tar: Seq<char>) -> Seq<StepView> {
    no_steps().push(must(ActionOf::CreateDirs { path: distro_path(name, "rootfs"@) })).push(
        must(ActionOf::CreateDirs { path: distro_path(name, "diff"@) }),
    ).push(must(ActionOf::CreateDirs { path: distro_path(name, "work"@) })).push(
        must(ActionOf::CreateDirs { path: distro_path(name, "merged"@) }),
    ).push(
        attempt(
            ActionOf::Say {
                lead: "Extracting rootfs to "@,
                style: Style::Cyan,
                text: distro_path(name, "rootfs"@),
                tail: " ... (this may take a minute)"@,
            },
        ),
    ).push(
        guarded(
            command(
                "tar"@,
                no_words().push("-xf"@).push(tar).push("-C"@).push(distro_path(name, "rootfs"@)),
            ),
            "Failed to extract rootfs tarball"@,
        ),
    ).push(attempt(ActionOf::LoadConfig))
}

fn unpack(name: &str, tar: &str) -> (r: Steps)
    ensures
        r@ == unpack_steps(name@, tar@),
{
    Steps::new().must(ActionOf::CreateDirs { path: get_distro_path(name, "rootfs") }).must(
        ActionOf::CreateDirs { path: get_distro_path(name, "diff") },
    ).must(ActionOf::CreateDirs { path: get_distro_path(name, "work") }).must(
        ActionOf::CreateDirs { path: get_distro_path(name, "merged") },
    ).attempt(
        ActionOf::Say {
            lead: "Extracting rootfs to ".to_owned(),
            style: Style::Cyan,
            text: get_distro_path(name, "rootfs"),
            tail: " ... (this may take a minute)".to_owned(),
        },
    ).guarded(
        run(
            "tar",
            words().with("-xf").with(tar).with("-C").with(
                get_distro_path(name, "rootfs").as_str(),
            ),
        ),
        "Failed to extract rootfs tarball",
    ).attempt(ActionOf::LoadConfig)
}

/// The turn that registers the distribution, after a warning if there is one.
pub open spec fn register_turn(
    name: Seq<char>,
    config: ConfigView,
    warning: Option<Seq<char>>,
) -> TurnView<ImportStageView> {
    let distro = config.new_distro(name);
    let start = match warning {
        Some(text) => no_steps().push(attempt(line(Style::Plain, text))),
        None => no_steps(),
    };
    TurnOf::Go {
        stage: ImportStageOf::Register { distro },
        steps: (start + save_steps(config.with_distro(name, distro))).push(
            attempt(
                line(Style::GreenBold, "Distro '"@ + name + "' successfully registered!"@),
            ),
        ),
    }
}

fn take_register(name: String, config: GlobalConfig, warning: Option<String>) -> (r: Turn<
    ImportStage,
>)
    ensures
        turned(r) == register_turn(name@, config@, crate::config::opt_text(warning)),
{
    let distro: DistroConfig = config.describe(name.as_str());
    let mut config: GlobalConfig = config;
    config.register(name.as_str(), distro.clone());
    let start: Steps = match warning {
        Some(text) => Steps::new().say(Style::Plain, text),
        None => Steps::new(),
    };
    let steps: Steps = start.then_all(config.save()).say(
        Style::GreenBold,
        "Distro '".to_owned().concat(name.as_str()).concat("' successfully registered!"),
    );
    TurnOf::Go { stage: ImportStageOf::Register { distro }, steps }
}

impl Plan for ImportStage {
    open spec fn rank(stage: ImportStageView) -> nat {
        match stage {
            ImportStageOf::Check { name, tar } => 5,
            ImportStageOf::Unpack { name } => 4,
            ImportStageOf::Owner { name, config } => 3,
            ImportStageOf::Account { name, config } => 2,
            ImportStageOf::Register { distro } => 1,
            ImportStageOf::Discard { fault } => 0,
        }
    }

    open spec fn next(stage: ImportStageView, reply: ReplyView) -> TurnView<ImportStageView> {
        match stage {
            ImportStageOf::Check { name, tar } => if reply == (ReplyView::Found { exists: true }) {
                failing(
                    FaultKind::AlreadyExists,
                    "Distro '"@ + name + "' is already registered."@,
                )
            } else {
                TurnOf::Go {
                    stage: ImportStageOf::Unpack { name },
                    steps: unpack_steps(name, tar),
                }
            },
            ImportStageOf::Unpack { name } => match reply {
                ReplyOf::Config { config } => TurnOf::Go {
                    stage: ImportStageOf::Owner { name, config },
                    steps: no_steps().push(attempt(ActionOf::AskUser)),
                },
                _ => stray(),
            },
            ImportStageOf::Owner { name, config } => match reply {
                ReplyOf::User { name: user, uid, gid } => if user != "root"@ {
                    TurnOf::Go {
                        stage: ImportStageOf::Account { name, config },
                        steps: no_steps().push(
                            must(
                                ActionOf::SetUpUser {
                                    root: distro_path(name, "rootfs"@),
                                    user,
                                    uid,
                                    gid,
                                },
                            ),
                        ),
                    }
                } else {
                    register_turn(name, config, None)
                },
                _ => stray(),
            },
            ImportStageOf::Account { name, config } => register_turn(name, config, None),
            ImportStageOf::Register { distro } => giving(ValueOf::Distro { distro }),
            ImportStageOf::Discard { fault } => TurnOf::End { result: Err(fault) },
        }
    }

    open spec fn halted(stage: ImportStageView, fault: FaultView, clean: bool) -> TurnView<
        ImportStageView,
    > {
        match stage {
            ImportStageOf::Unpack { name } if clean => TurnOf::Go {
                stage: ImportStageOf::Discard { fault },
                steps: no_steps().push(attempt(ActionOf::RemoveTree { path: distro_dir(name) })),
            },
            ImportStageOf::Account { name, config } => register_turn(
                name,
                config,
                Some("Warning: Failed to setup host user in guest: "@ + fault.message),
            ),
            _ => TurnOf::End { result: Err(fault) },
        }
    }

    proof fn next_descends(stage: ImportStageView, reply: ReplyView) {
    }

    proof fn halted_descends(stage: ImportStageView, fault: FaultView, clean: bool) {
    }

    fn advance(self, reply: Reply) -> (r: Turn<Self>) {
        match self {
            ImportStageOf::Check { name, tar } => {
                let exists: bool = match reply {
                    ReplyOf::Found { exists } => exists,
                    _ => false,
                };
                if exists {
                    let message: String = "Distro '".to_owned().concat(name.as_str()).concat(
                        "' is already registered.",
                    );
                    TurnOf::End {
                        result: Err(FaultOf { kind: FaultKind::AlreadyExists, message }),
                    }
                } else {
                    let steps: Steps = unpack(name.as_str(), tar.as_str());
                    TurnOf::Go { stage: ImportStageOf::Unpack { name }, steps }
                }
            },
            ImportStageOf::Unpack { name } => match reply {
                ReplyOf::Config { config } => TurnOf::Go {
                    stage: ImportStageOf::Owner { name, config },
                    steps: Steps::new().attempt(ActionOf::AskUser),
                },
                _ => take_stray(),
            },
            ImportStageOf::Owner { name, config } => match reply {
                ReplyOf::User { name: user, uid, gid } => if !same(user.as_str(), "root") {
                    let root: String = get_distro_path(name.as_str(), "rootfs");
                    TurnOf::Go {
                        stage: ImportStageOf::Account { name, config },
                        steps: Steps::new().must(ActionOf::SetUpUser { root, user, uid, gid }),
                    }
                } else {
                    take_register(name, config, None)
                },
                _ => take_stray(),
            },
            ImportStageOf::Account { name, config } => take_register(name, config, None),
            ImportStageOf::Register { distro } => TurnOf::End {
                result: Ok(ValueOf::Distro { distro }),
            },
            ImportStageOf::Discard { fault } => TurnOf::End { result: Err(fault) },
        }
    }

    fn halt(self, fault: Fault, clean: bool) -> (r: Turn<Self>) {
        match self {
            ImportStageOf::Unpack { name } => if clean {
                TurnOf::Go {
                    stage: ImportStageOf::Discard { fault },
                    steps: Steps::new().attempt(
                        ActionOf::RemoveTree { path: get_distro_dir(name.as_str()) },
                    ),
                }
            } else {
                TurnOf::End { result: Err(fault) }
            },
            ImportStageOf::Account { name, config } => {
                let text: String = "Warning: Failed to setup host user in guest: ".to_owned().concat(
                    fault.message.as_str(),
                );
                take_register(name, config, Some(text))
            },
            _ => TurnOf::End { result: Err(fault) },
        }
    }
}

/// The task that imports a distribution.
pub open spec fn import_task(name: Seq<char>, tar: Seq<char>) -> TaskView<ImportStageView> {
    started(
        ImportStageOf::Check { name, tar },
        no_steps().push(attempt(ActionOf::Exists { path: distro_dir(name) })),
    )
}

/// Starts to import a distribution from an archive.
pub fn import_distro(name: &str, tar_path: &str) -> (r: Task<ImportStage>)
    ensures
        r@ == import_task(name@, tar_path@),
{
    let stage: ImportStage = ImportStageOf::Check {
        name: name.to_owned(),
        tar: tar_path.to_owned(),
    };
    Task::start(stage, Steps::new().attempt(ActionOf::Exists { path: get_distro_dir(name) }))
}

// ---------------------------------------------------------------------- removing

/// A stage of removing a distribution.
pub enum RemoveStageOf<T, C> {
    /// The configuration is being loaded.
    Load { name: T },
    /// The directory is being looked for.
    Probe { name: T, config: C },
    /// The distribution is being removed.
    Forget,
}

pub type RemoveStage = RemoveStageOf<String, GlobalConfig>;

pub type RemoveStageView = RemoveStageOf<Seq<char>, ConfigView>;

impl View for RemoveStage {
    type V = RemoveStageView;

    open spec fn view(&self) -> RemoveStageView {
        match *self {
            RemoveStageOf::Load { name } => RemoveStageOf::Load { name: name@ },
            RemoveStageOf::Probe { name, config } => RemoveStageOf::Probe {
                name: name@,
                config: config@,
            },
            RemoveStageOf::Forget => RemoveStageOf::Forget,
        }
    }
}

/// Deleting the directory of a distribution.
pub open spec fn delete_steps(name: Seq<char>) -> Seq<StepView> {
    no_steps().push(
        attempt(
            ActionOf::Say {
                lead: "Deleting distro directory: "@,
                style: Style::Cyan,
                text: distro_dir(name),
                tail: Seq::empty(),
            },
        ),
    ).push(
        attempt(
            command(
                "umount"@,
                no_words().push("-l"@).push(distro_path(name, "merged"@)),
            ),
        ),
    ).push(must(ActionOf::RemoveTree { path: distro_dir(name) }))
}

fn delete(name: &str) -> (r: Steps)
    ensures
        r@ == delete_steps(name@),
{
    Steps::new().attempt(
        ActionOf::Say {
            lead: "Deleting distro directory: ".to_owned(),
            style: Style::Cyan,
            text: get_distro_dir(name),
            tail: String::new(),
        },
    ).attempt(
        run("umount", words().with("-l").with(get_distro_path(name, "merged").as_str())),
    ).must(ActionOf::RemoveTree { path: get_distro_dir(name) })
}

impl Plan for RemoveStage {
    open spec fn rank(stage: RemoveStageView) -> nat {
        match stage {
            RemoveStageOf::Load { name } => 2,
            RemoveStageOf::Probe { name, config } => 1,
            RemoveStageOf::Forget => 0,
        }
    }

    open spec fn next(stage: RemoveStageView, reply: ReplyView) -> TurnView<RemoveStageView> {
        match stage {
            RemoveStageOf::Load { name } => match reply {
                ReplyOf::Config { config } => if registered(config.distros, name) {
                    TurnOf::Go {
                        stage: RemoveStageOf::Probe { name, config },
                        steps: no_steps().push(
                            attempt(ActionOf::Exists { path: distro_dir(name) }),
                        ),
                    }
                } else {
                    failing(FaultKind::NotFound, "Distro '"@ + name + "' not found."@)
                },
                _ => stray(),
            },
            RemoveStageOf::Probe { name, config } => {
                let start = if reply == (ReplyView::Found { exists: true }) {
                    delete_steps(name)
                } else {
                    no_steps()
                };
                TurnOf::Go {
                    stage: RemoveStageOf::Forget,
                    steps: (start + save_steps(config.without_distro(name))).push(
                        attempt(
                            line(
                                Style::Green,
                                "Distro '"@ + name + "' successfully unregistered."@,
                            ),
                        ),
                    ),
                }
            },
            RemoveStageOf::Forget => giving(ValueOf::Nothing),
        }
    }

    open spec fn halted(stage: RemoveStageView, fault: FaultView, clean: bool) -> TurnView<
        RemoveStageView,
    > {
        TurnOf::End { result: Err(fault) }
    }

    proof fn next_descends(stage: RemoveStageView, reply: ReplyView) {
    }

    proof fn halted_descends(stage: RemoveStageView, fault: FaultView, clean: bool) {
    }

    fn advance(self, reply: Reply) -> (r: Turn<Self>) {
        match self {
            RemoveStageOf::Load { name } => match reply {
                ReplyOf::Config { config } => if config.distros.contains_key(name.as_str()) {
                    let path: String = get_distro_dir(name.as_str());
                    TurnOf::Go {
                        stage: RemoveStageOf::Probe { name, config },
                        steps: Steps::new().attempt(ActionOf::Exists { path }),
                    }
                } else {
                    let message: String = "Distro '".to_owned().concat(name.as_str()).concat(
                        "' not found.",
                    );
                    TurnOf::End { result: Err(FaultOf { kind: FaultKind::NotFound, message }) }
                },
                _ => take_stray(),
            },
            RemoveStageOf::Probe { name, config } => {
                let exists: bool = match reply {
                    ReplyOf::Found { exists } => exists,
                    _ => false,
                };
                let start: Steps = if exists {
                    delete(name.as_str())
                } else {
                    Steps::new()
                };
                let mut config: GlobalConfig = config;
                config.forget(name.as_str());
                let steps: Steps = start.then_all(config.save()).say(
                    Style::Green,
                    "Distro '".to_owned().concat(name.as_str()).concat(
                        "' successfully unregistered.",
                    ),
                );
                TurnOf::Go { stage: RemoveStageOf::Forget, steps }
            },
            RemoveStageOf::Forget => TurnOf::End { result: Ok(ValueOf::Nothing) },
        }
    }

    fn halt(self, fault: Fault, clean: bool) -> (r: Turn<Self>) {
        TurnOf::End { result: Err(fault) }
    }
}

/// The task that removes a distribution.
pub open spec fn remove_task(name: Seq<char>) -> TaskView<RemoveStageView> {
    started(RemoveStageOf::Load { name }, no_steps().push(attempt(ActionOf::LoadConfig)))
}

/// Starts to remove a distribution.
pub fn unregister_distro(name: &str) -> (r: Task<RemoveStage>)
    ensures
        r@ == remove_task(name@),
{
    let stage: RemoveStage = RemoveStageOf::Load { name: name.to_owned() };
    Task::start(stage, Steps::new().attempt(ActionOf::LoadConfig))
}

// ---------------------------------------------------------------- the host's user

/// The user who is to be created, and the root file system to create it in.
pub struct SeatOf<T> {
    pub root: T,
    pub user: T,
    pub uid: u32,
    pub gid: u32,
}

pub type Seat = SeatOf<String>;

pub type SeatView = SeatOf<Seq<char>>;

impl View for Seat {
    type V = SeatView;

    open spec fn view(&self) -> SeatView {
        SeatOf { root: self.root@, user: self.user@, uid: self.uid, gid: self.gid }
    }
}

/// A stage of creating a user.
pub enum UserStageOf<T> {
    /// The user table is being read.
    Passwd { seat: SeatOf<T> },
    /// The user is being added.
    Create { seat: SeatOf<T> },
    /// The group table is being looked for.
    Group { seat: SeatOf<T> },
    /// The group table is being read.
    GroupRead { seat: SeatOf<T> },
    /// The user is being allowed to become the superuser.
    Sudo,
}

pub type UserStage = UserStageOf<String>;

pub type UserStageView = UserStageOf<Seq<char>>;

impl View for UserStage {
    type V = UserStageView;

    open spec fn view(&self) -> UserStageView {
        match *self {
            UserStageOf::Passwd { seat } => UserStageOf::Passwd { seat: seat@ },
            UserStageOf::Create { seat } => UserStageOf::Create { seat: seat@ },
            UserStageOf::Group { seat } => UserStageOf::Group { seat: seat@ },
            UserStageOf::GroupRead { seat } => UserStageOf::GroupRead { seat: seat@ },
            UserStageOf::Sudo => UserStageOf::Sudo,
        }
    }
}

/// The home directory of the user in the root file system.
pub open spec fn seat_home(seat: SeatView) -> Seq<char> {
    path_join(path_join(seat.root, "home"@), seat.user)
}

/// Adding the user to the account files and giving the user a home.
pub open spec fn create_steps(seat: SeatView) -> Seq<StepView> {
    no_steps().push(
        must(
            ActionOf::AppendText {
                path: path_join(seat.root, "etc/passwd"@),
                text: passwd_line(seat.user, seat.uid, seat.gid).push('\n'),
            },
        ),
    ).push(
        must(
            ActionOf::AppendText {
                path: path_join(seat.root, "etc/group"@),
                text: group_line(seat.user, seat.gid).push('\n'),
            },
        ),
    ).push(
        must(
            ActionOf::AppendText {
                path: path_join(seat.root, "etc/shadow"@),
                text: shadow_line(seat.user).push('\n'),
            },
        ),
    ).push(must(ActionOf::CreateDirs { path: seat_home(seat) })).push(
        must(
            command(
                "chown"@,
                no_words().push(
                    decimal(seat.uid as nat) + ":"@ + decimal(seat.gid as nat),
                ).push(seat_home(seat)),
            ),
        ),
    )
}

fn create_user(seat: &Seat) -> (r: Steps)
    ensures
        r@ == create_steps(seat@),
{
    let root: &str = seat.root.as_str();
    let user: &str = seat.user.as_str();
    let home: String = join_path(join_path(root, "home").as_str(), user);
    let owner: String = format_decimal(seat.uid).concat(":").concat(
        format_decimal(seat.gid).as_str(),
    );
    let chown: Action = run("chown", words().with(owner.as_str()).with(home.as_str()));
    Steps::new().must(
        ActionOf::AppendText {
            path: join_path(root, "etc/passwd"),
            text: format_passwd_line(user, seat.uid, seat.gid),
        },
    ).must(
        ActionOf::AppendText {
            path: join_path(root, "etc/group"),
            text: format_group_line(user, seat.gid),
        },
    ).must(
        ActionOf::AppendText {
            path: join_path(root, "etc/shadow"),
            text: format_shadow_line(user),
        },
    ).must(ActionOf::CreateDirs { path: home }).must(chown)
}

/// The text of a host table: the loopback addresses and the guest's own name.
pub open spec fn hosts_text(hostname: Seq<char>) -> Seq<char> {
    "127.0.0.1\tlocalhost\n127.0.1.1\t"@ + hostname
        + "\n::1\t\tlocalhost ip6-localhost ip6-loopback\n"@
}

/// Writes a host table.
pub fn format_hosts(hostname: &str) -> (r: String)
    ensures
        r@ == hosts_text(hostname@),
{
    "127.0.0.1\tlocalhost\n127.0.1.1\t".to_owned().concat(hostname).concat(
        "\n::1\t\tlocalhost ip6-localhost ip6-loopback\n",
    )
}

/// Allowing the user to become the superuser, after writing the group table if it
/// changes.
pub open spec fn sudo_steps(seat: SeatView, groups: Option<Seq<char>>) -> Seq<StepView> {
    let start = match groups {
        Some(text) => no_steps().push(
            must(ActionOf::WriteText { path: path_join(seat.root, "etc/group"@), text }),
        ),
        None => no_steps(),
    };
    let dir = path_join(seat.root, "etc/sudoers.d"@);
    start.push(must(ActionOf::CreateDirs { path: dir })).push(
        must(
            ActionOf::WriteText {
                path: path_join(dir, "lsl-user"@),
                text: seat.user + " ALL=(ALL:ALL) NOPASSWD: ALL\n"@,
            },
        ),
    ).push(must(ActionOf::SetMode { path: path_join(dir, "lsl-user"@), mode: 0o440 })).push(
        attempt(
            ActionOf::WriteText {
                path: path_join(seat.root, "etc/hosts"@),
                text: hosts_text("lsl-kali"@),
            },
        ),
    )
}

fn allow_sudo(seat: &Seat, groups: Option<String>) -> (r: Steps)
    ensures
        r@ == sudo_steps(seat@, crate::config::opt_text(groups)),
{
    let root: &str = seat.root.as_str();
    let start: Steps = match groups {
        Some(text) => Steps::new().must(
            ActionOf::WriteText { path: join_path(root, "etc/group"), text },
        ),
        None => Steps::new(),
    };
    let dir: String = join_path(root, "etc/sudoers.d");
    let file: String = join_path(dir.as_str(), "lsl-user");
    let file_again: String = join_path(dir.as_str(), "lsl-user");
    start.must(ActionOf::CreateDirs { path: dir }).must(
        ActionOf::WriteText {
            path: file,
            text: seat.user.clone().concat(" ALL=(ALL:ALL) NOPASSWD: ALL\n"),
        },
    ).must(ActionOf::SetMode { path: file_again, mode: 0o440 }).attempt(
        ActionOf::WriteText { path: join_path(root, "etc/hosts"), text: format_hosts("lsl-kali") },
    )
}

/// The turn to the group table, after a warning if the home directory could not
/// be given to the user.
pub open spec fn group_turn(seat: SeatView, warn: bool) -> TurnView<UserStageView> {
    let start = if warn {
        no_steps().push(
            attempt(
                line(
                    Style::Plain,
                    "Warning: failed to chown home directory for "@ + seat.user,
                ),
            ),
        )
    } else {
        no_steps()
    };
    TurnOf::Go {
        stage: UserStageOf::Group { seat },
        steps: start.push(
            attempt(ActionOf::Exists { path: path_join(seat.root, "etc/group"@) }),
        ),
    }
}

fn take_group(seat: Seat, warn: bool) -> (r: Turn<UserStage>)
    ensures
        turned(r) == group_turn(seat@, warn),
{
    let start: Steps = if warn {
        Steps::new().say(
            Style::Plain,
            "Warning: failed to chown home directory for ".to_owned().concat(seat.user.as_str()),
        )
    } else {
        Steps::new()
    };
    let steps: Steps = start.attempt(
        ActionOf::Exists { path: join_path(seat.root.as_str(), "etc/group") },
    );
    TurnOf::Go { stage: UserStageOf::Group { seat }, steps }
}

impl Plan for UserStage {
    open spec fn rank(stage: UserStageView) -> nat {
        match stage {
            UserStageOf::Passwd { seat } => 4,
            UserStageOf::Create { seat } => 3,
            UserStageOf::Group { seat } => 2,
            UserStageOf::GroupRead { seat } => 1,
            UserStageOf::Sudo => 0,
        }
    }

    open spec fn next(stage: UserStageView, reply: ReplyView) -> TurnView<UserStageView> {
        match stage {
            UserStageOf::Passwd { seat } => match reply {
                ReplyOf::Bytes { bytes } => if user_known(bytes, seat.user) {
                    group_turn(seat, false)
                } else {
                    TurnOf::Go {
                        stage: UserStageOf::Create { seat },
                        steps: create_steps(seat),
                    }
                },
                _ => stray(),
            },
            UserStageOf::Create { seat } => group_turn(
                seat,
                reply == (ReplyView::Exit { success: false }),
            ),
            UserStageOf::Group { seat } => if reply == (ReplyView::Found { exists: true }) {
                TurnOf::Go {
                    stage: UserStageOf::GroupRead { seat },
                    steps: no_steps().push(
                        must(ActionOf::ReadBytes { path: path_join(seat.root, "etc/group"@) }),
                    ),
                }
            } else {
                TurnOf::Go { stage: UserStageOf::Sudo, steps: sudo_steps(seat, None) }
            },
            UserStageOf::GroupRead { seat } => match reply {
                ReplyOf::Bytes { bytes } => match regrouped(bytes, seat.user, "sudo"@) {
                    Ok(groups) => TurnOf::Go {
                        stage: UserStageOf::Sudo,
                        steps: sudo_steps(seat, groups),
                    },
                    Err(f) => TurnOf::End { result: Err(f) },
                },
                _ => stray(),
            },
            UserStageOf::Sudo => giving(ValueOf::Nothing),
        }
    }

    open spec fn halted(stage: UserStageView, fault: FaultView, clean: bool) -> TurnView<
        UserStageView,
    > {
        TurnOf::End { result: Err(fault) }
    }

    proof fn next_descends(stage: UserStageView, reply: ReplyView) {
    }

    proof fn halted_descends(stage: UserStageView, fault: FaultView, clean: bool) {
    }

    fn advance(self, reply: Reply) -> (r: Turn<Self>) {
        match self {
            UserStageOf::Passwd { seat } => match reply {
                ReplyOf::Bytes { bytes } => if is_user_known(
                    bytes.as_slice(),
                    seat.user.as_str(),
                ) {
                    take_group(seat, false)
                } else {
                    let steps: Steps = create_user(&seat);
                    TurnOf::Go { stage: UserStageOf::Create { seat }, steps }
                },
                _ => take_stray(),
            },
            UserStageOf::Create { seat } => {
                let refused: bool = match reply {
                    ReplyOf::Exit { success } => !success,
                    _ => false,
                };
                take_group(seat, refused)
            },
            UserStageOf::Group { seat } => {
                let exists: bool = match reply {
                    ReplyOf::Found { exists } => exists,
                    _ => false,
                };
                if exists {
                    let path: String = join_path(seat.root.as_str(), "etc/group");
                    TurnOf::Go {
                        stage: UserStageOf::GroupRead { seat },
                        steps: Steps::new().must(ActionOf::ReadBytes { path }),
                    }
                } else {
                    TurnOf::Go { stage: UserStageOf::Sudo, steps: allow_sudo(&seat, None) }
                }
            },
            UserStageOf::GroupRead { seat } => match reply {
                ReplyOf::Bytes { bytes } => match add_user_to_guest_group(
                    bytes.as_slice(),
                    seat.user.as_str(),
                    "sudo",
                ) {
                    Ok(groups) => TurnOf::Go {
                        stage: UserStageOf::Sudo,
                        steps: allow_sudo(&seat, groups),
                    },
                    Err(f) => TurnOf::End { result: Err(f) },
                },
                _ => take_stray(),
            },
            UserStageOf::Sudo => TurnOf::End { result: Ok(ValueOf::Nothing) },
        }
    }

    fn halt(self, fault: Fault, clean: bool) -> (r: Turn<Self>) {
        TurnOf::End { result: Err(fault) }
    }
}

/// The task that makes a user in a root file system.
pub open spec fn user_task(root: Seq<char>, user: Seq<char>, uid: u32, gid: u32) -> TaskView<
    UserStageView,
> {
    started(
        UserStageOf::Passwd { seat: SeatOf { root, user, uid, gid } },
        no_steps().push(must(ActionOf::ReadBytes { path: path_join(root, "etc/passwd"@) })),
    )
}

/// Starts to create a user in the root file system of a guest.
pub fn setup_distro_user(distro_root: &str, username: &str, uid: u32, gid: u32) -> (r: Task<
    UserStage,
>)
    ensures
        r@ == user_task(distro_root@, username@, uid, gid),
{
    let seat: Seat = SeatOf {
        root: distro_root.to_owned(),
        user: username.to_owned(),
        uid,
        gid,
    };
    let stage: UserStage = UserStageOf::Passwd { seat };
    Task::start(
        stage,
        Steps::new().must(ActionOf::ReadBytes { path: join_path(distro_root, "etc/passwd") }),
    )
}

// ------------------------------------------------------------------------- laws

/// A distribution that could not be unpacked leaves nothing behind: its directory
/// is removed before the error is handed on, and nothing is registered.
pub proof fn law_failed_import_is_discarded(
    name: Seq<char>,
    fault: FaultView,
    replies: spec_fn(nat) -> ReplyView,
)
    ensures
        ({
            let discarding = entered(
                ImportStage::halted(ImportStageOf::Unpack { name }, fault, true),
            );
            &&& pending(discarding) == Some(ActionView::RemoveTree { path: distro_dir(name) })
            &&& after_replies::<ImportStage>(discarding, replies, 1) == (TaskView::<
                ImportStageView,
            >::Over { result: Err(fault) })
        }),
{
    reveal_with_fuel(after_replies, 2);
}

/// Whatever comes of creating the host's user in the guest, the distribution is
/// registered: the configuration that is written is the loaded one with the new
/// distribution, and stays coherent.
pub proof fn law_import_registers(
    name: Seq<char>,
    config: ConfigView,
    reply: ReplyView,
    fault: FaultView,
    clean: bool,
)
    requires
        config.coherent(),
    ensures
        ({
            let stage = ImportStageView::Account { name, config };
            let written = config.with_distro(name, config.new_distro(name));
            &&& ImportStage::next(stage, reply) == register_turn(name, config, None)
            &&& ImportStage::halted(stage, fault, clean) matches TurnOf::Go { stage: s, steps }
                && s == (ImportStageView::Register { distro: config.new_distro(name) })
                && steps.contains(
                must(ActionOf::StoreConfig { path: config_file(), config: written }),
            )
            &&& written.coherent()
            &&& lookup(written.distros, name) == Some(config.new_distro(name))
        }),
{
    let d = config.new_distro(name);
    law_register_coherent(config, name, d);
    let other = if name.len() == 0 {
        seq!['x']
    } else {
        Seq::empty()
    };
    law_insert(config.distros, name, d, other);
    let stage = ImportStageView::Account { name, config };
    let stored = must(
        ActionOf::StoreConfig { path: config_file(), config: config.with_distro(name, d) },
    );
    if let TurnOf::Go { stage: s, steps } = ImportStage::halted(stage, fault, clean) {
        assert(steps[2] == stored);
    }
}

/// Removing a registered distribution deletes its directory, if it is there, and
/// then writes a coherent configuration in which it is neither registered nor the
/// default.
pub proof fn law_unregister_forgets(name: Seq<char>, config: ConfigView, reply: ReplyView)
    requires
        config.coherent(),
    ensures
        ({
            let written = config.without_distro(name);
            let start = if reply == (ReplyView::Found { exists: true }) {
                delete_steps(name)
            } else {
                no_steps()
            };
            &&& RemoveStage::next(
                RemoveStageOf::Probe { name, config },
                reply,
            ) matches TurnOf::Go { stage, steps } && (start + save_steps(written)).is_prefix_of(
                steps,
            )
            &&& delete_steps(name).last() == must(ActionOf::RemoveTree { path: distro_dir(name) })
            &&& save_steps(written).last() == must(
                ActionOf::StoreConfig { path: config_file(), config: written },
            )
            &&& written.coherent()
            &&& !registered(written.distros, name)
            &&& written.default_distro != Some(name)
        }),
{
    law_forget_coherent(config, name);
    let start = if reply == (ReplyView::Found { exists: true }) {
        delete_steps(name)
    } else {
        no_steps()
    };
    let front = start + save_steps(config.without_distro(name));
    let said = attempt(
        line(Style::Green, "Distro '"@ + name + "' successfully unregistered."@),
    );
    assert(front.is_prefix_of(front.push(said)));
}

/// A user who is in the guest's user table already is not added again.
pub proof fn law_known_user_is_not_added(seat: SeatView, passwd: Seq<u8>)
    requires
        user_known(passwd, seat.user),
    ensures
        UserStage::next(UserStageOf::Passwd { seat }, ReplyOf::Bytes { bytes: passwd })
            == group_turn(seat, false),
{
}

/// A line of the index whose first four fields name the image that is wanted: of the
/// distribution, its current release, for the machine, in its default variant.
pub open spec fn offers(line: Seq<u8>) -> bool {
    valid_utf8(line) && {
        let parts = fields(decode_utf8(line), ';');
        &&& parts.len() >= 6
        &&& parts[0] == "kali"@
        &&& parts[1] == "current"@
        &&& parts[2] == "amd64"@
        &&& parts[3] == "default"@
    }
}

/// The path that is found is the sixth field of a line whose first four fields are those
/// of the image that is wanted, and no such line has a later date in its fifth field; it is
/// the first of those with that date. It is found exactly if there is such a line with
/// nothing but text before it. A line of another variant, release, machine or distribution
/// is never chosen.
pub proof fn law_wanted_image_is_found(index: Seq<u8>)
    ensures
        ({
            let ls = lines_by(index, 10u8, 13u8);
            &&& image_path(index) matches Ok(path) ==> exists|i: int|
                0 <= i < ls.len() && #[trigger] offers(ls[i]) && fields(decode_utf8(ls[i]), ';')[5]
                    == path && (forall|j: int|
                    0 <= j < ls.len() && #[trigger] offers(ls[j]) ==> !precedes(
                        fields(decode_utf8(ls[i]), ';')[4],
                        fields(decode_utf8(ls[j]), ';')[4],
                    )) && forall|j: int|
                    0 <= j < i && #[trigger] offers(ls[j]) ==> precedes(
                        fields(decode_utf8(ls[j]), ';')[4],
                        fields(decode_utf8(ls[i]), ';')[4],
                    )
            &&& image_path(index) is Ok <==> exists|i: int|
                0 <= i < ls.len() && #[trigger] offers(ls[i]) && forall|j: int|
                    0 <= j < i ==> valid_utf8(#[trigger] ls[j])
        }),
{
    let ls = lines_by(index, 10u8, 13u8);
    law_image_is_the_latest(index);
    assert forall|i: int| 0 <= i < ls.len() implies #[trigger] offers(ls[i]) == listing(ls, i) by {
        if valid_utf8(ls[i]) {
            lemma_first_fields(decode_utf8(ls[i]));
        }
    }
    if let Ok(path) = image_path(index) {
        let i = choose|i: int| #[trigger]
            listing(ls, i) && image_at(ls, i).path == path && (forall|j: int| #[trigger]
                listing(ls, j) ==> !precedes(image_at(ls, i).date, image_at(ls, j).date))
                && forall|j: int|
                0 <= j < i && #[trigger] listing(ls, j) ==> precedes(
                    image_at(ls, j).date,
                    image_at(ls, i).date,
                );
        assert(offers(ls[i]));
        assert forall|j: int| 0 <= j < i && #[trigger] offers(ls[j]) implies precedes(
            fields(decode_utf8(ls[j]), ';')[4],
            fields(decode_utf8(ls[i]), ';')[4],
        ) by {
            assert(listing(ls, j));
        }
        assert forall|j: int| 0 <= j < ls.len() && #[trigger] offers(ls[j]) implies !precedes(
            fields(decode_utf8(ls[i]), ';')[4],
            fields(decode_utf8(ls[j]), ';')[4],
        ) by {
            assert(listing(ls, j));
        }
    }
    if exists|i: int| #[trigger]
        listing(ls, i) && forall|j: int| 0 <= j < i ==> valid_utf8(#[trigger] ls[j]) {
        let i = choose|i: int| #[trigger]
            listing(ls, i) && forall|j: int| 0 <= j < i ==> valid_utf8(#[trigger] ls[j]);
        assert(offers(ls[i]));
    }
    if exists|i: int|
        0 <= i < ls.len() && #[trigger] offers(ls[i]) && forall|j: int|
            0 <= j < i ==> valid_utf8(#[trigger] ls[j]) {
        let i = choose|i: int|
            0 <= i < ls.len() && #[trigger] offers(ls[i]) && forall|j: int|
                0 <= j < i ==> valid_utf8(#[trigger] ls[j]);
        assert(listing(ls, i));
    }
}

/// A text starts with four given fields, and a separator behind them, exactly if these are
/// its first four fields and there are more.
proof fn lemma_first_fields(text: Seq<char>)
    ensures
        ({
            let parts = fields(text, ';');
            begins(text, "kali;current;amd64;default;"@) <==> parts.len() >= 5 && parts[0]
                == "kali"@ && parts[1] == "current"@ && parts[2] == "amd64"@ && parts[3]
                == "default"@
        }),
{
    let start = "kali;current;amd64;default;"@;
    let four = no_words().push("kali"@).push("current"@).push("amd64"@).push("default"@);
    reveal_strlit("kali;current;amd64;default;");
    reveal_strlit("kali");
    reveal_strlit("current");
    reveal_strlit("amd64");
    reveal_strlit("default");
    lemma_four_joined();
    let parts = fields(text, ';');
    law_fields_join(text, ';');
    if begins(text, start) {
        let rest = text.skip(start.len() as int);
        assert(text =~= start + rest);
        lemma_fields_behind(four, rest, ';');
    } else if parts.len() >= 5 && parts[0] == "kali"@ && parts[1] == "current"@ && parts[2]
        == "amd64"@ && parts[3] == "default"@ {
        let rest = joined(parts.skip(4), ';');
        assert(parts =~= four + parts.skip(4));
        lemma_joined_add(four, parts.skip(4), ';');
        assert(text =~= start + rest);
        assert(text.subrange(0, start.len() as int) =~= start);
    }
}

/// The four fields with their separators.
proof fn lemma_four_joined()
    ensures
        joined(
            no_words().push("kali"@).push("current"@).push("amd64"@).push("default"@),
            ';',
        ).push(';') == "kali;current;amd64;default;"@,
{
    reveal_strlit("kali;current;amd64;default;");
    reveal_strlit("kali");
    reveal_strlit("current");
    reveal_strlit("amd64");
    reveal_strlit("default");
    let a = no_words().push("kali"@);
    let b = a.push("current"@);
    let c = b.push("amd64"@);
    let d = c.push("default"@);
    assert(d.drop_last() =~= c && c.drop_last() =~= b && b.drop_last() =~= a);
    assert(joined(a, ';') == "kali"@);
    assert(joined(b, ';') == "kali"@.push(';') + "current"@);
    assert(joined(c, ';') == ("kali"@.push(';') + "current"@).push(';') + "amd64"@);
    assert(joined(d, ';').push(';') =~= "kali;current;amd64;default;"@);
}

/// The image whose path the index gives is fetched, from the server that keeps the images,
/// and what was fetched is imported under the name of the distribution. If it cannot be
/// fetched nothing is imported.
pub proof fn law_found_image_is_imported(bytes: Seq<u8>, path: Seq<char>)
    requires
        image_path(bytes) == Ok::<Seq<char>, FaultView>(path),
    ensures
        ({
            let file = "/var/lib/lsl/cache/kali-rootfs.tar.xz"@;
            let url = "https://images.linuxcontainers.org"@ + path + "rootfs.tar.xz"@;
            InstallStage::next(InstallStage::Index, ReplyOf::Bytes { bytes }) matches TurnOf::Go {
                stage,
                steps,
            } && {
                &&& stage is Fetch
                &&& steps.len() == 3
                &&& steps[0].action matches ActionOf::Say { lead, style, text, tail } && text == url
                &&& steps[1] == checked(
                    command(
                        "curl"@,
                        no_words().push("-L"@).push("-#"@).push("-o"@).push(file).push(url),
                    ),
                    "Failed to download Kali rootfs"@,
                )
                &&& steps[2] == must(ActionOf::Import { name: "kali"@, tar: file })
            }
        }),
{
    lemma_cache();
}

/// Files in the directory of downloads.
proof fn lemma_cache()
    ensures
        cached("kali-rootfs.tar.xz"@) == "/var/lib/lsl/cache/kali-rootfs.tar.xz"@,
        cached("index-system"@) == "/var/lib/lsl/cache/index-system"@,
{
    reveal_strlit("/var/lib/lsl");
    reveal_strlit("cache");
    reveal_strlit("kali-rootfs.tar.xz");
    reveal_strlit("index-system");
    reveal_strlit("/var/lib/lsl/cache/kali-rootfs.tar.xz");
    reveal_strlit("/var/lib/lsl/cache/index-system");
    assert(LSL_DIR@ == "/var/lib/lsl"@);
    assert(cached("kali-rootfs.tar.xz"@) =~= "/var/lib/lsl/cache/kali-rootfs.tar.xz"@);
    assert(cached("index-system"@) =~= "/var/lib/lsl/cache/index-system"@);
}

/// An installation fetches the index afresh, unless the distribution is there already, and
/// reads the file that was fetched; without a usable index nothing is fetched or imported.
pub proof fn law_index_is_fetched_first(reply: ReplyView, bytes: Seq<u8>)
    ensures
        reply != (ReplyView::Found { exists: true }) ==> (InstallStage::next(
            InstallStage::Check,
            reply,
        ) matches TurnOf::Go { stage, steps } && stage is Index && steps.len() == 3 && steps[1]
            == checked(
            command(
                "curl"@,
                no_words().push("-sSL"@).push("-o"@).push("/var/lib/lsl/cache/index-system"@).push(
                    "https://images.linuxcontainers.org/meta/1.0/index-system"@,
                ),
            ),
            "Failed to download index-system"@,
        ) && steps[2] == must(ActionOf::ReadBytes { path: "/var/lib/lsl/cache/index-system"@ })),
        reply == (ReplyView::Found { exists: true }) ==> (InstallStage::next(
            InstallStage::Check,
            reply,
        ) matches TurnOf::End { result: Err(f) } && f.kind == FaultKind::AlreadyExists),
        image_path(bytes) matches Err(f) ==> InstallStage::next(
            InstallStage::Index,
            ReplyOf::Bytes { bytes },
        ) == (TurnView::<InstallStage>::End { result: Err(f) }),
        install_task() == started(
            InstallStage::Check,
            no_steps().push(attempt(ActionOf::Exists { path: distro_dir("kali"@) })),
        ),
{
    lemma_cache();
}

/// What is imported is the archive that was named, into the directory of the distribution,
/// next to directories for its changes; an archive that cannot be unpacked, or a directory
/// that cannot be made, ends the import. A distribution that is there already is left
/// alone.
pub proof fn law_named_archive_is_unpacked(name: Seq<char>, tar: Seq<char>, reply: ReplyView)
    ensures
        import_task(name, tar) == started(
            ImportStageView::Check { name, tar },
            no_steps().push(attempt(ActionOf::Exists { path: distro_dir(name) })),
        ),
        reply == (ReplyView::Found { exists: true }) ==> ImportStage::next(
            ImportStageOf::Check { name, tar },
            reply,
        ) == failing::<ImportStageView>(
            FaultKind::AlreadyExists,
            "Distro '"@ + name + "' is already registered."@,
        ),
        reply != (ReplyView::Found { exists: true }) ==> (ImportStage::next(
            ImportStageOf::Check { name, tar },
            reply,
        ) matches TurnOf::Go { stage, steps } && {
            &&& stage == (ImportStageView::Unpack { name })
            &&& steps.len() == 7
            &&& steps[0] == must(ActionOf::CreateDirs { path: distro_path(name, "rootfs"@) })
            &&& steps[1] == must(ActionOf::CreateDirs { path: distro_path(name, "diff"@) })
            &&& steps[2] == must(ActionOf::CreateDirs { path: distro_path(name, "work"@) })
            &&& steps[3] == must(ActionOf::CreateDirs { path: distro_path(name, "merged"@) })
            &&& steps[5] == guarded(
                command(
                    "tar"@,
                    no_words().push("-xf"@).push(tar).push("-C"@).push(
                        distro_path(name, "rootfs"@),
                    ),
                ),
                "Failed to extract rootfs tarball"@,
            )
            &&& steps[6].action is LoadConfig
        }),
{
}

/// The user who runs the program becomes a user of the guest, with the same numbers, in
/// the files that were unpacked; the superuser is there already. Then the distribution is
/// registered in the configuration that was loaded, as a new one, and what the import
/// gives is what was registered.
pub proof fn law_import_is_for_the_hosts_user(
    name: Seq<char>,
    config: ConfigView,
    user: Seq<char>,
    uid: u32,
    gid: u32,
    distro: DistroView,
    reply: ReplyView,
)
    ensures
        ImportStage::next(ImportStageOf::Unpack { name }, ReplyOf::Config { config }) == (TurnView::<
            ImportStageView,
        >::Go {
            stage: ImportStageOf::Owner { name, config },
            steps: no_steps().push(attempt(ActionOf::AskUser)),
        }),
        user != "root"@ ==> ImportStage::next(
            ImportStageOf::Owner { name, config },
            ReplyOf::User { name: user, uid, gid },
        ) == (TurnView::<ImportStageView>::Go {
            stage: ImportStageOf::Account { name, config },
            steps: no_steps().push(
                must(
                    ActionOf::SetUpUser { root: distro_path(name, "rootfs"@), user, uid, gid },
                ),
            ),
        }),
        user == "root"@ ==> registers(
            ImportStage::next(
                ImportStageOf::Owner { name, config },
                ReplyOf::User { name: user, uid, gid },
            ),
            name,
            config,
            0,
        ),
        registers(
            ImportStage::next(ImportStageOf::Account { name, config }, reply),
            name,
            config,
            0,
        ),
        ImportStage::next(ImportStageOf::Register { distro }, reply) == giving::<ImportStageView>(
            ValueOf::Distro { distro },
        ),
{
}

/// A turn that registers a new distribution of that name, after some other steps.
pub open spec fn registers(
    turn: TurnView<ImportStageView>,
    name: Seq<char>,
    config: ConfigView,
    others: int,
) -> bool {
    turn matches TurnOf::Go { stage: ImportStageOf::Register { distro }, steps } && {
        &&& distro == config.new_distro(name)
        &&& steps.len() == others + 3
        &&& steps[others + 1] == must(
            ActionOf::StoreConfig {
                path: config_file(),
                config: config.with_distro(name, config.new_distro(name)),
            },
        )
        &&& steps[others + 2].action is Say
    }
}

/// A user who could not be made in the guest is told of, with the reason, and the
/// distribution is registered all the same.
pub proof fn law_import_survives_a_missing_user(
    name: Seq<char>,
    config: ConfigView,
    fault: FaultView,
    clean: bool,
)
    ensures
        ({
            let turn = ImportStage::halted(ImportStageOf::Account { name, config }, fault, clean);
            &&& registers(turn, name, config, 1)
            &&& turn matches TurnOf::Go { stage, steps } && steps[0].action == line(
                Style::Plain,
                "Warning: Failed to setup host user in guest: "@ + fault.message,
            )
        }),
{
}

/// Only the directory of the distribution is deleted, after what is mounted in it was let
/// go, and only if it is there; a failure to delete it leaves the configuration as it is.
/// A distribution that is not registered is not touched.
pub proof fn law_only_the_named_is_deleted(name: Seq<char>, config: ConfigView, reply: ReplyView)
    ensures
        !registered(config.distros, name) ==> RemoveStage::next(
            RemoveStageOf::Load { name },
            ReplyOf::Config { config },
        ) == failing::<RemoveStageView>(FaultKind::NotFound, "Distro '"@ + name + "' not found."@),
        registered(config.distros, name) ==> RemoveStage::next(
            RemoveStageOf::Load { name },
            ReplyOf::Config { config },
        ) == (TurnView::<RemoveStageView>::Go {
            stage: RemoveStageOf::Probe { name, config },
            steps: no_steps().push(attempt(ActionOf::Exists { path: distro_dir(name) })),
        }),
        RemoveStage::next(RemoveStageOf::Probe { name, config }, reply) matches TurnOf::Go {
            stage,
            steps,
        } && {
            let there = reply == (ReplyView::Found { exists: true });
            let k: int = if there {
                3
            } else {
                0
            };
            &&& stage is Forget
            &&& steps.len() == k + 3
            &&& there ==> steps[1].action == command(
                "umount"@,
                no_words().push("-l"@).push(distro_path(name, "merged"@)),
            ) && steps[2] == must(ActionOf::RemoveTree { path: distro_dir(name) })
            &&& steps[k + 1] == must(
                ActionOf::StoreConfig { path: config_file(), config: config.without_distro(name) },
            )
            &&& steps[k + 2].action is Say
        },
{
}

/// A user is made by one line in each of the guest's three tables, a home that belongs to
/// the user's numbers, and leave to become the superuser without a password. The guest
/// itself is named in its table of hosts.
pub proof fn law_user_is_made_in_the_guest(seat: SeatView, groups: Option<Seq<char>>)
    requires
        seat.root.len() > 0 && seat.root.last() != '/',
        seat.user.len() > 0 && seat.user[0] != '/',
    ensures
        ({
            let steps = create_steps(seat);
            let home = seat.root + "/home/"@ + seat.user;
            let u = decimal(seat.uid as nat);
            let g = decimal(seat.gid as nat);
            &&& steps.len() == 5
            &&& steps[0] == must(
                ActionOf::AppendText {
                    path: seat.root + "/etc/passwd"@,
                    text: passwd_line(seat.user, seat.uid, seat.gid) + "\n"@,
                },
            )
            &&& steps[1] == must(
                ActionOf::AppendText {
                    path: seat.root + "/etc/group"@,
                    text: seat.user + ":x:"@ + g + ":"@ + "\n"@,
                },
            )
            &&& steps[2] == must(
                ActionOf::AppendText {
                    path: seat.root + "/etc/shadow"@,
                    text: seat.user + ":*:19000:0:99999:7:::"@ + "\n"@,
                },
            )
            &&& steps[3] == must(ActionOf::CreateDirs { path: home })
            &&& steps[4] == must(command("chown"@, no_words().push(u + ":"@ + g).push(home)))
        }),
        ({
            let steps = sudo_steps(seat, groups);
            let file = seat.root + "/etc/sudoers.d/lsl-user"@;
            let k: int = if groups is Some {
                1
            } else {
                0
            };
            &&& steps.len() == k + 4
            &&& groups matches Some(text) ==> steps[0] == must(
                ActionOf::WriteText { path: seat.root + "/etc/group"@, text },
            )
            &&& steps[k] == must(ActionOf::CreateDirs { path: seat.root + "/etc/sudoers.d"@ })
            &&& steps[k + 1] == must(
                ActionOf::WriteText {
                    path: file,
                    text: seat.user + " ALL=(ALL:ALL) NOPASSWD: ALL\n"@,
                },
            )
            &&& steps[k + 2] == must(ActionOf::SetMode { path: file, mode: 0o440 })
            &&& steps[k + 3].action matches ActionOf::WriteText { path, text } && path == seat.root
                + "/etc/hosts"@ && text == hosts_text("lsl-kali"@)
        }),
{
    reveal_strlit("\n");
    reveal_strlit("home");
    reveal_strlit("/home/");
    reveal_strlit("etc/passwd");
    reveal_strlit("/etc/passwd");
    reveal_strlit("etc/group");
    reveal_strlit("/etc/group");
    reveal_strlit("etc/shadow");
    reveal_strlit("/etc/shadow");
    reveal_strlit("etc/hosts");
    reveal_strlit("/etc/hosts");
    reveal_strlit("etc/sudoers.d");
    reveal_strlit("/etc/sudoers.d");
    reveal_strlit("lsl-user");
    reveal_strlit("/etc/sudoers.d/lsl-user");
    let root = seat.root;
    assert(path_join(root, "etc/passwd"@) =~= root + "/etc/passwd"@);
    assert(path_join(root, "etc/group"@) =~= root + "/etc/group"@);
    assert(path_join(root, "etc/shadow"@) =~= root + "/etc/shadow"@);
    assert(path_join(root, "etc/hosts"@) =~= root + "/etc/hosts"@);
    assert(path_join(root, "etc/sudoers.d"@) =~= root + "/etc/sudoers.d"@);
    assert(path_join(root + "/etc/sudoers.d"@, "lsl-user"@) =~= root
        + "/etc/sudoers.d/lsl-user"@);
    let homes = path_join(root, "home"@);
    assert(homes.last() == 'e');
    assert(seat_home(seat) =~= root + "/home/"@ + seat.user);
    let line = passwd_line(seat.user, seat.uid, seat.gid);
    assert(line.push('\n') =~= line + "\n"@);
    let own = group_line(seat.user, seat.gid);
    assert(own.push('\n') =~= own + "\n"@);
    let shadow = shadow_line(seat.user);
    assert(shadow.push('\n') =~= shadow + "\n"@);
}

/// Making a user goes through the guest's tables in turn: whoever is not in the user table
/// is added, everyone is put into the group of those who may become the superuser, if the
/// guest has groups, and a guest whose tables cannot be read gets no user.
pub proof fn law_user_goes_through_the_tables(
    seat: SeatView,
    passwd: Seq<u8>,
    table: Seq<u8>,
    reply: ReplyView,
)
    ensures
        user_task(seat.root, seat.user, seat.uid, seat.gid) == started(
            UserStageView::Passwd { seat },
            no_steps().push(
                must(ActionOf::ReadBytes { path: path_join(seat.root, "etc/passwd"@) }),
            ),
        ),
        !user_known(passwd, seat.user) ==> UserStage::next(
            UserStageOf::Passwd { seat },
            ReplyOf::Bytes { bytes: passwd },
        ) == (TurnView::<UserStageView>::Go {
            stage: UserStageOf::Create { seat },
            steps: create_steps(seat),
        }),
        UserStage::next(UserStageOf::Create { seat }, reply) matches TurnOf::Go { stage, steps }
            && stage == (UserStageView::Group { seat }) && steps.last().action == (
        ActionView::Exists { path: path_join(seat.root, "etc/group"@) }) && steps.len() == if reply
            == (ReplyView::Exit { success: false }) {
            2nat
        } else {
            1nat
        },
        reply == (ReplyView::Found { exists: true }) ==> UserStage::next(
            UserStageOf::Group { seat },
            reply,
        ) == (TurnView::<UserStageView>::Go {
            stage: UserStageOf::GroupRead { seat },
            steps: no_steps().push(
                must(ActionOf::ReadBytes { path: path_join(seat.root, "etc/group"@) }),
            ),
        }),
        reply != (ReplyView::Found { exists: true }) ==> UserStage::next(
            UserStageOf::Group { seat },
            reply,
        ) == (TurnView::<UserStageView>::Go {
            stage: UserStageOf::Sudo,
            steps: sudo_steps(seat, None),
        }),
        match regrouped(table, seat.user, "sudo"@) {
            Ok(groups) => UserStage::next(
                UserStageOf::GroupRead { seat },
                ReplyOf::Bytes { bytes: table },
            ) == (TurnView::<UserStageView>::Go {
                stage: UserStageOf::Sudo,
                steps: sudo_steps(seat, groups),
            }),
            Err(f) => UserStage::next(
                UserStageOf::GroupRead { seat },
                ReplyOf::Bytes { bytes: table },
            ) == (TurnView::<UserStageView>::End { result: Err(f) }),
        },
{
}

/// An installation gives the distribution that the import registered; a removal starts with
/// the configuration, and it and the making of a user end well once their steps are done.
pub proof fn law_installing_and_removing_end_well(
    name: Seq<char>,
    distro: DistroView,
    reply: ReplyView,
    fault: FaultView,
    clean: bool,
)
    ensures
        InstallStage::next(InstallStage::Fetch, ReplyOf::Registered { distro }) == giving::<
            InstallStage,
        >(ValueOf::Distro { distro }),
        InstallStage::halted(InstallStage::Fetch, fault, clean) == (TurnView::<InstallStage>::End {
            result: Err(fault),
        }),
        remove_task(name) == started(
            RemoveStageView::Load { name },
            no_steps().push(attempt(ActionOf::LoadConfig)),
        ),
        RemoveStage::next(RemoveStageOf::Forget, reply) == giving::<RemoveStageView>(
            ValueOf::Nothing,
        ),
        RemoveStage::halted(RemoveStageOf::Forget, fault, clean) == (TurnView::<
            RemoveStageView,
        >::End { result: Err(fault) }),
        UserStage::next(UserStageOf::Sudo, reply) == giving::<UserStageView>(ValueOf::Nothing),
        begins(
            hosts_text(name),
            "127.0.0.1\tlocalhost\n127.0.1.1\t"@ + name,
        ),
        closes(hosts_text(name), "\n::1\t\tlocalhost ip6-localhost ip6-loopback\n"@),
        hosts_text(name).len() == name.len() + 73,
{
    reveal_strlit("127.0.0.1\tlocalhost\n127.0.1.1\t");
    reveal_strlit("\n::1\t\tlocalhost ip6-localhost ip6-loopback\n");
    let head = "127.0.0.1\tlocalhost\n127.0.1.1\t"@ + name;
    let tail = "\n::1\t\tlocalhost ip6-localhost ip6-loopback\n"@;
    law_parts_are_found(Seq::empty(), head, tail);
    law_parts_are_found(head, tail, Seq::empty());
}

} // verus!
