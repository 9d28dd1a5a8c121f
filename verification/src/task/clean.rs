//! Cleaning targets: what each one is, what it risks, and how its cleanup is
//! decided and reported.

use vstd::prelude::*;
use crate::format::{size, size_spec, tilde, tilde_spec};
use crate::sys::fsx::{home_join, join_spec, Disposal, Move, Removal};
use crate::task::{texts, Ctx, Status};
use crate::text::{chars_eq, chars_of, decimal, push_decimal, push_str};

verus! {

/// How much a target is worth worrying about.
///
/// This separates "your next build puts it back" from "you will be
/// downloading this again", and drives both the ordering of a scan and the
/// number of times the tool asks before acting.
#[derive(Debug, Clone, Copy, PartialEq, Eq, Structural, PartialOrd, Ord, Hash)]
pub enum Risk {
    /// Pure cache: regenerated on demand, losing it costs nothing.
    Cache,
    /// Rebuildable, but it costs a download or a build.
    Rebuildable,
    /// Your data. Gone is gone.
    Data,
}

impl Risk {
    pub fn label(self) -> (r: &'static str)
        ensures
            r@ == match self {
                Risk::Cache => "cache"@,
                Risk::Rebuildable => "rebuildable"@,
                Risk::Data => "data"@,
            },
    {
        match self {
            Risk::Cache => "cache",
            Risk::Rebuildable => "rebuildable",
            Risk::Data => "data",
        }
    }
}

/// An area of the disk the tool knows how to measure and clean.
#[derive(Debug, Clone, Copy, PartialEq, Eq, Structural, Hash)]
pub enum Target {
    /// User caches (`~/Library/Caches`).
    Cache,
    /// Caches of sandboxed applications (`~/Library/Containers`).
    ContainerCache,
    /// Global caches of the package managers (npm, cargo, gradle…).
    PkgCache,
    /// User trash (`~/.Trash`).
    Trash,
    /// User trash plus the trash of every mounted volume.
    TrashAll,
    /// User logs (`~/Library/Logs`).
    Logs,
    /// `.DS_Store` files in the home directory.
    DsStore,
    /// Homebrew download cache.
    Homebrew,
    /// Docker: unused containers, images and build caches (never volumes).
    Docker,
    /// Xcode data: DerivedData, DeviceSupport, archives, simulator caches.
    Xcode,
    /// iOS simulator devices (heavy, must be asked for explicitly).
    Simulators,
    /// Local backups of iPhones and iPads (your data, asked for explicitly).
    IosBackups,
    /// Virtual machines and container runtimes (your data, asked for explicitly).
    Vm,
}

/// What losing a target costs.
pub open spec fn risk_of(t: Target) -> Risk {
    match t {
        Target::Cache | Target::ContainerCache | Target::Logs | Target::DsStore
        | Target::Homebrew => Risk::Cache,
        Target::PkgCache | Target::Docker | Target::Xcode | Target::Simulators => Risk::Rebuildable,
        Target::Trash | Target::TrashAll | Target::IosBackups | Target::Vm => Risk::Data,
    }
}

/// Targets for which moving to the trash makes no sense.
pub open spec fn purges_always(t: Target) -> bool {
    t == Target::Trash || t == Target::TrashAll || t == Target::DsStore
}

/// The short name used on the command line.
pub open spec fn slug_of(t: Target) -> Seq<char> {
    match t {
        Target::Cache => "cache"@,
        Target::ContainerCache => "container-cache"@,
        Target::PkgCache => "pkg-cache"@,
        Target::Trash => "trash"@,
        Target::TrashAll => "trash-all"@,
        Target::Logs => "logs"@,
        Target::DsStore => "ds-store"@,
        Target::Homebrew => "homebrew"@,
        Target::Docker => "docker"@,
        Target::Xcode => "xcode"@,
        Target::Simulators => "simulators"@,
        Target::IosBackups => "ios-backups"@,
        Target::Vm => "vm"@,
    }
}

/// The name shown in reports.
pub open spec fn label_of(t: Target) -> Seq<char> {
    match t {
        Target::Cache => "User caches"@,
        Target::ContainerCache => "Sandboxed app caches"@,
        Target::PkgCache => "Package manager caches"@,
        Target::Trash => "Trash"@,
        Target::TrashAll => "Trash (all volumes)"@,
        Target::Logs => "Logs"@,
        Target::DsStore => ".DS_Store files"@,
        Target::Homebrew => "Homebrew cache"@,
        Target::Docker => "Docker (images, builds)"@,
        Target::Xcode => "Xcode data"@,
        Target::Simulators => "iOS simulators"@,
        Target::IosBackups => "iOS device backups"@,
        Target::Vm => "Virtual machines"@,
    }
}

/// The targets `all` stands for.
pub open spec fn default_targets() -> Seq<Target> {
    seq![
        Target::Cache,
        Target::ContainerCache,
        Target::PkgCache,
        Target::Trash,
        Target::TrashAll,
        Target::Logs,
        Target::DsStore,
        Target::Homebrew,
        Target::Docker,
        Target::Xcode,
    ]
}

impl Target {
    /// Targets covered by `all`.
    ///
    /// Anything holding data the user cannot get back for free is left out:
    /// simulators, iOS backups and virtual machines have to be named.
    pub const DEFAULT: [Target; 10] = [
        Target::Cache,
        Target::ContainerCache,
        Target::PkgCache,
        Target::Trash,
        Target::TrashAll,
        Target::Logs,
        Target::DsStore,
        Target::Homebrew,
        Target::Docker,
        Target::Xcode,
    ];

    /// Targets measured by a bare `scan`.
    pub const QUICK: [Target; 5] = [
        Target::Cache,
        Target::PkgCache,
        Target::Trash,
        Target::Logs,
        Target::Xcode,
    ];

    pub fn label(self) -> (r: &'static str)
        ensures
            r@ == label_of(self),
    {
        match self {
            Target::Cache => "User caches",
            Target::ContainerCache => "Sandboxed app caches",
            Target::PkgCache => "Package manager caches",
            Target::Trash => "Trash",
            Target::TrashAll => "Trash (all volumes)",
            Target::Logs => "Logs",
            Target::DsStore => ".DS_Store files",
            Target::Homebrew => "Homebrew cache",
            Target::Docker => "Docker (images, builds)",
            Target::Xcode => "Xcode data",
            Target::Simulators => "iOS simulators",
            Target::IosBackups => "iOS device backups",
            Target::Vm => "Virtual machines",
        }
    }

    /// Short name used on the command line.
    pub fn slug(self) -> (r: &'static str)
        ensures
            r@ == slug_of(self),
    {
        match self {
            Target::Cache => "cache",
            Target::ContainerCache => "container-cache",
            Target::PkgCache => "pkg-cache",
            Target::Trash => "trash",
            Target::TrashAll => "trash-all",
            Target::Logs => "logs",
            Target::DsStore => "ds-store",
            Target::Homebrew => "homebrew",
            Target::Docker => "docker",
            Target::Xcode => "xcode",
            Target::Simulators => "simulators",
            Target::IosBackups => "ios-backups",
            Target::Vm => "vm",
        }
    }

    /// The target a command-line slug names.
    pub fn from_slug(slug: &str) -> (r: Option<Target>)
        ensures
            r matches Some(t) ==> slug_of(t) == slug@,
            r is None ==> forall|t: Target| slug_of(t) != slug@,
    {
        let s = chars_of(slug);
        let all = [
            Target::Cache,
            Target::ContainerCache,
            Target::PkgCache,
            Target::Trash,
            Target::TrashAll,
            Target::Logs,
            Target::DsStore,
            Target::Homebrew,
            Target::Docker,
            Target::Xcode,
            Target::Simulators,
            Target::IosBackups,
            Target::Vm,
        ];
        let mut i: usize = 0;
        while i < 13
            invariant
                i <= 13,
                s@ == slug@,
                all@ == seq![
                    Target::Cache,
                    Target::ContainerCache,
                    Target::PkgCache,
                    Target::Trash,
                    Target::TrashAll,
                    Target::Logs,
                    Target::DsStore,
                    Target::Homebrew,
                    Target::Docker,
                    Target::Xcode,
                    Target::Simulators,
                    Target::IosBackups,
                    Target::Vm,
                ],
                forall|k: int| 0 <= k < i ==> slug_of(#[trigger] all@[k]) != slug@,
            decreases 13 - i,
        {
            let t = all[i];
            if chars_eq(chars_of(t.slug()).as_slice(), s.as_slice()) {
                return Some(t);
            }
            i += 1;
        }
        assert forall|t: Target| slug_of(t) != slug@ by {
            let k: int = match t {
                Target::Cache => 0,
                Target::ContainerCache => 1,
                Target::PkgCache => 2,
                Target::Trash => 3,
                Target::TrashAll => 4,
                Target::Logs => 5,
                Target::DsStore => 6,
                Target::Homebrew => 7,
                Target::Docker => 8,
                Target::Xcode => 9,
                Target::Simulators => 10,
                Target::IosBackups => 11,
                Target::Vm => 12,
            };
            assert(all@[k] == t);
        }
        None
    }

    /// Whether cleaning this target this way cannot be undone.
    pub fn is_irreversible(self, disposal: Disposal) -> (r: bool)
        ensures
            r == (purges_always(self) || disposal == Disposal::Purge),
    {
        self.always_purges() || disposal == Disposal::Purge
    }

    /// What losing this target actually costs.
    pub fn risk(self) -> (r: Risk)
        ensures
            r == risk_of(self),
    {
        match self {
            Target::Cache | Target::ContainerCache | Target::Logs | Target::DsStore
            | Target::Homebrew => Risk::Cache,
            Target::PkgCache | Target::Docker | Target::Xcode | Target::Simulators => {
                Risk::Rebuildable
            },
            Target::Trash | Target::TrashAll | Target::IosBackups | Target::Vm => Risk::Data,
        }
    }

    /// Whether the target needs Full Disk Access to be seen at all.
    pub fn needs_full_disk_access(self) -> (r: bool)
        ensures
            r == (self == Target::ContainerCache || self == Target::IosBackups),
    {
        match self {
            Target::ContainerCache | Target::IosBackups => true,
            _ => false,
        }
    }

    /// Targets for which moving to the trash makes no sense: emptying the
    /// trash into the trash, or piling up thousands of identically named
    /// `.DS_Store` files.
    pub fn always_purges(self) -> (r: bool)
        ensures
            r == purges_always(self),
    {
        match self {
            Target::Trash | Target::TrashAll | Target::DsStore => true,
            _ => false,
        }
    }
}

/// `all` leaves out everything that holds data except the trash, whose
/// emptying is the point.
pub proof fn all_sweeps_no_data_but_the_trash()
    ensures
        forall|i: int|
            0 <= i < default_targets().len() && default_targets()[i] != Target::Trash
                && default_targets()[i] != Target::TrashAll ==> risk_of(
                #[trigger] default_targets()[i],
            ) != Risk::Data,
        !default_targets().contains(Target::Simulators),
        !default_targets().contains(Target::IosBackups),
        !default_targets().contains(Target::Vm),
{
    assert forall|i: int|
        0 <= i < default_targets().len() && default_targets()[i] != Target::Trash
            && default_targets()[i] != Target::TrashAll implies risk_of(
            #[trigger] default_targets()[i],
        ) != Risk::Data by {
    }
    assert(!default_targets().contains(Target::Simulators));
    assert(!default_targets().contains(Target::IosBackups));
    assert(!default_targets().contains(Target::Vm));
}

/// `Target::DEFAULT` is the list `all` stands for.
pub fn default_list() -> (r: Vec<Target>)
    ensures
        r@ == default_targets(),
{
    let a = Target::DEFAULT;
    let mut r: Vec<Target> = Vec::new();
    let mut i: usize = 0;
    while i < 10
        invariant
            i <= 10,
            a@ == default_targets(),
            r@ == default_targets().take(i as int),
        decreases 10 - i,
    {
        r.push(a[i]);
        assert(default_targets().take(i + 1) == default_targets().take(i as int).push(a@[i as int]));
        i += 1;
    }
    assert(default_targets().take(10) == default_targets());
    r
}


/// How a target is cleaned.
#[derive(Debug, Clone)]
pub enum Strategy {
    /// Empty the contents of these directories.
    Dirs(Vec<String>),
    /// The cache directories found inside the application containers.
    ContainerCaches,
    /// The user trash and the current user's trash on every mounted volume.
    AllTrashes,
    /// Walk the home directory looking for `.DS_Store` files.
    DsStore,
    /// Delegate to `brew cleanup`.
    Homebrew,
    /// Delegate to the `docker … prune` commands.
    Docker,
}

/// The package-manager caches, relative to the home directory. All of it is
/// re-downloadable, and none of it sits inside a project.
pub open spec fn package_suffixes() -> Seq<Seq<char>> {
    seq![
        ".npm/_cacache"@, "Library/Caches/Yarn"@, ".cache/yarn"@, "Library/pnpm/store"@,
        ".local/share/pnpm/store"@, ".bun/install/cache"@, ".cargo/registry/cache"@,
        ".cargo/registry/src"@, "go/pkg/mod/cache/download"@, ".gradle/caches"@,
        ".m2/repository"@, "Library/Caches/pip"@, ".cache/pip"@, "Library/Caches/uv"@,
        "Library/Caches/org.swift.swiftpm"@, "Library/Caches/CocoaPods"@,
        "Library/Caches/composer"@, ".nuget/packages"@, ".pub-cache"@,
    ]
}

/// The Xcode directories, relative to the home directory.
pub open spec fn xcode_suffixes() -> Seq<Seq<char>> {
    seq![
        "Library/Developer/Xcode/DerivedData"@, "Library/Developer/Xcode/Archives"@,
        "Library/Developer/Xcode/iOS DeviceSupport"@,
        "Library/Developer/Xcode/watchOS DeviceSupport"@,
        "Library/Developer/Xcode/tvOS DeviceSupport"@,
        "Library/Developer/CoreSimulator/Caches"@,
    ]
}

/// Each suffix joined to the home directory.
pub open spec fn under_home(home: Seq<char>, suffixes: Seq<Seq<char>>) -> Seq<Seq<char>> {
    suffixes.map_values(|s: Seq<char>| join_spec(home, s))
}

fn joined_all(home: &str, suffixes: &Vec<&'static str>) -> (r: Vec<String>)
    ensures
        crate::config::string_views(r@) == under_home(home@, suffixes@.map_values(|s: &str| s@)),
{
    let ghost want = under_home(home@, suffixes@.map_values(|s: &str| s@));
    let mut r: Vec<String> = Vec::new();
    let mut i: usize = 0;
    while i < suffixes.len()
        invariant
            i <= suffixes@.len(),
            want == under_home(home@, suffixes@.map_values(|s: &str| s@)),
            crate::config::string_views(r@) == want.take(i as int),
        decreases suffixes@.len() - i,
    {
        let ghost before = r@;
        let item = home_join(home, suffixes[i]);
        assert(item@ == want[i as int]);
        r.push(item);
        assert(crate::config::string_views(r@) =~= want.take(i + 1)) by {
            assert(crate::config::string_views(before) =~= want.take(i as int));
            assert(crate::config::string_views(r@) =~= crate::config::string_views(before).push(item@));
        }
        i += 1;
    }
    assert(want.take(suffixes@.len() as int) =~= want);
    r
}

/// Global caches of the package managers, under the given home directory.
pub fn package_caches(home: &str) -> (r: Vec<String>)
    ensures
        crate::config::string_views(r@) == under_home(home@, package_suffixes()),
{
    let suffixes: Vec<&'static str> = vec![
        ".npm/_cacache", "Library/Caches/Yarn", ".cache/yarn", "Library/pnpm/store",
        ".local/share/pnpm/store", ".bun/install/cache", ".cargo/registry/cache",
        ".cargo/registry/src", "go/pkg/mod/cache/download", ".gradle/caches",
        ".m2/repository", "Library/Caches/pip", ".cache/pip", "Library/Caches/uv",
        "Library/Caches/org.swift.swiftpm", "Library/Caches/CocoaPods",
        "Library/Caches/composer", ".nuget/packages", ".pub-cache",
    ];
    proof {
        reveal_strlit(".npm/_cacache"); reveal_strlit("Library/Caches/Yarn");
        reveal_strlit(".cache/yarn"); reveal_strlit("Library/pnpm/store");
        reveal_strlit(".local/share/pnpm/store"); reveal_strlit(".bun/install/cache");
        reveal_strlit(".cargo/registry/cache"); reveal_strlit(".cargo/registry/src");
        reveal_strlit("go/pkg/mod/cache/download"); reveal_strlit(".gradle/caches");
        reveal_strlit(".m2/repository"); reveal_strlit("Library/Caches/pip");
        reveal_strlit(".cache/pip"); reveal_strlit("Library/Caches/uv");
        reveal_strlit("Library/Caches/org.swift.swiftpm"); reveal_strlit("Library/Caches/CocoaPods");
        reveal_strlit("Library/Caches/composer"); reveal_strlit(".nuget/packages");
        reveal_strlit(".pub-cache");
        assert(suffixes@.map_values(|s: &str| s@) =~= package_suffixes());
    }
    joined_all(home, &suffixes)
}

/// The Xcode directories under the given home directory.
pub fn xcode_dirs(home: &str) -> (r: Vec<String>)
    ensures
        crate::config::string_views(r@) == under_home(home@, xcode_suffixes()),
{
    let suffixes: Vec<&'static str> = vec![
        "Library/Developer/Xcode/DerivedData", "Library/Developer/Xcode/Archives",
        "Library/Developer/Xcode/iOS DeviceSupport",
        "Library/Developer/Xcode/watchOS DeviceSupport",
        "Library/Developer/Xcode/tvOS DeviceSupport",
        "Library/Developer/CoreSimulator/Caches",
    ];
    proof {
        reveal_strlit("Library/Developer/Xcode/DerivedData");
        reveal_strlit("Library/Developer/Xcode/Archives");
        reveal_strlit("Library/Developer/Xcode/iOS DeviceSupport");
        reveal_strlit("Library/Developer/Xcode/watchOS DeviceSupport");
        reveal_strlit("Library/Developer/Xcode/tvOS DeviceSupport");
        reveal_strlit("Library/Developer/CoreSimulator/Caches");
        assert(suffixes@.map_values(|s: &str| s@) =~= xcode_suffixes());
    }
    joined_all(home, &suffixes)
}

/// The two places a container keeps its caches, for each container entry
/// (`Data/Library/Caches` for an app container, `Library/Caches` for a group
/// container), in order. Only those that exist are cleaned.
pub fn container_cache_candidates(entries: &Vec<String>) -> (r: Vec<String>)
    ensures
        r@.len() == 2 * entries@.len(),
        forall|i: int| 0 <= i < entries@.len() ==> r@[2 * i]@ == join_spec(
            #[trigger] entries@[i]@,
            "Data/Library/Caches"@,
        ) && r@[2 * i + 1]@ == join_spec(entries@[i]@, "Library/Caches"@),
{
    let mut r: Vec<String> = Vec::new();
    let mut i: usize = 0;
    while i < entries.len()
        invariant
            i <= entries@.len(),
            r@.len() == 2 * i,
            forall|k: int| 0 <= k < i ==> r@[2 * k]@ == join_spec(
                #[trigger] entries@[k]@,
                "Data/Library/Caches"@,
            ) && r@[2 * k + 1]@ == join_spec(entries@[k]@, "Library/Caches"@),
        decreases entries@.len() - i,
    {
        let ghost before = r@;
        r.push(home_join(entries[i].as_str(), "Data/Library/Caches"));
        r.push(home_join(entries[i].as_str(), "Library/Caches"));
        assert forall|k: int| 0 <= k < i + 1 implies r@[2 * k]@ == join_spec(
            #[trigger] entries@[k]@,
            "Data/Library/Caches"@,
        ) && r@[2 * k + 1]@ == join_spec(entries@[k]@, "Library/Caches"@) by {
            if k < i {
                assert(r@[2 * k] == before[2 * k]);
                assert(r@[2 * k + 1] == before[2 * k + 1]);
            }
        }
        i += 1;
    }
    r
}

/// The user trash, then the current user's own trash on each mounted volume
/// — never the whole `.Trashes`, which holds every account's deletions.
pub fn all_trashes(home: &str, uid: u32, volumes: &Vec<String>) -> (r: Vec<String>)
    ensures
        r@.len() == volumes@.len() + 1,
        r@[0]@ == join_spec(home@, ".Trash"@),
        forall|i: int| 0 <= i < volumes@.len() ==> (#[trigger] r@[i + 1])@ == join_spec(
            join_spec(volumes@[i]@, ".Trashes"@),
            decimal(uid as nat),
        ),
{
    let mut r: Vec<String> = Vec::new();
    r.push(home_join(home, ".Trash"));
    let mut i: usize = 0;
    while i < volumes.len()
        invariant
            i <= volumes@.len(),
            r@.len() == i + 1,
            r@[0]@ == join_spec(home@, ".Trash"@),
            forall|k: int| 0 <= k < i ==> (#[trigger] r@[k + 1])@ == join_spec(
                join_spec(volumes@[k]@, ".Trashes"@),
                decimal(uid as nat),
            ),
        decreases volumes@.len() - i,
    {
        let t = home_join(volumes[i].as_str(), ".Trashes");
        let mut u = String::new();
        push_decimal(&mut u, uid as u64);
        r.push(home_join(t.as_str(), u.as_str()));
        i += 1;
    }
    r
}

/// How each target is cleaned, given the home directory.
pub open spec fn strategy_dirs(t: Target, home: Seq<char>) -> Option<Seq<Seq<char>>> {
    match t {
        Target::Cache => Some(seq![join_spec(home, "Library/Caches"@)]),
        Target::PkgCache => Some(under_home(home, package_suffixes())),
        Target::Trash => Some(seq![join_spec(home, ".Trash"@)]),
        Target::Logs => Some(seq![join_spec(home, "Library/Logs"@)]),
        Target::Xcode => Some(under_home(home, xcode_suffixes())),
        Target::Simulators => Some(seq![join_spec(home, "Library/Developer/CoreSimulator/Devices"@)]),
        Target::IosBackups => Some(seq![join_spec(home, "Library/Application Support/MobileSync/Backup"@)]),
        Target::Vm => Some(seq![
            join_spec(home, ".colima"@),
            join_spec(home, ".lima"@),
            join_spec(home, ".local/share/containers/podman/machine"@),
            join_spec(home, "VirtualBox VMs"@),
            join_spec(home, ".vagrant.d/boxes"@),
            join_spec(home, "Parallels"@),
        ]),
        _ => None,
    }
}

/// The directories a target empties, relative to the home directory.
spec fn home_suffixes(t: Target) -> Option<Seq<Seq<char>>> {
    match t {
        Target::Cache => Some(seq!["Library/Caches"@]),
        Target::PkgCache => Some(seq![".npm/_cacache"@, "Library/Caches/Yarn"@, ".cache/yarn"@, "Library/pnpm/store"@, ".local/share/pnpm/store"@, ".bun/install/cache"@, ".cargo/registry/cache"@, ".cargo/registry/src"@, "go/pkg/mod/cache/download"@, ".gradle/caches"@, ".m2/repository"@, "Library/Caches/pip"@, ".cache/pip"@, "Library/Caches/uv"@, "Library/Caches/org.swift.swiftpm"@, "Library/Caches/CocoaPods"@, "Library/Caches/composer"@, ".nuget/packages"@, ".pub-cache"@]),
        Target::Trash => Some(seq![".Trash"@]),
        Target::Logs => Some(seq!["Library/Logs"@]),
        Target::Xcode => Some(seq!["Library/Developer/Xcode/DerivedData"@, "Library/Developer/Xcode/Archives"@, "Library/Developer/Xcode/iOS DeviceSupport"@, "Library/Developer/Xcode/watchOS DeviceSupport"@, "Library/Developer/Xcode/tvOS DeviceSupport"@, "Library/Developer/CoreSimulator/Caches"@]),
        Target::Simulators => Some(seq!["Library/Developer/CoreSimulator/Devices"@]),
        Target::IosBackups => Some(seq!["Library/Application Support/MobileSync/Backup"@]),
        Target::Vm => Some(seq![".colima"@, ".lima"@, ".local/share/containers/podman/machine"@, "VirtualBox VMs"@, ".vagrant.d/boxes"@, "Parallels"@]),
        _ => None,
    }
}

proof fn lemma_home_suffixes(home: Seq<char>, t: Target)
    ensures
        strategy_dirs(t, home) == (match home_suffixes(t) {
            Some(s) => Some(under_home(home, s)),
            None => None,
        }),
        home_suffixes(t) matches Some(s) ==> forall|i: int| 0 <= i < s.len() ==> (#[trigger] s[i]).len() > 0 && s[i][0] != '/',
{
    reveal_strlit(".Trash");
    reveal_strlit(".bun/install/cache");
    reveal_strlit(".cache/pip");
    reveal_strlit(".cache/yarn");
    reveal_strlit(".cargo/registry/cache");
    reveal_strlit(".cargo/registry/src");
    reveal_strlit(".colima");
    reveal_strlit(".gradle/caches");
    reveal_strlit(".lima");
    reveal_strlit(".local/share/containers/podman/machine");
    reveal_strlit(".local/share/pnpm/store");
    reveal_strlit(".m2/repository");
    reveal_strlit(".npm/_cacache");
    reveal_strlit(".nuget/packages");
    reveal_strlit(".pub-cache");
    reveal_strlit(".vagrant.d/boxes");
    reveal_strlit("Library/Application Support/MobileSync/Backup");
    reveal_strlit("Library/Caches");
    reveal_strlit("Library/Caches/CocoaPods");
    reveal_strlit("Library/Caches/Yarn");
    reveal_strlit("Library/Caches/composer");
    reveal_strlit("Library/Caches/org.swift.swiftpm");
    reveal_strlit("Library/Caches/pip");
    reveal_strlit("Library/Caches/uv");
    reveal_strlit("Library/Developer/CoreSimulator/Caches");
    reveal_strlit("Library/Developer/CoreSimulator/Devices");
    reveal_strlit("Library/Developer/Xcode/Archives");
    reveal_strlit("Library/Developer/Xcode/DerivedData");
    reveal_strlit("Library/Developer/Xcode/iOS DeviceSupport");
    reveal_strlit("Library/Developer/Xcode/tvOS DeviceSupport");
    reveal_strlit("Library/Developer/Xcode/watchOS DeviceSupport");
    reveal_strlit("Library/Logs");
    reveal_strlit("Library/pnpm/store");
    reveal_strlit("Parallels");
    reveal_strlit("VirtualBox VMs");
    reveal_strlit("go/pkg/mod/cache/download");
    match home_suffixes(t) {
        Some(s) => {
            assert(strategy_dirs(t, home)->0 =~= under_home(home, s));
        },
        None => {},
    }
}

#[verifier::rlimit(100)]
proof fn lemma_suffixes_apart(t: Target, u: Target, i: int, j: int)
    requires
        t != u,
        home_suffixes(t) is Some,
        home_suffixes(u) is Some,
        0 <= i < home_suffixes(t)->0.len(),
        0 <= j < home_suffixes(u)->0.len(),
    ensures
        home_suffixes(t)->0[i] != home_suffixes(u)->0[j],
{
    reveal_strlit(".Trash");
    assert(".Trash"@.len() == 6 && ".Trash"@[0] == '.');
    reveal_strlit(".bun/install/cache");
    assert(".bun/install/cache"@.len() == 18 && ".bun/install/cache"@[0] == '.' && ".bun/install/cache"@[8] == 't');
    reveal_strlit(".cache/pip");
    assert(".cache/pip"@.len() == 10 && ".cache/pip"@[0] == '.' && ".cache/pip"@[8] == 'i');
    reveal_strlit(".cache/yarn");
    assert(".cache/yarn"@.len() == 11 && ".cache/yarn"@[0] == '.' && ".cache/yarn"@[8] == 'a');
    reveal_strlit(".cargo/registry/cache");
    assert(".cargo/registry/cache"@.len() == 21 && ".cargo/registry/cache"@[0] == '.' && ".cargo/registry/cache"@[8] == 'e');
    reveal_strlit(".cargo/registry/src");
    assert(".cargo/registry/src"@.len() == 19 && ".cargo/registry/src"@[0] == '.' && ".cargo/registry/src"@[8] == 'e');
    reveal_strlit(".colima");
    assert(".colima"@.len() == 7 && ".colima"@[0] == '.');
    reveal_strlit(".gradle/caches");
    assert(".gradle/caches"@.len() == 14 && ".gradle/caches"@[0] == '.' && ".gradle/caches"@[8] == 'c');
    reveal_strlit(".lima");
    assert(".lima"@.len() == 5 && ".lima"@[0] == '.');
    reveal_strlit(".local/share/containers/podman/machine");
    assert(".local/share/containers/podman/machine"@.len() == 38 && ".local/share/containers/podman/machine"@[0] == '.' && ".local/share/containers/podman/machine"@[8] == 'h');
    reveal_strlit(".local/share/pnpm/store");
    assert(".local/share/pnpm/store"@.len() == 23 && ".local/share/pnpm/store"@[0] == '.' && ".local/share/pnpm/store"@[8] == 'h');
    reveal_strlit(".m2/repository");
    assert(".m2/repository"@.len() == 14 && ".m2/repository"@[0] == '.' && ".m2/repository"@[8] == 's');
    reveal_strlit(".npm/_cacache");
    assert(".npm/_cacache"@.len() == 13 && ".npm/_cacache"@[0] == '.' && ".npm/_cacache"@[8] == 'c');
    reveal_strlit(".nuget/packages");
    assert(".nuget/packages"@.len() == 15 && ".nuget/packages"@[0] == '.' && ".nuget/packages"@[8] == 'a');
    reveal_strlit(".pub-cache");
    assert(".pub-cache"@.len() == 10 && ".pub-cache"@[0] == '.' && ".pub-cache"@[8] == 'h');
    reveal_strlit(".vagrant.d/boxes");
    assert(".vagrant.d/boxes"@.len() == 16 && ".vagrant.d/boxes"@[0] == '.' && ".vagrant.d/boxes"@[8] == '.');
    reveal_strlit("Library/Application Support/MobileSync/Backup");
    assert("Library/Application Support/MobileSync/Backup"@.len() == 45 && "Library/Application Support/MobileSync/Backup"@[0] == 'L' && "Library/Application Support/MobileSync/Backup"@[8] == 'A');
    reveal_strlit("Library/Caches");
    assert("Library/Caches"@.len() == 14 && "Library/Caches"@[0] == 'L' && "Library/Caches"@[8] == 'C');
    reveal_strlit("Library/Caches/CocoaPods");
    assert("Library/Caches/CocoaPods"@.len() == 24 && "Library/Caches/CocoaPods"@[0] == 'L' && "Library/Caches/CocoaPods"@[8] == 'C');
    reveal_strlit("Library/Caches/Yarn");
    assert("Library/Caches/Yarn"@.len() == 19 && "Library/Caches/Yarn"@[0] == 'L' && "Library/Caches/Yarn"@[8] == 'C');
    reveal_strlit("Library/Caches/composer");
    assert("Library/Caches/composer"@.len() == 23 && "Library/Caches/composer"@[0] == 'L' && "Library/Caches/composer"@[8] == 'C');
    reveal_strlit("Library/Caches/org.swift.swiftpm");
    assert("Library/Caches/org.swift.swiftpm"@.len() == 32 && "Library/Caches/org.swift.swiftpm"@[0] == 'L' && "Library/Caches/org.swift.swiftpm"@[8] == 'C');
    reveal_strlit("Library/Caches/pip");
    assert("Library/Caches/pip"@.len() == 18 && "Library/Caches/pip"@[0] == 'L' && "Library/Caches/pip"@[8] == 'C');
    reveal_strlit("Library/Caches/uv");
    assert("Library/Caches/uv"@.len() == 17 && "Library/Caches/uv"@[0] == 'L' && "Library/Caches/uv"@[8] == 'C');
    reveal_strlit("Library/Developer/CoreSimulator/Caches");
    assert("Library/Developer/CoreSimulator/Caches"@.len() == 38 && "Library/Developer/CoreSimulator/Caches"@[0] == 'L' && "Library/Developer/CoreSimulator/Caches"@[8] == 'D');
    reveal_strlit("Library/Developer/CoreSimulator/Devices");
    assert("Library/Developer/CoreSimulator/Devices"@.len() == 39 && "Library/Developer/CoreSimulator/Devices"@[0] == 'L' && "Library/Developer/CoreSimulator/Devices"@[8] == 'D');
    reveal_strlit("Library/Developer/Xcode/Archives");
    assert("Library/Developer/Xcode/Archives"@.len() == 32 && "Library/Developer/Xcode/Archives"@[0] == 'L' && "Library/Developer/Xcode/Archives"@[8] == 'D');
    reveal_strlit("Library/Developer/Xcode/DerivedData");
    assert("Library/Developer/Xcode/DerivedData"@.len() == 35 && "Library/Developer/Xcode/DerivedData"@[0] == 'L' && "Library/Developer/Xcode/DerivedData"@[8] == 'D');
    reveal_strlit("Library/Developer/Xcode/iOS DeviceSupport");
    assert("Library/Developer/Xcode/iOS DeviceSupport"@.len() == 41 && "Library/Developer/Xcode/iOS DeviceSupport"@[0] == 'L' && "Library/Developer/Xcode/iOS DeviceSupport"@[8] == 'D');
    reveal_strlit("Library/Developer/Xcode/tvOS DeviceSupport");
    assert("Library/Developer/Xcode/tvOS DeviceSupport"@.len() == 42 && "Library/Developer/Xcode/tvOS DeviceSupport"@[0] == 'L' && "Library/Developer/Xcode/tvOS DeviceSupport"@[8] == 'D');
    reveal_strlit("Library/Developer/Xcode/watchOS DeviceSupport");
    assert("Library/Developer/Xcode/watchOS DeviceSupport"@.len() == 45 && "Library/Developer/Xcode/watchOS DeviceSupport"@[0] == 'L' && "Library/Developer/Xcode/watchOS DeviceSupport"@[8] == 'D');
    reveal_strlit("Library/Logs");
    assert("Library/Logs"@.len() == 12 && "Library/Logs"@[0] == 'L' && "Library/Logs"@[8] == 'L');
    reveal_strlit("Library/pnpm/store");
    assert("Library/pnpm/store"@.len() == 18 && "Library/pnpm/store"@[0] == 'L' && "Library/pnpm/store"@[8] == 'p');
    reveal_strlit("Parallels");
    assert("Parallels"@.len() == 9 && "Parallels"@[0] == 'P' && "Parallels"@[8] == 's');
    reveal_strlit("VirtualBox VMs");
    assert("VirtualBox VMs"@.len() == 14 && "VirtualBox VMs"@[0] == 'V' && "VirtualBox VMs"@[8] == 'o');
    reveal_strlit("go/pkg/mod/cache/download");
    assert("go/pkg/mod/cache/download"@.len() == 25 && "go/pkg/mod/cache/download"@[0] == 'g' && "go/pkg/mod/cache/download"@[8] == 'o');
    let a = home_suffixes(t)->0[i];
    let b = home_suffixes(u)->0[j];
    if a == b {
        assert(a.len() == b.len() && a[0] == b[0] && a[8] == b[8]);
    }
}

proof fn lemma_join_relative(home: Seq<char>, a: Seq<char>, b: Seq<char>)
    requires
        a.len() > 0,
        a[0] != '/',
        b.len() > 0,
        b[0] != '/',
    ensures
        join_spec(home, a) == join_spec(home, b) ==> a == b,
        home.len() > 0 ==> crate::format::within(join_spec(home, a), home) && join_spec(home, a) != home,
{
    if home.len() == 0 || home.last() == '/' {
        assert(join_spec(home, a) == home + a);
        assert(join_spec(home, b) == home + b);
        assert((home + a).skip(home.len() as int) =~= a);
        assert((home + b).skip(home.len() as int) =~= b);
        assert((home + a).take(home.len() as int) =~= home);
    } else {
        let h = home + seq!['/'];
        assert(join_spec(home, a) =~= h + a);
        assert(join_spec(home, b) =~= h + b);
        assert((h + a).skip(h.len() as int) =~= a);
        assert((h + b).skip(h.len() as int) =~= b);
        assert((h + a).take(home.len() as int) =~= home);
        assert((h + a)[home.len() as int] == '/');
    }
}

/// No two targets empty the same directory: each cleans what it is named
/// for, and `clean logs` never empties the caches.
pub proof fn targets_never_share_a_directory(home: Seq<char>, t: Target, u: Target, i: int, j: int)
    requires
        t != u,
        strategy_dirs(t, home) is Some,
        strategy_dirs(u, home) is Some,
        0 <= i < strategy_dirs(t, home)->0.len(),
        0 <= j < strategy_dirs(u, home)->0.len(),
    ensures
        strategy_dirs(t, home)->0[i] != strategy_dirs(u, home)->0[j],
{
    lemma_home_suffixes(home, t);
    lemma_home_suffixes(home, u);
    let a = home_suffixes(t)->0[i];
    let b = home_suffixes(u)->0[j];
    lemma_suffixes_apart(t, u, i, j);
    lemma_join_relative(home, a, b);
}

/// Every directory a target empties lies inside the home directory, and is
/// not the home directory itself.
pub proof fn targets_stay_inside_home(home: Seq<char>, t: Target, i: int)
    requires
        home.len() > 0,
        strategy_dirs(t, home) is Some,
        0 <= i < strategy_dirs(t, home)->0.len(),
    ensures
        crate::format::within(strategy_dirs(t, home)->0[i], home),
        strategy_dirs(t, home)->0[i] != home,
{
    lemma_home_suffixes(home, t);
    let a = home_suffixes(t)->0[i];
    lemma_join_relative(home, a, a);
}

/// A target named like one of the places where applications leave things
/// behind (`cache`, `logs`) empties exactly that place: `clean logs` empties
/// `~/Library/Logs` and nothing else, `clean cache` `~/Library/Caches`.
pub proof fn targets_empty_the_places_named_alike(home: Seq<char>, t: Target, k: int)
    requires
        0 <= k < crate::task::orphans::haunts_spec(home).len(),
        slug_of(t) == crate::task::orphans::haunts_spec(home)[k].0,
    ensures
        strategy_dirs(t, home) == Some(seq![crate::task::orphans::haunts_spec(home)[k].1]),
{
    reveal_strlit("cache");
    reveal_strlit("container-cache");
    reveal_strlit("pkg-cache");
    reveal_strlit("trash");
    reveal_strlit("trash-all");
    reveal_strlit("logs");
    reveal_strlit("ds-store");
    reveal_strlit("homebrew");
    reveal_strlit("docker");
    reveal_strlit("xcode");
    reveal_strlit("simulators");
    reveal_strlit("ios-backups");
    reveal_strlit("vm");
    reveal_strlit("support");
    reveal_strlit("container");
    reveal_strlit("group container");
    reveal_strlit("web storage");
    reveal_strlit("web data");
    reveal_strlit("preferences");
    reveal_strlit("saved state");
    reveal_strlit("cookies");
    reveal_strlit("startup agent");
    let h = crate::task::orphans::haunts_spec(home);
    let s = slug_of(t);
    assert(s.len() == h[k].0.len() && s[0] == h[k].0[0]);
    if k == 3 {
        assert(h[k].0 == "cache"@);
        assert(t == Target::Cache);
    } else if k == 4 {
        assert(h[k].0 == "logs"@);
        assert(t == Target::Logs);
    } else {
        assert(k == 0 || k == 1 || k == 2 || k == 5 || k == 6 || k == 7 || k == 8 || k == 9 || k == 10);
        assert(h[0].0 == "support"@);
        assert(h[1].0 == "container"@);
        assert(h[2].0 == "group container"@);
        assert(h[5].0 == "web storage"@);
        assert(h[6].0 == "web data"@);
        assert(h[7].0 == "preferences"@);
        assert(h[8].0 == "saved state"@);
        assert(h[9].0 == "cookies"@);
        assert(h[10].0 == "startup agent"@);
        assert(false);
    }
}


/// The places among what the targets empty where the user's own data lives:
/// the trash, the device backups, and the virtual machine images.
pub open spec fn holds_user_data(p: Seq<char>, home: Seq<char>) -> bool {
    ||| p == join_spec(home, ".Trash"@)
    ||| p == join_spec(home, "Library/Application Support/MobileSync/Backup"@)
    ||| p == join_spec(home, ".colima"@)
    ||| p == join_spec(home, ".lima"@)
    ||| p == join_spec(home, ".local/share/containers/podman/machine"@)
    ||| p == join_spec(home, "VirtualBox VMs"@)
    ||| p == join_spec(home, ".vagrant.d/boxes"@)
    ||| p == join_spec(home, "Parallels"@)
}

/// Every directory cleaning a target empties: its own directories, or, for
/// the trash of every volume, the user's trash to begin with (`all_trashes`).
pub open spec fn reaches(t: Target, home: Seq<char>) -> Seq<Seq<char>> {
    match strategy_dirs(t, home) {
        Some(d) => d,
        None => if t == Target::TrashAll {
            seq![join_spec(home, ".Trash"@)]
        } else {
            Seq::empty()
        },
    }
}

/// A target whose cleaning empties a place holding the user's own data is
/// marked as holding data, and a target marked so does empty one: which is
/// what keeps such targets out of `all` and away from a schedule.
pub proof fn what_empties_user_data_is_marked_data(t: Target, home: Seq<char>)
    ensures
        risk_of(t) == Risk::Data <==> exists|k: int| 0 <= k < reaches(t, home).len()
            && holds_user_data(#[trigger] reaches(t, home)[k], home),
{
    lemma_home_suffixes(home, t);
    lemma_home_suffixes(home, Target::Trash);
    lemma_home_suffixes(home, Target::IosBackups);
    lemma_home_suffixes(home, Target::Vm);
    if risk_of(t) == Risk::Data {
        assert(holds_user_data(reaches(t, home)[0], home));
    } else {
        assert forall|k: int| 0 <= k < reaches(t, home).len() implies !holds_user_data(#[trigger] reaches(t, home)[k], home) by {
            let st = home_suffixes(t)->0;
            assert(reaches(t, home)[k] == join_spec(home, st[k]));
            lemma_suffixes_apart(t, Target::Trash, k, 0);
            lemma_join_relative(home, st[k], home_suffixes(Target::Trash)->0[0]);
            lemma_suffixes_apart(t, Target::IosBackups, k, 0);
            lemma_join_relative(home, st[k], home_suffixes(Target::IosBackups)->0[0]);
            lemma_suffixes_apart(t, Target::Vm, k, 0);
            lemma_join_relative(home, st[k], home_suffixes(Target::Vm)->0[0]);
            lemma_suffixes_apart(t, Target::Vm, k, 1);
            lemma_join_relative(home, st[k], home_suffixes(Target::Vm)->0[1]);
            lemma_suffixes_apart(t, Target::Vm, k, 2);
            lemma_join_relative(home, st[k], home_suffixes(Target::Vm)->0[2]);
            lemma_suffixes_apart(t, Target::Vm, k, 3);
            lemma_join_relative(home, st[k], home_suffixes(Target::Vm)->0[3]);
            lemma_suffixes_apart(t, Target::Vm, k, 4);
            lemma_join_relative(home, st[k], home_suffixes(Target::Vm)->0[4]);
            lemma_suffixes_apart(t, Target::Vm, k, 5);
            lemma_join_relative(home, st[k], home_suffixes(Target::Vm)->0[5]);
        }
    }
}

fn one(home: &str, suffix: &str) -> (r: Vec<String>)
    ensures
        crate::config::string_views(r@) == seq![join_spec(home@, suffix@)],
{
    let r = vec![home_join(home, suffix)];
    assert(crate::config::string_views(r@) =~= seq![join_spec(home@, suffix@)]);
    r
}

impl Target {
    /// How this target is cleaned: the directories to empty, or the tool or
    /// walk that does it.
    pub fn strategy(self, home: &str) -> (r: Strategy)
        ensures
            strategy_dirs(self, home@) matches Some(dirs) ==> (r matches Strategy::Dirs(v)
                && crate::config::string_views(v@) == dirs),
            self == Target::ContainerCache ==> r is ContainerCaches,
            self == Target::TrashAll ==> r is AllTrashes,
            self == Target::DsStore ==> r is DsStore,
            self == Target::Homebrew ==> r is Homebrew,
            self == Target::Docker ==> r is Docker,
    {
        match self {
            Target::Cache => Strategy::Dirs(one(home, "Library/Caches")),
            Target::ContainerCache => Strategy::ContainerCaches,
            Target::PkgCache => Strategy::Dirs(package_caches(home)),
            Target::Trash => Strategy::Dirs(one(home, ".Trash")),
            Target::TrashAll => Strategy::AllTrashes,
            Target::Logs => Strategy::Dirs(one(home, "Library/Logs")),
            Target::DsStore => Strategy::DsStore,
            Target::Homebrew => Strategy::Homebrew,
            Target::Docker => Strategy::Docker,
            Target::Xcode => Strategy::Dirs(xcode_dirs(home)),
            Target::Simulators => Strategy::Dirs(one(home, "Library/Developer/CoreSimulator/Devices")),
            Target::IosBackups => Strategy::Dirs(one(home, "Library/Application Support/MobileSync/Backup")),
            Target::Vm => {
                let r = vec![
                    home_join(home, ".colima"),
                    home_join(home, ".lima"),
                    home_join(home, ".local/share/containers/podman/machine"),
                    home_join(home, "VirtualBox VMs"),
                    home_join(home, ".vagrant.d/boxes"),
                    home_join(home, "Parallels"),
                ];
                assert(crate::config::string_views(r@) =~= strategy_dirs(self, home@)->0);
                Strategy::Dirs(r)
            },
        }
    }
}

/// Space taken by a target.
#[derive(Debug, Clone)]
pub struct Measure {
    pub target: Target,
    pub label: &'static str,
    pub risk: Risk,
    /// Reclaimable bytes, counted as blocks on disk.
    pub bytes: u64,
    /// Number of items involved.
    pub items: usize,
    /// Directories that could not be read.
    pub denied: usize,
    /// Why the target is unavailable on this machine.
    pub unavailable: Option<String>,
}

impl Measure {
    pub fn new(target: Target, bytes: u64, items: usize, denied: usize) -> (r: Self)
        ensures
            r.target == target,
            r.label@ == label_of(target),
            r.risk == risk_of(target),
            r.bytes == bytes,
            r.items == items,
            r.denied == denied,
            r.unavailable is None,
    {
        Measure { target, label: target.label(), risk: target.risk(), bytes, items, denied, unavailable: None }
    }

    pub fn unavailable(target: Target, reason: &str) -> (r: Self)
        ensures
            r.target == target,
            r.label@ == label_of(target),
            r.risk == risk_of(target),
            r.bytes == 0 && r.items == 0 && r.denied == 0,
            r.unavailable matches Some(m) && m@ == reason@,
    {
        let mut m = String::new();
        push_str(&mut m, reason);
        Measure {
            target,
            label: target.label(),
            risk: target.risk(),
            bytes: 0,
            items: 0,
            denied: 0,
            unavailable: Some(m),
        }
    }
}

/// What was found on disk for a target, before any verdict.
#[derive(Debug)]
pub enum Survey {
    /// The directories of the target that exist, measured together (a file
    /// hard-linked between two of them counts once): how many there are,
    /// their bytes on disk, their entries, and the directories that refused
    /// to be read.
    Dirs { existing: usize, bytes: u64, items: usize, denied: usize },
    /// The size of each `.DS_Store` file found, and the directories that
    /// refused to be read.
    DsStore { sizes: Vec<u64>, denied: usize },
    /// What Docker reports as reclaimable, or why it cannot.
    Docker(Result<crate::task::docker::Reclaimable, String>),
    /// The Homebrew cache's bytes and entries, or why there is none.
    Homebrew(Result<(u64, usize), String>),
}

/// Sum of the values, held at `u64::MAX`.
pub open spec fn sat_sum(v: Seq<u64>) -> u64
    decreases v.len(),
{
    if v.len() == 0 {
        0
    } else {
        crate::task::docker::sat_add(sat_sum(v.drop_last()), v.last())
    }
}

fn sum_saturating(v: &Vec<u64>) -> (r: u64)
    ensures
        r == sat_sum(v@),
{
    let mut total: u64 = 0;
    let mut i: usize = 0;
    while i < v.len()
        invariant
            i <= v@.len(),
            total == sat_sum(v@.take(i as int)),
        decreases v@.len() - i,
    {
        assert(v@.take(i + 1).drop_last() =~= v@.take(i as int));
        total = total.saturating_add(v[i]);
        i += 1;
    }
    assert(v@.take(v@.len() as int) =~= v@);
    total
}

/// The sentence for directories that exist but cannot be read.
pub open spec fn unreadable_note() -> Seq<char> {
    "unreadable — "@ + "grant Full Disk Access to your terminal in System Settings › Privacy & Security"@
}

/// The verdict on a target from what was found: unavailable when nothing
/// exists, or when everything that exists refused to be read.
pub fn measure(target: Target, survey: Survey) -> (r: Measure)
    ensures
        r.target == target,
        r.label@ == label_of(target),
        r.risk == risk_of(target),
        survey matches Survey::Dirs { existing, bytes, items, denied } ==> if existing == 0 {
            r.bytes == 0 && r.items == 0 && r.denied == 0 && (r.unavailable matches Some(m)
                && m@ == "directory not found"@)
        } else {
            r.bytes == bytes && r.items == items && r.denied == denied && (if denied > 0 && bytes
                == 0 {
                r.unavailable matches Some(m) && m@ == unreadable_note()
            } else {
                r.unavailable is None
            })
        },
        survey matches Survey::DsStore { sizes, denied } ==> r.bytes == sat_sum(sizes@) && r.items
            == sizes@.len() && r.denied == denied && r.unavailable is None,
        survey matches Survey::Docker(Ok(rec)) ==> r.bytes == rec.bytes && r.items
            == rec.details@.len() && r.denied == 0 && r.unavailable is None,
        survey matches Survey::Docker(Err(why)) ==> r.bytes == 0 && r.items == 0 && r.denied == 0
            && (r.unavailable matches Some(m) && m@ == why@),
        survey matches Survey::Homebrew(Ok((bytes, items))) ==> r.bytes == bytes && r.items == items
            && r.denied == 0 && r.unavailable is None,
        survey matches Survey::Homebrew(Err(why)) ==> r.bytes == 0 && r.items == 0 && r.denied == 0
            && (r.unavailable matches Some(m) && m@ == why@),
{
    match survey {
        Survey::Dirs { existing, bytes, items, denied } => {
            if existing == 0 {
                return Measure::unavailable(target, "directory not found");
            }
            let mut m = Measure::new(target, bytes, items, denied);
            if denied > 0 && bytes == 0 {
                let mut why = String::new();
                push_str(&mut why, "unreadable — ");
                push_str(&mut why, crate::sys::fsx::full_disk_access_hint());
                m.unavailable = Some(why);
            }
            m
        },
        Survey::DsStore { sizes, denied } => {
            let bytes = sum_saturating(&sizes);
            Measure::new(target, bytes, sizes.len(), denied)
        },
        Survey::Docker(Ok(rec)) => Measure::new(target, rec.bytes, rec.details.len(), 0),
        Survey::Docker(Err(why)) => Measure::unavailable(target, why.as_str()),
        Survey::Homebrew(Ok((bytes, items))) => Measure::new(target, bytes, items, 0),
        Survey::Homebrew(Err(why)) => Measure::unavailable(target, why.as_str()),
    }
}

/// Result of cleaning a target.
#[derive(Debug, Clone)]
pub struct Cleaned {
    pub target: Target,
    pub label: &'static str,
    pub status: Status,
    /// What was done to the entries.
    pub disposal: Disposal,
    /// Bytes removed for good (or that would be, in dry-run mode).
    pub freed: u64,
    /// Bytes moved to the trash: recoverable, reclaimed once it is emptied.
    pub trashed: u64,
    /// Items removed.
    pub removed: usize,
    /// Items the configuration protected.
    pub excluded: usize,
    pub messages: Vec<String>,
    /// Trash moves, kept for the journal rather than for display.
    pub moves: Vec<Move>,
}

impl Cleaned {
    /// Space the run accounted for, wherever it went.
    pub fn total(&self) -> (r: u64)
        requires
            self.freed + self.trashed <= u64::MAX,
        ensures
            r == self.freed + self.trashed,
    {
        self.freed + self.trashed
    }

    /// A target left alone, with the reason.
    pub fn skipped(target: Target, reason: &str) -> (r: Self)
        ensures
            r.target == target,
            r.label@ == label_of(target),
            r.status == Status::Skipped,
            r.disposal == Disposal::Purge,
            r.freed == 0 && r.trashed == 0 && r.removed == 0 && r.excluded == 0,
            texts(r.messages@) == seq![reason@],
            r.moves@.len() == 0,
    {
        let mut m = String::new();
        push_str(&mut m, reason);
        let messages = vec![m];
        assert(texts(messages@) =~= seq![reason@]);
        Cleaned {
            target,
            label: target.label(),
            status: Status::Skipped,
            disposal: Disposal::Purge,
            freed: 0,
            trashed: 0,
            removed: 0,
            excluded: 0,
            messages,
            moves: Vec::new(),
        }
    }
}

/// The status of a cleanup: failed when nothing went and something went
/// wrong, skipped when nothing went, done otherwise.
pub open spec fn finish_status(removed: nat, errors: nat, dry_run: bool) -> Status {
    if removed == 0 && errors > 0 {
        Status::Failed
    } else if removed == 0 {
        Status::Skipped
    } else if dry_run {
        Status::Simulated
    } else {
        Status::Succeeded
    }
}

/// The report of a cleanup: the given lines, the protected count, the first
/// five errors and how many more there were.
pub open spec fn finish_notes(messages: Seq<Seq<char>>, excluded: nat, errors: Seq<Seq<char>>) -> Seq<Seq<char>> {
    let with_excluded = if excluded > 0 {
        messages.push(decimal(excluded) + " item(s) left alone by your exclusions"@)
    } else {
        messages
    };
    let with_errors = with_excluded + (if errors.len() > 5 {
        errors.take(5)
    } else {
        errors
    });
    if errors.len() > 5 {
        with_errors.push("… and "@ + decimal((errors.len() - 5) as nat) + " more error(s)"@)
    } else {
        with_errors
    }
}

/// The report, with a word when there is nothing else to say of a skip.
pub open spec fn finish_messages(messages: Seq<Seq<char>>, excluded: nat, errors: Seq<Seq<char>>, status: Status) -> Seq<Seq<char>> {
    let notes = finish_notes(messages, excluded, errors);
    if status == Status::Skipped && notes.len() == 0 {
        seq!["nothing to clean"@]
    } else {
        notes
    }
}

/// Turns the removal figures of a target into its report.
pub fn finish(target: Target, removal: Removal, messages: Vec<String>, policy: &crate::sys::fsx::Policy, ctx: &Ctx) -> (r: Cleaned)
    ensures
        r.target == target,
        r.label@ == label_of(target),
        r.status == finish_status(removal.removed as nat, removal.errors@.len(), ctx.dry_run),
        r.disposal == policy.disposal,
        r.freed == removal.freed,
        r.trashed == removal.trashed,
        r.removed == removal.removed,
        r.excluded == removal.excluded,
        r.moves@ == removal.moves@,
        texts(r.messages@) == finish_messages(
            texts(messages@),
            removal.excluded as nat,
            texts(removal.errors@),
            r.status,
        ),
{
    let failed = removal.removed == 0 && removal.errors.len() > 0;
    let mut messages = messages;
    let ghost errs = texts(removal.errors@);
    let ghost m0 = texts(messages@);
    if removal.excluded > 0 {
        let mut line = String::new();
        push_decimal(&mut line, removal.excluded as u64);
        push_str(&mut line, " item(s) left alone by your exclusions");
        messages.push(line);
    }
    let ghost m1 = texts(messages@);
    assert(m1 =~= (if removal.excluded > 0 {
        m0.push(decimal(removal.excluded as nat) + " item(s) left alone by your exclusions"@)
    } else {
        m0
    }));
    let n = removal.errors.len();
    let shown = if n > 5 { 5 } else { n };
    let mut i: usize = 0;
    while i < shown
        invariant
            i <= shown,
            shown <= n,
            n == removal.errors@.len(),
            shown == (if n > 5 { 5 } else { n }),
            errs == texts(removal.errors@),
            texts(messages@) == m1 + errs.take(i as int),
        decreases shown - i,
    {
        let e = removal.errors[i].clone();
        let ghost before = messages@;
        assert(e@ == errs[i as int]);
        messages.push(e);
        assert(texts(messages@) =~= texts(before).push(e@));
        assert(errs.take(i + 1) =~= errs.take(i as int).push(errs[i as int]));
        assert(texts(messages@) =~= m1 + errs.take(i + 1));
        i += 1;
    }
    assert(errs.take(shown as int) =~= (if n > 5 { errs.take(5) } else { errs }));
    if n > 5 {
        let mut line = String::new();
        push_str(&mut line, "… and ");
        push_decimal(&mut line, (n - 5) as u64);
        push_str(&mut line, " more error(s)");
        messages.push(line);
    }
    assert(texts(messages@) =~= finish_notes(m0, removal.excluded as nat, errs));
    let status = if failed {
        Status::Failed
    } else if removal.removed == 0 {
        Status::Skipped
    } else {
        Status::done(ctx.dry_run)
    };
    if status == Status::Skipped && messages.len() == 0 {
        let mut line = String::new();
        push_str(&mut line, "nothing to clean");
        messages.push(line);
        assert(texts(messages@) =~= seq!["nothing to clean"@]);
    }
    Cleaned {
        target,
        label: target.label(),
        status,
        disposal: policy.disposal,
        freed: removal.freed,
        trashed: removal.trashed,
        removed: removal.removed,
        excluded: removal.excluded,
        messages,
        moves: removal.moves,
    }
}

/// `a + b`, held at `usize::MAX`.
pub open spec fn sat_add_usize(a: usize, b: usize) -> usize {
    if a + b > usize::MAX {
        usize::MAX
    } else {
        (a + b) as usize
    }
}

/// Several removal runs added up: freed, trashed, removed, excluded (each
/// held at its maximum), then every error and every move in order.
pub open spec fn merge_all(rs: Seq<Removal>) -> (u64, u64, usize, usize, Seq<Seq<char>>, Seq<Move>)
    decreases rs.len(),
{
    if rs.len() == 0 {
        (0, 0, 0, 0, Seq::empty(), Seq::empty())
    } else {
        let a = merge_all(rs.drop_last());
        let r = rs.last();
        (
            crate::task::docker::sat_add(a.0, r.freed),
            crate::task::docker::sat_add(a.1, r.trashed),
            sat_add_usize(a.2, r.removed),
            sat_add_usize(a.3, r.excluded),
            a.4 + texts(r.errors@),
            a.5 + r.moves@,
        )
    }
}

/// The figures of a removal, as `merge_all` returns them.
pub open spec fn figures(r: Removal) -> (u64, u64, usize, usize, Seq<Seq<char>>, Seq<Move>) {
    (r.freed, r.trashed, r.removed, r.excluded, texts(r.errors@), r.moves@)
}

pub(crate) fn absorb(acc: &mut Removal, other: Removal)
    ensures
        figures(*final(acc)) == (
            crate::task::docker::sat_add(old(acc).freed, other.freed),
            crate::task::docker::sat_add(old(acc).trashed, other.trashed),
            sat_add_usize(old(acc).removed, other.removed),
            sat_add_usize(old(acc).excluded, other.excluded),
            texts(old(acc).errors@) + texts(other.errors@),
            old(acc).moves@ + other.moves@,
        ),
{
    let ghost e0 = texts(acc.errors@);
    acc.freed = acc.freed.saturating_add(other.freed);
    acc.trashed = acc.trashed.saturating_add(other.trashed);
    acc.removed = acc.removed.saturating_add(other.removed);
    acc.excluded = acc.excluded.saturating_add(other.excluded);
    let mut errors = other.errors;
    let ghost e1 = texts(errors@);
    acc.errors.append(&mut errors);
    assert(texts(acc.errors@) =~= e0 + e1);
    let mut moves = other.moves;
    acc.moves.append(&mut moves);
}

/// The line reporting one emptied directory, when anything went.
pub open spec fn dir_note(dir: Seq<char>, r: Removal, home: Seq<char>) -> Seq<Seq<char>> {
    if r.removed > 0 {
        seq![tilde_spec(dir, home) + " — "@ + size_spec(
            crate::task::docker::sat_add(r.freed, r.trashed) as nat,
        ) + " ("@ + decimal(r.removed as nat) + " item(s))"@]
    } else {
        Seq::empty()
    }
}

/// The lines of every emptied directory, in order.
pub open spec fn dir_notes(results: Seq<(String, Removal)>, home: Seq<char>) -> Seq<Seq<char>>
    decreases results.len(),
{
    if results.len() == 0 {
        Seq::empty()
    } else {
        dir_notes(results.drop_last(), home) + dir_note(results.last().0@, results.last().1, home)
    }
}

/// What a clean run removed over its targets, as the journal records it:
/// freed, trashed and removed added up (each held at its maximum), and the
/// trash moves in order.
pub open spec fn run_figures(rs: Seq<Cleaned>) -> (u64, u64, usize, Seq<Move>)
    decreases rs.len(),
{
    if rs.len() == 0 {
        (0, 0, 0, Seq::empty())
    } else {
        let a = run_figures(rs.drop_last());
        let c = rs.last();
        (
            crate::task::docker::sat_add(a.0, c.freed),
            crate::task::docker::sat_add(a.1, c.trashed),
            sat_add_usize(a.2, c.removed),
            a.3 + c.moves@,
        )
    }
}

/// The removal a whole clean run stands for, over every target's report:
/// what the journal writes down. Nothing is excluded or failed at this level.
pub fn run_removal(results: &Vec<Cleaned>) -> (r: Removal)
    ensures
        (r.freed, r.trashed, r.removed, r.moves@) == run_figures(results@),
        r.excluded == 0,
        r.errors@.len() == 0,
{
    let mut r = Removal { freed: 0, trashed: 0, removed: 0, excluded: 0, errors: Vec::new(), moves: Vec::new() };
    let mut i: usize = 0;
    while i < results.len()
        invariant
            i <= results@.len(),
            (r.freed, r.trashed, r.removed, r.moves@) == run_figures(results@.take(i as int)),
            r.excluded == 0,
            r.errors@.len() == 0,
        decreases results@.len() - i,
    {
        assert(results@.take(i + 1).drop_last() =~= results@.take(i as int));
        let c = &results[i];
        r.freed = r.freed.saturating_add(c.freed);
        r.trashed = r.trashed.saturating_add(c.trashed);
        r.removed = r.removed.saturating_add(c.removed);
        let mut moves = crate::task::journal::copy_moves(&c.moves);
        r.moves.append(&mut moves);
        i += 1;
    }
    assert(results@.take(i as int) =~= results@);
    r
}

/// The removals of the given directory results.
pub open spec fn removals_of(results: Seq<(String, Removal)>) -> Seq<Removal> {
    results.map_values(|p: (String, Removal)| p.1)
}

/// What the report of a target's directories says, from what emptying each
/// existing one gave (its path, and the removal): none existing means the
/// target is skipped.
pub open spec fn dirs_reported(
    target: Target,
    results: Seq<(String, Removal)>,
    policy: crate::sys::fsx::Policy,
    ctx: Ctx,
    home: Seq<char>,
    r: Cleaned,
) -> bool {
    &&& r.target == target
    &&& r.label@ == label_of(target)
    &&& results.len() == 0 ==> (r.status == Status::Skipped && r.disposal == Disposal::Purge
        && r.freed == 0 && r.trashed == 0 && r.removed == 0 && r.excluded == 0
        && texts(r.messages@) == seq!["directory not found"@] && r.moves@.len() == 0)
    &&& results.len() > 0 ==> {
        let m = merge_all(removals_of(results));
        &&& r.status == finish_status(m.2 as nat, m.4.len(), ctx.dry_run)
        &&& r.disposal == policy.disposal
        &&& r.freed == m.0 && r.trashed == m.1 && r.removed == m.2 && r.excluded == m.3
        &&& r.moves@ == m.5
        &&& texts(r.messages@) == finish_messages(dir_notes(results, home), m.3 as nat, m.4, r.status)
    }
}

/// One directory of a target being emptied: its path, its entries, the sizes
/// already known of them, the plan, the sizes measured for the plan, what
/// could not be read, and what disposing of each wanted entry gave.
pub struct DirRun {
    pub dir: String,
    pub entries: Vec<String>,
    pub known: Vec<Option<u64>>,
    pub plan: crate::sys::fsx::RemovalPlan,
    pub measured: Vec<u64>,
    pub unreadable: Vec<String>,
    pub outcomes: Vec<Result<String, String>>,
}

/// One outcome for each wanted entry, and every wanted position an entry.
pub open spec fn run_ok(d: DirRun) -> bool {
    &&& forall|w: int| 0 <= w < d.plan.wanted@.len() ==> (#[trigger] d.plan.wanted@[w]) < d.entries@.len()
    &&& d.outcomes@.len() == d.plan.wanted@.len()
}

/// Whether `x` is what emptying the directory `d` under `disposal` comes to.
pub open spec fn run_gave(d: DirRun, x: Removal, disposal: Disposal) -> bool {
    let o = crate::sys::fsx::outcomes_spec(
        d.entries@,
        d.plan.wanted@,
        crate::sys::fsx::sizes_spec(d.plan.wanted@, d.known@, d.measured@),
        d.outcomes@,
        disposal,
    );
    &&& x.excluded == d.plan.excluded
    &&& x.freed == o.0
    &&& x.trashed == o.1
    &&& x.removed == o.2
    &&& texts(x.errors@) == texts(d.unreadable@) + o.3
    &&& x.moves@ == o.4
}

/// Whether `results` are the directories of `runs`, each with what emptying
/// it came to.
pub open spec fn dirs_gave(runs: Seq<DirRun>, results: Seq<(String, Removal)>, disposal: Disposal) -> bool {
    &&& results.len() == runs.len()
    &&& forall|k: int| 0 <= k < runs.len() ==> (#[trigger] results[k]).0 == runs[k].dir
        && run_gave(runs[k], results[k].1, disposal)
}

proof fn lemma_purge_outcomes(entries: Seq<String>, wanted: Seq<usize>, sizes: Seq<u64>, outcomes: Seq<Result<String, String>>)
    ensures
        crate::sys::fsx::outcomes_spec(entries, wanted, sizes, outcomes, Disposal::Purge).1 == 0,
        crate::sys::fsx::outcomes_spec(entries, wanted, sizes, outcomes, Disposal::Purge).4.len() == 0,
    decreases outcomes.len(),
{
    if outcomes.len() > 0 {
        lemma_purge_outcomes(entries, wanted, sizes, outcomes.drop_last());
    }
}

proof fn lemma_purge_merge(rs: Seq<Removal>)
    requires
        forall|k: int| 0 <= k < rs.len() ==> (#[trigger] rs[k]).trashed == 0 && rs[k].moves@.len() == 0,
    ensures
        merge_all(rs).1 == 0,
        merge_all(rs).5.len() == 0,
    decreases rs.len(),
{
    if rs.len() > 0 {
        lemma_purge_merge(rs.drop_last());
    }
}

/// Empties a target's directories and reports it: each directory's removal
/// is made from its run under the policy, and the report says what they came
/// to. A purge sends nothing to the trash.
pub fn clean_dirs(target: Target, runs: Vec<DirRun>, policy: &crate::sys::fsx::Policy, ctx: &Ctx, home: &str) -> (r: Cleaned)
    requires
        forall|k: int| 0 <= k < runs@.len() ==> run_ok(#[trigger] runs@[k]),
    ensures
        exists|results: Seq<(String, Removal)>| #[trigger] dirs_gave(runs@, results, policy.disposal)
            && dirs_reported(target, results, *policy, *ctx, home@, r),
        policy.disposal == Disposal::Purge ==> r.trashed == 0 && r.moves@.len() == 0,
{
    let ghost all = runs@;
    let mut runs = runs;
    let mut results: Vec<(String, Removal)> = Vec::new();
    let n = runs.len();
    let mut k: usize = 0;
    assert(runs@ =~= all.skip(0));
    while k < n
        invariant
            k <= n,
            n == all.len(),
            runs@ == all.skip(k as int),
            forall|j: int| 0 <= j < all.len() ==> run_ok(#[trigger] all[j]),
            results@.len() == k,
            forall|j: int| 0 <= j < k ==> (#[trigger] results@[j]).0 == all[j].dir
                && run_gave(all[j], results@[j].1, policy.disposal),
        decreases n - k,
    {
        let run = runs.remove(0);
        assert(run == all[k as int]);
        assert(runs@ =~= all.skip(k + 1));
        let ghost d = run;
        let DirRun { dir, entries, known, plan, measured, unreadable, outcomes } = run;
        assert(run_ok(d));
        let x = crate::sys::fsx::remove_measured(&entries, &known, &plan, &measured, unreadable, outcomes, policy.disposal);
        results.push((dir, x));
        k += 1;
    }
    let ghost rs = results@;
    assert(dirs_gave(all, rs, policy.disposal));
    let r = report_dirs(target, results, policy, ctx, home);
    proof {
        if policy.disposal == Disposal::Purge && rs.len() > 0 {
            assert forall|j: int| 0 <= j < removals_of(rs).len() implies (#[trigger] removals_of(rs)[j]).trashed == 0
                && removals_of(rs)[j].moves@.len() == 0 by {
                let d = all[j];
                lemma_purge_outcomes(d.entries@, d.plan.wanted@,
                    crate::sys::fsx::sizes_spec(d.plan.wanted@, d.known@, d.measured@), d.outcomes@);
            }
            lemma_purge_merge(removals_of(rs));
        }
    }
    r
}

/// Reports the emptying of a target's directories, from what emptying each
/// existing one gave; none existing means the target is skipped.
fn report_dirs(target: Target, results: Vec<(String, Removal)>, policy: &crate::sys::fsx::Policy, ctx: &Ctx, home: &str) -> (r: Cleaned)
    ensures
        dirs_reported(target, results@, *policy, *ctx, home@, r),
{
    if results.len() == 0 {
        return Cleaned::skipped(target, "directory not found");
    }
    let mut removal = Removal::default();
    let mut messages: Vec<String> = Vec::new();
    let ghost all = results@;
    let ghost rs = removals_of(results@);
    let mut results = results;
    let mut i: usize = 0;
    let n = results.len();
    assert(figures(removal) == merge_all(rs.take(0)));
    while i < n
        invariant
            i <= n,
            n == all.len(),
            rs == removals_of(all),
            results@ == all.skip(i as int),
            figures(removal) == merge_all(rs.take(i as int)),
            texts(messages@) == dir_notes(all.take(i as int), home@),
        decreases n - i,
    {
        assert(results@[0] == all[i as int]);
        let (dir, result) = results.remove(0);
        assert(results@ =~= all.skip(i + 1));
        let ghost before = texts(messages@);
        if result.removed > 0 {
            let mut line = tilde(dir.as_str(), home);
            push_str(&mut line, " — ");
            let sz = size(result.freed.saturating_add(result.trashed));
            push_str(&mut line, sz.as_str());
            push_str(&mut line, " (");
            push_decimal(&mut line, result.removed as u64);
            push_str(&mut line, " item(s))");
            messages.push(line);
            assert(texts(messages@) =~= before.push(line@));
        }
        proof {
            assert(all.take(i + 1).drop_last() =~= all.take(i as int));
            assert(rs.take(i + 1).drop_last() =~= rs.take(i as int));
            assert(rs.take(i + 1).last() == result);
            assert(texts(messages@) =~= before + dir_note(dir@, result, home@));
        }
        absorb(&mut removal, result);
        i += 1;
    }
    assert(rs.take(n as int) =~= rs);
    assert(all.take(n as int) =~= all);
    finish(target, removal, messages, policy, ctx)
}

/// Several removals added up: figures held at their maximum, errors and
/// moves in order.
pub fn merged(removals: Vec<Removal>) -> (r: Removal)
    ensures
        figures(r) == merge_all(removals@),
{
    let ghost rs = removals@;
    let mut removals = removals;
    let mut total = Removal::default();
    let n = removals.len();
    let mut i: usize = 0;
    assert(figures(total) == merge_all(rs.take(0)));
    while i < n
        invariant
            i <= n,
            n == rs.len(),
            removals@ == rs.skip(i as int),
            figures(total) == merge_all(rs.take(i as int)),
        decreases n - i,
    {
        assert(removals@[0] == rs[i as int]);
        let one = removals.remove(0);
        assert(removals@ =~= rs.skip(i + 1));
        assert(rs.take(i + 1).drop_last() =~= rs.take(i as int));
        absorb(&mut total, one);
        i += 1;
    }
    assert(rs.take(n as int) =~= rs);
    total
}

/// What removing the first `n` of some entries (each a path and its size)
/// comes to, given what disposing of each gave (ignored for a protected one,
/// which is left alone): entries removed, entries protected, the errors in
/// order, the bytes that went (held at the largest `u64`), and each move to
/// the trash as (from, to, bytes).
pub open spec fn removal_tally(
    entries: Seq<(String, u64)>,
    disposed: Seq<Result<String, String>>,
    patterns: Seq<Seq<char>>,
    home: Seq<char>,
    n: int,
) -> (nat, nat, Seq<Seq<char>>, u64, Seq<(Seq<char>, Seq<char>, u64)>)
    decreases n,
{
    if n <= 0 {
        (0, 0, Seq::empty(), 0, Seq::empty())
    } else {
        let a = removal_tally(entries, disposed, patterns, home, n - 1);
        let e = entries[n - 1];
        if crate::config::blocks_spec(patterns, e.0@, home) {
            (a.0, a.1 + 1, a.2, a.3, a.4)
        } else {
            match disposed[n - 1] {
                Ok(to) => (a.0 + 1, a.1, a.2, crate::task::docker::sat_add(a.3, e.1), a.4.push((e.0@, to@, e.1))),
                Err(err) => (a.0, a.1, a.2.push(tilde_spec(e.0@, home) + ": "@ + err@), a.3, a.4),
            }
        }
    }
}

/// Removes entries one by one the way the policy says, given for each what
/// disposing of it gave: every entry is accounted for exactly once, and a
/// purge sends nothing to the trash.
pub fn remove_each(entries: &Vec<(String, u64)>, policy: &crate::sys::fsx::Policy, disposed: Vec<Result<String, String>>, home: &str) -> (r: Removal)
    requires
        disposed@.len() == entries@.len(),
    ensures
        ({
            let t = removal_tally(entries@, disposed@, policy.excludes@, home@, entries@.len() as int);
            &&& r.removed == t.0
            &&& r.excluded == t.1
            &&& texts(r.errors@) == t.2
            &&& policy.disposal == Disposal::Purge ==> (r.freed == t.3 && r.trashed == 0 && r.moves@.len() == 0)
            &&& policy.disposal == Disposal::Trash ==> (r.trashed == t.3 && r.freed == 0
                && crate::task::orphans::move_views(r.moves@) == t.4)
        }),
        r.removed + r.excluded + r.errors@.len() == entries@.len(),
{
    let ghost all = disposed@;
    let mut acc = Removal::default();
    let mut disposed = disposed;
    let n = entries.len();
    let mut k: usize = 0;
    assert(disposed@ =~= all.skip(0));
    while k < n
        invariant
            k <= n,
            n == entries@.len(),
            all.len() == n,
            disposed@ == all.skip(k as int),
            ({
                let t = removal_tally(entries@, all, policy.excludes@, home@, k as int);
                &&& acc.removed == t.0
                &&& acc.excluded == t.1
                &&& texts(acc.errors@) == t.2
                &&& policy.disposal == Disposal::Purge ==> (acc.freed == t.3 && acc.trashed == 0
                    && acc.moves@.len() == 0)
                &&& policy.disposal == Disposal::Trash ==> (acc.trashed == t.3 && acc.freed == 0
                    && crate::task::orphans::move_views(acc.moves@) == t.4)
            }),
            acc.removed + acc.excluded + acc.errors@.len() == k,
        decreases n - k,
    {
        let d = disposed.remove(0);
        assert(d == all[k as int]);
        assert(disposed@ =~= all.skip(k + 1));
        let x = crate::sys::fsx::remove(entries[k].0.as_str(), policy, entries[k].1, d, home);
        let ghost before = acc;
        match x {
            Ok(one) => {
                absorb(&mut acc, one);
                proof {
                    assert(crate::task::orphans::move_views(acc.moves@) =~= crate::task::orphans::move_views(before.moves@)
                        + crate::task::orphans::move_views(one.moves@));
                }
            },
            Err(e) => {
                let ghost e0 = texts(acc.errors@);
                acc.errors.push(e);
                assert(texts(acc.errors@) =~= e0.push(e@));
            },
        }
        k += 1;
    }
    acc
}

/// Reports the removal of the `.DS_Store` files found (each with its size),
/// given what disposing of each gave. They are purged whatever the run asked
/// for (see `clean`), so nothing is counted as trashed then.
pub fn clean_ds_store(
    target: Target,
    files: &Vec<(String, u64)>,
    disposed: Vec<Result<String, String>>,
    policy: &crate::sys::fsx::Policy,
    ctx: &Ctx,
    home: &str,
) -> (r: Cleaned)
    requires
        disposed@.len() == files@.len(),
    ensures
        r.target == target,
        r.label@ == label_of(target),
        r.disposal == policy.disposal,
        ({
            let t = removal_tally(files@, disposed@, policy.excludes@, home@, files@.len() as int);
            &&& r.status == finish_status(t.0, t.2.len(), ctx.dry_run)
            &&& r.removed == t.0 && r.excluded == t.1
            &&& policy.disposal == Disposal::Purge ==> (r.freed == t.3 && r.trashed == 0 && r.moves@.len() == 0)
            &&& policy.disposal == Disposal::Trash ==> (r.trashed == t.3 && r.freed == 0
                && crate::task::orphans::move_views(r.moves@) == t.4)
            &&& texts(r.messages@) == finish_messages(Seq::empty(), t.1, t.2, r.status)
        }),
        r.removed + r.excluded <= files@.len(),
{
    let removal = remove_each(files, policy, disposed, home);
    let empty: Vec<String> = Vec::new();
    assert(texts(empty@) =~= Seq::<Seq<char>>::empty());
    finish(target, removal, empty, policy, ctx)
}

/// What a cleanup does: the strategy of the target, under the run's policy
/// — except that the trash and `.DS_Store` files are always purged, whatever
/// was asked for.
pub struct CleanPlan<'a> {
    pub strategy: Strategy,
    pub policy: crate::sys::fsx::Policy<'a>,
}

/// Decides how a target is cleaned.
pub fn clean<'a>(target: Target, ctx: &Ctx, excludes: &'a crate::config::Excludes, home: &str) -> (r: CleanPlan<'a>)
    ensures
        r.policy.dry_run == ctx.dry_run,
        r.policy.excludes == excludes,
        r.policy.disposal == (if purges_always(target) {
            Disposal::Purge
        } else {
            ctx.disposal
        }),
        strategy_dirs(target, home@) matches Some(dirs) ==> (r.strategy matches Strategy::Dirs(v)
            && crate::config::string_views(v@) == dirs),
        target == Target::ContainerCache ==> r.strategy is ContainerCaches,
        target == Target::TrashAll ==> r.strategy is AllTrashes,
        target == Target::DsStore ==> r.strategy is DsStore,
        target == Target::Homebrew ==> r.strategy is Homebrew,
        target == Target::Docker ==> r.strategy is Docker,
{
    let policy = if target.always_purges() {
        ctx.policy(excludes).purging()
    } else {
        ctx.policy(excludes)
    };
    CleanPlan { strategy: target.strategy(home), policy }
}

/// The next step of a Docker cleanup, once availability and reclaimable
/// space are known.
pub enum DockerStep {
    /// The cleanup ends here, with this report.
    Done(Cleaned),
    /// Run the prunes, then report them with `docker_cleaned`.
    Prune,
}

/// Decides a Docker cleanup: skipped when Docker is unavailable or there is
/// nothing to reclaim, a plan of the prunes under `--dry-run`.
pub fn clean_docker(target: Target, available: Result<(), String>, reclaimable: crate::task::docker::Reclaimable, dry_run: bool) -> (r: DockerStep)
    ensures
        available matches Err(why) ==> (r matches DockerStep::Done(c) && c.target == target
            && c.status == Status::Skipped && texts(c.messages@) == seq![why@] && c.freed == 0),
        available is Ok && dry_run ==> (r matches DockerStep::Done(c) && c.target == target
            && c.status == Status::Simulated && c.freed == reclaimable.bytes && c.trashed == 0
            && c.disposal == Disposal::Purge && texts(c.messages@) == texts(reclaimable.details@)
            + Seq::new(4, |i: int| "docker "@ + crate::task::docker::join_words(
                crate::task::docker::prune_commands()[i],
            ))),
        available is Ok && !dry_run && reclaimable.bytes == 0 ==> (r matches DockerStep::Done(c)
            && c.target == target && c.status == Status::Skipped && texts(c.messages@)
            == seq!["nothing to reclaim"@] && c.freed == 0),
        available is Ok && !dry_run && reclaimable.bytes > 0 ==> r is Prune,
{
    match available {
        Err(why) => {
            return DockerStep::Done(Cleaned::skipped(target, why.as_str()));
        },
        Ok(()) => {},
    }
    if dry_run {
        let mut messages = reclaimable.details;
        let ghost d = texts(messages@);
        let mut planned = crate::task::docker::planned_commands();
        let ghost p = planned@;
        messages.append(&mut planned);
        assert(texts(messages@) =~= d + Seq::new(4, |i: int| "docker "@ + crate::task::docker::join_words(
            crate::task::docker::prune_commands()[i],
        ))) by {
            assert forall|k: int| 0 <= k < 4 implies #[trigger] p[k]@ == "docker "@
                + crate::task::docker::join_words(crate::task::docker::prune_commands()[k]) by {}
        }
        let mut c = Cleaned::skipped(target, "");
        c.status = Status::Simulated;
        c.freed = reclaimable.bytes;
        c.messages = messages;
        return DockerStep::Done(c);
    }
    if reclaimable.bytes == 0 {
        return DockerStep::Done(Cleaned::skipped(target, "nothing to reclaim"));
    }
    DockerStep::Prune
}

/// Reports the prunes that ran.
pub fn docker_cleaned(target: Target, pruned: crate::task::docker::Pruned) -> (r: Cleaned)
    ensures
        r.target == target,
        r.label@ == label_of(target),
        r.status == Status::Succeeded,
        r.disposal == Disposal::Purge,
        r.freed == pruned.freed && r.trashed == 0 && r.removed == 0 && r.excluded == 0,
        r.messages@ == pruned.messages@,
        r.moves@.len() == 0,
{
    let mut c = Cleaned::skipped(target, "");
    c.status = Status::Succeeded;
    c.freed = pruned.freed;
    c.messages = pruned.messages;
    c
}

/// Where the Homebrew cache is, or why there is none: Homebrew missing,
/// `brew --cache` failing (its error), or a cache directory that does not
/// exist.
pub fn homebrew_cache(installed: bool, cache: Result<String, String>, is_dir: bool) -> (r: Result<String, String>)
    ensures
        !installed ==> (r matches Err(m) && m@ == "Homebrew is not installed"@),
        installed ==> match cache {
            Err(e) => r matches Err(m) && m@ == e@,
            Ok(path) => if is_dir {
                r matches Ok(p) && p@ == path@
            } else {
                r matches Err(m) && m@ == "cache already empty"@
            },
        },
{
    if !installed {
        let mut m = String::new();
        push_str(&mut m, "Homebrew is not installed");
        return Err(m);
    }
    match cache {
        Err(e) => Err(e),
        Ok(path) => if is_dir {
            Ok(path)
        } else {
            let mut m = String::new();
            push_str(&mut m, "cache already empty");
            Err(m)
        },
    }
}

/// The next step of a Homebrew cleanup.
pub enum HomebrewStep {
    Done(Cleaned),
    /// Run `brew cleanup --prune=all -s`, then report it with
    /// `homebrew_cleaned`.
    Cleanup,
}

/// Decides a Homebrew cleanup from its cache and the cache's size.
pub fn clean_homebrew(target: Target, cache: &Result<String, String>, before: u64, dry_run: bool) -> (r: HomebrewStep)
    ensures
        cache matches Err(why) ==> (r matches HomebrewStep::Done(c) && c.status == Status::Skipped
            && texts(c.messages@) == seq![why@] && c.target == target),
        cache is Ok && before == 0 ==> (r matches HomebrewStep::Done(c) && c.status
            == Status::Skipped && texts(c.messages@) == seq!["cache already empty"@] && c.target
            == target),
        cache is Ok && before > 0 && dry_run ==> (r matches HomebrewStep::Done(c) && c.status
            == Status::Simulated && c.freed == before && texts(c.messages@)
            == seq!["brew cleanup --prune=all -s"@] && c.target == target),
        cache is Ok && before > 0 && !dry_run ==> r is Cleanup,
{
    match cache {
        Err(why) => {
            return HomebrewStep::Done(Cleaned::skipped(target, why.as_str()));
        },
        Ok(_) => {},
    }
    if before == 0 {
        return HomebrewStep::Done(Cleaned::skipped(target, "cache already empty"));
    }
    if dry_run {
        let mut c = Cleaned::skipped(target, "brew cleanup --prune=all -s");
        c.status = Status::Simulated;
        c.freed = before;
        return HomebrewStep::Done(c);
    }
    HomebrewStep::Cleanup
}

/// Reports `brew cleanup`: what the cache lost, or the command's error.
pub fn homebrew_cleaned(target: Target, cache: &str, before: u64, after: Result<u64, String>, home: &str) -> (r: Cleaned)
    ensures
        r.target == target,
        after matches Ok(a) ==> r.status == Status::Succeeded && r.freed == (if a <= before {
            before - a
        } else {
            0
        }) && texts(r.messages@) == seq![tilde_spec(cache@, home@)],
        after matches Err(e) ==> r.status == Status::Failed && r.freed == 0 && texts(r.messages@)
            == seq![e@],
{
    match after {
        Ok(a) => {
            let t = tilde(cache, home);
            let mut c = Cleaned::skipped(target, t.as_str());
            c.status = Status::Succeeded;
            c.freed = before.saturating_sub(a);
            c
        },
        Err(e) => {
            let mut c = Cleaned::skipped(target, e.as_str());
            c.status = Status::Failed;
            c
        },
    }
}
} // verus!
