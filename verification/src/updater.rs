//! Updates of the program itself: which release is newer, which file of it to take, and in which
//! order to put it in place.

use vstd::prelude::*;
use vstd::string::*;

use crate::text::{
    chars_of, decimal, is_digit, join_with, law_number_is_what_is_written, law_split_undoes_join,
    lemma_decimal, lemma_strip_front, read_number, repeated, split_at_char, string_of,
    strip_front_char, writes, written,
};

verus! {

/// Who publishes the releases.
pub const OWNER: &'static str = "elyscence";

/// Where they are published.
pub const REPO: &'static str = "runde";

/// A release to update to.
#[derive(Debug, Clone, PartialEq)]
pub struct UpdateInfo {
    pub version: String,
    pub download_url: String,
    pub asset_name: String,
}

/// A published release.
pub struct GhRelease {
    pub tag_name: String,
    pub assets: Vec<GhAsset>,
}

/// A file of a release.
pub struct GhAsset {
    pub name: String,
    pub browser_download_url: String,
}

/// A newer release has no file for this platform.
pub struct MissingAsset {
    pub asset: String,
    pub tag_name: String,
}

impl MissingAsset {
    /// What to tell the user.
    pub fn message(&self) -> (r: String)
        ensures
            r@ == "Ассет '"@ + self.asset@ + "' не найден в релизе "@ + self.tag_name@,
    {
        "Ассет '".to_owned().concat(self.asset.as_str()).concat("' не найден в релизе ").concat(
            self.tag_name.as_str(),
        )
    }
}

/// The address that describes the latest release.
pub fn latest_release_url() -> (r: String)
    ensures
        r@ == "https://api.github.com/repos/"@ + OWNER@ + "/"@ + REPO@ + "/releases/latest"@,
{
    "https://api.github.com/repos/".to_owned().concat(OWNER).concat("/").concat(REPO).concat(
        "/releases/latest",
    )
}

/// How a program of version `version` introduces itself.
pub fn user_agent(version: &str) -> (r: String)
    ensures
        r@ == "runde-updater/"@ + version@,
{
    "runde-updater/".to_owned().concat(version)
}

/// Whether a reply with HTTP status `status` says that there is a release at all. Only status 404
/// says that there is none.
pub fn release_published(status: u16) -> (r: bool)
    ensures
        r == (status != 404),
{
    status != 404
}

/// The name of the file for a platform.
pub open spec fn asset_name(target_os: Seq<char>) -> Seq<char> {
    if target_os == "windows"@ {
        "runde-windows-x86_64.exe"@
    } else if target_os == "linux"@ {
        "runde-linux-x86_64"@
    } else {
        "runde-unknown"@
    }
}

/// The name of the file for the operating system `target_os`, named as the compiler names it.
pub fn asset_name_for_platform(target_os: &str) -> (r: &'static str)
    ensures
        r@ == asset_name(target_os@),
{
    let os = target_os.to_owned();
    if os == "windows".to_owned() {
        "runde-windows-x86_64.exe"
    } else if os == "linux".to_owned() {
        "runde-linux-x86_64"
    } else {
        "runde-unknown"
    }
}

/// One component of a version: the number that it writes, or 0 where it writes none.
pub open spec fn component(piece: Seq<char>) -> nat {
    match crate::text::number(piece, u64::MAX as nat) {
        Some(n) => n,
        None => 0,
    }
}

/// A version without the letters `v` in front of it.
pub open spec fn bare(version: Seq<char>) -> Seq<char> {
    crate::text::strip_front(version, crate::text::just('v'))
}

/// The components of a version, which dots separate.
pub open spec fn components(version: Seq<char>) -> Seq<nat> {
    crate::text::split(bare(version), '.').map_values(|piece: Seq<char>| component(piece))
}

/// The component at place `i`; behind the last one there are only zeros.
pub open spec fn at(v: Seq<nat>, i: int) -> nat {
    if 0 <= i < v.len() {
        v[i]
    } else {
        0
    }
}

/// Whether `i` is the first place where `remote` and `current` differ, and `remote` is greater
/// there.
pub open spec fn exceeds_at(current: Seq<nat>, remote: Seq<nat>, i: int) -> bool {
    &&& 0 <= i
    &&& at(current, i) < at(remote, i)
    &&& forall|j: int| 0 <= j < i ==> #[trigger] at(current, j) == at(remote, j)
}

/// Whether the version with components `remote` is newer than that with components `current`.
pub open spec fn newer(current: Seq<nat>, remote: Seq<nat>) -> bool {
    exists|i: int| #[trigger] exceeds_at(current, remote, i)
}

/// The components of a version.
fn read_components(version: &str) -> (r: Vec<u64>)
    ensures
        r@.len() == components(version@).len(),
        forall|i: int| 0 <= i < r@.len() ==> #[trigger] r@[i] == components(version@)[i],
{
    let cs = chars_of(version);
    let pieces = split_at_char(strip_front_char(cs.as_slice(), 'v'), '.');
    let ghost all = crate::text::views(pieces@);
    let mut out: Vec<u64> = Vec::new();
    for k in 0..pieces.len()
        invariant
            all == crate::text::views(pieces@),
            all == crate::text::split(bare(version@), '.'),
            out@.len() == k,
            forall|i: int| 0 <= i < k ==> #[trigger] out@[i] == components(version@)[i],
    {
        let n: u64 = match read_number(pieces[k].as_slice(), u64::MAX) {
            Some(n) => n,
            None => 0,
        };
        assert(all[k as int] == pieces@[k as int]@);
        out.push(n);
    }
    out
}

/// Whether version `remote` is newer than version `current`.
pub fn is_newer(current: &str, remote: &str) -> (r: bool)
    ensures
        r == newer(components(current@), components(remote@)),
{
    let c = read_components(current);
    let r = read_components(remote);
    let ghost cm = components(current@);
    let ghost rm = components(remote@);
    let n: usize = if r.len() > c.len() {
        r.len()
    } else {
        c.len()
    };
    for i in 0..n
        invariant
            n >= c@.len(),
            n >= r@.len(),
            c@.len() == cm.len(),
            r@.len() == rm.len(),
            cm == components(current@),
            rm == components(remote@),
            forall|j: int| 0 <= j < c@.len() ==> #[trigger] c@[j] == cm[j],
            forall|j: int| 0 <= j < r@.len() ==> #[trigger] r@[j] == rm[j],
            forall|j: int| 0 <= j < i ==> #[trigger] at(cm, j) == at(rm, j),
    {
        let rv: u64 = if i < r.len() {
            r[i]
        } else {
            0
        };
        let cv: u64 = if i < c.len() {
            c[i]
        } else {
            0
        };
        assert(rv == at(rm, i as int));
        assert(cv == at(cm, i as int));
        if rv != cv {
            proof {
                if rv > cv {
                    assert(exceeds_at(cm, rm, i as int));
                } else {
                    lemma_not_newer(cm, rm, i as int);
                }
            }
            return rv > cv;
        }
    }
    proof {
        assert forall|i: int| !#[trigger] exceeds_at(cm, rm, i) by {
            if 0 <= i < n {
                assert(at(cm, i) == at(rm, i));
            }
        }
    }
    false
}

/// A version that falls behind at the first difference is not newer.
proof fn lemma_not_newer(current: Seq<nat>, remote: Seq<nat>, i: int)
    requires
        exceeds_at(remote, current, i),
    ensures
        !newer(current, remote),
{
    assert forall|k: int| !#[trigger] exceeds_at(current, remote, k) by {
        if k > i {
            assert(at(current, i) != at(remote, i));
        } else if 0 <= k < i {
            assert(at(remote, k) == at(current, k));
        }
    }
}

/// The place of the first file named `name`, or the number of files where there is none.
pub open spec fn find_asset(assets: Seq<GhAsset>, name: Seq<char>) -> int
    decreases assets.len(),
{
    if assets.len() == 0 || assets[0].name@ == name {
        0
    } else {
        1 + find_asset(assets.drop_first(), name)
    }
}

/// `find_asset` gives the one place with no such file before it that holds one or is the end.
proof fn lemma_find_asset(assets: Seq<GhAsset>, name: Seq<char>, k: int)
    requires
        0 <= k <= assets.len(),
        forall|i: int| 0 <= i < k ==> (#[trigger] assets[i]).name@ != name,
        k < assets.len() ==> assets[k].name@ == name,
    ensures
        find_asset(assets, name) == k,
    decreases k,
{
    if k > 0 {
        let rest = assets.drop_first();
        assert(assets[0].name@ != name);
        assert forall|i: int| 0 <= i < k - 1 implies (#[trigger] rest[i]).name@ != name by {
            assert(rest[i] == assets[i + 1]);
        }
        lemma_find_asset(rest, name, k - 1);
    }
}

/// Whether `release` is newer than a program of version `current`.
pub open spec fn outdated(current: Seq<char>, release: GhRelease) -> bool {
    newer(components(current), components(bare(release.tag_name@)))
}

/// Decides on an update: a program of version `current`, on the operating system `target_os`,
/// where `release` is the latest release, or nothing where none was published. There is nothing to
/// do where no release is newer. A newer release is offered with its version and its first file
/// for the platform; it is an error that it has no such file.
pub fn check_for_update(current: &str, target_os: &str, release: Option<&GhRelease>) -> (r: Result<
    Option<UpdateInfo>,
    MissingAsset,
>)
    ensures
        r matches Ok(None) <==> (release matches Some(found) ==> !outdated(current@, *found)),
        r matches Ok(Some(info)) ==> {
            let found = *release->0;
            let k = find_asset(found.assets@, asset_name(target_os@));
            &&& outdated(current@, found)
            &&& 0 <= k < found.assets@.len()
            &&& info.version@ == bare(found.tag_name@)
            &&& info.download_url@ == found.assets@[k].browser_download_url@
            &&& info.asset_name@ == asset_name(target_os@)
        },
        r matches Err(error) ==> {
            let found = *release->0;
            &&& outdated(current@, found)
            &&& find_asset(found.assets@, asset_name(target_os@)) == found.assets@.len()
            &&& error.asset@ == asset_name(target_os@)
            &&& error.tag_name@ == found.tag_name@
        },
{
    let found = match release {
        Some(found) => found,
        None => {
            return Ok(None);
        },
    };
    let tag = chars_of(found.tag_name.as_str());
    let version = string_of(strip_front_char(tag.as_slice(), 'v'));
    if !is_newer(current, version.as_str()) {
        return Ok(None);
    }
    let target = asset_name_for_platform(target_os).to_owned();
    let mut k: usize = 0;
    while k < found.assets.len() && found.assets[k].name != target
        invariant
            k <= found.assets@.len(),
            forall|i: int| 0 <= i < k ==> (#[trigger] found.assets@[i]).name@ != target@,
        decreases found.assets@.len() - k,
    {
        k = k + 1;
    }
    proof {
        lemma_find_asset(found.assets@, target@, k as int);
    }
    if k < found.assets.len() {
        let asset = &found.assets[k];
        Ok(
            Some(
                UpdateInfo {
                    version,
                    download_url: asset.browser_download_url.clone(),
                    asset_name: asset.name.clone(),
                },
            ),
        )
    } else {
        Err(MissingAsset { asset: target, tag_name: found.tag_name.clone() })
    }
}

/// A step of putting an update in place.
#[derive(Clone, Copy, Debug, PartialEq, Eq, Structural)]
pub enum InstallStep {
    /// Fetch the file.
    Download,
    /// Write it to the temporary directory.
    Save,
    /// Ask for the permissions of the written file.
    ReadPermissions,
    /// Make it executable.
    SetPermissions,
    /// Put it in the place of the running program.
    Replace,
    /// Remove it from the temporary directory.
    CleanUp,
}

/// What follows a step.
#[derive(Clone, Copy, Debug, PartialEq, Eq, Structural)]
pub enum InstallNext {
    /// Take this step.
    Run(InstallStep),
    /// The update is in place.
    Installed,
    /// The update failed with the error of the step.
    Failed,
}

/// The permissions of a program: its owner may change it, everybody may run it.
pub const PROGRAM_MODE: u32 = 0o755;

/// What follows a step that succeeded or not. Permissions are a matter of Unix. The update is in
/// place once the program was replaced: a temporary file that stays behind is no failure.
pub open spec fn install_next(step: InstallStep, succeeded: bool, unix: bool) -> InstallNext {
    match step {
        InstallStep::CleanUp => InstallNext::Installed,
        _ => if !succeeded {
            InstallNext::Failed
        } else {
            match step {
                InstallStep::Download => InstallNext::Run(InstallStep::Save),
                InstallStep::Save => if unix {
                    InstallNext::Run(InstallStep::ReadPermissions)
                } else {
                    InstallNext::Run(InstallStep::Replace)
                },
                InstallStep::ReadPermissions => InstallNext::Run(InstallStep::SetPermissions),
                InstallStep::SetPermissions => InstallNext::Run(InstallStep::Replace),
                InstallStep::Replace => InstallNext::Run(InstallStep::CleanUp),
                InstallStep::CleanUp => InstallNext::Installed,
            }
        },
    }
}

/// Decides what follows a step of putting an update in place.
pub fn after_install_step(step: InstallStep, succeeded: bool, unix: bool) -> (r: InstallNext)
    ensures
        r == install_next(step, succeeded, unix),
{
    match step {
        InstallStep::CleanUp => InstallNext::Installed,
        _ if !succeeded => InstallNext::Failed,
        InstallStep::Download => InstallNext::Run(InstallStep::Save),
        InstallStep::Save => if unix {
            InstallNext::Run(InstallStep::ReadPermissions)
        } else {
            InstallNext::Run(InstallStep::Replace)
        },
        InstallStep::ReadPermissions => InstallNext::Run(InstallStep::SetPermissions),
        InstallStep::SetPermissions => InstallNext::Run(InstallStep::Replace),
        InstallStep::Replace => InstallNext::Run(InstallStep::CleanUp),
    }
}

/// The steps of an installation that starts at `step`, where `works` tells which steps succeed.
pub open spec fn install_steps(
    step: InstallStep,
    works: spec_fn(InstallStep) -> bool,
    unix: bool,
) -> Seq<InstallStep>
    decreases steps_left(step),
{
    match install_next(step, works(step), unix) {
        InstallNext::Run(next) => seq![step] + install_steps(next, works, unix),
        _ => seq![step],
    }
}

/// How an installation that starts at `step` ends.
pub open spec fn installed(
    step: InstallStep,
    works: spec_fn(InstallStep) -> bool,
    unix: bool,
) -> bool
    decreases steps_left(step),
{
    match install_next(step, works(step), unix) {
        InstallNext::Run(next) => installed(next, works, unix),
        InstallNext::Installed => true,
        InstallNext::Failed => false,
    }
}

/// How many steps may follow a step.
pub open spec fn steps_left(step: InstallStep) -> nat {
    match step {
        InstallStep::Download => 5,
        InstallStep::Save => 4,
        InstallStep::ReadPermissions => 3,
        InstallStep::SetPermissions => 2,
        InstallStep::Replace => 1,
        InstallStep::CleanUp => 0,
    }
}

/// The steps that have to succeed for an update to be in place.
pub open spec fn needed(step: InstallStep, unix: bool) -> bool {
    match step {
        InstallStep::ReadPermissions | InstallStep::SetPermissions => unix,
        InstallStep::CleanUp => false,
        _ => true,
    }
}

/// An update gets in place exactly when every needed step works: all of them but removing the
/// temporary file and, away from Unix, but the permissions.
pub proof fn law_installed_iff_needed_steps_work(
    works: spec_fn(InstallStep) -> bool,
    unix: bool,
)
    ensures
        installed(InstallStep::Download, works, unix) <==> (forall|s: InstallStep|
            needed(s, unix) ==> #[trigger] works(s)),
{
    reveal_with_fuel(installed, 6);
    let all = forall|s: InstallStep| needed(s, unix) ==> #[trigger] works(s);
    if all {
        assert(works(InstallStep::Download));
        assert(works(InstallStep::Save));
        assert(unix ==> works(InstallStep::ReadPermissions));
        assert(unix ==> works(InstallStep::SetPermissions));
        assert(works(InstallStep::Replace));
    }
    if installed(InstallStep::Download, works, unix) {
        assert forall|s: InstallStep| needed(s, unix) implies #[trigger] works(s) by {
            match s {
                InstallStep::Download => {},
                InstallStep::Save => {},
                InstallStep::ReadPermissions => {},
                InstallStep::SetPermissions => {},
                InstallStep::Replace => {},
                InstallStep::CleanUp => {},
            }
        }
    }
}

/// The running program is replaced only after the file was fetched, written and, on Unix, made
/// executable.
pub proof fn law_replace_only_after_preparation(works: spec_fn(InstallStep) -> bool, unix: bool)
    requires
        install_steps(InstallStep::Download, works, unix).contains(InstallStep::Replace),
    ensures
        works(InstallStep::Download),
        works(InstallStep::Save),
        unix ==> works(InstallStep::ReadPermissions) && works(InstallStep::SetPermissions),
{
    reveal_with_fuel(install_steps, 6);
}

/// No version is newer than itself.
pub proof fn law_newer_irreflexive(v: Seq<nat>)
    ensures
        !newer(v, v),
{
    assert forall|i: int| !#[trigger] exceeds_at(v, v, i) by {}
}

/// A program that was updated to a release is not offered that release again.
pub proof fn law_update_settles(release: GhRelease)
    ensures
        !outdated(bare(release.tag_name@), release),
{
    law_newer_irreflexive(components(bare(release.tag_name@)));
}

/// Of two versions at most one is newer than the other.
pub proof fn law_newer_asymmetric(a: Seq<nat>, b: Seq<nat>)
    requires
        newer(a, b),
    ensures
        !newer(b, a),
{
    let i = choose|i: int| #[trigger] exceeds_at(a, b, i);
    lemma_not_newer(b, a, i);
}

/// What is newer than a newer version is newer.
pub proof fn law_newer_transitive(a: Seq<nat>, b: Seq<nat>, c: Seq<nat>)
    requires
        newer(a, b),
        newer(b, c),
    ensures
        newer(a, c),
{
    let i = choose|i: int| #[trigger] exceeds_at(a, b, i);
    let k = choose|k: int| #[trigger] exceeds_at(b, c, k);
    let m = if i < k {
        i
    } else {
        k
    };
    assert forall|j: int| 0 <= j < m implies #[trigger] at(a, j) == at(c, j) by {
        assert(at(a, j) == at(b, j));
        assert(at(b, j) == at(c, j));
    }
    assert(exceeds_at(a, c, m));
}

/// Two versions of which neither is newer have the same components, up to zeros behind the last.
pub proof fn law_newer_total(a: Seq<nat>, b: Seq<nat>, i: int)
    requires
        !newer(a, b),
        !newer(b, a),
        0 <= i,
    ensures
        at(a, i) == at(b, i),
    decreases i,
{
    assert forall|j: int| 0 <= j < i implies #[trigger] at(a, j) == at(b, j) by {
        law_newer_total(a, b, j);
    }
    assert forall|j: int| 0 <= j < i implies #[trigger] at(b, j) == at(a, j) by {
        law_newer_total(a, b, j);
    }
    assert(!exceeds_at(a, b, i));
    assert(!exceeds_at(b, a, i));
}

/// A zero behind the last component makes no difference, on either side.
pub proof fn law_trailing_zero(a: Seq<nat>, b: Seq<nat>)
    ensures
        newer(a.push(0), b) == newer(a, b),
        newer(a, b.push(0)) == newer(a, b),
{
    assert forall|v: Seq<nat>, i: int| #[trigger] at(v.push(0), i) == at(v, i) by {}
    assert forall|i: int| #[trigger] exceeds_at(a.push(0), b, i) == exceeds_at(a, b, i) by {
        assert forall|j: int| #[trigger] at(a, j) == at(a.push(0), j) by {}
    }
    assert forall|i: int| #[trigger] exceeds_at(a, b.push(0), i) == exceeds_at(a, b, i) by {
        assert forall|j: int| #[trigger] at(b, j) == at(b.push(0), j) by {}
    }
    if newer(a, b) {
        let i = choose|i: int| #[trigger] exceeds_at(a, b, i);
        assert(exceeds_at(a.push(0), b, i));
        assert(exceeds_at(a, b.push(0), i));
    }
}

/// A letter `v` in front of a version makes no difference.
pub proof fn law_leading_v(version: Seq<char>)
    ensures
        components(seq!['v'] + version) == components(version),
{
    assert((seq!['v'] + version).drop_first() =~= version);
}

/// Any number of letters `v` in front of a version go, and nothing else does.
pub proof fn law_bare(k: nat, version: Seq<char>)
    requires
        version.len() > 0 ==> version[0] != 'v',
    ensures
        bare(repeated('v', k) + version) == version,
        bare(version) == version,
{
    let all = repeated('v', k) + version;
    lemma_strip_front(all, crate::text::just('v'), k as int);
    assert(all.skip(k as int) =~= version);
    lemma_strip_front(version, crate::text::just('v'), 0);
    assert(version.skip(0) =~= version);
}

/// A version is read piece by piece, behind any letters `v`: a piece that writes a number that fits
/// in 64 bits counts as that number, any other as zero.
pub proof fn law_components(k: nat, pieces: Seq<Seq<char>>)
    requires
        pieces.len() > 0,
        forall|i: int| 0 <= i < pieces.len() ==> !(#[trigger] pieces[i]).contains('.'),
        join_with(pieces, '.').len() > 0 ==> join_with(pieces, '.')[0] != 'v',
    ensures
        components(repeated('v', k) + join_with(pieces, '.')).len() == pieces.len(),
        forall|i: int, n: nat|
            0 <= i < pieces.len() && n <= 0xffff_ffff_ffff_ffff && #[trigger] writes(pieces[i], n)
                ==> components(repeated('v', k) + join_with(pieces, '.'))[i] == n,
        forall|i: int|
            0 <= i < pieces.len() && (forall|n: nat|
                n <= 0xffff_ffff_ffff_ffff ==> !#[trigger] writes(pieces[i], n))
                ==> #[trigger] components(repeated('v', k) + join_with(pieces, '.'))[i] == 0,
{
    let text = join_with(pieces, '.');
    let all = components(repeated('v', k) + text);
    law_bare(k, text);
    law_split_undoes_join(pieces, '.');
    assert forall|i: int, n: nat|
        0 <= i < pieces.len() && n <= 0xffff_ffff_ffff_ffff && #[trigger] writes(
            pieces[i],
            n,
        ) implies all[i] == n by {
        law_number_is_what_is_written(pieces[i], u64::MAX as nat, n);
    }
    assert forall|i: int|
        0 <= i < pieces.len() && (forall|n: nat|
            n <= 0xffff_ffff_ffff_ffff ==> !#[trigger] writes(pieces[i], n)) implies #[trigger] all[i]
        == 0 by {
        match crate::text::number(pieces[i], u64::MAX as nat) {
            Some(n) => {
                law_number_is_what_is_written(pieces[i], u64::MAX as nat, n);
                assert(writes(pieces[i], n));
            },
            None => {},
        }
    }
}

/// Numbers in decimal with dots between them.
pub open spec fn dotted(numbers: Seq<nat>) -> Seq<char> {
    join_with(numbers.map_values(|n: nat| decimal(n)), '.')
}

/// A version that is numbers with dots between them has these numbers for components, with letters
/// `v` in front of it or without.
pub proof fn law_dotted_numbers(k: nat, numbers: Seq<nat>)
    requires
        numbers.len() > 0,
        forall|i: int| 0 <= i < numbers.len() ==> #[trigger] numbers[i] <= 0xffff_ffff_ffff_ffff,
    ensures
        components(repeated('v', k) + dotted(numbers)) == numbers,
        bare(repeated('v', k) + dotted(numbers)) == dotted(numbers),
{
    let pieces = numbers.map_values(|n: nat| decimal(n));
    let text = dotted(numbers);
    assert forall|i: int| 0 <= i < pieces.len() implies !(#[trigger] pieces[i]).contains('.') by {
        lemma_decimal(numbers[i]);
        if pieces[i].contains('.') {
            let j = choose|j: int| 0 <= j < pieces[i].len() && pieces[i][j] == '.';
            assert(is_digit(decimal(numbers[i])[j]));
        }
    }
    lemma_decimal(numbers[0]);
    assert(pieces[0] == decimal(numbers[0]));
    assert(is_digit(decimal(numbers[0])[0]));
    assert(text[0] == pieces[0][0]);
    law_components(k, pieces);
    law_bare(k, text);
    let all = components(repeated('v', k) + text);
    assert forall|i: int| 0 <= i < numbers.len() implies all[i] == numbers[i] by {
        assert(written(false, 0, numbers[i]) =~= decimal(numbers[i]));
        assert(writes(pieces[i], numbers[i]));
    }
    assert(all =~= numbers);
}

/// The first difference decides which of two versions is newer, wherever it is and whatever
/// follows.
pub proof fn law_first_difference_decides(
    common: Seq<nat>,
    x: nat,
    y: nat,
    a: Seq<nat>,
    b: Seq<nat>,
)
    requires
        x != y,
    ensures
        newer(common + seq![x] + a, common + seq![y] + b) <==> x < y,
{
    let current = common + seq![x] + a;
    let remote = common + seq![y] + b;
    let i = common.len() as int;
    assert(at(current, i) == x && at(remote, i) == y);
    assert forall|j: int| 0 <= j < i implies #[trigger] at(current, j) == at(remote, j) by {}
    if x < y {
        assert(exceeds_at(current, remote, i));
    } else {
        assert forall|j: int| 0 <= j < i implies #[trigger] at(remote, j) == at(current, j) by {}
        assert(exceeds_at(remote, current, i));
        lemma_not_newer(current, remote, i);
    }
}

/// Of a version and one that goes on behind it, the longer is newer exactly where what is added is
/// not all zeros; the shorter never is.
pub proof fn law_longer_version(a: Seq<nat>, b: Seq<nat>)
    ensures
        newer(a, a + b) <==> (exists|i: int| 0 <= i < b.len() && #[trigger] b[i] > 0),
        !newer(a + b, a),
{
    let long = a + b;
    assert forall|j: int| 0 <= j < a.len() implies #[trigger] at(a, j) == at(long, j) by {}
    assert forall|i: int| !#[trigger] exceeds_at(long, a, i) by {}
    if newer(a, long) {
        let i = choose|i: int| #[trigger] exceeds_at(a, long, i);
        assert(i >= a.len());
        assert(b[i - a.len()] > 0);
    }
    if exists|i: int| 0 <= i < b.len() && #[trigger] b[i] > 0 {
        let i = choose|i: int| 0 <= i < b.len() && #[trigger] b[i] > 0;
        let m = lemma_first_positive(b, i);
        assert(at(long, a.len() + m) == b[m]);
        assert forall|j: int| 0 <= j < a.len() + m implies #[trigger] at(a, j) == at(long, j) by {
            if j >= a.len() {
                assert(b[j - a.len()] == 0);
            }
        }
        assert(exceeds_at(a, long, a.len() + m));
    }
}

/// The first place of a number above zero.
proof fn lemma_first_positive(b: Seq<nat>, i: int) -> (m: int)
    requires
        0 <= i < b.len(),
        b[i] > 0,
    ensures
        0 <= m <= i,
        b[m] > 0,
        forall|j: int| 0 <= j < m ==> b[j] == 0,
    decreases i,
{
    if exists|j: int| 0 <= j < i && b[j] > 0 {
        let j = choose|j: int| 0 <= j < i && b[j] > 0;
        lemma_first_positive(b, j)
    } else {
        i
    }
}

/// A release is passed over exactly where it is not newer: it is newer where, at the first place at
/// which the numbers of its tag and of the program's version differ, be it the very first, the
/// tag's is greater.
pub proof fn law_outdated_at_first_difference(current: Seq<char>, release: GhRelease)
    ensures
        outdated(current, release) <==> exists|i: int|
            0 <= i && #[trigger] at(components(current), i) < at(
                components(release.tag_name@),
                i,
            ) && forall|j: int|
                0 <= j < i ==> #[trigger] at(components(current), j) == at(
                    components(release.tag_name@),
                    j,
                ),
{
    let tag = release.tag_name@;
    let k = lemma_leading_v(tag);
    lemma_strip_front(tag, crate::text::just('v'), k);
    let rest = bare(tag);
    lemma_strip_front(rest, crate::text::just('v'), 0);
    assert(rest.skip(0) =~= rest);
    assert(components(rest) == components(tag));
    let c = components(current);
    let r = components(tag);
    if outdated(current, release) {
        let i = choose|i: int| #[trigger] exceeds_at(c, r, i);
        assert(at(c, i) < at(r, i));
    }
    if exists|i: int|
        0 <= i && #[trigger] at(c, i) < at(r, i) && forall|j: int|
            0 <= j < i ==> #[trigger] at(c, j) == at(r, j) {
        let i = choose|i: int|
            0 <= i && #[trigger] at(c, i) < at(r, i) && forall|j: int|
                0 <= j < i ==> #[trigger] at(c, j) == at(r, j);
        assert(exceeds_at(c, r, i));
    }
}

/// How many letters `v` a text starts with.
proof fn lemma_leading_v(s: Seq<char>) -> (k: int)
    ensures
        0 <= k <= s.len(),
        forall|i: int| 0 <= i < k ==> #[trigger] s[i] == 'v',
        k < s.len() ==> s[k] != 'v',
    decreases s.len(),
{
    if s.len() > 0 && s[0] == 'v' {
        let t = s.drop_first();
        let k = lemma_leading_v(t);
        assert forall|i: int| 0 <= i < k + 1 implies #[trigger] s[i] == 'v' by {
            if i > 0 {
                assert(t[i - 1] == 'v');
            }
        }
        if k < t.len() {
            assert(t[k] == s[k + 1]);
        }
        k + 1
    } else {
        0
    }
}

/// A release whose numbers go past those of the program, at the first place at which they differ,
/// is an update; one whose numbers fall behind there is none. It makes no difference where that
/// place is, what follows it, and how many letters `v` are in front.
pub proof fn law_newer_release_is_an_update(
    k: nat,
    m: nat,
    common: Seq<nat>,
    x: nat,
    y: nat,
    a: Seq<nat>,
    b: Seq<nat>,
    release: GhRelease,
)
    requires
        x != y,
        forall|i: int| 0 <= i < common.len() ==> #[trigger] common[i] <= 0xffff_ffff_ffff_ffff,
        forall|i: int| 0 <= i < a.len() ==> #[trigger] a[i] <= 0xffff_ffff_ffff_ffff,
        forall|i: int| 0 <= i < b.len() ==> #[trigger] b[i] <= 0xffff_ffff_ffff_ffff,
        x <= 0xffff_ffff_ffff_ffff,
        y <= 0xffff_ffff_ffff_ffff,
        release.tag_name@ == repeated('v', m) + dotted(common + seq![y] + b),
    ensures
        outdated(repeated('v', k) + dotted(common + seq![x] + a), release) <==> x < y,
        bare(release.tag_name@) == dotted(common + seq![y] + b),
{
    let current = common + seq![x] + a;
    let remote = common + seq![y] + b;
    law_dotted_numbers(k, current);
    law_dotted_numbers(m, remote);
    law_dotted_numbers(0, remote);
    assert(repeated('v', 0) + dotted(remote) =~= dotted(remote));
    law_first_difference_decides(common, x, y, a, b);
}

/// The file to take is the first that has the name, if any has it.
pub proof fn law_first_asset_is_found(assets: Seq<GhAsset>, name: Seq<char>)
    ensures
        0 <= find_asset(assets, name) <= assets.len(),
        find_asset(assets, name) < assets.len() ==> assets[find_asset(assets, name)].name@ == name,
        forall|i: int|
            0 <= i < find_asset(assets, name) ==> (#[trigger] assets[i]).name@ != name,
        find_asset(assets, name) < assets.len() <==> (exists|i: int|
            0 <= i < assets.len() && (#[trigger] assets[i]).name@ == name),
    decreases assets.len(),
{
    if assets.len() > 0 && assets[0].name@ != name {
        let rest = assets.drop_first();
        law_first_asset_is_found(rest, name);
        let k = find_asset(assets, name);
        assert forall|i: int| 0 <= i < k implies (#[trigger] assets[i]).name@ != name by {
            if i > 0 {
                assert(assets[i] == rest[i - 1]);
            }
        }
        if k < assets.len() {
            assert(assets[k] == rest[k - 1]);
        }
    }
}

/// Windows and Linux have a file each, and every other system the same third name.
pub proof fn law_one_asset_per_platform(os: Seq<char>)
    ensures
        asset_name("windows"@) == "runde-windows-x86_64.exe"@,
        asset_name("linux"@) == "runde-linux-x86_64"@,
        os != "windows"@ && os != "linux"@ ==> asset_name(os) == "runde-unknown"@,
{
    reveal_strlit("windows");
    reveal_strlit("linux");
    assert("windows"@.len() != "linux"@.len());
}

/// An installation takes its steps in their one order, from the first on, and goes past a step only
/// where it worked; it ends with the first that did not, or with the last of all. The update is in
/// place exactly where the last of all was reached.
pub proof fn law_install_order(works: spec_fn(InstallStep) -> bool, unix: bool)
    ensures
        ({
            let plan = if unix {
                seq![
                    InstallStep::Download,
                    InstallStep::Save,
                    InstallStep::ReadPermissions,
                    InstallStep::SetPermissions,
                    InstallStep::Replace,
                    InstallStep::CleanUp,
                ]
            } else {
                seq![
                    InstallStep::Download,
                    InstallStep::Save,
                    InstallStep::Replace,
                    InstallStep::CleanUp,
                ]
            };
            let taken = install_steps(InstallStep::Download, works, unix);
            &&& taken.len() > 0
            &&& taken.is_prefix_of(plan)
            &&& forall|i: int| 0 <= i < taken.len() - 1 ==> works(#[trigger] taken[i])
            &&& taken.len() < plan.len() ==> !works(taken.last())
            &&& installed(InstallStep::Download, works, unix) <==> taken.len() == plan.len()
        }),
{
    reveal_with_fuel(install_steps, 7);
    reveal_with_fuel(installed, 7);
}

} // verus!
