//! Launcher self-update: which GitHub release is newer than the running
//! launcher, which of its assets is the Windows installer, and how to start
//! that installer.
use vstd::prelude::*;
use crate::text::{
    chars_of, concat, contains, contains_exec, ends_with, ends_with_exec, lead_count, lead_len,
    lemma_find_from, matches_at, opt_view, parse_u64, parse_u64_exec, slice_of, split_char, split_chars, string_of, trim,
    trim_chars, trim_start_chars, trim_start_set, views, CharSet,
};

verus! {

/// The launcher's latest release, from GitHub's API.
pub const LAUNCHER_RELEASE_URL: &'static str = "https://api.github.com/repos/Bobba-Packet/bobba-launcher/releases/latest";

/// How many times starting the downloaded installer is tried.
pub const MAX_SPAWN_ATTEMPTS: u32 = 8;

/// A launcher update that can be installed.
pub struct LauncherUpdate {
    pub version: String,
    pub notes: Option<String>,
    pub html_url: String,
    pub download_url: String,
    pub asset_name: String,
}

/// A release asset.
pub struct GhAsset {
    pub name: String,
    pub browser_download_url: String,
}

/// A GitHub release.
pub struct GhRelease {
    pub tag_name: String,
    pub body: Option<String>,
    pub html_url: String,
    pub assets: Vec<GhAsset>,
}

// ---------------------------------------------------------------------------
// Versions

/// A version without surrounding whitespace and without its leading `v`s.
pub open spec fn normalized_version(raw: Seq<char>) -> Seq<char> {
    trim(trim_start_set(trim(raw), CharSet::Only('v')))
}

/// A version tag reduced to its number: whitespace and leading `v`s gone.
pub fn normalize_version(raw: &str) -> (r: String)
    ensures
        r@ == normalized_version(raw@),
{
    let a = trim_chars(&chars_of(raw), &CharSet::Whitespace);
    let b = trim_start_chars(&a, &CharSet::Only('v'));
    string_of(&trim_chars(&b, &CharSet::Whitespace))
}

/// The leading digits of `s`.
pub open spec fn digit_prefix(s: Seq<char>) -> Seq<char> {
    s.take(lead_len(s, CharSet::AsciiDigit) as int)
}

/// `major.minor.patch` read from a version: the first three dot-separated
/// fields, a missing minor or patch counting as `0`, the patch field cut at
/// its first non-digit.
pub open spec fn semver_of(v: Seq<char>) -> Option<(u64, u64, u64)> {
    let parts = split_char(v, '.');
    let minor_src = if parts.len() > 1 {
        parts[1]
    } else {
        "0"@
    };
    let patch_field = if parts.len() > 2 {
        parts[2]
    } else {
        "0"@
    };
    match (parse_u64(parts[0]), parse_u64(minor_src), parse_u64(digit_prefix(patch_field))) {
        (Some(a), Some(b), Some(c)) => Some((a, b, c)),
        _ => None,
    }
}

/// Reads `major.minor.patch` from a version (see `semver_of`).
pub fn parse_semver(v: &str) -> (r: Option<(u64, u64, u64)>)
    ensures
        r == semver_of(v@),
{
    let cs = chars_of(v);
    let parts = split_chars(&cs, '.');
    proof {
        crate::text::lemma_split_from_nonempty(cs@, '.', 0);
    }
    let ghost pv = views(parts@);
    assert(pv[0] == parts@[0]@);
    let major = match parse_u64_exec(&parts[0]) {
        Some(m) => m,
        None => return None,
    };
    let zero = chars_of("0");
    let minor = if parts.len() > 1 {
        assert(pv[1] == parts@[1]@);
        parse_u64_exec(&parts[1])
    } else {
        parse_u64_exec(&zero)
    };
    let minor = match minor {
        Some(m) => m,
        None => return None,
    };
    let patch_field = if parts.len() > 2 {
        assert(pv[2] == parts@[2]@);
        parts[2].clone()
    } else {
        zero
    };
    let n = lead_count(&patch_field, &CharSet::AsciiDigit);
    proof {
        crate::text::lemma_lead_len_bound(patch_field@, CharSet::AsciiDigit);
    }
    let digits = slice_of(&patch_field, 0, n);
    assert(digits@ =~= digit_prefix(patch_field@));
    match parse_u64_exec(&digits) {
        Some(p) => Some((major, minor, p)),
        None => None,
    }
}

/// `a > b` in the order of tuples.
pub open spec fn semver_gt(a: (u64, u64, u64), b: (u64, u64, u64)) -> bool {
    a.0 > b.0 || (a.0 == b.0 && (a.1 > b.1 || (a.1 == b.1 && a.2 > b.2)))
}

/// Whether release `remote` is newer than the running `current`: by
/// `major.minor.patch` when both read as such, otherwise whenever the
/// normalized texts differ and `remote` is not empty.
pub open spec fn spec_is_newer(remote: Seq<char>, current: Seq<char>) -> bool {
    let r = normalized_version(remote);
    let c = normalized_version(current);
    match (semver_of(r), semver_of(c)) {
        (Some(a), Some(b)) => semver_gt(a, b),
        _ => r != c && r.len() > 0,
    }
}

/// Whether release `remote` is newer than the running `current`.
pub fn is_newer(remote: &str, current: &str) -> (r: bool)
    ensures
        r == spec_is_newer(remote@, current@),
{
    let r = normalize_version(remote);
    let c = normalize_version(current);
    match (parse_semver(r.as_str()), parse_semver(c.as_str())) {
        (Some(a), Some(b)) => a.0 > b.0 || (a.0 == b.0 && (a.1 > b.1 || (a.1 == b.1 && a.2 > b.2))),
        _ => !(r == c) && !r.as_str().is_empty(),
    }
}

/// Law: no release is newer than itself.
pub proof fn law_is_newer_irreflexive(v: Seq<char>)
    ensures
        !spec_is_newer(v, v),
{
}

/// Law: between two versions that both read as `major.minor.patch`, at most
/// one is newer than the other, and being newer chains.
pub proof fn law_is_newer_is_an_order(a: Seq<char>, b: Seq<char>, c: Seq<char>)
    requires
        semver_of(normalized_version(a)) is Some,
        semver_of(normalized_version(b)) is Some,
        semver_of(normalized_version(c)) is Some,
    ensures
        spec_is_newer(a, b) ==> !spec_is_newer(b, a),
        spec_is_newer(a, b) && spec_is_newer(b, c) ==> spec_is_newer(a, c),
{
}

/// Law: between versions that both read as `major.minor.patch`, the release
/// is newer exactly when its major number is greater, or the major numbers
/// are equal and its minor number is greater, or both are equal and its
/// patch number is greater. So `a.(b+1).0` is newer than `a.b.d` whatever
/// `d` is, and `a.b.d` is not newer than `a.(b+1).0`.
pub proof fn law_is_newer_compares_fields_in_order(remote: Seq<char>, current: Seq<char>)
    requires
        semver_of(normalized_version(remote)) is Some,
        semver_of(normalized_version(current)) is Some,
    ensures
        ({
            let (rm, rn, rp) = semver_of(normalized_version(remote))->0;
            let (cm, cn, cp) = semver_of(normalized_version(current))->0;
            &&& rm > cm ==> spec_is_newer(remote, current)
            &&& rm < cm ==> !spec_is_newer(remote, current)
            &&& rm == cm && rn > cn ==> spec_is_newer(remote, current)
            &&& rm == cm && rn < cn ==> !spec_is_newer(remote, current)
            &&& rm == cm && rn == cn ==> (spec_is_newer(remote, current) <==> rp > cp)
        }),
{
}

// ---------------------------------------------------------------------------
// Installer asset

/// What `str::to_lowercase` gives: full Unicode lowercasing.
pub uninterp spec fn unicode_lowercase(s: Seq<char>) -> Seq<char>;

/// `str::to_lowercase` from std. Trusted: the result is std's Unicode
/// lowercasing of the text, a function of the text alone; nothing more is
/// stated of it.
#[verifier::external_body]
fn to_lowercase(s: &str) -> (r: String)
    ensures
        r@ == unicode_lowercase(s@),
{
    s.to_lowercase()
}

/// A lowercased asset name that looks like a setup installer.
pub open spec fn setup_like(n: Seq<char>) -> bool {
    ends_with(n, "-setup.exe"@) || ends_with(n, "_setup.exe"@) || (contains(n, "setup"@)
        && ends_with(n, ".exe"@))
}

/// A lowercased asset name of an executable.
pub open spec fn exe_like(n: Seq<char>) -> bool {
    ends_with(n, ".exe"@) && !ends_with(n, ".sig"@)
}

/// The first index whose name satisfies `setup_like` (when `setup`) or
/// `exe_like`.
pub open spec fn first_matching(names: Seq<Seq<char>>, setup: bool) -> Option<int>
    decreases names.len(),
{
    if names.len() == 0 {
        None
    } else if (if setup {
        setup_like(names[0])
    } else {
        exe_like(names[0])
    }) {
        Some(0)
    } else {
        match first_matching(names.drop_first(), setup) {
            Some(i) => Some(i + 1),
            None => None,
        }
    }
}

/// The installer among assets with the given lowercased names: the first
/// setup installer, else the first executable.
pub open spec fn spec_pick(lowered: Seq<Seq<char>>) -> Option<int> {
    match first_matching(lowered, true) {
        Some(i) => Some(i),
        None => first_matching(lowered, false),
    }
}

proof fn lemma_first_matching(names: Seq<Seq<char>>, setup: bool)
    ensures
        first_matching(names, setup) matches Some(i) ==> 0 <= i < names.len(),
    decreases names.len(),
{
    if names.len() > 0 {
        lemma_first_matching(names.drop_first(), setup);
    }
}

proof fn lemma_first_matching_holds(names: Seq<Seq<char>>, setup: bool)
    ensures
        first_matching(names, setup) matches Some(i) ==> 0 <= i < names.len() && (if setup {
            setup_like(names[i])
        } else {
            exe_like(names[i])
        }),
        first_matching(names, setup) is None ==> forall|k: int|
            0 <= k < names.len() ==> !(if setup {
                setup_like(#[trigger] names[k])
            } else {
                exe_like(names[k])
            }),
    decreases names.len(),
{
    if names.len() > 0 {
        lemma_first_matching_holds(names.drop_first(), setup);
        assert forall|k: int| 0 < k < names.len() implies names[k] == names.drop_first()[k - 1] by {}
    }
}

/// A name ending in `-setup.exe` or `_setup.exe` ends in `.exe` and
/// contains `setup`.
proof fn lemma_setup_suffix(n: Seq<char>, suffix: Seq<char>)
    requires
        suffix == "-setup.exe"@ || suffix == "_setup.exe"@,
        ends_with(n, suffix),
    ensures
        ends_with(n, ".exe"@),
        contains(n, "setup"@),
{
    reveal_strlit("-setup.exe");
    reveal_strlit("_setup.exe");
    reveal_strlit(".exe");
    reveal_strlit("setup");
    let len = n.len() as int;
    let tail = n.subrange(len - 10, len);
    assert forall|m: int| 0 <= m < 4 implies n.subrange(len - 4, len)[m] == ".exe"@[m] by {
        assert(tail[6 + m] == n[len - 4 + m]);
    }
    assert(n.subrange(len - 4, len) =~= ".exe"@);
    assert forall|m: int| 0 <= m < 5 implies n.subrange(len - 9, len - 4)[m] == "setup"@[m] by {
        assert(tail[1 + m] == n[len - 9 + m]);
    }
    assert(n.subrange(len - 9, len - 4) =~= "setup"@);
    assert(matches_at(n, "setup"@, len - 9));
    lemma_find_from(n, "setup"@, 0);
}

/// Law: the installer picked among assets with lowercased names `names` is
/// an executable: its name ends in `.exe` (a `.exe.sig` signature is never
/// picked). When some name contains `setup` and ends in `.exe`, the picked
/// one is such a setup installer too.
pub proof fn law_picked_installer_is_exe(names: Seq<Seq<char>>)
    ensures
        spec_pick(names) matches Some(i) ==> 0 <= i < names.len() && ends_with(names[i], ".exe"@),
        (exists|k: int|
            0 <= k < names.len() && contains(#[trigger] names[k], "setup"@) && ends_with(
                names[k],
                ".exe"@,
            )) ==> (spec_pick(names) matches Some(i) && contains(names[i], "setup"@) && ends_with(
            names[i],
            ".exe"@,
        )),
{
    lemma_first_matching_holds(names, true);
    lemma_first_matching_holds(names, false);
    match first_matching(names, true) {
        Some(i) => {
            let n = names[i];
            if ends_with(n, "-setup.exe"@) {
                lemma_setup_suffix(n, "-setup.exe"@);
            } else if ends_with(n, "_setup.exe"@) {
                lemma_setup_suffix(n, "_setup.exe"@);
            }
        },
        None => {
            if exists|k: int|
                0 <= k < names.len() && contains(#[trigger] names[k], "setup"@) && ends_with(
                    names[k],
                    ".exe"@,
                ) {
                let k = choose|k: int|
                    0 <= k < names.len() && contains(#[trigger] names[k], "setup"@) && ends_with(
                        names[k],
                        ".exe"@,
                    );
                assert(setup_like(names[k]));
            }
        },
    }
}

fn name_matches(n: &Vec<char>, setup: bool) -> (r: bool)
    ensures
        r == (if setup {
            setup_like(n@)
        } else {
            exe_like(n@)
        }),
{
    let exe = chars_of(".exe");
    if setup {
        ends_with_exec(n, &chars_of("-setup.exe")) || ends_with_exec(n, &chars_of("_setup.exe"))
            || (contains_exec(n, &chars_of("setup")) && ends_with_exec(n, &exe))
    } else {
        ends_with_exec(n, &exe) && !ends_with_exec(n, &chars_of(".sig"))
    }
}

fn first_matching_exec(names: &Vec<String>, setup: bool) -> (r: Option<usize>)
    ensures
        r matches Some(i) ==> first_matching(views_of(names@), setup) == Some(i as int),
        r is None ==> first_matching(views_of(names@), setup) is None,
{
    let ghost all = views_of(names@);
    let mut i: usize = 0;
    assert(all.skip(0) =~= all);
    while i < names.len()
        invariant
            all == views_of(names@),
            i <= names@.len(),
            first_matching(all, setup) == match first_matching(all.skip(i as int), setup) {
                Some(j) => Some(j + i),
                None => None::<int>,
            },
        decreases names@.len() - i,
    {
        let ghost rest = all.skip(i as int);
        assert(rest[0] == names@[i as int]@);
        if name_matches(&chars_of(names[i].as_str()), setup) {
            return Some(i);
        }
        assert(rest.drop_first() =~= all.skip(i + 1));
        i += 1;
    }
    assert(all.skip(i as int) =~= Seq::<Seq<char>>::empty());
    None
}

/// The views of a sequence of strings.
pub open spec fn views_of(v: Seq<String>) -> Seq<Seq<char>> {
    v.map_values(|s: String| s@)
}

/// The installer among assets whose lowercased names are `lowered`.
pub fn pick_windows_asset_lowered(lowered: &Vec<String>) -> (r: Option<usize>)
    ensures
        match r {
            Some(i) => spec_pick(views_of(lowered@)) == Some(i as int),
            None => spec_pick(views_of(lowered@)) is None,
        },
{
    match first_matching_exec(lowered, true) {
        Some(i) => Some(i),
        None => first_matching_exec(lowered, false),
    }
}

/// The lowercased names of the assets.
pub open spec fn lowered_names(assets: Seq<GhAsset>) -> Seq<Seq<char>> {
    assets.map_values(|a: GhAsset| unicode_lowercase(a.name@))
}

/// The Windows installer among a release's assets: the first whose
/// lowercased name ends in `-setup.exe` or `_setup.exe`, or contains
/// `setup` and ends in `.exe`; else the first `.exe`.
pub fn pick_windows_asset(assets: &Vec<GhAsset>) -> (r: Option<&GhAsset>)
    ensures
        match (r, spec_pick(lowered_names(assets@))) {
            (Some(a), Some(i)) => 0 <= i < assets@.len() && *a == assets@[i],
            (None, None) => true,
            _ => false,
        },
{
    let mut lowered: Vec<String> = Vec::new();
    let mut i: usize = 0;
    while i < assets.len()
        invariant
            i <= assets@.len(),
            views_of(lowered@) == lowered_names(assets@.take(i as int)),
        decreases assets@.len() - i,
    {
        let low = to_lowercase(assets[i].name.as_str());
        assert(low@ == unicode_lowercase(assets@[i as int].name@));
        let ghost before = lowered@;
        lowered.push(low);
        assert(lowered@ == before.push(low));
        assert(views_of(lowered@) =~= views_of(before).push(low@));
        assert(assets@.take(i + 1) =~= assets@.take(i as int).push(assets@[i as int]));
        assert(lowered_names(assets@.take(i + 1)) =~= lowered_names(assets@.take(i as int)).push(
            unicode_lowercase(assets@[i as int].name@),
        ));
        i += 1;
    }
    assert(assets@.take(assets@.len() as int) =~= assets@);
    proof {
        lemma_first_matching(views_of(lowered@), true);
        lemma_first_matching(views_of(lowered@), false);
    }
    match pick_windows_asset_lowered(&lowered) {
        Some(k) => Some(&assets[k]),
        None => None,
    }
}

/// The update offered by `release` to a launcher at `current`.
pub open spec fn spec_update(
    tag_name: Seq<char>,
    assets: Seq<GhAsset>,
    current: Seq<char>,
) -> Result<Option<int>, Seq<char>> {
    if !spec_is_newer(tag_name, current) {
        Ok(None)
    } else {
        match spec_pick(lowered_names(assets)) {
            None => Err("Latest release has no Windows .exe asset"@),
            Some(i) => Ok(Some(i)),
        }
    }
}

/// The update that `release` offers to a launcher at version `current`:
/// none unless the release is newer; an error when it has no Windows
/// installer; otherwise its normalized version, notes, page and installer.
pub fn update_from_release(release: &GhRelease, current: &str) -> (r: Result<
    Option<LauncherUpdate>,
    String,
>)
    ensures
        match (r, spec_update(release.tag_name@, release.assets@, current@)) {
            (Ok(None), Ok(None)) => true,
            (Ok(Some(u)), Ok(Some(i))) => {
                &&& u.version@ == normalized_version(release.tag_name@)
                &&& opt_view(u.notes) == opt_view(release.body)
                &&& u.html_url@ == release.html_url@
                &&& u.download_url@ == release.assets@[i].browser_download_url@
                &&& u.asset_name@ == release.assets@[i].name@
            },
            (Err(e), Err(m)) => e@ == m,
            _ => false,
        },
{
    if !is_newer(release.tag_name.as_str(), current) {
        return Ok(None);
    }
    let asset = match pick_windows_asset(&release.assets) {
        Some(a) => a,
        None => return Err("Latest release has no Windows .exe asset".to_owned()),
    };
    let notes = match &release.body {
        Some(b) => Some(b.clone()),
        None => None,
    };
    Ok(
        Some(
            LauncherUpdate {
                version: normalize_version(release.tag_name.as_str()),
                notes,
                html_url: release.html_url.clone(),
                download_url: asset.browser_download_url.clone(),
                asset_name: asset.name.clone(),
            },
        ),
    )
}

/// What the answer to the latest-release request means.
#[derive(Clone, Copy, PartialEq, Eq, Structural, Debug)]
pub enum ReleaseStatus {
    /// 404: the repository has no release; there is no update.
    NotFound,
    /// A 2xx answer: read the release.
    Found,
    /// Any other answer: the request failed.
    Failed,
}

/// The meaning of the HTTP status `code` of the latest-release request.
pub fn classify_release_status(code: u16) -> (r: ReleaseStatus)
    ensures
        code == 404 ==> r == ReleaseStatus::NotFound,
        200 <= code <= 299 ==> r == ReleaseStatus::Found,
        code != 404 && !(200 <= code <= 299) ==> r == ReleaseStatus::Failed,
{
    if code == 404 {
        ReleaseStatus::NotFound
    } else if 200 <= code && code <= 299 {
        ReleaseStatus::Found
    } else {
        ReleaseStatus::Failed
    }
}

/// The error for a failed latest-release request with status text `status`.
pub fn release_failure_message(status: &str) -> (r: String)
    ensures
        r@ == "GitHub releases request failed ("@ + status@ + ")"@,
{
    let head = concat(&chars_of("GitHub releases request failed ("), &chars_of(status));
    string_of(&concat(&head, &chars_of(")")))
}

// ---------------------------------------------------------------------------
// Starting the installer

/// The arguments of the downloaded installer: a setup installer (by its
/// lowercased name) runs silently with `/S`.
pub fn installer_args(asset_name: &str) -> (r: Vec<String>)
    ensures
        contains(unicode_lowercase(asset_name@), "setup"@) ==> (r@.len() == 1 && r@[0]@ == "/S"@),
        !contains(unicode_lowercase(asset_name@), "setup"@) ==> r@.len() == 0,
{
    let lower = to_lowercase(asset_name);
    let mut args: Vec<String> = Vec::new();
    if contains_exec(&chars_of(lower.as_str()), &chars_of("setup")) {
        args.push("/S".to_owned());
    }
    args
}

/// Whether a failure to start the installer is worth retrying: the file is
/// still in use (a sharing violation, or an antivirus scan).
pub open spec fn spec_retryable(msg: Seq<char>) -> bool {
    contains(msg, "sendo usado"@) || contains(msg, "being used"@) || contains(msg, "os error 32"@)
        || contains(msg, "Sharing violation"@)
}

/// Law: a failure to start the installer is retried exactly when its text
/// says the file is in use: it carries Windows' sharing-violation code
/// `os error 32` (in any language), says `being used` (English) or `sendo
/// usado` (Portuguese), or names a `Sharing violation`.
pub proof fn law_busy_file_is_retryable(msg: Seq<char>)
    ensures
        contains(msg, "os error 32"@) ==> spec_retryable(msg),
        contains(msg, "being used"@) ==> spec_retryable(msg),
        contains(msg, "sendo usado"@) ==> spec_retryable(msg),
        contains(msg, "Sharing violation"@) ==> spec_retryable(msg),
        !contains(msg, "os error 32"@) && !contains(msg, "being used"@) && !contains(
            msg,
            "sendo usado"@,
        ) && !contains(msg, "Sharing violation"@) ==> !spec_retryable(msg),
{
}

pub fn is_retryable_spawn_error(msg: &str) -> (r: bool)
    ensures
        r == spec_retryable(msg@),
{
    let m = chars_of(msg);
    contains_exec(&m, &chars_of("sendo usado")) || contains_exec(&m, &chars_of("being used"))
        || contains_exec(&m, &chars_of("os error 32")) || contains_exec(
        &m,
        &chars_of("Sharing violation"),
    )
}

/// How long to wait before attempt number `attempt` (counting from zero).
pub fn spawn_retry_delay_ms(attempt: u32) -> (r: u64)
    ensures
        r == 150 * attempt,
{
    150 * (attempt as u64)
}

/// What follows a failed attempt to start the installer.
#[derive(Clone, Copy, PartialEq, Eq, Structural, Debug)]
pub enum SpawnStep {
    /// Wait this many milliseconds, then try again.
    Retry { delay_ms: u64 },
    /// Stop trying and report the last error.
    GiveUp,
}

/// The step after attempt number `attempt` (counting from zero) failed with
/// `err`: another try, after `150 * (attempt + 1)` ms, while the error is
/// one that goes away (the file still in use) and attempts are left;
/// otherwise giving up.
pub fn next_spawn_step(attempt: u32, err: &str) -> (r: SpawnStep)
    ensures
        r == (if spec_retryable(err@) && attempt + 1 < MAX_SPAWN_ATTEMPTS {
            SpawnStep::Retry { delay_ms: (150 * (attempt + 1)) as u64 }
        } else {
            SpawnStep::GiveUp
        }),
{
    if is_retryable_spawn_error(err) && attempt < MAX_SPAWN_ATTEMPTS - 1 {
        SpawnStep::Retry { delay_ms: spawn_retry_delay_ms(attempt + 1) }
    } else {
        SpawnStep::GiveUp
    }
}

/// The error after every attempt to start the installer failed.
pub fn updater_failure_message(dest_display: &str, last_err: &str, html_url: &str) -> (r: String)
    ensures
        r@ == "Failed to start updater ("@ + dest_display@ + "): "@ + last_err@
            + ". Close other Bobba Launcher windows and try again, or install manually from "@
            + html_url@,
{
    let a = concat(&chars_of("Failed to start updater ("), &chars_of(dest_display));
    let b = concat(&a, &chars_of("): "));
    let c = concat(&b, &chars_of(last_err));
    let d = concat(
        &c,
        &chars_of(". Close other Bobba Launcher windows and try again, or install manually from "),
    );
    string_of(&concat(&d, &chars_of(html_url)))
}

/// The progress message while the update `version` downloads.
pub fn download_message(version: &str) -> (r: String)
    ensures
        r@ == "Downloading launcher v"@ + version@ + "…"@,
{
    let a = concat(&chars_of("Downloading launcher v"), &chars_of(version));
    string_of(&concat(&a, &chars_of("…")))
}

} // verus!
