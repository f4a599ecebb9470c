//! The install pipeline's decisions. The caller performs each step in
//! order against the install directory and the network, stopping at the
//! first step that fails.
use vstd::prelude::*;
use crate::clients::{spec_label, ClientId};
use crate::install::{
    air_patch_asset, asset_url, progress_view, remote_view, spec_air_patch_asset, ProgressEvent,
    RemoteClient, AIRPLUS_SWF_URL, ASSET_BASE,
};
use crate::text::{chars_of, concat, opt_view, string_of};

verus! {

fn progress(stage: &str, percent: Option<u8>, message: String) -> (r: ProgressEvent)
    ensures
        progress_view(r) == (stage@, percent, message@),
{
    ProgressEvent { stage: stage.to_owned(), percent, message }
}

/// How a client's build is looked up.
#[derive(Clone, Copy, PartialEq, Eq, Structural, Debug)]
pub enum RemoteSource {
    /// The hotel's `/gamedata/clienturls` manifest.
    OfficialClientUrls,
    /// A `HEAD` request on the AirPlus SWF.
    AirPlusSwf,
    /// The latest bobba-client GitHub release.
    BobbaRelease,
}

/// Which SWF-based client a build is.
#[derive(Clone, Copy, PartialEq, Eq, Structural, Debug)]
pub enum SwfClientKind {
    AirPlus,
    AirBobba,
}

pub open spec fn spec_remote_source(id: ClientId) -> RemoteSource {
    match id {
        ClientId::Classic => RemoteSource::OfficialClientUrls,
        ClientId::AirPlus => RemoteSource::AirPlusSwf,
        ClientId::AirBobba => RemoteSource::BobbaRelease,
    }
}

pub open spec fn spec_swf_kind(id: ClientId) -> Option<SwfClientKind> {
    match id {
        ClientId::Classic => None,
        ClientId::AirPlus => Some(SwfClientKind::AirPlus),
        ClientId::AirBobba => Some(SwfClientKind::AirBobba),
    }
}

/// Where the build of `id` is looked up.
pub fn remote_source(id: ClientId) -> (r: RemoteSource)
    ensures
        r == spec_remote_source(id),
{
    match id {
        ClientId::Classic => RemoteSource::OfficialClientUrls,
        ClientId::AirPlus => RemoteSource::AirPlusSwf,
        ClientId::AirBobba => RemoteSource::BobbaRelease,
    }
}

/// Whether `id` installs a single SWF (and which), or the official zip.
pub fn swf_kind(id: ClientId) -> (r: Option<SwfClientKind>)
    ensures
        r == spec_swf_kind(id),
{
    match id {
        ClientId::Classic => None,
        ClientId::AirPlus => Some(SwfClientKind::AirPlus),
        ClientId::AirBobba => Some(SwfClientKind::AirBobba),
    }
}

/// The Classic build named by the hotel's manifest.
pub fn official_remote(version: String, client_url: String) -> (r: RemoteClient)
    ensures
        remote_view(r) == (version@, client_url@, None::<Seq<char>>),
{
    RemoteClient { version, client_url, patch_url: None }
}

/// The AirPlus build, of the version its `HEAD` answer gave.
pub fn airplus_remote(version: String) -> (r: RemoteClient)
    ensures
        remote_view(r) == (version@, AIRPLUS_SWF_URL@, None::<Seq<char>>),
{
    RemoteClient { version, client_url: AIRPLUS_SWF_URL.to_owned(), patch_url: None }
}

/// Checks made before installing; on success, the first progress report.
pub fn install_precheck(id: ClientId, is_windows: bool) -> (r: Result<ProgressEvent, String>)
    ensures
        !is_windows ==> (r matches Err(e) && e@ == "Install pipeline is currently Windows-only"@),
        is_windows ==> (r matches Ok(p) && progress_view(p) == (
            "check"@,
            None::<u8>,
            "Verifying latest "@ + spec_label(id) + " version…"@,
        )),
{
    if !id.supported() {
        let msg = concat(&chars_of(id.label()), &chars_of(" is not available yet"));
        return Err(string_of(&msg));
    }
    if !is_windows {
        return Err("Install pipeline is currently Windows-only".to_owned());
    }
    let head = concat(&chars_of("Verifying latest "), &chars_of(id.label()));
    let msg = concat(&head, &chars_of(" version…"));
    Ok(progress("check", None, string_of(&msg)))
}

/// One step of installing a client into its directory. File names are
/// relative to that directory.
pub enum InstallStep {
    /// Report progress.
    Progress(ProgressEvent),
    /// Rewrite `META-INF/AIR/application.xml` to the known-good layout,
    /// ignoring failure.
    NormalizeXmlQuietly,
    /// Rewrite `META-INF/AIR/application.xml` to the known-good layout.
    NormalizeXml,
    /// Delete the directory if it exists, then create it empty.
    ResetDir,
    /// Download `url` into `file`, reporting it as `label`.
    Download { url: String, file: String, label: String },
    /// Unpack the zip `file`, leaving out the entries under `skip`.
    Extract { file: String, skip: Vec<String> },
    /// Delete `file`, ignoring failure.
    RemoveFile { file: String },
    /// Stop with the error `message`.
    Fail { message: String },
    /// Stop with the error `message` unless `file` is a file.
    RequireFile { file: String, message: String },
    /// Set the SWF header version byte of `file`.
    SetSwfVersion { file: String, byte: u8 },
    /// Write `version` to `VERSION.txt`.
    WriteVersion { version: String },
}

/// The view of an install step.
pub enum StepView {
    Progress(Seq<char>, Option<u8>, Seq<char>),
    NormalizeXmlQuietly,
    NormalizeXml,
    ResetDir,
    Download(Seq<char>, Seq<char>, Seq<char>),
    Extract(Seq<char>, Seq<Seq<char>>),
    RemoveFile(Seq<char>),
    Fail(Seq<char>),
    RequireFile(Seq<char>, Seq<char>),
    SetSwfVersion(Seq<char>, u8),
    WriteVersion(Seq<char>),
}

pub open spec fn step_view(s: InstallStep) -> StepView {
    match s {
        InstallStep::Progress(p) => StepView::Progress(p.stage@, p.percent, p.message@),
        InstallStep::NormalizeXmlQuietly => StepView::NormalizeXmlQuietly,
        InstallStep::NormalizeXml => StepView::NormalizeXml,
        InstallStep::ResetDir => StepView::ResetDir,
        InstallStep::Download { url, file, label } => StepView::Download(url@, file@, label@),
        InstallStep::Extract { file, skip } => StepView::Extract(
            file@,
            skip@.map_values(|x: String| x@),
        ),
        InstallStep::RemoveFile { file } => StepView::RemoveFile(file@),
        InstallStep::Fail { message } => StepView::Fail(message@),
        InstallStep::RequireFile { file, message } => StepView::RequireFile(file@, message@),
        InstallStep::SetSwfVersion { file, byte } => StepView::SetSwfVersion(file@, byte),
        InstallStep::WriteVersion { version } => StepView::WriteVersion(version@),
    }
}

pub open spec fn steps_view(v: Seq<InstallStep>) -> Seq<StepView> {
    v.map_values(|s: InstallStep| step_view(s))
}

/// The entries of the official package that the AIR runtime patch
/// provides instead.
pub open spec fn official_skip_list() -> Seq<Seq<char>> {
    seq!["Adobe AIR"@, "META-INF/signatures.xml"@, "META-INF/AIR/hash"@, "Habbo.exe"@]
}

/// Download, unpack and delete a published asset.
pub open spec fn asset_steps(name: Seq<char>) -> Seq<StepView> {
    seq![
        StepView::Download(ASSET_BASE@ + "/"@ + name, name, name),
        StepView::Extract(name, seq![]),
        StepView::RemoveFile(name),
    ]
}

/// The steps that bring the client's contents in after the AIR runtime.
pub open spec fn client_steps(kind: Option<SwfClientKind>, patch_url: Option<Seq<char>>) -> Seq<StepView> {
    match kind {
        Some(SwfClientKind::AirPlus) => asset_steps("HabboAirPlusPatch.zip"@),
        Some(SwfClientKind::AirBobba) => match patch_url {
            None => seq![StepView::Fail("Missing HabboAirBobbaPatch.zip URL"@)],
            Some(u) => seq![
                StepView::Download(u, "HabboAirBobbaPatch.zip"@, "HabboAirBobbaPatch.zip"@),
                StepView::Extract("HabboAirBobbaPatch.zip"@, seq![]),
                StepView::RemoveFile("HabboAirBobbaPatch.zip"@),
            ],
        },
        None => seq![
            StepView::Extract("ClientDownload.zip"@, official_skip_list()),
            StepView::RemoveFile("ClientDownload.zip"@),
        ],
    }
}

/// The steps after the client's contents: checks, the SWF version fix, the
/// version record and the final report. Nothing follows a failure.
pub open spec fn finish_steps(version: Seq<char>) -> Seq<StepView> {
    seq![
        StepView::NormalizeXml,
        StepView::RequireFile("HabboAir.swf"@, "Install finished but HabboAir.swf is missing"@),
        StepView::RequireFile("Habbo.exe"@, "Install finished but Habbo.exe is missing"@),
        StepView::SetSwfVersion("HabboAir.swf"@, 51),
        StepView::WriteVersion(version),
        StepView::Progress("ready"@, Some(100u8), "Client ready"@),
    ]
}

/// The steps up to the client's contents: report, fresh directory, the
/// client download, and the AIR runtime.
pub open spec fn spec_head_steps(
    id: ClientId,
    remote: (Seq<char>, Seq<char>, Option<Seq<char>>),
    arch: Seq<char>,
) -> Seq<StepView> {
    let (version, client_url, patch_url) = remote;
    let label = spec_label(id);
    let payload = if spec_swf_kind(id) is Some {
        StepView::Download(client_url, "HabboAir.swf"@, "HabboAir.swf"@)
    } else {
        StepView::Download(client_url, "ClientDownload.zip"@, "official client"@)
    };
    seq![
        StepView::Progress("update"@, Some(0u8), "Downloading "@ + label + " "@ + version + "…"@),
        StepView::ResetDir,
        payload,
        StepView::Progress("extract"@, None, "Extracting AIR runtime…"@),
    ] + asset_steps(spec_air_patch_asset(arch)) + seq![
        StepView::Progress("extract"@, None, "Extracting client…"@),
    ]
}

/// What installing `id` from `remote` takes on a machine of architecture
/// `arch`: when the install on disk is `current`, only the descriptor
/// repair and a report; otherwise a fresh download and unpack.
pub open spec fn spec_install_steps(
    id: ClientId,
    remote: (Seq<char>, Seq<char>, Option<Seq<char>>),
    arch: Seq<char>,
    current: bool,
) -> Seq<StepView> {
    let (version, client_url, patch_url) = remote;
    let label = spec_label(id);
    let kind = spec_swf_kind(id);
    if current {
        seq![
            StepView::NormalizeXmlQuietly,
            StepView::Progress(
                "ready"@,
                Some(100u8),
                label + " is up to date ("@ + version + ")"@,
            ),
        ]
    } else {
        let head = spec_head_steps(id, remote, arch);
        let client = client_steps(kind, patch_url);
        if kind == Some(SwfClientKind::AirBobba) && patch_url is None {
            head + client
        } else {
            head + client + finish_steps(version)
        }
    }
}

fn download(url: String, file: &str, label: &str) -> (r: InstallStep)
    ensures
        step_view(r) == StepView::Download(url@, file@, label@),
{
    InstallStep::Download { url, file: file.to_owned(), label: label.to_owned() }
}

fn push_asset_steps(steps: &mut Vec<InstallStep>, name: &str)
    ensures
        steps_view(final(steps)@) == steps_view(old(steps)@) + asset_steps(name@),
{
    let ghost before = steps_view(steps@);
    steps.push(download(asset_url(name), name, name));
    steps.push(InstallStep::Extract { file: name.to_owned(), skip: Vec::new() });
    steps.push(InstallStep::RemoveFile { file: name.to_owned() });
    proof {
        let e: Seq<Seq<char>> = Seq::<String>::empty().map_values(|x: String| x@);
        assert(e =~= Seq::<Seq<char>>::empty());
        assert(steps_view(steps@) =~= before + asset_steps(name@));
    }
}

fn text(parts: &Vec<&str>) -> (r: String)
    ensures
        r@ == crate::pipeline::joined(parts@),
{
    let mut out: Vec<char> = Vec::new();
    let mut i: usize = 0;
    while i < parts.len()
        invariant
            i <= parts@.len(),
            out@ == joined(parts@.take(i as int)),
        decreases parts@.len() - i,
    {
        out = concat(&out, &chars_of(parts[i]));
        i += 1;
        assert(parts@.take(i as int).drop_last() =~= parts@.take(i - 1));
    }
    assert(parts@.take(parts@.len() as int) =~= parts@);
    string_of(&out)
}

/// The pieces written one after the other.
pub open spec fn joined(parts: Seq<&str>) -> Seq<char>
    decreases parts.len(),
{
    if parts.len() == 0 {
        seq![]
    } else {
        joined(parts.drop_last()) + parts.last()@
    }
}

/// The steps that install `id` from `remote` on a machine of architecture
/// `arch` (see `spec_install_steps`); `current` tells whether the install
/// on disk already is that build and complete.
pub fn install_steps(id: ClientId, remote: &RemoteClient, arch: &str, current: bool) -> (r: Vec<
    InstallStep,
>)
    ensures
        steps_view(r@) == spec_install_steps(id, remote_view(*remote), arch@, current),
{
    let label = id.label();
    let version = remote.version.as_str();
    let mut steps: Vec<InstallStep> = Vec::new();
    if current {
        steps.push(InstallStep::NormalizeXmlQuietly);
        let msg = text(&vec![label, " is up to date (", version, ")"]);
        proof {
            reveal_with_fuel(joined, 5);
        }
        steps.push(InstallStep::Progress(progress("ready", Some(100), msg)));
        assert(steps_view(steps@) =~= spec_install_steps(id, remote_view(*remote), arch@, current));
        return steps;
    }
    let kind = swf_kind(id);
    let msg = text(&vec!["Downloading ", label, " ", version, "…"]);
    proof {
        reveal_with_fuel(joined, 6);
    }
    steps.push(InstallStep::Progress(progress("update", Some(0), msg)));
    steps.push(InstallStep::ResetDir);
    if kind.is_some() {
        steps.push(download(remote.client_url.clone(), "HabboAir.swf", "HabboAir.swf"));
    } else {
        steps.push(download(remote.client_url.clone(), "ClientDownload.zip", "official client"));
    }
    steps.push(InstallStep::Progress(progress("extract", None, "Extracting AIR runtime…".to_owned())));
    let ghost first = steps_view(steps@);
    push_asset_steps(&mut steps, air_patch_asset(arch));
    let ghost second = steps_view(steps@);
    steps.push(InstallStep::Progress(progress("extract", None, "Extracting client…".to_owned())));
    let ghost head = steps_view(steps@);
    assert(head =~= second.push(StepView::Progress("extract"@, None, "Extracting client…"@)));
    assert(head =~= spec_head_steps(id, remote_view(*remote), arch@));
    match kind {
        Some(SwfClientKind::AirPlus) => {
            push_asset_steps(&mut steps, "HabboAirPlusPatch.zip");
        },
        Some(SwfClientKind::AirBobba) => {
            match &remote.patch_url {
                None => {
                    steps.push(InstallStep::Fail { message: "Missing HabboAirBobbaPatch.zip URL".to_owned() });
                    assert(steps_view(steps@) =~= spec_install_steps(id, remote_view(*remote), arch@, current));
                    return steps;
                },
                Some(u) => {
                    steps.push(download(u.clone(), "HabboAirBobbaPatch.zip", "HabboAirBobbaPatch.zip"));
                    steps.push(InstallStep::Extract { file: "HabboAirBobbaPatch.zip".to_owned(), skip: Vec::new() });
                    steps.push(InstallStep::RemoveFile { file: "HabboAirBobbaPatch.zip".to_owned() });
                    proof {
                        let e: Seq<Seq<char>> = Seq::<String>::empty().map_values(|x: String| x@);
                        assert(e =~= Seq::<Seq<char>>::empty());
                    }
                },
            }
        },
        None => {
            let mut skip: Vec<String> = Vec::new();
            skip.push("Adobe AIR".to_owned());
            skip.push("META-INF/signatures.xml".to_owned());
            skip.push("META-INF/AIR/hash".to_owned());
            skip.push("Habbo.exe".to_owned());
            assert(skip@.map_values(|x: String| x@) =~= official_skip_list());
            steps.push(InstallStep::Extract { file: "ClientDownload.zip".to_owned(), skip });
            steps.push(InstallStep::RemoveFile { file: "ClientDownload.zip".to_owned() });
        },
    }
    assert(steps_view(steps@) =~= head + client_steps(kind, opt_view(remote.patch_url)));
    let ghost mid = steps_view(steps@);
    steps.push(InstallStep::NormalizeXml);
    steps.push(InstallStep::RequireFile {
        file: "HabboAir.swf".to_owned(),
        message: "Install finished but HabboAir.swf is missing".to_owned(),
    });
    steps.push(InstallStep::RequireFile {
        file: "Habbo.exe".to_owned(),
        message: "Install finished but Habbo.exe is missing".to_owned(),
    });
    steps.push(InstallStep::SetSwfVersion { file: "HabboAir.swf".to_owned(), byte: 51 });
    steps.push(InstallStep::WriteVersion { version: remote.version.clone() });
    steps.push(InstallStep::Progress(progress("ready", Some(100), "Client ready".to_owned())));
    assert(steps_view(steps@) =~= mid + finish_steps(remote.version@));
    assert(steps_view(steps@) =~= spec_install_steps(id, remote_view(*remote), arch@, current));
    steps
}

/// Law: an install that is already current downloads nothing and resets
/// nothing; it only repairs the descriptor and reports.
pub proof fn law_current_install_downloads_nothing(
    id: ClientId,
    remote: (Seq<char>, Seq<char>, Option<Seq<char>>),
    arch: Seq<char>,
)
    ensures
        forall|i: int|
            0 <= i < spec_install_steps(id, remote, arch, true).len() ==> !(#[trigger] spec_install_steps(
                id,
                remote,
                arch,
                true,
            )[i] is Download) && !(spec_install_steps(id, remote, arch, true)[i] is ResetDir),
{
}

/// Law: a fresh install that does not stop early finishes by forcing SWF
/// version 51, recording the remote build's version, and reporting the
/// client ready, after both required files were checked.
pub proof fn law_fresh_install_finishes(
    id: ClientId,
    remote: (Seq<char>, Seq<char>, Option<Seq<char>>),
    arch: Seq<char>,
)
    requires
        !(id == ClientId::AirBobba && remote.2 is None),
    ensures
        ({
            let steps = spec_install_steps(id, remote, arch, false);
            let n = steps.len() as int;
            &&& n >= 6
            &&& steps[n - 6] == StepView::NormalizeXml
            &&& steps[n - 5] is RequireFile
            &&& steps[n - 4] is RequireFile
            &&& steps[n - 3] == StepView::SetSwfVersion("HabboAir.swf"@, 51)
            &&& steps[n - 2] == StepView::WriteVersion(remote.0)
            &&& steps[n - 1] == StepView::Progress("ready"@, Some(100u8), "Client ready"@)
        }),
{
    let head = spec_head_steps(id, remote, arch);
    let client = client_steps(spec_swf_kind(id), remote.2);
    let steps = spec_install_steps(id, remote, arch, false);
    assert(steps =~= head + client + finish_steps(remote.0));
    let n = steps.len() as int;
    let f = finish_steps(remote.0);
    assert(steps[n - 6] == f[0]);
    assert(steps[n - 5] == f[1]);
    assert(steps[n - 4] == f[2]);
    assert(steps[n - 3] == f[3]);
    assert(steps[n - 2] == f[4]);
    assert(steps[n - 1] == f[5]);
}

/// The file a step deletes, if it deletes one.
pub open spec fn removed_file(s: StepView) -> Option<Seq<char>> {
    match s {
        StepView::RemoveFile(f) => Some(f),
        _ => None,
    }
}

/// The file a step unpacks, if it unpacks one.
pub open spec fn extracted_file(s: StepView) -> Option<Seq<char>> {
    match s {
        StepView::Extract(f, _) => Some(f),
        _ => None,
    }
}

/// The file a step downloads into, if it downloads one.
pub open spec fn downloaded_file(s: StepView) -> Option<Seq<char>> {
    match s {
        StepView::Download(_, f, _) => Some(f),
        _ => None,
    }
}

/// Law: in a fresh install nothing downloaded is thrown away unused. Every
/// file deleted is deleted right after it was unpacked; a downloaded file
/// that is deleted later is unpacked in between; and every file unpacked
/// was downloaded before.
pub proof fn law_fresh_install_unpacks_before_removing(
    id: ClientId,
    remote: (Seq<char>, Seq<char>, Option<Seq<char>>),
    arch: Seq<char>,
)
    ensures
        ({
            let steps = spec_install_steps(id, remote, arch, false);
            &&& forall|j: int|
                0 <= j < steps.len() && (#[trigger] removed_file(steps[j])) is Some ==> j > 0
                    && extracted_file(steps[j - 1]) == removed_file(steps[j])
            &&& forall|i: int, j: int|
                0 <= i < j < steps.len() && (#[trigger] downloaded_file(steps[i])) is Some
                    && downloaded_file(steps[i]) == #[trigger] removed_file(steps[j]) ==> exists|k: int|
                    i < k < j && #[trigger] extracted_file(steps[k]) == downloaded_file(steps[i])
            &&& forall|k: int|
                0 <= k < steps.len() && (#[trigger] extracted_file(steps[k])) is Some ==> exists|i: int|
                    0 <= i < k && #[trigger] downloaded_file(steps[i]) == extracted_file(steps[k])
        }),
{
    let steps = spec_install_steps(id, remote, arch, false);
    assert forall|j: int|
        0 <= j < steps.len() && (#[trigger] removed_file(steps[j])) is Some implies j > 0
            && extracted_file(steps[j - 1]) == removed_file(steps[j]) by {}
    assert forall|i: int, j: int|
        0 <= i < j < steps.len() && (#[trigger] downloaded_file(steps[i])) is Some
            && downloaded_file(steps[i]) == #[trigger] removed_file(steps[j]) implies exists|k: int|
            i < k < j && #[trigger] extracted_file(steps[k]) == downloaded_file(steps[i]) by {
        assert(extracted_file(steps[j - 1]) == removed_file(steps[j]));
        assert(downloaded_file(steps[j - 1]) is None);
    }
    assert forall|k: int|
        0 <= k < steps.len() && (#[trigger] extracted_file(steps[k])) is Some implies exists|i: int|
            0 <= i < k && #[trigger] downloaded_file(steps[i]) == extracted_file(steps[k]) by {
        if downloaded_file(steps[k - 1]) == extracted_file(steps[k]) {
        } else {
            assert(downloaded_file(steps[2]) == extracted_file(steps[k]));
        }
    }
}

} // verus!
