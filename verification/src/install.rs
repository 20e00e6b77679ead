//! Installing a helper program: the steps in their order, and the way back where one fails.

use vstd::prelude::*;

use crate::paths;
use crate::text;
use crate::tools::ToolKind;

verus! {

/// A published file.
#[derive(PartialEq, Eq, Debug)]
pub struct Asset {
    pub name: String,
    pub url: String,
    pub digest: Option<String>,
    pub size: u64,
}

/// The view of an [`Asset`].
#[verifier::ext_equal]
pub struct AssetView {
    pub name: Seq<char>,
    pub url: Seq<char>,
    pub digest: Option<Seq<char>>,
    pub size: u64,
}

impl View for Asset {
    type V = AssetView;

    open spec fn view(&self) -> AssetView {
        AssetView {
            name: self.name@,
            url: self.url@,
            digest: text::shown(self.digest),
            size: self.size,
        }
    }
}

/// A published release.
#[derive(PartialEq, Eq, Debug)]
pub struct Release {
    pub tag_name: String,
    pub assets: Vec<Asset>,
}

/// The view of a [`Release`].
#[verifier::ext_equal]
pub struct ReleaseView {
    pub tag_name: Seq<char>,
    pub assets: Seq<AssetView>,
}

impl View for Release {
    type V = ReleaseView;

    open spec fn view(&self) -> ReleaseView {
        ReleaseView { tag_name: self.tag_name@, assets: text::views(self.assets@) }
    }
}

/// Where the newest release of a repository is described.
pub fn latest_release(repository: &str) -> (result: String)
    ensures
        result@ == "https://api.github.com/repos/"@ + repository@ + "/releases/latest"@,
{
    let mut url = "https://api.github.com/repos/".to_owned();
    url.push_str(repository);
    url.push_str("/releases/latest");
    url
}

/// What has to be fetched.
#[derive(PartialEq, Eq, Debug)]
pub struct Chosen {
    pub url: String,
    pub digest: String,
    pub size: u64,
}

/// The view of a [`Chosen`].
#[verifier::ext_equal]
pub struct ChosenView {
    pub url: Seq<char>,
    pub digest: Seq<char>,
    pub size: u64,
}

impl View for Chosen {
    type V = ChosenView;

    open spec fn view(&self) -> ChosenView {
        ChosenView { url: self.url@, digest: self.digest@, size: self.size }
    }
}

/// The position of the first file named `name`, or the number of files.
pub open spec fn asset_position(assets: Seq<AssetView>, name: Seq<char>) -> int
    decreases assets.len(),
{
    if assets.len() == 0 || assets[0].name == name {
        0
    } else {
        1 + asset_position(assets.skip(1), name)
    }
}

/// The SHA-256 digest that the publisher gives for a file.
pub open spec fn published_digest(digest: Option<Seq<char>>) -> Option<Seq<char>> {
    match digest {
        Some(value) => if text::begins_with(value, "sha256:"@) {
            Some(value.skip("sha256:"@.len() as int))
        } else {
            None
        },
        None => None,
    }
}

/// The complaint about a file of a size that is not accepted.
pub open spec fn unsafe_size(kind: ToolKind, asset: AssetView) -> Seq<char> {
    "asset "@ + asset.name + " tem tamanho inseguro: "@ + text::decimal_text(asset.size as nat)
        + " bytes (limite "@ + text::decimal_text(kind.size_limit() as nat) + ")"@
}

/// What of a release has to be fetched for a system, or why nothing can be.
pub open spec fn choice(
    kind: ToolKind,
    release: ReleaseView,
    os: Seq<char>,
    arch: Seq<char>,
) -> Result<ChosenView, Seq<char>> {
    match kind.asset_for(os, arch) {
        None => Err(crate::tools::unsupported(os, arch)),
        Some(name) => {
            let at = asset_position(release.assets, name);
            if at >= release.assets.len() {
                Err("asset "@ + name + " nao encontrado em "@ + release.tag_name)
            } else {
                let asset = release.assets[at];
                if asset.size == 0 || asset.size > kind.size_limit() {
                    Err(unsafe_size(kind, asset))
                } else {
                    match published_digest(asset.digest) {
                        None => Err("GitHub nao publicou SHA-256 para o asset"@),
                        Some(digest) => Ok(ChosenView { url: asset.url, digest, size: asset.size }),
                    }
                }
            }
        },
    }
}

fn find_asset(assets: &Vec<Asset>, name: &str) -> (result: usize)
    ensures
        result == asset_position(text::views(assets@), name@),
        result <= assets@.len(),
{
    let ghost list = text::views(assets@);
    let mut i: usize = 0;
    assert(list.skip(0) =~= list);
    while i < assets.len()
        invariant
            list == text::views(assets@),
            i <= assets@.len(),
            asset_position(list, name@) == i + asset_position(list.skip(i as int), name@),
        decreases assets@.len() - i,
    {
        assert(list[i as int] == assets@[i as int]@);
        if text::same_text(assets[i].name.as_str(), name) {
            return i;
        }
        assert(list.skip(i as int).skip(1) =~= list.skip(i + 1));
        i += 1;
    }
    i
}

fn unsafe_size_text(kind: ToolKind, asset: &Asset) -> (result: String)
    ensures
        result@ == unsafe_size(kind, asset@),
{
    let mut message = "asset ".to_owned();
    message.push_str(asset.name.as_str());
    message.push_str(" tem tamanho inseguro: ");
    message.push_str(text::decimal(asset.size).as_str());
    message.push_str(" bytes (limite ");
    message.push_str(text::decimal(kind.max_asset_bytes()).as_str());
    message.push_str(")");
    message
}

/// Chooses what of a release has to be fetched for a system.
pub fn choose_asset(kind: ToolKind, release: &Release, os: &str, arch: &str) -> (result: Result<
    Chosen,
    String,
>)
    ensures
        match result {
            Ok(chosen) => choice(kind, release@, os@, arch@) == Ok::<ChosenView, Seq<char>>(chosen@),
            Err(message) => choice(kind, release@, os@, arch@) == Err::<ChosenView, Seq<char>>(
                message@,
            ),
        },
{
    let name = match kind.asset_name(os, arch) {
        Ok(name) => name,
        Err(message) => {
            return Err(message);
        },
    };
    let at: usize = find_asset(&release.assets, name);
    if at >= release.assets.len() {
        let mut message = "asset ".to_owned();
        message.push_str(name);
        message.push_str(" nao encontrado em ");
        message.push_str(release.tag_name.as_str());
        return Err(message);
    }
    let asset = &release.assets[at];
    assert(text::views(release.assets@)[at as int] == asset@);
    if asset.size == 0 || asset.size > kind.max_asset_bytes() {
        return Err(unsafe_size_text(kind, asset));
    }
    let digest = match &asset.digest {
        Some(value) => {
            if text::has_prefix(value.as_str(), "sha256:") {
                let chars = text::chars_of(value.as_str());
                let prefix = text::chars_of("sha256:");
                let rest = text::text_of(&chars, prefix.len(), chars.len());
                assert(rest@ =~= value@.skip("sha256:"@.len() as int));
                Some(rest)
            } else {
                None
            }
        },
        None => None,
    };
    match digest {
        Some(digest) => Ok(Chosen { url: asset.url.clone(), digest, size: asset.size }),
        None => Err("GitHub nao publicou SHA-256 para o asset".to_owned()),
    }
}

/// How far an installation has come: what was asked last.
#[derive(Clone, Copy, PartialEq, Eq, Structural, Debug)]
pub enum Stage {
    /// The directories are being made.
    Directories,
    /// The newest release is being looked up.
    Query,
    /// The program in place is being tried.
    Probe,
    /// The note of its release is being read.
    Marker,
    /// The free space is being checked.
    Space,
    /// The new program is being fetched.
    Fetch,
    /// It is being made executable.
    Permit,
    /// It is being tried.
    Trial,
    /// The older program is being looked for.
    FindPrevious,
    /// The older program is being removed.
    DropPrevious,
    /// The program in place is being looked for.
    FindTarget,
    /// The program in place is being put aside.
    Stash,
    /// The new program is being put in its place.
    Activate,
    /// The new program is being tried in its place.
    Verify,
    /// The new program is being removed again.
    Discard,
    /// The program that was put aside is being looked for.
    FindBackup,
    /// It is being put back.
    Restore,
    /// The release is being noted.
    Mark,
    /// It is over, and the program in place was not replaced.
    Kept,
    /// It is over, and the new program is in place.
    Replaced,
}

/// What an installation asks for.
#[derive(PartialEq, Eq, Debug)]
pub enum Ask {
    MakeDirectories,
    FetchRelease { url: String },
    Try { path: String },
    Read { path: String },
    CheckSpace { path: String, bytes: u64 },
    Download { chosen: Chosen, destination: String, limit: u64 },
    MakeExecutable { path: String },
    Exists { path: String },
    Remove { path: String },
    Rename { from: String, to: String },
    Note { path: String, tag: String },
    Succeed { path: String },
    GiveUp { message: String },
}

/// The view of an [`Ask`].
#[verifier::ext_equal]
pub enum AskView {
    MakeDirectories,
    FetchRelease { url: Seq<char> },
    Try { path: Seq<char> },
    Read { path: Seq<char> },
    CheckSpace { path: Seq<char>, bytes: u64 },
    Download { chosen: ChosenView, destination: Seq<char>, limit: u64 },
    MakeExecutable { path: Seq<char> },
    Exists { path: Seq<char> },
    Remove { path: Seq<char> },
    Rename { from: Seq<char>, to: Seq<char> },
    Note { path: Seq<char>, tag: Seq<char> },
    Succeed { path: Seq<char> },
    GiveUp { message: Seq<char> },
}

impl View for Ask {
    type V = AskView;

    open spec fn view(&self) -> AskView {
        match *self {
            Ask::MakeDirectories => AskView::MakeDirectories,
            Ask::FetchRelease { url } => AskView::FetchRelease { url: url@ },
            Ask::Try { path } => AskView::Try { path: path@ },
            Ask::Read { path } => AskView::Read { path: path@ },
            Ask::CheckSpace { path, bytes } => AskView::CheckSpace { path: path@, bytes },
            Ask::Download { chosen, destination, limit } => AskView::Download {
                chosen: chosen@,
                destination: destination@,
                limit,
            },
            Ask::MakeExecutable { path } => AskView::MakeExecutable { path: path@ },
            Ask::Exists { path } => AskView::Exists { path: path@ },
            Ask::Remove { path } => AskView::Remove { path: path@ },
            Ask::Rename { from, to } => AskView::Rename { from: from@, to: to@ },
            Ask::Note { path, tag } => AskView::Note { path: path@, tag: tag@ },
            Ask::Succeed { path } => AskView::Succeed { path: path@ },
            Ask::GiveUp { message } => AskView::GiveUp { message: message@ },
        }
    }
}

/// The answer to what was asked.
#[derive(PartialEq, Eq, Debug)]
pub enum Reply {
    Done,
    Failed(String),
    Found(Release),
    Text(String),
    Yes,
    No,
}

/// The view of a [`Reply`].
pub enum ReplyView {
    Done,
    Failed(Seq<char>),
    Found(ReleaseView),
    Text(Seq<char>),
    Yes,
    No,
}

impl View for Reply {
    type V = ReplyView;

    open spec fn view(&self) -> ReplyView {
        match *self {
            Reply::Done => ReplyView::Done,
            Reply::Failed(message) => ReplyView::Failed(message@),
            Reply::Found(release) => ReplyView::Found(release@),
            Reply::Text(value) => ReplyView::Text(value@),
            Reply::Yes => ReplyView::Yes,
            Reply::No => ReplyView::No,
        }
    }
}

/// Whether a reply answers what is asked at a stage.
pub open spec fn answers(stage: Stage, reply: ReplyView) -> bool {
    match stage {
        Stage::Query => reply is Found || reply is Failed,
        Stage::Marker => reply is Text || reply is Failed,
        Stage::FindPrevious | Stage::FindTarget | Stage::FindBackup => reply is Yes || reply is No,
        Stage::Kept | Stage::Replaced => false,
        _ => reply is Done || reply is Failed,
    }
}

/// An installation under way.
pub struct Install {
    pub kind: ToolKind,
    pub tools_dir: String,
    pub os: String,
    pub arch: String,
    pub release: Release,
    pub failure: String,
    pub stage: Stage,
}

/// The view of an [`Install`].
#[verifier::ext_equal]
pub struct InstallView {
    pub kind: ToolKind,
    pub tools_dir: Seq<char>,
    pub os: Seq<char>,
    pub arch: Seq<char>,
    pub release: ReleaseView,
    pub failure: Seq<char>,
    pub stage: Stage,
}

impl View for Install {
    type V = InstallView;

    open spec fn view(&self) -> InstallView {
        InstallView {
            kind: self.kind,
            tools_dir: self.tools_dir@,
            os: self.os@,
            arch: self.arch@,
            release: self.release@,
            failure: self.failure@,
            stage: self.stage,
        }
    }
}

impl InstallView {
    /// The path of a file beside the program that is named after it.
    pub open spec fn beside(self, ending: Seq<char>) -> Seq<char> {
        paths::joined(self.tools_dir, self.kind.binary() + ending)
    }

    /// Where the program lies.
    pub open spec fn target(self) -> Seq<char> {
        paths::joined(self.tools_dir, self.kind.binary())
    }

    /// Where the new program is put first.
    pub open spec fn temporary(self) -> Seq<char> {
        self.beside(".new"@)
    }

    /// Where the replaced program is put.
    pub open spec fn previous(self) -> Seq<char> {
        self.beside(".previous"@)
    }

    /// The same installation at another stage.
    pub open spec fn at(self, stage: Stage) -> InstallView {
        InstallView { stage, ..self }
    }

    /// The end without success.
    pub open spec fn given_up(self, stage: Stage, message: Seq<char>) -> (InstallView, AskView) {
        (self.at(stage), AskView::GiveUp { message })
    }

    /// What follows once it is known that the release has to be fetched.
    pub open spec fn chosen(self) -> (InstallView, AskView) {
        match choice(self.kind, self.release, self.os, self.arch) {
            Ok(_) => (
                self.at(Stage::Space),
                AskView::CheckSpace {
                    path: self.tools_dir,
                    bytes: (2 * self.kind.size_limit()) as u64,
                },
            ),
            Err(message) => self.given_up(Stage::Kept, message),
        }
    }

    /// What follows a reply, and what is asked next.
    pub open spec fn next(self, reply: ReplyView) -> (InstallView, AskView) {
        match self.stage {
            Stage::Directories => match reply {
                ReplyView::Failed(cause) => self.given_up(Stage::Kept, cause),
                _ => (
                    self.at(Stage::Query),
                    AskView::FetchRelease {
                        url: "https://api.github.com/repos/"@ + match self.kind {
                            ToolKind::YtDlp => "yt-dlp/yt-dlp"@,
                            ToolKind::Ffmpeg => "eugeneware/ffmpeg-static"@,
                        } + "/releases/latest"@,
                    },
                ),
            },
            Stage::Query => match reply {
                ReplyView::Found(release) => (
                    InstallView { release, stage: Stage::Probe, ..self },
                    AskView::Try { path: self.target() },
                ),
                ReplyView::Failed(cause) => self.given_up(Stage::Kept, cause),
                _ => self.given_up(Stage::Kept, Seq::empty()),
            },
            Stage::Probe => match reply {
                ReplyView::Failed(_) => self.chosen(),
                _ => (self.at(Stage::Marker), AskView::Read { path: self.beside(".release"@) }),
            },
            Stage::Marker => match reply {
                ReplyView::Text(tag) => if text::trimmed(tag) == self.release.tag_name {
                    (self.at(Stage::Kept), AskView::Succeed { path: self.target() })
                } else {
                    self.chosen()
                },
                _ => self.chosen(),
            },
            Stage::Space => match reply {
                ReplyView::Failed(cause) => self.given_up(Stage::Kept, cause),
                _ => match choice(self.kind, self.release, self.os, self.arch) {
                    Ok(chosen) => (
                        self.at(Stage::Fetch),
                        AskView::Download {
                            chosen,
                            destination: self.temporary(),
                            limit: self.kind.size_limit(),
                        },
                    ),
                    Err(message) => self.given_up(Stage::Kept, message),
                },
            },
            Stage::Fetch => match reply {
                ReplyView::Failed(cause) => self.given_up(Stage::Kept, cause),
                _ => (self.at(Stage::Permit), AskView::MakeExecutable { path: self.temporary() }),
            },
            Stage::Permit => match reply {
                ReplyView::Failed(cause) => self.given_up(Stage::Kept, cause),
                _ => (self.at(Stage::Trial), AskView::Try { path: self.temporary() }),
            },
            Stage::Trial => match reply {
                ReplyView::Failed(cause) => self.given_up(
                    Stage::Kept,
                    text::caused("o binario baixado falhou no smoke test"@, cause),
                ),
                _ => (self.at(Stage::FindPrevious), AskView::Exists { path: self.previous() }),
            },
            Stage::FindPrevious => match reply {
                ReplyView::Yes => (
                    self.at(Stage::DropPrevious),
                    AskView::Remove { path: self.previous() },
                ),
                _ => (self.at(Stage::FindTarget), AskView::Exists { path: self.target() }),
            },
            Stage::DropPrevious => match reply {
                ReplyView::Failed(cause) => self.given_up(
                    Stage::Kept,
                    text::caused("falha ao remover "@ + self.previous(), cause),
                ),
                _ => (self.at(Stage::FindTarget), AskView::Exists { path: self.target() }),
            },
            Stage::FindTarget => match reply {
                ReplyView::Yes => (
                    self.at(Stage::Stash),
                    AskView::Rename { from: self.target(), to: self.previous() },
                ),
                _ => (
                    self.at(Stage::Activate),
                    AskView::Rename { from: self.temporary(), to: self.target() },
                ),
            },
            Stage::Stash => match reply {
                ReplyView::Failed(cause) => self.given_up(
                    Stage::Kept,
                    text::caused("falha ao guardar versao anterior"@, cause),
                ),
                _ => (
                    self.at(Stage::Activate),
                    AskView::Rename { from: self.temporary(), to: self.target() },
                ),
            },
            Stage::Activate => match reply {
                ReplyView::Failed(cause) => (
                    InstallView {
                        stage: Stage::FindBackup,
                        failure: text::caused("falha ao ativar nova ferramenta"@, cause),
                        ..self
                    },
                    AskView::Exists { path: self.previous() },
                ),
                _ => (self.at(Stage::Verify), AskView::Try { path: self.target() }),
            },
            Stage::Verify => match reply {
                ReplyView::Failed(cause) => (
                    InstallView {
                        stage: Stage::Discard,
                        failure: text::caused("nova ferramenta falhou; rollback aplicado"@, cause),
                        ..self
                    },
                    AskView::Remove { path: self.target() },
                ),
                _ => (
                    self.at(Stage::Mark),
                    AskView::Note { path: self.beside(".release"@), tag: self.release.tag_name },
                ),
            },
            Stage::Discard => (
                self.at(Stage::FindBackup),
                AskView::Exists { path: self.previous() },
            ),
            Stage::FindBackup => match reply {
                ReplyView::Yes => (
                    self.at(Stage::Restore),
                    AskView::Rename { from: self.previous(), to: self.target() },
                ),
                _ => self.given_up(Stage::Kept, self.failure),
            },
            Stage::Restore => self.given_up(Stage::Kept, self.failure),
            Stage::Mark => match reply {
                ReplyView::Failed(cause) => self.given_up(Stage::Replaced, cause),
                _ => (self.at(Stage::Replaced), AskView::Succeed { path: self.target() }),
            },
            Stage::Kept | Stage::Replaced => self.given_up(self.stage, self.failure),
        }
    }
}

impl Install {
    /// An installation of `kind` below `tools_dir`, which first asks for the directories.
    pub fn start(kind: ToolKind, tools_dir: &str, os: &str, arch: &str) -> (result: (Self, Ask))
        ensures
            result.0@.kind == kind,
            result.0@.tools_dir == tools_dir@,
            result.0@.os == os@,
            result.0@.arch == arch@,
            result.0@.stage == Stage::Directories,
            result.1@ == AskView::MakeDirectories,
    {
        (
            Install {
                kind,
                tools_dir: tools_dir.to_owned(),
                os: os.to_owned(),
                arch: arch.to_owned(),
                release: Release { tag_name: String::new(), assets: Vec::new() },
                failure: String::new(),
                stage: Stage::Directories,
            },
            Ask::MakeDirectories,
        )
    }

    fn beside(&self, ending: &str) -> (result: String)
        ensures
            result@ == self@.beside(ending@),
    {
        let mut name = self.kind.binary_name().to_owned();
        name.push_str(ending);
        paths::join(self.tools_dir.as_str(), name.as_str())
    }

    fn target(&self) -> (result: String)
        ensures
            result@ == self@.target(),
    {
        paths::join(self.tools_dir.as_str(), self.kind.binary_name())
    }

    fn give_up(&mut self, stage: Stage, message: String) -> (result: Ask)
        ensures
            (final(self)@, result@) == old(self)@.given_up(stage, message@),
    {
        self.stage = stage;
        Ask::GiveUp { message }
    }

    fn proceed(&mut self) -> (result: Ask)
        ensures
            (final(self)@, result@) == old(self)@.chosen(),
    {
        match choose_asset(self.kind, &self.release, self.os.as_str(), self.arch.as_str()) {
            Ok(_) => {
                self.stage = Stage::Space;
                Ask::CheckSpace {
                    path: self.tools_dir.clone(),
                    bytes: 2 * self.kind.max_asset_bytes(),
                }
            },
            Err(message) => self.give_up(Stage::Kept, message),
        }
    }

    /// Takes the answer to what was asked last, and asks for the next step.
    pub fn step(&mut self, reply: Reply) -> (result: Ask)
        requires
            answers(old(self)@.stage, reply@),
        ensures
            (final(self)@, result@) == old(self)@.next(reply@),
    {
        match self.stage {
            Stage::Directories => match reply {
                Reply::Failed(cause) => self.give_up(Stage::Kept, cause),
                _ => {
                    self.stage = Stage::Query;
                    Ask::FetchRelease { url: latest_release(self.kind.repository()) }
                },
            },
            Stage::Query => match reply {
                Reply::Found(release) => {
                    self.release = release;
                    self.stage = Stage::Probe;
                    Ask::Try { path: self.target() }
                },
                Reply::Failed(cause) => self.give_up(Stage::Kept, cause),
                _ => self.give_up(Stage::Kept, String::new()),
            },
            Stage::Probe => match reply {
                Reply::Failed(_) => self.proceed(),
                _ => {
                    self.stage = Stage::Marker;
                    Ask::Read { path: self.beside(".release") }
                },
            },
            Stage::Marker => match reply {
                Reply::Text(tag) => {
                    if text::same_text(text::trim(tag.as_str()), self.release.tag_name.as_str()) {
                        self.stage = Stage::Kept;
                        Ask::Succeed { path: self.target() }
                    } else {
                        self.proceed()
                    }
                },
                _ => self.proceed(),
            },
            Stage::Space => match reply {
                Reply::Failed(cause) => self.give_up(Stage::Kept, cause),
                _ => match choose_asset(
                    self.kind,
                    &self.release,
                    self.os.as_str(),
                    self.arch.as_str(),
                ) {
                    Ok(chosen) => {
                        self.stage = Stage::Fetch;
                        Ask::Download {
                            chosen,
                            destination: self.beside(".new"),
                            limit: self.kind.max_asset_bytes(),
                        }
                    },
                    Err(message) => self.give_up(Stage::Kept, message),
                },
            },
            Stage::Fetch => match reply {
                Reply::Failed(cause) => self.give_up(Stage::Kept, cause),
                _ => {
                    self.stage = Stage::Permit;
                    Ask::MakeExecutable { path: self.beside(".new") }
                },
            },
            Stage::Permit => match reply {
                Reply::Failed(cause) => self.give_up(Stage::Kept, cause),
                _ => {
                    self.stage = Stage::Trial;
                    Ask::Try { path: self.beside(".new") }
                },
            },
            Stage::Trial => match reply {
                Reply::Failed(cause) => {
                    let message = text::caused_text(
                        "o binario baixado falhou no smoke test",
                        cause.as_str(),
                    );
                    self.give_up(Stage::Kept, message)
                },
                _ => {
                    self.stage = Stage::FindPrevious;
                    Ask::Exists { path: self.beside(".previous") }
                },
            },
            Stage::FindPrevious => match reply {
                Reply::Yes => {
                    self.stage = Stage::DropPrevious;
                    Ask::Remove { path: self.beside(".previous") }
                },
                _ => {
                    self.stage = Stage::FindTarget;
                    Ask::Exists { path: self.target() }
                },
            },
            Stage::DropPrevious => match reply {
                Reply::Failed(cause) => {
                    let mut what = "falha ao remover ".to_owned();
                    what.push_str(self.beside(".previous").as_str());
                    let message = text::caused_text(what.as_str(), cause.as_str());
                    self.give_up(Stage::Kept, message)
                },
                _ => {
                    self.stage = Stage::FindTarget;
                    Ask::Exists { path: self.target() }
                },
            },
            Stage::FindTarget => match reply {
                Reply::Yes => {
                    self.stage = Stage::Stash;
                    Ask::Rename { from: self.target(), to: self.beside(".previous") }
                },
                _ => {
                    self.stage = Stage::Activate;
                    Ask::Rename { from: self.beside(".new"), to: self.target() }
                },
            },
            Stage::Stash => match reply {
                Reply::Failed(cause) => {
                    let message = text::caused_text("falha ao guardar versao anterior", cause.as_str());
                    self.give_up(Stage::Kept, message)
                },
                _ => {
                    self.stage = Stage::Activate;
                    Ask::Rename { from: self.beside(".new"), to: self.target() }
                },
            },
            Stage::Activate => match reply {
                Reply::Failed(cause) => {
                    self.failure = text::caused_text("falha ao ativar nova ferramenta", cause.as_str());
                    self.stage = Stage::FindBackup;
                    Ask::Exists { path: self.beside(".previous") }
                },
                _ => {
                    self.stage = Stage::Verify;
                    Ask::Try { path: self.target() }
                },
            },
            Stage::Verify => match reply {
                Reply::Failed(cause) => {
                    self.failure = text::caused_text(
                        "nova ferramenta falhou; rollback aplicado",
                        cause.as_str(),
                    );
                    self.stage = Stage::Discard;
                    Ask::Remove { path: self.target() }
                },
                _ => {
                    self.stage = Stage::Mark;
                    Ask::Note {
                        path: self.beside(".release"),
                        tag: self.release.tag_name.clone(),
                    }
                },
            },
            Stage::Discard => {
                self.stage = Stage::FindBackup;
                Ask::Exists { path: self.beside(".previous") }
            },
            Stage::FindBackup => match reply {
                Reply::Yes => {
                    self.stage = Stage::Restore;
                    Ask::Rename { from: self.beside(".previous"), to: self.target() }
                },
                _ => {
                    let message = self.failure.clone();
                    self.give_up(Stage::Kept, message)
                },
            },
            Stage::Restore => {
                let message = self.failure.clone();
                self.give_up(Stage::Kept, message)
            },
            Stage::Mark => match reply {
                Reply::Failed(cause) => self.give_up(Stage::Replaced, cause),
                _ => {
                    self.stage = Stage::Replaced;
                    Ask::Succeed { path: self.target() }
                },
            },
            Stage::Kept | Stage::Replaced => {
                let stage = self.stage;
                let message = self.failure.clone();
                self.give_up(stage, message)
            },
        }
    }
}

/// What lies at the three places of a program, each by a number that stands for its contents.
pub struct Files {
    pub target: Option<int>,
    pub previous: Option<int>,
    pub temporary: Option<int>,
}

/// The files after the step of a stage was answered with `reply`; `fresh` stands for what a
/// download brings.
pub open spec fn files_after(stage: Stage, reply: ReplyView, files: Files, fresh: int) -> Files {
    match (stage, reply) {
        (Stage::Fetch, ReplyView::Done) => Files { temporary: Some(fresh), ..files },
        (Stage::DropPrevious, ReplyView::Done) => Files { previous: None, ..files },
        (Stage::Stash, ReplyView::Done) => Files { target: None, previous: files.target, ..files },
        (Stage::Activate, ReplyView::Done) => Files {
            target: files.temporary,
            temporary: None,
            ..files
        },
        (Stage::Discard, ReplyView::Done) => Files { target: None, ..files },
        (Stage::Restore, ReplyView::Done) => Files {
            target: files.previous,
            previous: None,
            ..files
        },
        _ => files,
    }
}

/// Whether a reply is true of the files: what is asked after is found where it is, and what is
/// done on the way back succeeds.
pub open spec fn truthful(stage: Stage, reply: ReplyView, files: Files) -> bool {
    match stage {
        Stage::FindPrevious | Stage::FindBackup => reply is Yes <==> files.previous is Some,
        Stage::FindTarget => reply is Yes <==> files.target is Some,
        Stage::Discard | Stage::Restore => reply is Done,
        _ => true,
    }
}

/// What holds of the files at each stage of an installation that began with `before` in place.
pub open spec fn safe_files(stage: Stage, files: Files, before: Option<int>) -> bool {
    match stage {
        Stage::FindTarget => files.target == before && files.previous is None,
        Stage::Stash => files.target == before && files.previous is None && before is Some,
        Stage::Activate | Stage::FindBackup => files.target is None && files.previous == before,
        Stage::Restore => files.target is None && files.previous == before && before is Some,
        Stage::Verify | Stage::Discard | Stage::Mark | Stage::Replaced => files.previous == before,
        _ => files.target == before,
    }
}

/// At every stage the program that was in place is either still there or kept aside, and an
/// installation that ends without the new program ends with the old one in its place.
pub proof fn lemma_rollback(
    install: InstallView,
    reply: ReplyView,
    files: Files,
    before: Option<int>,
    fresh: int,
)
    requires
        answers(install.stage, reply),
        truthful(install.stage, reply, files),
        safe_files(install.stage, files, before),
    ensures
        safe_files(
            install.next(reply).0.stage,
            files_after(install.stage, reply, files, fresh),
            before,
        ),
        install.next(reply).0.stage == Stage::Kept ==> files_after(
            install.stage,
            reply,
            files,
            fresh,
        ).target == before,
{
}

/// A program is put in place only after it was fetched, checked against the published digest and
/// tried: the installation reaches [`Stage::Activate`] only through [`Stage::Fetch`] and
/// [`Stage::Trial`], each answered without a fault.
pub proof fn lemma_tried_before_use(install: InstallView, reply: ReplyView)
    requires
        answers(install.stage, reply),
    ensures
        install.next(reply).0.stage == Stage::Permit ==> install.stage == Stage::Fetch && reply
            is Done,
        install.next(reply).0.stage == Stage::FindPrevious ==> install.stage == Stage::Trial
            && reply is Done,
        install.next(reply).0.stage == Stage::Trial ==> install.stage == Stage::Permit,
        install.next(reply).0.stage == Stage::FindTarget ==> install.stage == Stage::FindPrevious
            || install.stage == Stage::DropPrevious,
        install.next(reply).0.stage == Stage::DropPrevious ==> install.stage
            == Stage::FindPrevious,
        install.next(reply).0.stage == Stage::Activate ==> install.stage == Stage::FindTarget
            || install.stage == Stage::Stash,
        install.next(reply).1 is Download ==> choice(
            install.kind,
            install.release,
            install.os,
            install.arch,
        ) == Ok::<ChosenView, Seq<char>>(install.next(reply).1->chosen),
{
}

/// A release that is in place already is not fetched again: where the program works and its note
/// names the newest release, the installation is over and nothing was replaced.
pub proof fn lemma_same_release_kept(install: InstallView, tag: Seq<char>)
    requires
        install.stage == Stage::Marker,
        text::trimmed(tag) == install.release.tag_name,
    ensures
        install.next(ReplyView::Text(tag)) == (
            install.at(Stage::Kept),
            AskView::Succeed { path: install.target() },
        ),
{
}

/// The most steps that an installation may still take from a stage on.
pub open spec fn steps_left(stage: Stage) -> nat {
    match stage {
        Stage::Directories => 17,
        Stage::Query => 16,
        Stage::Probe => 15,
        Stage::Marker => 14,
        Stage::Space => 13,
        Stage::Fetch => 12,
        Stage::Permit => 11,
        Stage::Trial => 10,
        Stage::FindPrevious => 9,
        Stage::DropPrevious => 8,
        Stage::FindTarget => 7,
        Stage::Stash => 6,
        Stage::Activate => 5,
        Stage::Verify => 4,
        Stage::Discard => 3,
        Stage::FindBackup => 2,
        Stage::Restore | Stage::Mark => 1,
        Stage::Kept | Stage::Replaced => 0,
    }
}

/// Every installation comes to an end, whatever it is answered: each step leaves fewer of them.
pub proof fn lemma_install_ends(install: InstallView, reply: ReplyView)
    requires
        answers(install.stage, reply),
    ensures
        steps_left(install.next(reply).0.stage) < steps_left(install.stage),
        steps_left(install.next(reply).0.stage) == 0 <==> install.next(reply).1 is Succeed
            || install.next(reply).1 is GiveUp,
{
}

proof fn lemma_asset_position(assets: Seq<AssetView>, name: Seq<char>, k: int)
    requires
        0 <= k <= assets.len(),
        forall|i: int| 0 <= i < k ==> (#[trigger] assets[i]).name != name,
        k < assets.len() ==> assets[k].name == name,
    ensures
        asset_position(assets, name) == k,
    decreases assets.len(),
{
    if k > 0 {
        let rest = assets.skip(1);
        assert forall|i: int| 0 <= i < k - 1 implies (#[trigger] rest[i]).name != name by {
            assert(rest[i] == assets[i + 1]);
        }
        lemma_asset_position(rest, name, k - 1);
    }
}

/// What is fetched is the first published file that bears the name for the system, from its own
/// address, with its own size and with the SHA-256 digest that the publisher gives for it; without such
/// a digest, without bytes or with more than the limit it is not fetched.
pub proof fn lemma_file_chosen(
    kind: ToolKind,
    release: ReleaseView,
    os: Seq<char>,
    arch: Seq<char>,
    k: int,
    digest: Seq<char>,
)
    requires
        kind.asset_for(os, arch) is Some,
        0 <= k < release.assets.len(),
        release.assets[k].name == kind.asset_for(os, arch)->0,
        forall|i: int| 0 <= i < k ==> (#[trigger] release.assets[i]).name != release.assets[k].name,
    ensures
        ({
            let asset = release.assets[k];
            let result = choice(kind, release, os, arch);
            &&& 0 < asset.size <= kind.size_limit() && asset.digest == Some("sha256:"@ + digest)
                ==> result is Ok && result->Ok_0.url == asset.url && result->Ok_0.digest == digest
                && result->Ok_0.size == asset.size
            &&& asset.size == 0 ==> result is Err
            &&& asset.size > kind.size_limit() ==> result is Err
            &&& asset.digest is None ==> result is Err
            &&& asset.digest is Some && !text::begins_with(asset.digest->0, "sha256:"@) ==> result
                is Err
        }),
{
    lemma_asset_position(release.assets, kind.asset_for(os, arch)->0, k);
    text::lemma_occurs_between(Seq::empty(), "sha256:"@, digest);
    assert(("sha256:"@ + digest).skip("sha256:"@.len() as int) =~= digest);
}

/// Nothing is fetched for a system without a file, and nothing from a release that lacks it.
pub proof fn lemma_nothing_chosen(
    kind: ToolKind,
    release: ReleaseView,
    os: Seq<char>,
    arch: Seq<char>,
)
    ensures
        kind.asset_for(os, arch) is None ==> choice(kind, release, os, arch) is Err,
        kind.asset_for(os, arch) matches Some(name) ==> ((forall|i: int|
            0 <= i < release.assets.len() ==> (#[trigger] release.assets[i]).name != name)
            ==> choice(kind, release, os, arch) is Err && text::ends_with(
            choice(kind, release, os, arch)->Err_0,
            release.tag_name,
        )),
{
    if let Some(name) = kind.asset_for(os, arch) {
        if forall|i: int|
            0 <= i < release.assets.len() ==> (#[trigger] release.assets[i]).name != name {
            lemma_asset_position(release.assets, name, release.assets.len() as int);
            text::lemma_occurs_between(
                "asset "@ + name + " nao encontrado em "@,
                release.tag_name,
                Seq::empty(),
            );
        }
    }
}

/// At most 64 MiB of yt-dlp and 128 MiB of FFmpeg are fetched, and there has to be room for twice as
/// much.
pub proof fn lemma_room_asked(install: InstallView)
    requires
        install.stage == Stage::Probe,
        choice(install.kind, install.release, install.os, install.arch) is Ok,
    ensures
        ToolKind::YtDlp.size_limit() == 64 * 1024 * 1024,
        ToolKind::Ffmpeg.size_limit() == 128 * 1024 * 1024,
        install.next(ReplyView::Failed(Seq::empty())).1 == (AskView::CheckSpace {
            path: install.tools_dir,
            bytes: (2 * install.kind.size_limit()) as u64,
        }),
{
}

/// The files of an installation lie side by side and are told apart by what follows the name of the
/// program.
pub proof fn lemma_files_beside(install: InstallView)
    ensures
        install.target() == paths::joined(install.tools_dir, install.kind.binary()),
        install.temporary() == paths::joined(install.tools_dir, install.kind.binary() + ".new"@),
        install.previous() == paths::joined(
            install.tools_dir,
            install.kind.binary() + ".previous"@,
        ),
{
}

/// What is done at each stage, where nothing went wrong before: the new program is fetched beside the
/// old one, made executable and tried there; the old one is put aside, the new one moved into its
/// place and tried again; and its release is noted.
pub proof fn lemma_steps(install: InstallView, release: ReleaseView)
    ensures
        ({
            let done = |stage: Stage| install.at(stage).next(ReplyView::Done).1;
            let (there, missing) = (ReplyView::Yes, ReplyView::No);
            &&& install.at(Stage::Query).next(ReplyView::Found(release)).1 == (AskView::Try {
                path: install.target(),
            })
            &&& install.at(Stage::Query).next(ReplyView::Found(release)).0.release == release
            &&& done(Stage::Probe) == (AskView::Read { path: install.beside(".release"@) })
            &&& done(Stage::Fetch) == (AskView::MakeExecutable { path: install.temporary() })
            &&& done(Stage::Permit) == (AskView::Try { path: install.temporary() })
            &&& done(Stage::Trial) == (AskView::Exists { path: install.previous() })
            &&& install.at(Stage::FindPrevious).next(there).1 == (AskView::Remove {
                path: install.previous(),
            })
            &&& install.at(Stage::FindPrevious).next(missing).1 == (AskView::Exists {
                path: install.target(),
            })
            &&& done(Stage::DropPrevious) == (AskView::Exists { path: install.target() })
            &&& install.at(Stage::FindTarget).next(there).1 == (AskView::Rename {
                from: install.target(),
                to: install.previous(),
            })
            &&& install.at(Stage::FindTarget).next(missing).1 == (AskView::Rename {
                from: install.temporary(),
                to: install.target(),
            })
            &&& done(Stage::Stash) == (AskView::Rename {
                from: install.temporary(),
                to: install.target(),
            })
            &&& done(Stage::Activate) == (AskView::Try { path: install.target() })
            &&& done(Stage::Verify) == (AskView::Note {
                path: install.beside(".release"@),
                tag: install.release.tag_name,
            })
            &&& done(Stage::Mark) == (AskView::Succeed { path: install.target() })
        }),
{
}

/// A fault before the program in place is touched gives up and tells its cause; a new program that
/// cannot be put in place, or fails there, is taken away again, the old one is put back, and the cause
/// is told at the end.
pub proof fn lemma_faults_told(install: InstallView, cause: Seq<char>)
    ensures
        ({
            let fault = ReplyView::Failed(cause);
            let failed = |stage: Stage| install.at(stage).next(fault).1;
            &&& failed(Stage::Directories) == (AskView::GiveUp { message: cause })
            &&& failed(Stage::Query) == (AskView::GiveUp { message: cause })
            &&& failed(Stage::Space) == (AskView::GiveUp { message: cause })
            &&& failed(Stage::Fetch) == (AskView::GiveUp { message: cause })
            &&& failed(Stage::Permit) == (AskView::GiveUp { message: cause })
            &&& failed(Stage::Mark) == (AskView::GiveUp { message: cause })
            &&& failed(Stage::Trial) is GiveUp
            &&& text::ends_with(failed(Stage::Trial)->GiveUp_message, cause)
            &&& failed(Stage::DropPrevious) is GiveUp
            &&& text::ends_with(failed(Stage::DropPrevious)->GiveUp_message, cause)
            &&& failed(Stage::Stash) is GiveUp
            &&& text::ends_with(failed(Stage::Stash)->GiveUp_message, cause)
            &&& failed(Stage::Activate) == (AskView::Exists { path: install.previous() })
            &&& text::ends_with(install.at(Stage::Activate).next(fault).0.failure, cause)
            &&& failed(Stage::Verify) == (AskView::Remove { path: install.target() })
            &&& text::ends_with(install.at(Stage::Verify).next(fault).0.failure, cause)
            &&& install.at(Stage::FindBackup).next(ReplyView::Yes).1 == (AskView::Rename {
                from: install.previous(),
                to: install.target(),
            })
            &&& install.at(Stage::FindBackup).next(ReplyView::No).1 == (AskView::GiveUp {
                message: install.failure,
            })
            &&& install.at(Stage::Restore).next(ReplyView::Done).1 == (AskView::GiveUp {
                message: install.failure,
            })
        }),
{
    text::lemma_caused_holds_both("o binario baixado falhou no smoke test"@, cause);
    text::lemma_caused_holds_both("falha ao remover "@ + install.previous(), cause);
    text::lemma_caused_holds_both("falha ao guardar versao anterior"@, cause);
    text::lemma_caused_holds_both("falha ao ativar nova ferramenta"@, cause);
    text::lemma_caused_holds_both("nova ferramenta falhou; rollback aplicado"@, cause);
    assert(install.at(Stage::DropPrevious).previous() == install.previous());
}

/// A release other than the one that is noted is fetched, from the project of the program.
pub proof fn lemma_other_release_fetched(install: InstallView, tag: Seq<char>)
    requires
        text::trimmed(tag) != install.release.tag_name,
        choice(install.kind, install.release, install.os, install.arch) is Ok,
    ensures
        install.at(Stage::Marker).next(ReplyView::Text(tag)).1 is CheckSpace,
        install.at(Stage::Marker).next(ReplyView::Failed(tag)).1 is CheckSpace,
        install.at(Stage::Space).next(ReplyView::Done).1 == (AskView::Download {
            chosen: choice(install.kind, install.release, install.os, install.arch)->Ok_0,
            destination: install.temporary(),
            limit: install.kind.size_limit(),
        }),
        ({
            let query = install.at(Stage::Directories).next(ReplyView::Done).1;
            &&& query is FetchRelease
            &&& text::ends_with(query->url, "/releases/latest"@)
            &&& install.kind == ToolKind::YtDlp ==> text::occurs_in(query->url, "yt-dlp/yt-dlp"@)
            &&& install.kind == ToolKind::Ffmpeg ==> text::occurs_in(
                query->url,
                "eugeneware/ffmpeg-static"@,
            )
        }),
{
    let (before, after) = ("https://api.github.com/repos/"@, "/releases/latest"@);
    text::lemma_occurs_between(before, "yt-dlp/yt-dlp"@, after);
    text::lemma_occurs_between(before, "eugeneware/ffmpeg-static"@, after);
    text::lemma_occurs_between(before + "yt-dlp/yt-dlp"@, after, Seq::empty());
    text::lemma_occurs_between(before + "eugeneware/ffmpeg-static"@, after, Seq::empty());
}

} // verus!
