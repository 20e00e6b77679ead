//! Where the application keeps its files, and what its user can set.

use vstd::prelude::*;

use crate::paths;
use crate::text;

verus! {

/// The places of the application's files.
#[derive(PartialEq, Eq, Debug)]
pub struct AppPaths {
    pub config_dir: String,
    pub data_dir: String,
    pub cache_dir: String,
    pub config_file: String,
    pub database_file: String,
    pub tools_dir: String,
}

/// `directories::ProjectDirs::from`, as the configuration, data and cache directories of the
/// application. What they are depends on the user and the machine too, so nothing is said of them;
/// a directory whose name is not Unicode counts as not found.
#[verifier::external_body]
fn project_dirs(qualifier: &str, organization: &str, application: &str) -> (result: Option<
    (String, String, String),
>)
{
    let project = directories::ProjectDirs::from(qualifier, organization, application)?;
    let config = project.config_dir().to_str()?.to_string();
    let data = project.data_dir().to_str()?.to_string();
    let cache = project.cache_dir().to_str()?.to_string();
    Some((config, data, cache))
}

/// What the system knows the application by: qualifier, organization and application.
pub fn project_names() -> (result: (&'static str, &'static str, &'static str))
    ensures
        result.0@ == "dev"@,
        result.1@ == "ezmusic"@,
        result.2@ == "ezmusic"@,
{
    ("dev", "ezmusic", "ezmusic")
}

impl AppPaths {
    /// Whether the files lie where the directories put them.
    pub open spec fn coherent(self) -> bool {
        &&& self.config_file@ == paths::joined(self.config_dir@, "config.toml"@)
        &&& self.database_file@ == paths::joined(self.data_dir@, "library.sqlite3"@)
        &&& self.tools_dir@ == paths::joined(self.data_dir@, "tools"@)
    }

    /// The places under the given directories.
    pub fn under(config_dir: String, data_dir: String, cache_dir: String) -> (result: Self)
        ensures
            result.config_dir@ == config_dir@,
            result.data_dir@ == data_dir@,
            result.cache_dir@ == cache_dir@,
            result.coherent(),
    {
        AppPaths {
            config_file: paths::join(config_dir.as_str(), "config.toml"),
            database_file: paths::join(data_dir.as_str(), "library.sqlite3"),
            tools_dir: paths::join(data_dir.as_str(), "tools"),
            config_dir,
            data_dir,
            cache_dir,
        }
    }

    /// The places under the configuration, data and cache directories that were found, if any were.
    pub fn placed(found: Option<(String, String, String)>) -> (result: Result<Self, String>)
        ensures
            match (found, result) {
                (Some(dirs), Ok(places)) => places.config_dir@ == dirs.0@ && places.data_dir@
                    == dirs.1@ && places.cache_dir@ == dirs.2@ && places.coherent(),
                (None, Err(message)) => message@
                    == "nao foi possivel descobrir os diretorios do usuario"@,
                _ => false,
            },
    {
        match found {
            Some((config_dir, data_dir, cache_dir)) => Ok(
                AppPaths::under(config_dir, data_dir, cache_dir),
            ),
            None => Err("nao foi possivel descobrir os diretorios do usuario".to_owned()),
        }
    }

    /// The places under the directories that the system gives to this user's applications:
    /// [`AppPaths::placed`] of what it answers to [`project_names`].
    pub fn discover() -> (result: Result<Self, String>)
        ensures
            match result {
                Ok(found) => found.coherent(),
                Err(message) => message@ == "nao foi possivel descobrir os diretorios do usuario"@,
            },
    {
        let (qualifier, organization, application) = project_names();
        AppPaths::placed(project_dirs(qualifier, organization, application))
    }

    /// The directories that have to exist, in the order in which they are made.
    pub fn ensure(&self) -> (result: Vec<String>)
        ensures
            text::views(result@) == seq![
                self.config_dir@,
                self.data_dir@,
                self.cache_dir@,
                self.tools_dir@,
            ],
    {
        let mut wanted: Vec<String> = Vec::new();
        wanted.push(self.config_dir.clone());
        wanted.push(self.data_dir.clone());
        wanted.push(self.cache_dir.clone());
        wanted.push(self.tools_dir.clone());
        assert(text::views(wanted@) =~= seq![
            self.config_dir@,
            self.data_dir@,
            self.cache_dir@,
            self.tools_dir@,
        ]);
        wanted
    }

    /// Where a new configuration is written before it takes the place of the old one.
    pub fn staging_file(&self) -> (result: String)
        ensures
            result@ == paths::with_ending(self.config_file@, "toml.new"@),
    {
        paths::with_extension(self.config_file.as_str(), "toml.new")
    }
}

impl Clone for AppPaths {
    fn clone(&self) -> (result: Self)
        ensures
            result == *self,
    {
        AppPaths {
            config_dir: self.config_dir.clone(),
            data_dir: self.data_dir.clone(),
            cache_dir: self.cache_dir.clone(),
            config_file: self.config_file.clone(),
            database_file: self.database_file.clone(),
            tools_dir: self.tools_dir.clone(),
        }
    }
}

/// What the user can set.
#[derive(PartialEq, Eq, Debug)]
pub struct AppConfig {
    pub version: u32,
    pub library_path: String,
    pub import_roots: Vec<String>,
    pub audio_device: Option<String>,
    pub max_parallel_downloads: usize,
    pub opus_bitrate_kbps: u16,
    pub accepted_download_notice: bool,
}

/// Whether `config` holds the initial settings, with its library in `library_path`.
pub open spec fn initial_settings(config: AppConfig, library_path: Seq<char>) -> bool {
    &&& config.version == 1
    &&& config.library_path@ == library_path
    &&& config.import_roots@.len() == 0
    &&& config.audio_device is None
    &&& config.max_parallel_downloads == 1
    &&& config.opus_bitrate_kbps == 160
    &&& !config.accepted_download_notice
}

/// Where the library lies unless the user says otherwise.
pub open spec fn default_library(audio_dir: Option<Seq<char>>) -> Seq<char> {
    match audio_dir {
        Some(directory) => paths::joined(directory, "EzMusic"@),
        None => paths::joined("Music"@, "EzMusic"@),
    }
}

impl AppConfig {
    /// The initial settings of a user whose music lies in `audio_dir`.
    pub fn with_audio_dir(audio_dir: Option<String>) -> (result: Self)
        ensures
            initial_settings(result, default_library(text::shown(audio_dir))),
    {
        let library_path = match audio_dir {
            Some(directory) => paths::join(directory.as_str(), "EzMusic"),
            None => paths::join("Music", "EzMusic"),
        };
        AppConfig {
            version: 1,
            library_path,
            import_roots: Vec::new(),
            audio_device: None,
            max_parallel_downloads: 1,
            opus_bitrate_kbps: 160,
            accepted_download_notice: false,
        }
    }

    /// Whether the settings keep to the limits.
    pub open spec fn valid(self) -> bool {
        1 <= self.max_parallel_downloads <= 4 && 64 <= self.opus_bitrate_kbps <= 320
    }

    /// Refuses settings that break the limits.
    pub fn validate(&self) -> (result: Result<(), String>)
        ensures
            match result {
                Ok(()) => self.valid(),
                Err(message) => if !(1 <= self.max_parallel_downloads <= 4) {
                    message@ == "max_parallel_downloads deve estar entre 1 e 4"@
                } else {
                    !(64 <= self.opus_bitrate_kbps <= 320) && message@
                        == "opus_bitrate_kbps deve estar entre 64 e 320"@
                },
            },
    {
        if self.max_parallel_downloads == 0 || self.max_parallel_downloads > 4 {
            return Err("max_parallel_downloads deve estar entre 1 e 4".to_owned());
        }
        if self.opus_bitrate_kbps < 64 || self.opus_bitrate_kbps > 320 {
            return Err("opus_bitrate_kbps deve estar entre 64 e 320".to_owned());
        }
        Ok(())
    }

    /// Remembers a folder whose files are in the library; the result says whether it is new.
    pub fn add_import_root(&mut self, root: &str) -> (result: bool)
        ensures
            result == !text::views(old(self).import_roots@).contains(root@),
            text::views(final(self).import_roots@) == if result {
                text::views(old(self).import_roots@).push(root@)
            } else {
                text::views(old(self).import_roots@)
            },
            final(self).version == old(self).version,
            final(self).library_path == old(self).library_path,
            final(self).audio_device == old(self).audio_device,
            final(self).max_parallel_downloads == old(self).max_parallel_downloads,
            final(self).opus_bitrate_kbps == old(self).opus_bitrate_kbps,
            final(self).accepted_download_notice == old(self).accepted_download_notice,
    {
        if paths::lists(&self.import_roots, root) {
            return false;
        }
        self.import_roots.push(root.to_owned());
        assert(text::views(self.import_roots@) =~= text::views(old(self).import_roots@).push(root@));
        true
    }
}

/// The settings that one begins with keep to the limits: one to four downloads at a time and 64 to
/// 320 kbit/s, with the notice not accepted yet.
pub proof fn lemma_first_settings(config: AppConfig, library_path: Seq<char>)
    requires
        initial_settings(config, library_path),
    ensures
        config.valid(),
        config.library_path@ == library_path,
        !config.accepted_download_notice,
        config.audio_device is None,
        config.import_roots@.len() == 0,
{
}

/// Settings are refused exactly where there would be no download or more than four at a time, or a
/// bit rate below 64 or above 320 kbit/s.
pub proof fn lemma_limits(config: AppConfig)
    ensures
        config.valid() <==> config.max_parallel_downloads >= 1 && config.max_parallel_downloads <= 4
            && config.opus_bitrate_kbps >= 64 && config.opus_bitrate_kbps <= 320,
{
}

/// The library lies below the user's music, and where that is not known, below `Music`.
pub proof fn lemma_library_placed(audio_dir: Seq<char>)
    ensures
        default_library(Some(audio_dir)) == paths::joined(audio_dir, "EzMusic"@),
        text::ends_with(default_library(Some(audio_dir)), "EzMusic"@),
        default_library(None) == default_library(Some("Music"@)),
{
    reveal_strlit("EzMusic");
    text::lemma_occurs_between(audio_dir, "EzMusic"@, Seq::empty());
    text::lemma_occurs_between(audio_dir + "/"@, "EzMusic"@, Seq::empty());
    text::lemma_occurs_between(audio_dir.push('/'), "EzMusic"@, Seq::empty());
    text::lemma_occurs_between(Seq::empty(), "EzMusic"@, Seq::empty());
    assert(Seq::<char>::empty() + "EzMusic"@ =~= "EzMusic"@);
}

} // verus!
