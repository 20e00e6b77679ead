//! The configuration, the catalogue and what the commands print.

use ezmusic::config::project_names;
use ezmusic::config::AppConfig;
use ezmusic::config::AppPaths;
use ezmusic::db::import::FoundPath;
use ezmusic::db::AlbumRow;
use ezmusic::db::JobRow;
use ezmusic::db::LibraryDb;
use ezmusic::db::PlaylistRow;
use ezmusic::like::holding_pattern;
use ezmusic::like::is_like;
use ezmusic::like::matches_pattern;
use ezmusic::model::AlbumDraft;
use ezmusic::model::Track;
use ezmusic::model::TrackDraft;
use ezmusic::paths;
use ezmusic::report;
use ezmusic::report::AudioCheck;
use ezmusic::report::Measurement;
use ezmusic::storage::ensure_free_space;
use ezmusic::text::trim;
use ezmusic::tools::ToolKind;
use ezmusic::tools::ToolStatus;

fn draft(path: &str, title: &str, artist: &str) -> TrackDraft {
    TrackDraft {
        provider: None,
        source_id: None,
        title: title.into(),
        artist: artist.into(),
        album: None,
        path: path.into(),
        duration_seconds: None,
        imported: true,
    }
}

fn files(paths: &[&str]) -> Vec<FoundPath> {
    paths.iter().map(|path| FoundPath::of(path)).collect()
}

fn test_paths() -> AppPaths {
    AppPaths::under("/c".into(), "/d".into(), "/k".into())
}

#[test]
fn defaults_to_one_download_worker() {
    assert_eq!(AppConfig::with_audio_dir(None).max_parallel_downloads, 1);
}

#[test]
fn rejects_unsafe_worker_counts() {
    let config = AppConfig {
        max_parallel_downloads: 0,
        ..AppConfig::with_audio_dir(None)
    };
    assert!(config.validate().is_err());
    let config = AppConfig {
        max_parallel_downloads: 5,
        ..AppConfig::with_audio_dir(None)
    };
    assert!(config.validate().is_err());
}

#[test]
fn rejects_unsafe_bitrates() {
    for (bitrate, accepted) in [(63, false), (64, true), (160, true), (320, true), (321, false)] {
        let config = AppConfig {
            opus_bitrate_kbps: bitrate,
            ..AppConfig::with_audio_dir(None)
        };
        assert_eq!(config.validate().is_ok(), accepted);
    }
    let config = AppConfig {
        opus_bitrate_kbps: 1,
        ..AppConfig::with_audio_dir(None)
    };
    assert_eq!(
        config.validate().unwrap_err(),
        "opus_bitrate_kbps deve estar entre 64 e 320"
    );
}

#[test]
fn the_library_lies_in_the_music_folder() {
    let config = AppConfig::with_audio_dir(Some("/home/a/Music".into()));
    assert_eq!(config.library_path, "/home/a/Music/EzMusic");
    assert_eq!(config.opus_bitrate_kbps, 160);
    assert!(!config.accepted_download_notice);
    assert_eq!(
        AppConfig::with_audio_dir(None).library_path,
        "Music/EzMusic"
    );
}

#[test]
fn a_new_configuration_is_written_beside_the_old_one() {
    assert_eq!(test_paths().staging_file(), "/c/config.toml.new");
    for (path, staged) in [
        ("/c/x.conf", "/c/x.toml.new"),
        ("/c/x.conf/./", "/c/x.toml.new"),
        ("/c.d/plain", "/c.d/plain.toml.new"),
        ("/c/.hidden", "/c/.hidden.toml.new"),
        ("/c/..", "/c/.."),
        ("/", "/"),
    ] {
        let paths = AppPaths {
            config_file: path.into(),
            ..test_paths()
        };
        assert_eq!(paths.staging_file(), staged);
        assert_eq!(
            std::path::Path::new(path).with_extension("toml.new"),
            std::path::PathBuf::from(staged)
        );
    }
}

#[test]
fn an_import_root_is_remembered_once() {
    let mut config = AppConfig::with_audio_dir(None);
    assert!(config.add_import_root("/music"));
    assert!(!config.add_import_root("/music"));
    assert_eq!(config.import_roots, vec!["/music".to_string()]);
}

#[test]
fn discovered_paths_hang_together() {
    match AppPaths::discover() {
        Ok(paths) => {
            assert!(paths.config_file.starts_with(&paths.config_dir));
            assert!(paths.config_file.ends_with("config.toml"));
            assert!(paths.database_file.starts_with(&paths.data_dir));
            assert!(paths.tools_dir.starts_with(&paths.data_dir));
            assert!(paths.config_dir.to_lowercase().contains("ezmusic"));
        }
        Err(message) => assert!(!message.is_empty()),
    }
}

#[test]
fn upserts_and_filters_tracks() {
    let mut db = LibraryDb::in_memory();
    let draft = TrackDraft {
        provider: Some("youtube".into()),
        source_id: Some("abc".into()),
        title: "Oceano".into(),
        artist: "Djavan".into(),
        album: None,
        path: "/tmp/abc.opus".into(),
        duration_seconds: Some(240),
        imported: false,
    };
    let first = db.upsert_track(&draft).unwrap();
    let second = db.upsert_track(&draft).unwrap();
    assert_eq!(first, second);
    assert_eq!(db.tracks(Some("dja"), 10, 0).unwrap().len(), 1);
}

#[test]
fn refuses_a_source_at_a_second_path() {
    let mut db = LibraryDb::in_memory();
    let mut one = draft("/tmp/a.opus", "A", "X");
    one.provider = Some("youtube".into());
    one.source_id = Some("abc".into());
    let mut two = one.clone();
    two.path = "/tmp/b.opus".into();
    db.upsert_track(&one).unwrap();
    assert_eq!(
        db.upsert_track(&two).unwrap_err(),
        "UNIQUE constraint failed: tracks.provider, tracks.source_id: Error code 2067: A UNIQUE constraint failed"
    );
    assert_eq!(db.count_tracks(), 1);
}

#[test]
fn imports_only_supported_files_and_marks_missing() {
    let mut db = LibraryDb::in_memory();
    let found = files(&["/tmp/lib/song.opus", "/tmp/lib/notes.txt"]);
    assert_eq!(db.scan_import_root(&FoundPath::of("/tmp/lib"), &found).unwrap(), 1);
    assert_eq!(db.count_tracks(), 1);
    db.scan_import_root(&FoundPath::of("/tmp/lib"), &files(&["/tmp/lib/notes.txt"]))
        .unwrap();
    assert!(!db.tracks(None, 10, 0).unwrap()[0].available);
}

#[test]
fn every_kind_of_audio_file_is_imported() {
    let mut db = LibraryDb::in_memory();
    let found = files(&[
        "/m/a.opus", "/m/a.ogg", "/m/a.oga", "/m/a.mp3", "/m/a.FLAC", "/m/a.aac", "/m/a.m4a",
        "/m/a.wav", "/m/a.webm", "/m/a.mp4", "/m/opus",
    ]);
    assert_eq!(db.scan_import_root(&FoundPath::of("/m"), &found).unwrap(), 9);
}

#[test]
fn persists_playlist_order() {
    let mut db = LibraryDb::in_memory();
    let id = db
        .upsert_track(&draft("/tmp/one.flac", "One", "Artist"))
        .unwrap();
    let playlist = db.create_playlist("Foco").unwrap();
    db.add_to_playlist(playlist, id).unwrap();
    assert_eq!(db.playlist_tracks(playlist)[0].title, "One");
}

#[test]
fn rescanning_one_root_does_not_hide_similar_sibling() {
    let mut db = LibraryDb::in_memory();
    db.scan_import_root(&FoundPath::of("/tmp/music"), &files(&["/tmp/music/one.opus"]))
        .unwrap();
    db.scan_import_root(&FoundPath::of("/tmp/music-other"), &files(&["/tmp/music-other/two.opus"]))
        .unwrap();
    db.scan_import_root(&FoundPath::of("/tmp/music"), &files(&[])).unwrap();
    let tracks = db.tracks(None, 10, 0).unwrap();
    assert!(
        !tracks
            .iter()
            .find(|track| track.title == "one")
            .unwrap()
            .available
    );
    assert!(
        tracks
            .iter()
            .find(|track| track.title == "two")
            .unwrap()
            .available
    );
}

#[test]
fn a_file_that_comes_back_is_available_again() {
    let mut db = LibraryDb::in_memory();
    let found = files(&["/m/one.opus"]);
    db.scan_import_root(&FoundPath::of("/m"), &found).unwrap();
    db.scan_import_root(&FoundPath::of("/m"), &files(&[])).unwrap();
    db.scan_import_root(&FoundPath::of("/m"), &found).unwrap();
    assert!(db.tracks(None, 10, 0).unwrap()[0].available);
    assert_eq!(db.count_tracks(), 1);
    assert_eq!(db.import_roots(), vec!["/m".to_string()]);
}

#[test]
fn rejects_empty_playlist_names() {
    let mut db = LibraryDb::in_memory();
    assert!(db.create_playlist("   ").is_err());
}

#[test]
fn rejects_long_playlist_names() {
    let mut db = LibraryDb::in_memory();
    let name = "x".repeat(129);
    assert_eq!(
        db.create_playlist(&name).unwrap_err(),
        "nome da playlist excede 128 caracteres"
    );
    assert!(db.create_playlist(&name[1..]).is_ok());
}

#[test]
fn a_playlist_is_made_once_and_may_hold_a_track_twice() {
    let mut db = LibraryDb::in_memory();
    let id = db.upsert_track(&draft("/a.opus", "A", "X")).unwrap();
    let playlist = db.create_playlist("Mix").unwrap();
    assert_eq!(db.create_playlist(" Mix ").unwrap(), playlist);
    db.add_to_playlist(playlist, id).unwrap();
    db.add_to_playlist(playlist, id).unwrap();
    assert_eq!(db.playlist_tracks(playlist).len(), 2);
    assert!(db.remove_from_playlist(playlist, 1));
    assert!(!db.remove_from_playlist(playlist, 1));
    assert_eq!(db.playlist_tracks(playlist).len(), 1);
    assert_eq!(
        db.add_to_playlist(playlist, 99).unwrap_err(),
        "FOREIGN KEY constraint failed: Error code 787: Foreign key constraint failed"
    );
}

#[test]
fn playlists_come_by_name() {
    let mut db = LibraryDb::in_memory();
    for name in ["beta", "Alpha", "gamma"] {
        db.create_playlist(name).unwrap();
    }
    let names: Vec<String> = db.playlists().into_iter().map(|line| line.1).collect();
    assert_eq!(names, ["Alpha", "beta", "gamma"]);
}

#[test]
fn tracks_come_by_artist_and_title_in_pages() {
    let mut db = LibraryDb::in_memory();
    db.upsert_track(&draft("/1.opus", "b", "Zed")).unwrap();
    db.upsert_track(&draft("/2.opus", "B", "abba")).unwrap();
    db.upsert_track(&draft("/3.opus", "a", "ABBA")).unwrap();
    let names: Vec<String> = db
        .tracks(None, 10, 0).unwrap()
        .into_iter()
        .map(|track| track.path)
        .collect();
    assert_eq!(names, ["/3.opus", "/2.opus", "/1.opus"]);
    assert_eq!(db.tracks(None, 1, 1).unwrap()[0].path, "/2.opus");
    assert_eq!(db.tracks(None, 10, 3).unwrap().len(), 0);
}

#[test]
fn an_album_is_stored_whole_or_not_at_all() {
    let mut db = LibraryDb::in_memory();
    let album = AlbumDraft {
        provider: "youtube".into(),
        source_id: "rec".into(),
        title: "Record".into(),
        artist: "Artist".into(),
    };
    let mut one = draft("/1.opus", "One", "A");
    one.provider = Some("youtube".into());
    one.source_id = Some("s".into());
    let mut clash = one.clone();
    clash.path = "/2.opus".into();
    assert!(db.upsert_album(&album, &vec![one.clone(), clash]).is_err());
    assert_eq!(db.count_tracks(), 0);
    let two = draft("/2.opus", "Two", "A");
    let id = db.upsert_album(&album, &vec![one, two]).unwrap();
    let names: Vec<String> = db
        .album_tracks(id)
        .into_iter()
        .map(|track| track.title)
        .collect();
    assert_eq!(names, ["One", "Two"]);
    assert_eq!(db.standalone_tracks(None, 10, 0).len(), 0);
    assert_eq!(db.albums(Some("two"), 10).len(), 1);
    assert_eq!(db.albums(Some("nothing"), 10).len(), 0);
}

#[test]
fn the_queue_keeps_its_order() {
    let mut db = LibraryDb::in_memory();
    db.upsert_track(&draft("/1.opus", "One", "A")).unwrap();
    db.upsert_track(&draft("/2.opus", "Two", "A")).unwrap();
    let mut tracks = db.tracks(None, 10, 0).unwrap();
    tracks.reverse();
    db.save_queue(&tracks).unwrap();
    assert_eq!(db.load_queue(), tracks);
    tracks[0].id = 77;
    assert!(db.save_queue(&tracks).is_err());
    assert_eq!(db.load_queue()[0].title, "Two");
}

#[test]
fn a_stored_catalogue_comes_back_as_it_was() {
    let mut db = LibraryDb::in_memory();
    let id = db.upsert_track(&draft("/1.opus", "One", "A")).unwrap();
    db.create_playlist("Mix").unwrap();
    db.record_job("j", "T", "queued", None);
    db.record_job("j", "other", "erro", Some("rede"));
    let tracks = db.tracks(None, 10, 0).unwrap();
    let restored = LibraryDb::restore(
        tracks.clone(),
        Vec::new(),
        Vec::new(),
        vec![id],
        Vec::new(),
        Vec::new(),
    )
    .unwrap();
    assert_eq!(restored.track(id).unwrap().title, "One");
    assert_eq!(restored.load_queue().len(), 1);
    assert_eq!(db.job_rows()[0].title, "T");
    assert_eq!(db.job_rows()[0].state, "erro");
    assert!(LibraryDb::restore(
        tracks,
        Vec::new(),
        Vec::new(),
        vec![id + 1],
        Vec::new(),
        Vec::new()
    )
    .is_none());
}

#[test]
fn filters_take_wildcards_literally_only_where_the_pattern_does() {
    let pattern = holding_pattern("b_d");
    let chars = |s: &str| s.chars().collect::<Vec<char>>();
    assert!(matches_pattern(&pattern, &chars("abXde")));
    assert!(matches_pattern(&pattern, &chars("aBcD")));
    assert!(!matches_pattern(&pattern, &chars("abd")));
}

#[test]
fn paths_are_taken_apart() {
    assert_eq!(paths::join("/a", "b"), "/a/b");
    assert_eq!(paths::extension_of("/a/b.tar.GZ").as_deref(), Some("GZ"));
    assert_eq!(paths::extension_of("/a/.hidden"), None);
    assert_eq!(paths::stem_of("/a/b.tar.gz").as_deref(), Some("b.tar"));
    assert!(paths::lies_within("/a", "/a/b/c"));
    assert!(!paths::lies_within("/a", "/ab/c"));
}

#[test]
fn current_directory_has_at_least_one_byte() {
    ensure_free_space(".", 1, 1, 1).unwrap();
}

#[test]
fn too_little_space_is_told_in_mebibytes() {
    assert_eq!(
        ensure_free_space("/x", 3, 524288, 2147483648).unwrap_err(),
        "espaco insuficiente em /x: 1.5 MiB livres, 2048.0 MiB necessarios"
    );
    assert!(ensure_free_space("/x", u64::MAX, 4096, 1).is_ok());
}

#[test]
fn doctor_names_paths_and_limits() {
    let config = AppConfig::with_audio_dir(Some("/music".into()));
    assert_eq!(
        report::doctor_lines(&test_paths(), &config, 3),
        [
            "EzMusic doctor",
            "  config: /c/config.toml",
            "  banco: /d/library.sqlite3 (3 faixas)",
            "  biblioteca: /music/EzMusic",
            "  limites: 1 download(s), 1 conversao, Opus 160 kbps"
        ]
    );
}

#[test]
fn doctor_tells_of_audio_devices() {
    assert_eq!(
        report::audio_lines(&AudioCheck::Devices(vec!["a".into(), "b".into()])),
        ["  audio: 2 dispositivo(s)", "    - a", "    - b"]
    );
    assert_eq!(
        report::audio_lines(&AudioCheck::Devices(Vec::new())),
        ["  audio: nenhum dispositivo"]
    );
    assert_eq!(
        report::audio_lines(&AudioCheck::Failed("x".into())),
        ["  audio: indisponivel (x)"]
    );
    assert_eq!(
        report::audio_lines(&AudioCheck::TimedOut),
        ["  audio: verificacao excedeu 2s (servidor de audio indisponivel)"]
    );
    assert_eq!(
        report::audio_lines(&AudioCheck::Interrupted),
        ["  audio: verificacao interrompida"]
    );
}

#[test]
fn doctor_tells_of_helper_programs() {
    let mut status = ToolStatus {
        kind: ToolKind::YtDlp,
        path: "/t/yt-dlp".into(),
        installed: true,
        version: Some("2026.07.04".into()),
        problem: None,
    };
    assert_eq!(
        report::tool_line(&status),
        "  yt-dlp: 2026.07.04 (/t/yt-dlp)"
    );
    assert_eq!(report::updated_line(&status), "/t/yt-dlp: 2026.07.04");
    status.installed = false;
    status.version = None;
    status.problem = Some("quebrado".into());
    assert_eq!(
        report::tool_line(&status),
        "  yt-dlp: indisponivel; quebrado (sera baixado no primeiro uso)"
    );
    assert_eq!(
        report::status_line(&status),
        "/t/yt-dlp: indisponivel (quebrado)"
    );
    assert_eq!(
        report::import_line(2, "/m"),
        "2 arquivo(s) indexado(s) em /m"
    );
}

#[test]
fn measurements_keep_to_their_bounds() {
    assert_eq!(
        report::check_measurement(0, 0).unwrap_err(),
        "measure_seconds deve ser maior que zero"
    );
    assert_eq!(
        report::check_measurement(301, 1).unwrap_err(),
        "warmup_seconds nao pode exceder 300"
    );
    assert_eq!(
        report::check_measurement(300, 3601).unwrap_err(),
        "measure_seconds nao pode exceder 3600"
    );
    assert!(report::check_measurement(300, 3600).is_ok());
}

#[test]
fn a_measurement_passes_at_its_limits() {
    let mut measured = Measurement {
        peak_kib: 0,
        cpu_micros: 100,
        elapsed_micros: 10000,
        underflows: 0,
    };
    measured.sample(Some(51200));
    measured.sample(None);
    measured.sample(Some(10));
    assert!(measured.passed());
    assert_eq!(measured.verdict(), "  meta: PASS");
    measured.cpu_micros = 101;
    assert_eq!(measured.verdict(), "  meta: FAIL");
}

#[test]
fn resident_memory_is_read_from_the_kernel() {
    let status = "Name:\tx\nVmRSS:\t  1234 kB\nVmSwap: 9 kB\n";
    assert_eq!(report::resident_kib(status), Some(1234));
    assert_eq!(report::resident_kib("VmRSS: many\nVmRSS: 5"), Some(5));
    assert_eq!(report::resident_kib("Name: x"), None);
}

#[test]
fn a_file_that_is_found_twice_is_imported_once() {
    let mut db = LibraryDb::in_memory();
    let found = files(&["/m/a.mp3", "/m/a.mp3", "/m/notes.txt", "/m/b.mp3.part", "/m/b.OGG"]);
    assert_eq!(db.scan_import_root(&FoundPath::of("/m"), &found).unwrap(), 2);
    assert_eq!(db.count_tracks(), 2);
}

#[test]
fn importing_again_changes_nothing() {
    let mut db = LibraryDb::in_memory();
    let found = files(&["/m/a.mp3", "/m/b.flac"]);
    assert_eq!(db.scan_import_root(&FoundPath::of("/m"), &found).unwrap(), 2);
    let before = db.tracks(None, 10, 0).unwrap();
    assert_eq!(db.scan_import_root(&FoundPath::of("/m"), &found).unwrap(), 2);
    assert_eq!(db.tracks(None, 10, 0).unwrap(), before);
    assert_eq!(db.import_roots(), vec!["/m".to_string()]);
}

#[test]
fn an_album_leads_to_its_tracks_in_order() {
    let mut db = LibraryDb::in_memory();
    let album = AlbumDraft {
        provider: "youtube".into(),
        source_id: "record".into(),
        title: "Record".into(),
        artist: "Artist".into(),
    };
    let drafts = vec![
        draft("/m/2.opus", "Zeta", "Artist"),
        draft("/m/1.opus", "Alpha", "Artist"),
    ];
    let id = db.upsert_album(&album, &drafts).unwrap();
    let titles: Vec<String> = db
        .album_tracks(id)
        .into_iter()
        .map(|track| track.title)
        .collect();
    assert_eq!(titles, ["Zeta", "Alpha"]);
    assert_eq!(db.upsert_album(&album, &drafts).unwrap(), id);
    assert_eq!(db.album_tracks(id).len(), 2);
}

fn stored(id: i64, path: &str, source_id: Option<&str>) -> Track {
    Track {
        id,
        provider: source_id.map(|_| "youtube".to_string()),
        source_id: source_id.map(str::to_string),
        title: "T".into(),
        artist: "A".into(),
        album: None,
        path: path.into(),
        duration_seconds: None,
        available: true,
        imported: false,
    }
}

fn restores(
    tracks: Vec<Track>,
    playlists: &[(i64, &str)],
    albums: &[(i64, &str)],
    roots: &[&str],
    jobs: &[&str],
) -> bool {
    LibraryDb::restore(
        tracks,
        playlists
            .iter()
            .map(|(id, name)| PlaylistRow {
                id: *id,
                name: (*name).into(),
                tracks: Vec::new(),
            })
            .collect(),
        albums
            .iter()
            .map(|(id, source_id)| AlbumRow {
                id: *id,
                provider: "youtube".into(),
                source_id: (*source_id).into(),
                title: "T".into(),
                artist: "A".into(),
                tracks: Vec::new(),
            })
            .collect(),
        Vec::new(),
        roots.iter().map(|root| (*root).to_string()).collect(),
        jobs.iter()
            .map(|job_id| JobRow {
                job_id: (*job_id).into(),
                title: "T".into(),
                state: "pronto".into(),
                error: None,
            })
            .collect(),
    )
    .is_some()
}

#[test]
fn what_has_to_differ_in_a_stored_catalogue_does() {
    let tracks = |second: &str, source: Option<&str>| {
        vec![stored(1, "/a", Some("x")), stored(2, second, source)]
    };
    assert!(restores(tracks("/b", Some("y")), &[], &[], &[], &[]));
    assert!(restores(
        vec![stored(1, "/a", None), stored(2, "/b", None)],
        &[(1, "a"), (2, "A")],
        &[(1, "p"), (2, "q")],
        &["/m", "/n"],
        &["1", "2"]
    ));
    assert!(!restores(tracks("/a", Some("y")), &[], &[], &[], &[]));
    assert!(!restores(tracks("/b", Some("x")), &[], &[], &[], &[]));
    assert!(!restores(Vec::new(), &[(1, "a"), (2, "a")], &[], &[], &[]));
    assert!(!restores(Vec::new(), &[], &[(1, "p"), (2, "p")], &[], &[]));
    assert!(!restores(Vec::new(), &[], &[], &["/m", "/m"], &[]));
    assert!(!restores(Vec::new(), &[], &[], &[], &["1", "1"]));
}

#[test]
fn one_playlist_bears_a_name() {
    let mut db = LibraryDb::in_memory();
    let other = db.create_playlist("Outra").unwrap();
    let id = db.create_playlist("  Foco ").unwrap();
    assert_ne!(id, other);
    assert_eq!(db.create_playlist("Foco").unwrap(), id);
    assert_eq!(db.create_playlist("Foco\t").unwrap(), id);
    assert_eq!(
        db.playlists(),
        vec![(id, "Foco".to_string(), 0), (other, "Outra".to_string(), 0)]
    );
    assert_eq!(
        db.create_playlist(" ").unwrap_err(),
        "nome da playlist nao pode ser vazio"
    );
    assert_eq!(
        db.create_playlist(&"x".repeat(129)).unwrap_err(),
        "nome da playlist excede 128 caracteres"
    );
    assert_eq!(db.playlists().len(), 2);
}

#[test]
fn a_duration_that_cannot_be_stored_is_refused() {
    let mut db = LibraryDb::in_memory();
    let mut long = draft("/a.opus", "A", "A");
    long.duration_seconds = Some(u64::MAX);
    assert_eq!(
        db.upsert_track(&long).unwrap_err(),
        "out of range integral type conversion attempted: out of range integral type conversion attempted"
    );
}

#[test]
fn a_filter_that_is_too_long_is_refused() {
    let mut db = LibraryDb::in_memory();
    let long = "x".repeat(49_999);
    assert_eq!(db.tracks(Some(&long), 10, 0).unwrap().len(), 0);
    db.upsert_track(&draft("/a.opus", "A", "A")).unwrap();
    assert_eq!(
        db.tracks(Some(&long), 10, 0).unwrap_err(),
        "LIKE or GLOB pattern too complex: Error code 1: SQL error or missing database"
    );
    assert_eq!(db.tracks(Some(&long), 0, 0).unwrap().len(), 0);
    assert_eq!(db.tracks(Some(&"x".repeat(49_998)), 10, 0).unwrap().len(), 0);
    assert_eq!(db.tracks(Some(&"\u{e9}".repeat(24_999)), 10, 0).unwrap().len(), 0);
    assert!(db.tracks(Some(&"\u{e9}".repeat(25_000)), 10, 0).is_err());
}

#[test]
fn a_text_is_sought_up_to_its_first_nul() {
    let chars = |s: &str| s.chars().collect::<Vec<char>>();
    assert!(is_like(&holding_pattern("b"), &chars("abc\0d")));
    assert!(!is_like(&holding_pattern("d"), &chars("abc\0d")));
    assert!(is_like(&holding_pattern("c\0x"), &chars("abc")));
    assert!(!is_like(&holding_pattern("b\0x"), &chars("abc")));
}

#[test]
fn behind_a_nul_only_the_length_orders() {
    let mut db = LibraryDb::in_memory();
    for (path, artist) in [
        ("/1", "ab\0zz"),
        ("/2", "AB\0y"),
        ("/3", "abc"),
        ("/4", "ab"),
        ("/5", "ab\0\u{e9}z"),
    ] {
        db.upsert_track(&draft(path, "T", artist)).unwrap();
    }
    let paths: Vec<String> = db
        .tracks(None, 10, 0)
        .unwrap()
        .into_iter()
        .map(|track| track.path)
        .collect();
    assert_eq!(paths, ["/4", "/2", "/1", "/5", "/3"]);
}

#[test]
fn a_path_that_is_not_unicode_has_no_file_to_play() {
    let mut db = LibraryDb::in_memory();
    let found = vec![
        FoundPath::of("/m/a.opus"),
        FoundPath {
            text: "/m/\u{fffd}.opus".into(),
            exact: false,
            named: false,
        },
        FoundPath {
            text: "/m/\u{fffd}.opus".into(),
            exact: false,
            named: false,
        },
        FoundPath {
            text: "/m/\u{fffd}/b.opus".into(),
            exact: false,
            named: true,
        },
    ];
    assert_eq!(db.scan_import_root(&FoundPath::of("/m"), &found).unwrap(), 4);
    assert_eq!(db.count_tracks(), 3);
    let shown = |db: &LibraryDb| {
        db.tracks(None, 10, 0)
            .unwrap()
            .into_iter()
            .map(|track| (track.title, track.available))
            .collect::<Vec<_>>()
    };
    let expected = vec![
        ("a".to_string(), true),
        ("b".to_string(), false),
        ("Faixa sem titulo".to_string(), false),
    ];
    assert_eq!(shown(&db), expected);
    db.scan_import_root(&FoundPath::of("/m"), &found).unwrap();
    assert_eq!(shown(&db), expected);

    let root = FoundPath {
        text: "/\u{fffd}".into(),
        exact: false,
        named: false,
    };
    let below = vec![FoundPath {
        text: "/\u{fffd}/c.opus".into(),
        exact: false,
        named: true,
    }];
    db.scan_import_root(&root, &below).unwrap();
    db.scan_import_root(&root, &Vec::new()).unwrap();
    let c = db.tracks(Some("c"), 10, 0).unwrap();
    assert!(c.iter().any(|track| track.title == "c" && track.available));
    assert_eq!(db.import_roots(), vec!["/m".to_string(), "/\u{fffd}".to_string()]);
}

#[test]
fn a_file_can_look_like_one_that_is_not_unicode() {
    let mut db = LibraryDb::in_memory();
    let lookalike = FoundPath {
        text: "/m/\u{fffd}.opus".into(),
        exact: false,
        named: false,
    };
    let found = vec![lookalike, FoundPath::of("/m/\u{fffd}.opus")];
    assert_eq!(db.scan_import_root(&FoundPath::of("/m"), &found).unwrap(), 2);
    let tracks = db.tracks(None, 10, 0).unwrap();
    assert_eq!(tracks.len(), 1);
    assert_eq!(tracks[0].title, "\u{fffd}");
    assert!(tracks[0].available);
}

#[test]
fn the_directories_that_were_found_are_used_in_their_places() {
    assert_eq!(project_names(), ("dev", "ezmusic", "ezmusic"));
    let places = AppPaths::placed(Some(("/c".into(), "/d".into(), "/k".into()))).unwrap();
    assert_eq!(places, AppPaths::under("/c".into(), "/d".into(), "/k".into()));
    assert_eq!(places.config_file, "/c/config.toml");
    assert_eq!(places.database_file, "/d/library.sqlite3");
    assert_eq!(places.tools_dir, "/d/tools");
    assert_eq!(places.cache_dir, "/k");
    assert_eq!(
        AppPaths::placed(None).unwrap_err(),
        "nao foi possivel descobrir os diretorios do usuario"
    );
}

#[test]
fn whitespace_is_what_unicode_calls_so() {
    let spaces: Vec<u32> = ('\0'..=char::MAX)
        .filter(|c| trim(&c.to_string()).is_empty())
        .map(u32::from)
        .collect();
    let mut expected: Vec<u32> = (9..=13).collect();
    expected.extend([0x20, 0x85, 0xa0, 0x1680]);
    expected.extend(0x2000..=0x200a);
    expected.extend([0x2028, 0x2029, 0x202f, 0x205f, 0x3000]);
    assert_eq!(spaces, expected);
}
