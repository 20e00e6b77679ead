//! The helper programs: which are used, how they are fetched and how they are replaced.

use ezmusic::config::AppPaths;
use ezmusic::install::choose_asset;
use ezmusic::install::latest_release;
use ezmusic::install::Ask;
use ezmusic::install::Asset;
use ezmusic::install::Install;
use ezmusic::install::Release;
use ezmusic::install::Reply;
use ezmusic::process;
use ezmusic::process::Poll;
use ezmusic::process::Watch;
use ezmusic::tools::check_announced;
use ezmusic::tools::read_http_limited;
use ezmusic::tools::smoke_version;
use ezmusic::tools::supported_ytdlp_version;
use ezmusic::tools::Candidate;
use ezmusic::tools::Probe;
use ezmusic::tools::ToolKind;
use ezmusic::tools::ToolManager;
use ezmusic::tools::Transfer;
use ezmusic::tools::Trials;

fn manager() -> ToolManager {
    ToolManager::new(AppPaths::under("/c".into(), "/d".into(), "/k".into()))
}

fn candidate(path: &str, probe: Probe) -> Candidate {
    Candidate {
        path: path.into(),
        probe,
    }
}

fn release(name: &str, digest: Option<&str>, size: u64) -> Release {
    Release {
        tag_name: "2026.07.04".into(),
        assets: vec![Asset {
            name: name.into(),
            url: "https://example.org/file".into(),
            digest: digest.map(String::from),
            size,
        }],
    }
}

#[test]
fn selects_supported_assets() {
    for (os, arch) in [("linux", "x86_64"), ("macos", "aarch64")] {
        let result = ToolKind::YtDlp.asset_name(os, arch);
        assert!(result.is_ok());
        assert!(ToolKind::Ffmpeg.asset_name(os, arch).is_ok());
    }
    assert!(ToolKind::YtDlp.asset_name("windows", "x86_64").is_err());
}

#[test]
fn rejects_obsolete_ytdlp_versions() {
    assert!(!supported_ytdlp_version("2024.04.09"));
    assert!(supported_ytdlp_version("2026.07.04"));
    assert!(supported_ytdlp_version("stable@2026.07.04"));
    assert!(!supported_ytdlp_version("unknown"));
}

#[test]
fn limits_http_bodies() {
    let error = read_http_limited(b"12345".to_vec(), 4).unwrap_err();
    assert!(error.contains("excedeu"));
}

#[test]
fn keeps_http_bodies_that_fit() {
    assert_eq!(read_http_limited(b"1234".to_vec(), 4).unwrap(), b"1234");
}

#[test]
fn captured_output_is_refused_past_its_limit() {
    assert_eq!(process::read_budget(4), 5);
    let error = process::read_limited(b"12345".to_vec(), 4).unwrap_err();
    assert_eq!(error, "saida excedeu o limite de 4 bytes");
    assert_eq!(process::read_limited(b"1234".to_vec(), 4).unwrap(), b"1234");
}

#[test]
fn times_out_child_process_group() {
    assert_eq!(
        process::watch_captured(&Poll::Running, false, 10),
        Watch::Wait
    );
    match process::watch_captured(&Poll::Running, true, 10) {
        Watch::Abort(message) => assert!(message.contains("excedeu o limite")),
        other => panic!("{other:?}"),
    }
    assert_eq!(
        process::watch_captured(&Poll::Exited { success: false }, true, 10),
        Watch::Finish
    );
}

#[test]
fn a_fault_of_asking_keeps_its_cause() {
    let poll = Poll::Fault("No child processes".into());
    let complaint = "falha ao consultar subprocesso: No child processes";
    assert_eq!(
        process::watch_captured(&poll, false, 10),
        Watch::Abort(complaint.into())
    );
    assert_eq!(
        process::watch_cancellable(false, false, &poll, 10),
        Watch::Abort(complaint.into())
    );
}

#[test]
fn cancelling_wins_over_everything_else() {
    match process::watch_cancellable(true, true, &Poll::Exited { success: true }, 10) {
        Watch::Abort(message) => assert!(message == "operacao cancelada"),
        other => panic!("{other:?}"),
    }
    assert_eq!(
        process::watch_cancellable(false, false, &Poll::Exited { success: false }, 10),
        Watch::Fail
    );
    assert_eq!(
        process::watch_cancellable(false, false, &Poll::Exited { success: true }, 10),
        Watch::Finish
    );
}

#[test]
fn trial_runs_are_judged() {
    assert_eq!(
        smoke_version(ToolKind::YtDlp, "/y", true, "2026.07.04\n", &Ok(None)),
        Probe::Works("2026.07.04".into())
    );
    assert_eq!(
        smoke_version(ToolKind::YtDlp, "/y", true, "2024.04.09\n", &Ok(None)),
        Probe::Broken("yt-dlp 2024.04.09 e anterior ao minimo 2026.01.01".into())
    );
    assert_eq!(
        smoke_version(ToolKind::YtDlp, "/y", false, "", &Ok(None)),
        Probe::Broken("/y retornou erro".into())
    );
    assert_eq!(
        smoke_version(
            ToolKind::Ffmpeg,
            "/f",
            true,
            "ffmpeg 7\n",
            &Ok(Some("A libopus".into()))
        ),
        Probe::Works("ffmpeg 7".into())
    );
    assert_eq!(
        smoke_version(
            ToolKind::Ffmpeg,
            "/f",
            true,
            "ffmpeg 7\n",
            &Ok(Some("aac".into()))
        ),
        Probe::Broken("FFmpeg sem encoder libopus".into())
    );
    assert_eq!(
        smoke_version(ToolKind::Ffmpeg, "/f", true, "ffmpeg 7\n", &Ok(None)),
        Probe::Broken("FFmpeg sem encoder libopus".into())
    );
    assert_eq!(
        smoke_version(
            ToolKind::Ffmpeg,
            "/f",
            true,
            "ffmpeg 7\n",
            &Err("subprocesso excedeu o limite de 5s".into())
        ),
        Probe::Broken("subprocesso excedeu o limite de 5s".into())
    );
}

#[test]
fn the_managed_program_is_preferred() {
    let tools = manager();
    assert_eq!(tools.path(ToolKind::YtDlp), "/d/tools/yt-dlp");
    let managed = candidate("/d/tools/yt-dlp", Probe::Works("2026.07.04".into()));
    let system = vec![
        candidate("/bin/yt-dlp", Probe::Broken("velho".into())),
        candidate("/usr/bin/yt-dlp", Probe::Works("2026.08.01".into())),
    ];
    assert_eq!(
        tools.ensure(&managed, &system).as_deref(),
        Some("/d/tools/yt-dlp")
    );
    let missing = candidate("/d/tools/yt-dlp", Probe::Missing);
    assert_eq!(
        tools.ensure(&missing, &system).as_deref(),
        Some("/usr/bin/yt-dlp")
    );
    let status = tools.status(ToolKind::YtDlp, &missing, &system);
    assert!(status.installed);
    assert_eq!(status.version.as_deref(), Some("2026.08.01"));
}

#[test]
fn a_program_that_does_not_work_is_blamed() {
    let tools = manager();
    let missing = candidate("/d/tools/yt-dlp", Probe::Missing);
    let system = vec![candidate("/bin/yt-dlp", Probe::Broken("velho".into()))];
    assert_eq!(tools.ensure(&missing, &system), None);
    let status = tools.status(ToolKind::YtDlp, &missing, &system);
    assert!(!status.installed);
    assert_eq!(status.path, "/bin/yt-dlp");
    assert_eq!(status.problem.as_deref(), Some("velho"));
}

#[test]
fn a_release_without_a_safe_file_is_refused() {
    let name = ToolKind::YtDlp.asset_name("linux", "x86_64").unwrap();
    let digest = Some("sha256:00");
    let chosen = choose_asset(
        ToolKind::YtDlp,
        &release(name, digest, 10),
        "linux",
        "x86_64",
    )
    .unwrap();
    assert_eq!(chosen.digest, "00");
    assert_eq!(
        choose_asset(
            ToolKind::YtDlp,
            &release("other", digest, 10),
            "linux",
            "x86_64"
        )
        .unwrap_err(),
        format!("asset {name} nao encontrado em 2026.07.04")
    );
    assert!(
        choose_asset(ToolKind::YtDlp, &release(name, digest, 0), "linux", "x86_64")
            .unwrap_err()
            .contains("tamanho inseguro")
    );
    assert_eq!(
        choose_asset(ToolKind::YtDlp, &release(name, None, 10), "linux", "x86_64").unwrap_err(),
        "GitHub nao publicou SHA-256 para o asset"
    );
    assert_eq!(
        latest_release("yt-dlp/yt-dlp"),
        "https://api.github.com/repos/yt-dlp/yt-dlp/releases/latest"
    );
}

const ABC: &str = "ba7816bf8f01cfea414140de5dae2223b00361a396177a9cb410ff61f20015ad";

#[test]
fn what_is_fetched_has_to_match_its_digest() {
    let mut transfer = Transfer::new(ABC, 3, 100);
    transfer.accept(b"ab").unwrap();
    transfer.accept(b"c").unwrap();
    assert!(transfer.finish().is_ok());

    let mut other = Transfer::new(ABC, 3, 100);
    other.accept(b"abd").unwrap();
    assert!(other.finish().is_err());
}

#[test]
fn what_is_fetched_has_to_have_its_size() {
    let mut short = Transfer::new(ABC, 3, 100);
    short.accept(b"ab").unwrap();
    assert!(short.finish().is_err());
    let mut long = Transfer::new(ABC, 3, 4);
    assert!(long.accept(b"abcde").is_err());
}

#[test]
fn an_announced_length_may_not_pass_the_limit() {
    assert!(check_announced(None, 10).is_ok());
    assert!(check_announced(Some("10"), 10).is_ok());
    assert!(check_announced(Some("11"), 10).is_err());
}

fn drive(replies: Vec<Reply>) -> (Install, Vec<Ask>) {
    let (mut install, first) = Install::start(ToolKind::YtDlp, "/d/tools", "linux", "x86_64");
    let mut asks = vec![first];
    for reply in replies {
        asks.push(install.step(reply));
    }
    (install, asks)
}

fn good_release() -> Release {
    let name = ToolKind::YtDlp.asset_name("linux", "x86_64").unwrap();
    release(name, Some("sha256:00"), 10)
}

#[test]
fn a_failed_query_changes_nothing() {
    let (_, asks) = drive(vec![Reply::Done, Reply::Failed("sem rede".into())]);
    assert_eq!(asks.len(), 3);
    match asks.last().unwrap() {
        Ask::GiveUp { message } => assert!(message.contains("sem rede")),
        other => panic!("{other:?}"),
    }
    assert!(!asks.iter().any(|ask| matches!(
        ask,
        Ask::Rename { .. } | Ask::Remove { .. } | Ask::Download { .. }
    )));
}

#[test]
fn a_new_program_is_tried_before_it_is_used() {
    let (_, asks) = drive(vec![
        Reply::Done,
        Reply::Found(good_release()),
        Reply::Failed("ausente".into()),
        Reply::Done,
        Reply::Done,
        Reply::Done,
        Reply::Done,
        Reply::No,
        Reply::No,
        Reply::Done,
        Reply::Done,
        Reply::Done,
    ]);
    let trial = asks
        .iter()
        .position(|ask| matches!(ask, Ask::MakeExecutable { .. }))
        .unwrap()
        + 1;
    assert!(matches!(&asks[trial], Ask::Try { .. }));
    let activation = asks
        .iter()
        .position(|ask| matches!(ask, Ask::Rename { .. }))
        .unwrap();
    assert!(trial < activation);
    assert_eq!(
        asks.last().unwrap(),
        &Ask::Succeed {
            path: "/d/tools/yt-dlp".into()
        }
    );
}

#[test]
fn updating_tells_of_both_programs_in_order_or_of_every_failure() {
    let tools = ToolManager::new(AppPaths::under("/c".into(), "/d".into(), "/k".into()));
    let trials = |path: &str, version: &str| Trials {
        managed: candidate(path, Probe::Works(version.into())),
        system: Vec::new(),
    };
    let statuses = tools
        .update_all(
            Ok(trials("/d/tools/yt-dlp", "2026.07.04")),
            Ok(Trials {
                managed: candidate("/d/tools/ffmpeg", Probe::Broken("quebrado".into())),
                system: vec![candidate("/usr/bin/ffmpeg", Probe::Works("8.0".into()))],
            }),
        )
        .unwrap();
    let told: Vec<_> = statuses
        .iter()
        .map(|status| (status.kind, status.path.as_str(), status.version.as_deref()))
        .collect();
    assert_eq!(
        told,
        [
            (ToolKind::YtDlp, "/d/tools/yt-dlp", Some("2026.07.04")),
            (ToolKind::Ffmpeg, "/usr/bin/ffmpeg", Some("8.0")),
        ]
    );
    let refused = |first: Result<Trials, String>, second: Result<Trials, String>| {
        tools.update_all(first, second).unwrap_err()
    };
    assert_eq!(
        refused(Err("rede".into()), Ok(trials("/f", "8.0"))),
        "falha ao atualizar ferramentas: yt-dlp: rede"
    );
    assert_eq!(
        refused(Ok(trials("/y", "1")), Err("disco".into())),
        "falha ao atualizar ferramentas: ffmpeg: disco"
    );
    assert_eq!(
        refused(Err("rede".into()), Err("disco".into())),
        "falha ao atualizar ferramentas: yt-dlp: rede; ffmpeg: disco"
    );
}
