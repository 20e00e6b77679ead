//! Download jobs: their books and their steps.

use ezmusic::download::safe_component;
use ezmusic::download::DownloadService;
use ezmusic::download::Sent;
use ezmusic::model::AlbumDraft;
use ezmusic::model::DownloadEvent;
use ezmusic::model::DownloadRequest;
use ezmusic::model::MediaSegment;
use ezmusic::model::SearchItem;
use ezmusic::model::SearchKind;
use ezmusic::model::TrackDraft;
use ezmusic::pipeline::Ask;
use ezmusic::pipeline::FolderEntry;
use ezmusic::pipeline::Job;
use ezmusic::pipeline::Reply;
use ezmusic::seconds::Seconds;

fn item(id: &str, title: &str, segment: Option<MediaSegment>) -> SearchItem {
    SearchItem {
        provider: "youtube".into(),
        source_id: id.into(),
        kind: SearchKind::Track,
        title: title.into(),
        artist: "Artist".into(),
        album: None,
        duration_seconds: Some(60),
        url: "https://www.youtube.com/watch?v=one".into(),
        segment,
        album_identity: None,
    }
}

struct Run {
    asks: Vec<String>,
    fetches: usize,
    conversions: Vec<String>,
    renames: Vec<(String, String)>,
    events: Vec<DownloadEvent>,
}

fn run(request: DownloadRequest, fail_conversion: bool, opus: bool) -> Run {
    let (mut job, mut task) = Job::start(request, "/lib", "/cache", 160);
    let mut run = Run {
        asks: Vec::new(),
        fetches: 0,
        conversions: Vec::new(),
        renames: Vec::new(),
        events: Vec::new(),
    };
    for _ in 0..200 {
        if let Some(event) = task.event {
            run.events.push(event);
        }
        run.asks.push(format!("{:?}", task.ask));
        let reply = match task.ask {
            Ask::CheckSpace { .. } => Reply::Done,
            Ask::IsFile { .. } => Reply::No,
            Ask::MakeFolder { .. } => Reply::Done,
            Ask::Fetch { .. } => {
                run.fetches += 1;
                Reply::Done
            }
            Ask::List { .. } => Reply::Entries(vec![
                FolderEntry {
                    name: "input.webm.part".into(),
                    is_file: true,
                },
                FolderEntry {
                    name: "input.webm".into(),
                    is_file: true,
                },
            ]),
            Ask::Measure { .. } => Reply::Size(10),
            Ask::Acquire => Reply::Yes,
            Ask::Describe { .. } => {
                if opus {
                    Reply::Yes
                } else {
                    Reply::No
                }
            }
            Ask::Convert { arguments } => {
                run.conversions.push(arguments.join(" "));
                if fail_conversion {
                    Reply::Failed("codec".into())
                } else {
                    Reply::Done
                }
            }
            Ask::Remove { .. } => Reply::Done,
            Ask::Rename { from, to } => {
                run.renames.push((from, to));
                Reply::Done
            }
            Ask::RemoveFolder { .. } => Reply::Done,
            Ask::Complete | Ask::GiveUp { .. } => return run,
        };
        task = job.step(reply);
    }
    panic!("the job does not end");
}

fn completed(run: &Run) -> Option<&Vec<TrackDraft>> {
    run.events.iter().find_map(|event| match event {
        DownloadEvent::Completed { tracks, .. } => Some(tracks),
        _ => None,
    })
}

#[test]
fn sanitizes_external_identifiers() {
    assert_eq!(safe_component("../../evil id"), "evilid");
    assert_eq!(safe_component(""), "unknown");
    assert_eq!(safe_component("abc_DEF-12"), "abc_DEF-12");
}

#[test]
fn bounds_external_identifiers() {
    assert_eq!(safe_component(&"x".repeat(200)).len(), 96);
    assert_eq!(safe_component("çã/.."), "unknown");
}

#[test]
fn download_pipeline_publishes_only_completed_opus() {
    let request = DownloadRequest {
        job_id: "youtube-one".into(),
        items: vec![item("one", "One", None)],
        album: None,
    };
    let run = run(request, false, false);
    let tracks = completed(&run).unwrap();
    assert_eq!(tracks[0].path, "/lib/youtube-one.opus");
    assert_eq!(
        run.renames,
        vec![(
            "/lib/.youtube-one.opus.part".to_string(),
            "/lib/youtube-one.opus".to_string()
        )]
    );
    assert!(run.conversions[0].contains("-c:a libopus -b:a 160k"));
}

#[test]
fn opus_is_not_encoded_anew() {
    let request = DownloadRequest {
        job_id: "youtube-one".into(),
        items: vec![item("one", "One", None)],
        album: None,
    };
    let run = run(request, false, true);
    assert!(run.conversions[0].contains("-c:a copy"));
}

#[test]
fn a_failed_conversion_publishes_nothing() {
    let request = DownloadRequest {
        job_id: "youtube-one".into(),
        items: vec![item("one", "One", None)],
        album: None,
    };
    let run = run(request, true, false);
    assert!(completed(&run).is_none());
    assert!(run.renames.is_empty());
    assert!(run
        .asks
        .iter()
        .any(|ask| ask.contains("Remove") && ask.contains("/lib/.youtube-one.opus.part")));
    assert!(run
        .asks
        .last()
        .unwrap()
        .contains("conversao para Opus falhou: codec"));
}

#[test]
fn chapter_album_downloads_source_once_and_publishes_every_track() {
    let album = AlbumDraft {
        provider: "youtube".into(),
        source_id: "video".into(),
        title: "Record".into(),
        artist: "Artist".into(),
    };
    let items: Vec<SearchItem> = [("One", 0.0f64, 60.0f64), ("Two", 60.0, 120.0)]
        .into_iter()
        .enumerate()
        .map(|(index, (title, start, end))| SearchItem {
            provider: "youtube".into(),
            source_id: format!("video-chapter-{index}"),
            kind: SearchKind::Track,
            title: title.into(),
            artist: "Artist".into(),
            album: Some("Record".into()),
            duration_seconds: Some(60),
            url: "https://www.youtube.com/watch?v=video".into(),
            segment: Some(MediaSegment {
                start_seconds: Seconds {
                    bits: start.to_bits(),
                },
                end_seconds: Seconds {
                    bits: end.to_bits(),
                },
                position: (index + 1) as u32,
            }),
            album_identity: Some(album.clone()),
        })
        .collect();
    let run = run(
        DownloadRequest {
            job_id: "youtube-album-video".into(),
            items,
            album: Some(album),
        },
        false,
        false,
    );
    let tracks = completed(&run).unwrap();
    assert_eq!(tracks.len(), 2);
    assert_eq!(run.fetches, 1);
    assert_eq!(run.conversions.len(), 2);
    assert!(run.conversions[1].contains("-ss 60.000000 -t 60.000000"));
    assert!(run.conversions[1].contains("track=2/2"));
    assert!(run.renames.iter().all(|(_, to)| !to.ends_with(".part")));
}

#[test]
fn too_large_a_source_is_refused() {
    let request = DownloadRequest {
        job_id: "youtube-one".into(),
        items: vec![item("one", "One", None)],
        album: None,
    };
    let (mut job, _) = Job::start(request, "/lib", "/cache", 160);
    for reply in [
        Reply::Done,
        Reply::Done,
        Reply::No,
        Reply::Done,
        Reply::Done,
    ] {
        job.step(reply);
    }
    let entries = vec![FolderEntry {
        name: "input.webm".into(),
        is_file: true,
    }];
    job.step(Reply::Entries(entries));
    assert_eq!(
        job.step(Reply::Size(1073741825)).ask,
        Ask::GiveUp {
            message: "arquivo de entrada excedeu o limite de 1 GiB".into()
        }
    );
}

#[test]
fn a_job_can_be_cancelled_until_it_ends() {
    let (mut service, workers) = DownloadService::start(99);
    assert_eq!(workers, 8);
    let token = service.enqueue("j").unwrap();
    assert!(service.sent("j", Sent::Accepted).is_ok());
    assert_eq!(service.claim("j"), token);
    assert!(service.begin("j", token).is_none());
    assert!(!service.stopped(token));
    assert!(service.cancel("j"));
    assert!(service.stopped(token));
    assert!(matches!(
        service.finish("j", token, Some("download cancelado".into())),
        Some(DownloadEvent::Cancelled { .. })
    ));
    assert!(!service.cancel("j"));
    assert!(service.enqueue("j").is_ok());
}

#[test]
fn a_refused_job_can_be_sent_again() {
    let (mut service, workers) = DownloadService::start(0);
    assert_eq!(workers, 1);
    service.enqueue("j").unwrap();
    assert!(service.sent("j", Sent::Full).is_err());
    assert!(service.enqueue("j").is_ok());
}

#[test]
fn dropping_download_service_stops_running_children() {
    let (mut service, _) = DownloadService::start(1);
    let token = service.enqueue("youtube-slow").unwrap();
    service.sent("youtube-slow", Sent::Accepted).unwrap();
    service.claim("youtube-slow");
    service.close();
    assert!(service.stopped(token));
    assert!(service.enqueue("other").is_err());
}
