//! What the extractor is asked and what its answers mean.

use ezmusic::chapters;
use ezmusic::json;
use ezmusic::json::Json;
use ezmusic::model::SearchKind;
use ezmusic::seconds::Seconds;
use ezmusic::source::is_http_url;
use ezmusic::source::is_youtube_url;
use ezmusic::source::normalize;
use ezmusic::source::normalize_item;
use ezmusic::source::SourceProvider;
use ezmusic::source::UrlParts;
use ezmusic::source::YouTubeProvider;

fn read(text: &str) -> Json {
    json::parse(text.as_bytes()).unwrap()
}

fn seconds(value: f64) -> Seconds {
    Seconds {
        bits: value.to_bits(),
    }
}

fn chapter_video(duration: &str, more: &str) -> Json {
    read(&format!(
        r#"{{"id":"video","title":"Artist - Record [Full Album]","uploader":"Channel","duration":{duration},"webpage_url":"https://www.youtube.com/watch?v=video",{more}}}"#
    ))
}

#[test]
fn detects_only_http_urls() {
    assert!(is_http_url("https://music.youtube.com/watch?v=abc"));
    assert!(!is_http_url("file:///etc/passwd"));
    assert!(!is_http_url("artist song"));
}

#[test]
fn accepts_only_youtube_hosts() {
    assert!(is_youtube_url("https://music.youtube.com/watch?v=abc"));
    assert!(is_youtube_url("https://youtu.be/abc"));
    assert!(!is_youtube_url("https://example.com/watch?v=abc"));
}

#[test]
fn hosts_are_taken_whole() {
    assert!(is_youtube_url("HTTP://WWW.YouTube.COM/watch?v=abc"));
    assert!(!is_youtube_url("https://notyoutube.com/watch?v=abc"));
    assert!(!is_youtube_url("https://youtube.com.evil.org/watch"));
    assert!(!is_youtube_url("ftp://youtube.com/watch"));
}

#[test]
fn normalizes_structured_chapters_with_stable_ids_and_boundaries() {
    let payload = chapter_video(
        "180.0",
        r#""chapters":[{"title":"One","start_time":0.0,"end_time":60.0},{"title":"Two","start_time":60.0,"end_time":180.0}]"#,
    );
    let first = normalize(&payload, true).unwrap();
    let retry = normalize(&payload, true).unwrap();
    assert_eq!(first, retry);
    assert!(first[0].source_id.ends_with("-chapter-001-0000000000"));
    assert_eq!(
        first[1].segment.as_ref().unwrap().end_seconds,
        seconds(180.0)
    );
    assert_eq!(first[0].album.as_deref(), Some("Artist - Record"));
}

#[test]
fn parses_description_timestamp_index_and_calculates_ends() {
    let payload = chapter_video(
        "6000.0",
        r#""description":"0:00 One\n01:15 Two\n1:30:00 Three""#,
    );
    let items = normalize(&payload, true).unwrap();
    assert_eq!(items.len(), 3);
    assert_eq!(
        items[0].segment.as_ref().unwrap().end_seconds,
        seconds(75.0)
    );
    assert_eq!(
        items[1].segment.as_ref().unwrap().end_seconds,
        seconds(5400.0)
    );
}

#[test]
fn rejects_bad_timestamp_indexes_and_title_only_album_signal() {
    for description in [
        "0:00 One\\n0:00 Two",
        "0:30 One\\n0:10 Two",
        "0:00 One\\n9:00 Two",
        "0:00 Only",
    ] {
        let payload = chapter_video("120.0", &format!(r#""description":"{description}""#));
        let items = normalize(&payload, true).unwrap();
        assert_eq!(items.len(), 1);
        assert!(items[0].album_identity.is_none());
    }
}

#[test]
fn title_markers_are_boundary_aware_hints() {
    let mut hinted = normalize_item(&read(r#"{"id":"a","title":"My LP"}"#)).unwrap();
    assert_eq!(hinted.kind, SearchKind::Unknown);
    hinted = normalize_item(&read(r#"{"id":"b","title":"Help Me"}"#)).unwrap();
    assert_eq!(hinted.kind, SearchKind::Track);
}

#[test]
fn provider_album_keeps_identity_and_order() {
    let payload = read(
        r#"{"id":"OLAK5uy_album","title":"Record","album":"Record","artist":"Artist","entries":[{"id":"one","title":"One"},{"id":"two","title":"Two"}]}"#,
    );
    let items = normalize(&payload, true).unwrap();
    assert_eq!(items[0].source_id, "one");
    assert_eq!(items[1].source_id, "two");
    assert_eq!(
        items[0].album_identity.as_ref().unwrap().source_id,
        "OLAK5uy_album"
    );
}

#[test]
fn provider_parses_fake_ytdlp_output() {
    let provider = YouTubeProvider::new("yt-dlp".into());
    let extraction = provider.search("artist one", 20).unwrap();
    assert_eq!(
        extraction.arguments.last().map(String::as_str),
        Some("ytsearch20:artist one")
    );
    let output = br#"{"entries":[{"id":"one","title":"One","artist":"Artist","duration":60,"webpage_url":"https://www.youtube.com/watch?v=one"}]}"#;
    let results = provider
        .interpret(true, output, "", extraction.inspect_video)
        .unwrap();
    assert_eq!(results.len(), 1);
    assert_eq!(results[0].title, "One");
}

#[test]
fn provider_resolves_every_track_in_a_collection() {
    let provider = YouTubeProvider::new("yt-dlp".into());
    let extraction = provider
        .resolve("https://music.youtube.com/playlist?list=album")
        .unwrap();
    assert_eq!(
        extraction.arguments.last().map(String::as_str),
        Some("https://music.youtube.com/playlist?list=album")
    );
    let output = br#"{"entries":[{"id":"one","title":"One","artist":"Artist","webpage_url":"https://www.youtube.com/watch?v=one"},{"id":"two","title":"Two","artist":"Artist","webpage_url":"https://www.youtube.com/watch?v=two"}]}"#;
    let results = provider
        .interpret(true, output, "", extraction.inspect_video)
        .unwrap();
    assert_eq!(results.len(), 2);
    assert_eq!(results[0].source_id, "one");
    assert_eq!(results[1].source_id, "two");
}

#[test]
fn provider_refuses_empty_queries_and_foreign_links() {
    let provider = YouTubeProvider::new("yt-dlp".into());
    assert_eq!(
        provider.search("  ", 20).unwrap_err(),
        "digite algo para buscar"
    );
    assert_eq!(
        provider.search("https://example.com/a", 20).unwrap_err(),
        "use uma URL publica do YouTube ou YouTube Music"
    );
    assert!(provider
        .search("https://youtu.be/abc", 20)
        .unwrap()
        .inspect_video);
    let arguments = provider.search("words", 900).unwrap().arguments;
    assert_eq!(arguments[11], "50");
    assert_eq!(arguments[14], "ytsearch50:words");
}

#[test]
fn provider_reports_faults_of_the_extractor() {
    let provider = YouTubeProvider::new("yt-dlp".into());
    assert_eq!(
        provider
            .interpret(false, b"", " sem rede \n", true)
            .unwrap_err(),
        "yt-dlp: sem rede"
    );
    assert_eq!(
        provider.interpret(true, b"{", "", true).unwrap_err(),
        "yt-dlp retornou JSON invalido: EOF while parsing an object at line 1 column 1"
    );
    assert_eq!(
        provider
            .interpret(true, br#"{"entries":[]}"#, "", true)
            .unwrap_err(),
        "nenhum resultado encontrado"
    );
}

#[test]
fn a_collection_is_cut_at_its_limit() {
    let entries: Vec<String> = (0..502)
        .map(|n| format!(r#"{{"id":"id{n}","title":"T{n}"}}"#))
        .collect();
    let payload = read(&format!(r#"{{"entries":[{}]}}"#, entries.join(",")));
    let items = normalize(&payload, false).unwrap();
    assert_eq!(items.len(), 500);
    assert_eq!(items[499].source_id, "id499");
}

#[test]
fn timestamps_have_two_or_three_parts() {
    assert_eq!(chapters::parse_timestamp("1:02"), Some(seconds(62.0)));
    assert_eq!(chapters::parse_timestamp("1:00:02"), Some(seconds(3602.0)));
    assert_eq!(chapters::parse_timestamp("1:60"), None);
    assert_eq!(chapters::parse_timestamp("12"), None);
    assert_eq!(chapters::parse_timestamp("a:b"), None);
}

#[test]
fn seconds_round_as_they_are_printed() {
    assert_eq!(seconds(61.0004).millis(), 61000);
    assert_eq!(seconds(0.0000004).micros(), 0);
    assert_eq!(seconds(0.0000006).micros(), 1);
    assert_eq!(seconds(61.9).whole(), 61);
    assert_eq!(Seconds::from_whole(75), seconds(75.0));
    assert!(seconds(1.0).before(seconds(1.5)));
    assert!(!seconds(f64::NAN).is_finite());
}

#[test]
fn json_keeps_what_was_written() {
    let document = read(r#"{"a":[1,null,true],"b":"x","c":1.5}"#);
    assert_eq!(document.get_text("b"), Some("x"));
    assert_eq!(document.get_items("a").unwrap().len(), 3);
    assert_eq!(document.get_number("c"), Some(seconds(1.5)));
    assert_eq!(document.get_text("missing"), None);
    assert_eq!(
        json::parse(b"[1,").unwrap_err(),
        "EOF while parsing a value at line 1 column 3"
    );
}

fn parts(scheme: &str, host: Option<&str>) -> Option<UrlParts> {
    Some(UrlParts {
        scheme: scheme.into(),
        host: host.map(str::to_string),
    })
}

#[test]
fn a_link_is_judged_by_its_parts() {
    let provider = YouTubeProvider::new("yt-dlp".into());
    let link = "https://youtu.be/abc";
    let extraction = provider
        .search_as(link, 20, &parts("https", Some("youtu.be")))
        .unwrap();
    assert!(extraction.inspect_video);
    assert_eq!(extraction.arguments[12], "--no-flat-playlist");
    assert_eq!(extraction.arguments[14], link);
    assert!(provider
        .search_as(link, 20, &parts("http", Some("example.com")))
        .is_err());
    assert!(provider.resolve_as(link, &parts("https", None)).is_err());
    assert!(provider.resolve_as(link, &None).is_err());
    let words = provider.search_as("a: b", 0, &parts("a", None)).unwrap();
    assert!(!words.inspect_video);
    assert_eq!(words.arguments[12], "--flat-playlist");
    assert_eq!(words.arguments[14], "ytsearch1:a: b");
}

#[test]
fn parts_of_a_recording_have_identifiers_of_their_own() {
    let payload = chapter_video(
        "180.0",
        r#""chapters":[{"title":"One","start_time":0.0001},{"title":"Two","start_time":0.0002},{"title":"Three","start_time":0.0003}]"#,
    );
    let items = normalize(&payload, true).unwrap();
    assert_eq!(items.len(), 3);
    assert_ne!(items[0].source_id, items[1].source_id);
    assert_ne!(items[1].source_id, items[2].source_id);
    for (index, item) in items.iter().enumerate() {
        assert_eq!(item.segment.as_ref().unwrap().position as usize, index + 1);
        assert_eq!(item.album_identity.as_ref().unwrap().title, "Artist - Record");
    }
}

#[test]
fn a_recording_without_parts_stays_one_track() {
    let payload = chapter_video("180.0", r#""description":"0:00 Only one""#);
    let items = normalize(&payload, true).unwrap();
    assert_eq!(items.len(), 1);
    assert!(items[0].segment.is_none());
    assert!(items[0].album_identity.is_none());
    assert_eq!(items[0].kind, SearchKind::Unknown);
}

#[test]
fn announcements_are_taken_out_of_titles() {
    assert!(chapters::has_lower_marker("a full album!"));
    assert!(!chapters::has_lower_marker("A FULL ALBUM!"));
    assert!(chapters::has_album_marker("ÁLBUM COMPLETO (OST)"));
    assert_eq!(
        chapters::unwrap_title("Disc [FULL Album] -".into(), "disc [full album] -", "[full album]"),
        "Disc"
    );
    assert_eq!(
        chapters::normalize_album_title("Ótimo (Album Completo)"),
        "Ótimo"
    );
    assert_eq!(chapters::normalize_album_title("[full album]"), "[full album]");
}
