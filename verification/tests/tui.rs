//! The interface: keys, workspaces and what they show.

use ezmusic::db::import::FoundPath;
use ezmusic::db::LibraryDb;
use ezmusic::gather::download_requests;
use ezmusic::gather::Gathering;
use ezmusic::model::AlbumDraft;
use ezmusic::model::DownloadEvent;
use ezmusic::model::DownloadRequest;
use ezmusic::model::SearchItem;
use ezmusic::model::SearchKind;
use ezmusic::model::Track;
use ezmusic::model::TrackDraft;
use ezmusic::player::PlaybackState;
use ezmusic::player::PlayerEvent;
use ezmusic::selection::Selection;
use ezmusic::tui::background::BackgroundEvent;
use ezmusic::tui::background::Prepared;
use ezmusic::tui::duration_label;
use ezmusic::tui::frame::help_rows;
use ezmusic::tui::frame::notice_rows;
use ezmusic::tui::frame::shows_context;
use ezmusic::tui::keys::dispatch_terminal_event;
use ezmusic::tui::keys::KeyCode;
use ezmusic::tui::keys::KeyEvent;
use ezmusic::tui::keys::TerminalEvent;
use ezmusic::tui::next_index;
use ezmusic::tui::previous_index;
use ezmusic::tui::screens::Row;
use ezmusic::tui::screens::Tone;
use ezmusic::tui::short_label;
use ezmusic::tui::Action;
use ezmusic::tui::App;
use ezmusic::tui::InputMode;
use ezmusic::tui::RepeatMode;
use ezmusic::tui::Screen;

fn test_app() -> App {
    App::new(None, false, 1, LibraryDb::in_memory())
}

fn plain(code: KeyCode) -> KeyEvent {
    KeyEvent::plain(code)
}

fn press(app: &mut App, keys: &str) {
    for c in keys.chars() {
        app.key(plain(KeyCode::Char(c)));
    }
}

fn track(id: i64) -> Track {
    Track {
        id,
        provider: None,
        source_id: None,
        title: format!("Track {id}"),
        artist: "Artist".into(),
        album: None,
        path: format!("/tmp/track-{id}.opus"),
        duration_seconds: Some(180),
        available: true,
        imported: true,
    }
}

fn search_item(id: &str, kind: SearchKind) -> SearchItem {
    SearchItem {
        provider: "youtube".into(),
        source_id: id.into(),
        kind,
        title: format!("Item {id}"),
        artist: "Artist".into(),
        album: None,
        duration_seconds: Some(180),
        url: format!("https://www.youtube.com/watch?v={id}"),
        segment: None,
        album_identity: None,
    }
}

fn draft(name: &str, title: &str, artist: &str) -> TrackDraft {
    TrackDraft {
        provider: None,
        source_id: None,
        title: title.into(),
        artist: artist.into(),
        album: None,
        path: format!("/tmp/{name}.opus"),
        duration_seconds: Some(60),
        imported: true,
    }
}

fn album_drafts(source_id: &str, titles: &[&str]) -> (AlbumDraft, Vec<TrackDraft>) {
    let album = AlbumDraft {
        provider: "youtube".into(),
        source_id: source_id.into(),
        title: format!("Album {source_id}"),
        artist: "Album Artist".into(),
    };
    let tracks = titles
        .iter()
        .enumerate()
        .map(|(index, title)| TrackDraft {
            provider: Some("youtube".into()),
            source_id: Some(format!("{source_id}-{index}")),
            title: (*title).into(),
            artist: "Track Artist".into(),
            album: Some(album.title.clone()),
            path: format!("/tmp/{source_id}-{index}.opus"),
            duration_seconds: Some(60),
            imported: false,
        })
        .collect();
    (album, tracks)
}

fn seed_album(app: &mut App, source_id: &str, titles: &[&str]) -> i64 {
    let (album, tracks) = album_drafts(source_id, titles);
    app.db.upsert_album(&album, &tracks).unwrap()
}

fn seed_playlist(app: &mut App, name: &str, titles: &[&str]) -> i64 {
    let playlist = app.db.create_playlist(name).unwrap();
    for (index, title) in titles.iter().enumerate() {
        let id = app
            .db
            .upsert_track(&draft(&format!("{name}-{index}"), title, "Playlist Artist"))
            .unwrap();
        app.db.add_to_playlist(playlist, id).unwrap();
    }
    playlist
}

fn words(row: &Row) -> String {
    let mut line = String::new();
    for span in &row.spans {
        line.push_str(&span.text);
    }
    line
}

fn shown(app: &App, width: u16) -> String {
    let mut output = words(&app.banner());
    output.push_str(&words(&app.navigation()));
    let panel = app.panel();
    output.push_str(&panel.title);
    for row in &panel.rows {
        output.push_str(&words(row));
    }
    output.push_str(&panel.hint);
    if shows_context(width) {
        for row in &app.context() {
            output.push_str(&words(row));
        }
    }
    let player = app.player_panel();
    output.push_str(&player.title);
    output.push_str(&words(&player.track));
    output.push_str(&player.time);
    output.push_str(&player.sound);
    output.push_str(&words(&player.controls));
    output.push_str(&words(&app.status_row()));
    output
}

fn titles(tracks: &[Track]) -> Vec<&str> {
    tracks.iter().map(|track| track.title.as_str()).collect()
}

#[test]
fn selection_stays_in_bounds() {
    assert_eq!(next_index(0, 0), 0);
    assert_eq!(next_index(0, 2), 1);
    assert_eq!(next_index(1, 2), 1);
}

#[test]
fn selection_stops_at_the_first_row() {
    assert_eq!(previous_index(0), 0);
    assert_eq!(previous_index(3), 2);
}

#[test]
fn formats_duration() {
    assert_eq!(duration_label(Some(125)), "02:05");
    assert_eq!(duration_label(None), "--:--");
}

#[test]
fn formats_durations_of_hours_in_minutes() {
    assert_eq!(duration_label(Some(0)), "00:00");
    assert_eq!(duration_label(Some(7261)), "121:01");
}

#[test]
fn dispatches_each_key_once() {
    let mut app = test_app();
    app.library = vec![track(1), track(2), track(3)];
    assert!(dispatch_terminal_event(
        &mut app,
        TerminalEvent::Press(plain(KeyCode::Down)),
        0
    ));
    assert_eq!(app.library_index, 1);
}

#[test]
fn ignores_released_keys_and_other_events() {
    let mut app = test_app();
    app.library = vec![track(1), track(2), track(3)];
    assert!(!dispatch_terminal_event(
        &mut app,
        TerminalEvent::Release(plain(KeyCode::Down)),
        0
    ));
    assert!(!dispatch_terminal_event(&mut app, TerminalEvent::Other, 0));
    assert_eq!(app.library_index, 0);
}

#[test]
fn help_is_a_toggleable_overlay() {
    let mut app = test_app();
    app.key(plain(KeyCode::Char('?')));
    assert!(app.show_help);
    app.key(plain(KeyCode::Esc));
    assert!(!app.show_help);
}

#[test]
fn help_takes_every_key_until_it_is_closed() {
    let mut app = test_app();
    press(&mut app, "?3?");
    assert!(!app.show_help);
    assert_eq!(app.screen, Screen::Library);
}

#[test]
fn renders_compact_and_wide_workspaces() {
    let mut app = test_app();
    app.library = vec![track(1), track(2)];
    app.screen = Screen::Search;
    for width in [80, 128] {
        let output = shown(&app, width);
        assert!(output.contains("EZMUSIC"));
        assert!(output.contains("SPACE/P"));
        assert!(output.contains("STOP"));
        assert!(output.contains("full album"));
    }
    assert!(!shown(&app, 103).contains("CONTROL SURFACE"));
    assert!(shown(&app, 104).contains("CONTROL SURFACE"));
}

#[test]
fn restores_search_page_with_selection_and_cursor() {
    let mut app = test_app();
    app.search_title = "original".into();
    app.search_results = vec![
        search_item("one", SearchKind::Track),
        search_item("two", SearchKind::Album),
    ];
    app.selected_results.toggle(1);
    app.search_index = 1;
    app.save_search_page();
    app.search_title = "album".into();
    app.search_is_collection = true;
    app.search_results = vec![search_item("track", SearchKind::Track)];

    app.back_search();

    assert_eq!(app.search_title, "original");
    assert_eq!(app.search_index, 1);
    assert!(app.selected_results.contains(1));
    assert_eq!(app.search_results.len(), 2);
    assert!(app.search_history.is_empty());
}

#[test]
fn keeps_only_the_last_pages() {
    let mut app = test_app();
    for n in 0..10 {
        app.search_title = format!("page {n}");
        app.save_search_page();
    }
    assert_eq!(app.search_history.len(), 8);
    assert_eq!(app.search_history[0].title, "page 2");
    assert_eq!(app.search_history[7].title, "page 9");
}

#[test]
fn full_album_action_accepts_collection_or_album_result_only() {
    let mut app = test_app();
    app.search_results = vec![search_item("track", SearchKind::Track)];
    assert!(app.full_collection_items().is_none());

    app.search_results = vec![search_item("album", SearchKind::Album)];
    assert_eq!(app.full_collection_items().unwrap().len(), 1);

    app.search_is_collection = true;
    app.search_results = vec![
        search_item("one", SearchKind::Track),
        search_item("two", SearchKind::Track),
    ];
    assert_eq!(app.full_collection_items().unwrap().len(), 2);
}

#[test]
fn groups_one_logical_album_into_one_download_request() {
    let album = AlbumDraft {
        provider: "youtube".into(),
        source_id: "video".into(),
        title: "Record".into(),
        artist: "Artist".into(),
    };
    let mut one = search_item("one", SearchKind::Track);
    one.album_identity = Some(album.clone());
    let mut two = search_item("two", SearchKind::Track);
    two.album_identity = Some(album);
    let requests = download_requests(&vec![one, two]);
    assert_eq!(requests.len(), 1);
    assert_eq!(requests[0].items.len(), 2);
    assert!(requests[0].album.is_some());
    assert_eq!(requests[0].job_id, "youtube-album-video");
}

#[test]
fn gathers_each_item_once_and_within_the_limit() {
    let mut gathering = Gathering::new();
    gathering
        .keep(search_item("one", SearchKind::Track))
        .unwrap();
    gathering
        .extend(vec![
            search_item("two", SearchKind::Track),
            search_item("one", SearchKind::Track),
        ])
        .unwrap();
    let requests = gathering.requests();
    assert_eq!(requests.len(), 2);
    assert_eq!(requests[0].job_id, "youtube-one");
    assert_eq!(requests[1].job_id, "youtube-two");

    let many: Vec<SearchItem> = (0..498)
        .map(|n| search_item(&format!("id{n}"), SearchKind::Track))
        .collect();
    assert_eq!(
        gathering.extend(many).unwrap_err(),
        "selecao excede o limite de 500 faixas"
    );
    assert_eq!(gathering.items.len(), 3);
    let fitting: Vec<SearchItem> = (0..497)
        .map(|n| search_item(&format!("id{n}"), SearchKind::Track))
        .collect();
    assert!(gathering.extend(fitting).is_ok());
    assert_eq!(
        gathering
            .keep(search_item("last", SearchKind::Track))
            .unwrap_err(),
        "selecao excede o limite de 500 faixas"
    );
    assert_eq!(gathering.items.len(), 500);
    assert_eq!(gathering.requests().len(), 499);
}

#[test]
fn opens_album_without_playing_and_restores_parent_selection() {
    let mut app = test_app();
    seed_album(&mut app, "a", &["One"]);
    seed_album(&mut app, "b", &["Two"]);
    app.refresh_library();
    app.library_index = 1;

    app.key(plain(KeyCode::Enter));
    assert!(app.album_detail.is_some());
    assert!(app.queue.is_empty());
    app.key(plain(KeyCode::Esc));
    assert!(app.album_detail.is_none());
    assert_eq!(app.library_index, 1);
}

#[test]
fn album_selection_builds_and_persists_ordered_queue() {
    let mut app = test_app();
    seed_album(&mut app, "record", &["One", "Two"]);
    app.refresh_library();
    app.open_library_selection();
    app.screen_key(KeyCode::Down);
    app.screen_key(KeyCode::Enter);

    assert_eq!(titles(&app.queue), ["One", "Two"]);
    assert_eq!(app.queue_index, 1);
    assert_eq!(app.db.load_queue().len(), 2);
    app.screen_key(KeyCode::Char('A'));
    assert_eq!(app.queue_index, 0);
}

#[test]
fn library_filter_matches_album_tracks_but_keeps_full_count() {
    let mut app = test_app();
    seed_album(&mut app, "record", &["First", "Needle"]);
    app.input = "Needle".into();
    app.apply_library_filter();
    assert_eq!(app.albums.len(), 1);
    assert_eq!(app.albums[0].track_count, 2);
    assert!(app.library.is_empty());
}

#[test]
fn library_filter_can_be_taken_away() {
    let mut app = test_app();
    seed_playlist(&mut app, "Mix", &["One", "Two"]);
    app.refresh_library();
    press(&mut app, "/one");
    app.key(plain(KeyCode::Enter));
    assert_eq!(app.library.len(), 1);
    assert_eq!(app.status, "Biblioteca filtrada por: one");
    press(&mut app, "/");
    app.key(plain(KeyCode::Enter));
    assert_eq!(app.library.len(), 2);
    assert_eq!(app.status, "Filtro da biblioteca removido.");
}

#[test]
fn renders_album_detail_in_compact_and_wide_terminals() {
    let mut app = test_app();
    seed_album(&mut app, "record", &["One", "Two"]);
    app.refresh_library();
    app.open_library_selection();
    for width in [80, 128] {
        let output = shown(&app, width);
        assert!(output.contains("ALBUM RECORD"));
        assert!(output.contains("play album"));
    }
}

#[test]
fn opens_playlist_without_playing_and_restores_parent_selection() {
    let mut app = test_app();
    seed_playlist(&mut app, "A", &["One"]);
    seed_playlist(&mut app, "B", &["Two"]);
    app.playlists = app.db.playlists();
    app.screen = Screen::Playlists;
    app.playlist_index = 1;

    app.key(plain(KeyCode::Enter));
    assert!(app.playlist_detail.is_some());
    assert!(app.queue.is_empty());
    app.key(plain(KeyCode::Backspace));
    assert!(app.playlist_detail.is_none());
    assert_eq!(app.playlist_index, 1);
}

#[test]
fn playlist_selection_persists_queue_and_a_starts_from_first() {
    let mut app = test_app();
    seed_playlist(&mut app, "Mix", &["One", "Two"]);
    app.playlists = app.db.playlists();
    app.screen = Screen::Playlists;
    app.open_playlist();
    app.screen_key(KeyCode::Down);
    app.screen_key(KeyCode::Enter);
    assert_eq!(app.queue_index, 1);
    assert_eq!(app.db.load_queue().len(), 2);
    app.screen_key(KeyCode::Char('A'));
    assert_eq!(app.queue_index, 0);
}

#[test]
fn removing_playlist_track_refreshes_count_and_preserves_queue_snapshot() {
    let mut app = test_app();
    let playlist = seed_playlist(&mut app, "Mix", &["One", "Two", "Three"]);
    app.playlists = app.db.playlists();
    app.screen = Screen::Playlists;
    app.open_playlist();
    app.queue = app.playlist_detail.as_ref().unwrap().tracks.clone();
    app.persist_queue();
    app.playlist_detail.as_mut().unwrap().index = 1;

    app.remove_playlist_track();

    assert_eq!(app.queue.len(), 3);
    assert_eq!(app.db.load_queue().len(), 3);
    assert_eq!(app.playlists[0].2, 2);
    assert_eq!(titles(&app.db.playlist_tracks(playlist)), ["One", "Three"]);
    assert_eq!(app.playlist_detail.as_ref().unwrap().index, 1);
}

#[test]
fn renders_playlist_detail_in_compact_and_wide_terminals() {
    let mut app = test_app();
    seed_playlist(&mut app, "Mix", &["One"]);
    app.playlists = app.db.playlists();
    app.screen = Screen::Playlists;
    app.open_playlist();
    for width in [80, 128] {
        let output = shown(&app, width);
        assert!(output.contains("PLAYLIST / MIX"));
        assert!(output.contains("remove"));
    }
}

#[test]
fn shows_that_a_playlist_is_empty() {
    let mut app = test_app();
    app.db.create_playlist("Vazia").unwrap();
    app.playlists = app.db.playlists();
    app.screen = Screen::Playlists;
    app.open_playlist();
    let panel = app.panel();
    assert_eq!(panel.title, " PLAYLIST / VAZIA / 0 TRACKS ");
    assert_eq!(panel.rows.len(), 1);
    assert_eq!(words(&panel.rows[0]), "  Playlist vazia.");
}

#[test]
fn sanitizes_and_bounds_search_page_titles() {
    assert_eq!(short_label("album\nname", 20), "album name");
    assert_eq!(short_label("abcdef", 3), "abc…");
}

#[test]
fn keeps_labels_that_just_fit() {
    assert_eq!(short_label("abc", 3), "abc");
    assert_eq!(short_label("a\u{7f}\u{9f}é", 8), "a  é");
}

#[test]
fn control_c_quits_from_everywhere() {
    let key = KeyEvent {
        code: KeyCode::Char('c'),
        control: true,
        alt: false,
    };
    let mut app = test_app();
    app.input_mode = InputMode::Search;
    app.key(key);
    assert!(app.should_quit);
    let mut app = App::new(None, true, 1, LibraryDb::in_memory());
    app.key(key);
    assert!(app.should_quit);
}

#[test]
fn notice_has_to_be_accepted_first() {
    let mut app = App::new(None, true, 1, LibraryDb::in_memory());
    press(&mut app, "3/x");
    assert_eq!(app.screen, Screen::Library);
    assert_eq!(app.input_mode, InputMode::Idle);
    app.key(plain(KeyCode::Enter));
    assert_eq!(app.take_actions(), vec![Action::AcceptNotice]);
    assert!(app.show_notice);
    app.notice_finished(Err("disco cheio".into()));
    assert!(app.show_notice);
    assert_eq!(app.status, "Falha ao salvar aceite: disco cheio");
    app.notice_finished(Ok(()));
    assert!(!app.show_notice);
}

#[test]
fn notice_can_be_declined() {
    let mut app = App::new(None, true, 1, LibraryDb::in_memory());
    app.key(plain(KeyCode::Esc));
    assert!(app.should_quit);
    assert!(app.take_actions().is_empty());
}

#[test]
fn number_keys_open_workspaces() {
    let mut app = test_app();
    for (key, screen) in [
        ("1", Screen::Search),
        ("2", Screen::Library),
        ("3", Screen::Queue),
        ("4", Screen::Downloads),
        ("5", Screen::Playlists),
        ("6", Screen::Suggestions),
    ] {
        press(&mut app, key);
        assert_eq!(app.screen, screen);
    }
}

#[test]
fn slash_filters_in_the_library_and_searches_elsewhere() {
    let mut app = test_app();
    press(&mut app, "/");
    assert_eq!(app.input_mode, InputMode::LibraryFilter);
    app.key(plain(KeyCode::Esc));
    press(&mut app, "3/");
    assert_eq!(app.input_mode, InputMode::Search);
}

#[test]
fn typing_is_bounded_and_can_be_erased() {
    let mut app = test_app();
    press(&mut app, "5");
    app.input_mode = InputMode::Playlist { track_id: 1 };
    for _ in 0..200 {
        app.key(plain(KeyCode::Char('é')));
    }
    assert_eq!(app.input.chars().count(), 128);
    assert_eq!(app.input_limit(), 128);
    app.key(plain(KeyCode::Backspace));
    assert_eq!(app.input.chars().count(), 127);
    app.key(KeyEvent {
        code: KeyCode::Char('a'),
        control: false,
        alt: true,
    });
    assert_eq!(app.input.chars().count(), 127);
    app.key(plain(KeyCode::Esc));
    assert_eq!(app.input_mode, InputMode::Idle);
    assert!(app.input.is_empty());
}

#[test]
fn searching_asks_for_the_trimmed_query() {
    let mut app = test_app();
    press(&mut app, "1/  lofi  ");
    app.key(plain(KeyCode::Enter));
    assert!(app.busy);
    assert_eq!(app.status, "Preparando busca...");
    assert_eq!(
        app.take_actions(),
        vec![Action::Search {
            query: "lofi".into(),
            direct_url: false
        }]
    );
    press(&mut app, "/outra");
    app.key(plain(KeyCode::Enter));
    assert_eq!(app.status, "Aguarde a operacao atual terminar.");
    assert!(app.take_actions().is_empty());
}

#[test]
fn searching_needs_a_query() {
    let mut app = test_app();
    press(&mut app, "1/   ");
    app.key(plain(KeyCode::Enter));
    assert_eq!(app.status, "Digite artista, faixa, album ou URL.");
    assert!(!app.busy);
}

#[test]
fn a_pasted_url_is_searched_directly() {
    let mut app = test_app();
    press(&mut app, "1/https://youtu.be/abc");
    app.key(plain(KeyCode::Enter));
    assert_eq!(
        app.take_actions(),
        vec![Action::Search {
            query: "https://youtu.be/abc".into(),
            direct_url: true
        }]
    );
}

#[test]
fn results_replace_the_page_and_its_history() {
    let mut app = test_app();
    app.busy = true;
    app.save_search_page();
    app.handle_background(BackgroundEvent::Search {
        label: "https://youtu.be/abc".into(),
        direct_url: true,
        result: Ok(vec![
            search_item("one", SearchKind::Track),
            search_item("two", SearchKind::Track),
        ]),
    });
    assert!(!app.busy);
    assert!(app.search_is_collection);
    assert!(app.search_history.is_empty());
    assert_eq!(app.screen, Screen::Search);
    assert_eq!(
        app.status,
        "2 resultado(s). Enter abre, A baixa album completo."
    );
    app.handle_background(BackgroundEvent::Search {
        label: "x".into(),
        direct_url: false,
        result: Err("sem rede".into()),
    });
    assert_eq!(app.status, "Busca falhou: sem rede");
    assert_eq!(app.search_results.len(), 2);
}

#[test]
fn opened_results_are_a_page_to_go_back_from() {
    let mut app = test_app();
    app.screen = Screen::Search;
    app.search_results = vec![search_item("album", SearchKind::Album)];
    app.key(plain(KeyCode::Enter));
    assert_eq!(app.status, "Abrindo Item album...");
    assert_eq!(
        app.take_actions(),
        vec![Action::Resolve {
            label: "Item album".into(),
            kind: SearchKind::Album,
            url: "https://www.youtube.com/watch?v=album".into()
        }]
    );
    app.handle_background(BackgroundEvent::Resolve {
        label: "Item album".into(),
        kind: SearchKind::Album,
        result: Ok(vec![search_item("one", SearchKind::Track)]),
    });
    assert!(app.search_is_collection);
    assert_eq!(app.search_title, "Item album");
    assert_eq!(
        app.status,
        "Colecao aberta: 1 faixa(s). A baixa tudo, Esc volta."
    );
    app.key(plain(KeyCode::Esc));
    assert_eq!(app.search_title, "RESULTADOS");
    assert!(!app.search_is_collection);
    app.key(plain(KeyCode::Esc));
    assert_eq!(app.status, "Nao ha uma pagina anterior nesta busca.");
    app.handle_background(BackgroundEvent::Resolve {
        label: "x".into(),
        kind: SearchKind::Track,
        result: Err("privado".into()),
    });
    assert_eq!(app.status, "Nao foi possivel abrir: privado");
}

#[test]
fn marked_results_are_prepared_from_the_top() {
    let mut app = test_app();
    app.screen = Screen::Search;
    app.search_results = vec![
        search_item("one", SearchKind::Track),
        search_item("two", SearchKind::Track),
        search_item("one", SearchKind::Track),
    ];
    press(&mut app, "a");
    assert!(app.selected_results.contains(2));
    press(&mut app, "d");
    assert_eq!(
        app.status,
        "Resolvendo e preparando 2 item(ns) para download..."
    );
    assert_eq!(
        app.take_actions(),
        vec![Action::Prepare {
            items: vec![
                search_item("one", SearchKind::Track),
                search_item("two", SearchKind::Track)
            ]
        }]
    );
}

#[test]
fn the_result_under_the_cursor_is_prepared_where_none_is_marked() {
    let mut app = test_app();
    app.screen = Screen::Search;
    app.search_results = vec![
        search_item("one", SearchKind::Track),
        search_item("two", SearchKind::Track),
    ];
    press(&mut app, "xxjd");
    assert_eq!(
        app.take_actions(),
        vec![Action::Prepare {
            items: vec![search_item("two", SearchKind::Track)]
        }]
    );
}

#[test]
fn nothing_is_prepared_without_results() {
    let mut app = test_app();
    press(&mut app, "1d");
    assert_eq!(app.status, "Nenhum resultado selecionado.");
    press(&mut app, "A");
    assert_eq!(
        app.status,
        "Abra um album/playlist ou selecione um resultado desse tipo para baixar tudo."
    );
    assert!(app.take_actions().is_empty());
}

#[test]
fn too_many_items_are_refused() {
    let mut app = test_app();
    app.screen = Screen::Search;
    app.search_is_collection = true;
    app.search_results = (0..501)
        .map(|n| search_item(&format!("id{n}"), SearchKind::Track))
        .collect();
    press(&mut app, "A");
    assert_eq!(app.status, "Selecao excede o limite de 500 faixas.");
    assert!(!app.busy);
    assert!(app.take_actions().is_empty());
}

fn request(id: &str) -> DownloadRequest {
    DownloadRequest {
        job_id: format!("youtube-{id}"),
        items: vec![search_item(id, SearchKind::Track)],
        album: None,
    }
}

#[test]
fn requests_are_handed_over_one_at_a_time() {
    let mut app = test_app();
    app.busy = true;
    app.handle_background(BackgroundEvent::DownloadTools(Prepared::Ready(vec![
        request("one"),
        request("two"),
        request("one"),
    ])));
    assert!(!app.busy);
    assert_eq!(app.screen, Screen::Downloads);
    assert_eq!(
        app.take_actions(),
        vec![Action::Enqueue {
            request: request("one"),
            title: "Item one".into()
        }]
    );
    app.enqueue_finished("youtube-one".into(), "Item one".into(), Ok(()));
    assert_eq!(
        app.take_actions(),
        vec![
            Action::StoreJob {
                job_id: "youtube-one".into()
            },
            Action::Enqueue {
                request: request("two"),
                title: "Item two".into()
            }
        ]
    );
    app.enqueue_finished(
        "youtube-two".into(),
        "Item two".into(),
        Err("fila cheia".into()),
    );
    assert_eq!(app.status, "Falha ao enfileirar: fila cheia");
    assert!(app.take_actions().is_empty());
    assert!(app.waiting.is_empty());
    assert_eq!(app.jobs.len(), 1);
    assert_eq!(app.jobs[0].state, "na fila");
}

#[test]
fn a_finished_job_can_be_asked_for_again() {
    let mut app = test_app();
    app.service = true;
    app.handle_download(DownloadEvent::Queued {
        job_id: "youtube-one".into(),
        title: "Item one".into(),
    });
    app.handle_download(DownloadEvent::Failed {
        job_id: "youtube-one".into(),
        error: "rede".into(),
    });
    app.take_actions();
    app.waiting = vec![request("one")];
    app.send_requests();
    assert!(app.jobs.is_empty());
    assert_eq!(app.take_actions().len(), 1);
}

#[test]
fn nothing_is_sent_without_a_service() {
    let mut app = test_app();
    app.waiting = vec![request("one"), request("two")];
    app.send_requests();
    assert_eq!(app.status, "Servico de downloads indisponivel.");
    assert!(app.waiting.is_empty());
    assert!(app.take_actions().is_empty());
}

#[test]
fn preparation_can_fail_in_two_ways() {
    let mut app = test_app();
    app.busy = true;
    app.handle_background(BackgroundEvent::DownloadTools(Prepared::Failed(
        "sem rede".into(),
    )));
    assert_eq!(app.status, "Bootstrap falhou: sem rede");
    assert!(!app.busy);
    app.handle_background(BackgroundEvent::DownloadTools(Prepared::ServiceFailed(
        "sem espaco".into(),
    )));
    assert_eq!(app.status, "Falha ao iniciar downloads: sem espaco");
    assert!(!app.service);
}

#[test]
fn jobs_go_through_their_states() {
    let mut app = test_app();
    app.handle_download(DownloadEvent::Queued {
        job_id: "j".into(),
        title: "T".into(),
    });
    app.handle_download(DownloadEvent::Downloading { job_id: "j".into() });
    assert_eq!(app.jobs[0].state, "baixando");
    app.handle_download(DownloadEvent::Converting {
        job_id: "j".into(),
        current: 1,
        total: 2,
    });
    assert_eq!(app.jobs[0].state, "convertendo 1/2");
    app.handle_download(DownloadEvent::Cancelled { job_id: "j".into() });
    assert_eq!(app.jobs[0].state, "cancelado");
    app.handle_download(DownloadEvent::Failed {
        job_id: "j".into(),
        error: "fim".into(),
    });
    assert_eq!(app.jobs[0].state, "erro");
    assert_eq!(app.jobs[0].error.as_deref(), Some("fim"));
    assert_eq!(app.db.job_rows()[0].state, "erro");
    app.handle_download(DownloadEvent::Downloading {
        job_id: "unknown".into(),
    });
    assert_eq!(app.jobs.len(), 1);
}

#[test]
fn a_finished_album_is_in_the_library() {
    let mut app = test_app();
    let (album, tracks) = album_drafts("record", &["One", "Two"]);
    app.handle_download(DownloadEvent::Queued {
        job_id: "j".into(),
        title: "Record".into(),
    });
    app.handle_download(DownloadEvent::Completed {
        job_id: "j".into(),
        tracks,
        album: Some(album),
    });
    assert_eq!(app.jobs[0].state, "concluido");
    assert_eq!(app.albums.len(), 1);
    assert_eq!(app.albums[0].track_count, 2);
    assert!(app.library.is_empty());
}

#[test]
fn finished_tracks_that_clash_end_in_an_error() {
    let mut app = test_app();
    let (_, tracks) = album_drafts("record", &["One"]);
    let mut clash = tracks[0].clone();
    clash.path = "/tmp/elsewhere.opus".into();
    app.handle_download(DownloadEvent::Queued {
        job_id: "j".into(),
        title: "Record".into(),
    });
    app.handle_download(DownloadEvent::Completed {
        job_id: "j".into(),
        tracks: vec![tracks[0].clone(), clash],
        album: None,
    });
    assert_eq!(app.jobs[0].state, "erro");
    assert_eq!(app.db.count_tracks(), 1);
}

#[test]
fn old_jobs_give_way() {
    let mut app = test_app();
    for n in 0..513 {
        app.handle_download(DownloadEvent::Queued {
            job_id: format!("j{n}"),
            title: "T".into(),
        });
    }
    assert_eq!(app.jobs.len(), 512);
    assert_eq!(app.jobs[0].id, "j1");
}

#[test]
fn a_job_can_be_cancelled() {
    let mut app = test_app();
    app.handle_download(DownloadEvent::Queued {
        job_id: "j".into(),
        title: "T".into(),
    });
    app.take_actions();
    press(&mut app, "4c");
    assert!(app.take_actions().is_empty());
    app.service = true;
    press(&mut app, "c");
    assert_eq!(
        app.take_actions(),
        vec![Action::Cancel {
            job_id: "j".into(),
            title: "T".into()
        }]
    );
    app.cancel_finished("T", true);
    assert_eq!(app.status, "Cancelando T...");
}

#[test]
fn importing_asks_for_a_folder_and_takes_its_files_in() {
    let mut app = test_app();
    press(&mut app, "I /music ");
    app.key(plain(KeyCode::Enter));
    assert_eq!(app.status, "Indexando /music...");
    assert_eq!(
        app.take_actions(),
        vec![Action::Import {
            root: "/music".into()
        }]
    );
    app.handle_background(BackgroundEvent::Import {
        root: FoundPath::of("/music"),
        files: Ok(vec![
            FoundPath::of("/music/a.opus"),
            FoundPath::of("/music/b.txt"),
        ]),
    });
    assert_eq!(app.status, "1 arquivo(s) indexado(s).");
    assert_eq!(app.library.len(), 1);
    assert_eq!(app.take_actions(), vec![Action::StoreTracks]);
    app.handle_background(BackgroundEvent::Import {
        root: FoundPath::of("/nothing"),
        files: Err("pasta inexistente".into()),
    });
    assert_eq!(app.status, "Importacao falhou: pasta inexistente");
}

#[test]
fn a_track_is_put_into_a_playlist() {
    let mut app = test_app();
    app.db.upsert_track(&draft("one", "One", "Artist")).unwrap();
    app.refresh_library();
    press(&mut app, "PFoco");
    app.key(plain(KeyCode::Enter));
    assert_eq!(app.status, "Adicionada a playlist Foco.");
    assert_eq!(app.playlists.len(), 1);
    assert_eq!(app.playlists[0].2, 1);
    press(&mut app, "P Foco ");
    app.key(plain(KeyCode::Enter));
    assert_eq!(app.playlists.len(), 1);
    assert_eq!(app.playlists[0].2, 2);
}

#[test]
fn an_unknown_track_cannot_be_put_into_a_playlist() {
    let mut app = test_app();
    app.input = "Foco".into();
    app.input_mode = InputMode::Playlist { track_id: 7 };
    app.submit_playlist(7);
    assert_eq!(
        app.status,
        "Falha na playlist: FOREIGN KEY constraint failed: Error code 787: Foreign key constraint failed"
    );
}

fn playing_app() -> App {
    let mut app = test_app();
    seed_playlist(&mut app, "Mix", &["One", "Two", "Three"]);
    app.refresh_library();
    app.key(plain(KeyCode::Enter));
    app.take_actions();
    app.play_finished(Ok(48000));
    app
}

#[test]
fn playing_shows_the_track_and_its_length() {
    let app = playing_app();
    assert_eq!(app.current_index, Some(0));
    assert_eq!(app.status, "Tocando: Playlist Artist - One");
    let panel = app.player_panel();
    assert_eq!(panel.title, " NOW PLAYING / PLAYING ");
    assert_eq!(words(&panel.track), " ▶ One  /  Playlist Artist");
    assert_eq!(panel.time, "00:00 / 01:00");
    assert_eq!(panel.whole, 60);
    assert_eq!(
        panel.sound,
        " volume  80%   shuffle off   repeat off     underruns 0"
    );
}

#[test]
fn pausing_and_going_on() {
    let mut app = playing_app();
    press(&mut app, " ");
    assert_eq!(app.status, "Reproducao pausada.");
    assert_eq!(app.player.state(), PlaybackState::Paused);
    assert_eq!(app.take_actions(), vec![Action::Pause { paused: true }]);
    press(&mut app, "p");
    assert_eq!(app.status, "Reproducao retomada.");
    assert_eq!(app.take_actions(), vec![Action::Pause { paused: false }]);
}

#[test]
fn pressing_enter_on_the_track_at_hand_pauses_it() {
    let mut app = playing_app();
    press(&mut app, "3");
    app.key(plain(KeyCode::Enter));
    assert_eq!(app.take_actions(), vec![Action::Pause { paused: true }]);
}

#[test]
fn stopping_frees_the_player() {
    let mut app = playing_app();
    press(&mut app, "z");
    assert_eq!(app.status, "Reproducao parada.");
    assert_eq!(app.current_index, None);
    assert_eq!(app.take_actions(), vec![Action::Stop]);
    press(&mut app, "z");
    assert_eq!(app.status, "Nenhuma musica esta tocando.");
    assert!(app.take_actions().is_empty());
}

#[test]
fn next_and_previous_stay_in_the_queue() {
    let mut app = playing_app();
    press(&mut app, "b");
    assert_eq!(app.current_index, Some(0));
    app.play_finished(Ok(48000));
    press(&mut app, "nn");
    app.play_finished(Ok(48000));
    assert_eq!(app.current_index, Some(2));
    press(&mut app, "n");
    assert_eq!(app.current_index, None);
    press(&mut app, "n");
    assert_eq!(app.current_index, Some(0));
}

#[test]
fn repeating_all_begins_anew() {
    let mut app = playing_app();
    press(&mut app, "rr");
    assert_eq!(app.repeat, RepeatMode::All);
    assert_eq!(app.status, "Repeat: todas.");
    press(&mut app, "nnn");
    assert_eq!(app.current_index, Some(0));
}

#[test]
fn repeating_one_plays_the_same_track() {
    let mut app = playing_app();
    app.repeat = RepeatMode::One;
    app.handle_player(PlayerEvent::Ended, 0);
    assert_eq!(app.current_index, Some(0));
    assert_eq!(app.take_actions().len(), 1);
}

#[test]
fn shuffling_goes_where_chance_says() {
    let mut app = playing_app();
    press(&mut app, "s");
    assert_eq!(app.status, "Shuffle: on.");
    app.press(plain(KeyCode::Char('n')), 2);
    assert_eq!(app.current_index, Some(2));
    app.handle_player(PlayerEvent::Ended, 1);
    assert_eq!(app.current_index, Some(1));
    for _ in 0..100 {
        assert!(app.roll() < 3);
        app.next_track();
        assert!(app.current_index.unwrap() < 3);
    }
}

#[test]
fn the_end_of_the_queue_is_silent() {
    let mut app = playing_app();
    app.activate_queue_track(1);
    app.play_finished(Ok(48000));
    app.take_actions();
    app.handle_player(PlayerEvent::Ended, 0);
    assert_eq!(app.current_index, Some(2));
    assert_eq!(
        app.take_actions(),
        vec![Action::Play {
            path: app.queue[2].path.clone()
        }]
    );
    app.play_finished(Ok(48000));
    app.handle_player(PlayerEvent::Ended, 0);
    assert_eq!(app.current_index, None);
    assert_eq!(app.take_actions(), vec![Action::Stop]);
}

#[test]
fn a_fault_of_the_player_stops_it() {
    let mut app = playing_app();
    app.handle_player(PlayerEvent::Error("dispositivo perdido".into()), 0);
    assert_eq!(app.status, "dispositivo perdido");
    assert_eq!(app.current_index, None);
    assert!(!app.player.is_active());
}

#[test]
fn a_file_that_cannot_be_played_is_reported() {
    let mut app = playing_app();
    press(&mut app, "n");
    app.play_finished(Err("arquivo ausente".into()));
    assert_eq!(app.status, "Nao foi possivel tocar: arquivo ausente");
    assert_eq!(app.current_index, None);
}

#[test]
fn arrows_seek_and_signs_change_the_volume() {
    let mut app = playing_app();
    app.player.observe(48000 * 30, 0);
    app.key(plain(KeyCode::Right));
    app.key(plain(KeyCode::Left));
    press(&mut app, "+-");
    assert_eq!(
        app.take_actions(),
        vec![
            Action::Seek { millis: 35000 },
            Action::Seek { millis: 25000 },
            Action::Volume { percent: 85 },
            Action::Volume { percent: 80 }
        ]
    );
}

#[test]
fn taking_a_track_out_of_the_queue_keeps_the_one_at_hand() {
    let mut app = playing_app();
    press(&mut app, "nn3");
    app.queue_index = 0;
    press(&mut app, "x");
    assert_eq!(app.current_index, Some(1));
    assert_eq!(titles(&app.queue).len(), 2);
    assert_eq!(app.db.load_queue().len(), 2);
    assert_eq!(app.db.count_tracks(), 3);
    app.queue_index = 1;
    app.key(plain(KeyCode::Delete));
    assert_eq!(app.current_index, None);
}

#[test]
fn suggestions_ask_for_the_artists_of_the_library_once() {
    let mut app = test_app();
    press(&mut app, "6");
    assert_eq!(
        app.status,
        "Adicione musicas a biblioteca para receber sugestoes."
    );
    for (n, artist) in ["A", "B", "A", "Desconhecido", "D"].iter().enumerate() {
        app.db
            .upsert_track(&draft(&format!("file{n}"), "T", artist))
            .unwrap();
    }
    press(&mut app, "26");
    assert_eq!(
        app.take_actions(),
        vec![Action::Suggest {
            queries: vec!["A".into(), "B".into(), "file3".into()]
        }]
    );
    app.handle_background(BackgroundEvent::Suggestions(Err("sem rede".into())));
    assert_eq!(app.status, "Sugestoes falharam: sem rede");
    press(&mut app, "26");
    assert!(app.take_actions().is_empty());
    press(&mut app, "R");
    assert_eq!(app.take_actions().len(), 1);
}

#[test]
fn suggestions_leave_out_what_is_there() {
    let mut app = test_app();
    let mut owned = draft("one", "One", "A");
    owned.provider = Some("youtube".into());
    owned.source_id = Some("one".into());
    app.db.upsert_track(&owned).unwrap();
    app.screen = Screen::Suggestions;
    let mut found = vec![
        search_item("one", SearchKind::Track),
        search_item("album", SearchKind::Album),
        search_item("two", SearchKind::Track),
        search_item("two", SearchKind::Track),
    ];
    for n in 0..30 {
        found.push(search_item(&format!("id{n}"), SearchKind::Track));
    }
    app.handle_background(BackgroundEvent::Suggestions(Ok(found)));
    assert_eq!(app.suggestions.len(), 20);
    assert_eq!(app.suggestions[0].source_id, "two");
    assert_eq!(
        app.status,
        "20 sugestao(oes). x marca, d baixa, R atualiza."
    );
    press(&mut app, "jx d");
    assert_eq!(
        app.take_actions(),
        vec![Action::Prepare {
            items: vec![search_item("id0", SearchKind::Track)]
        }]
    );
}

#[test]
fn marking_everything_and_one_less() {
    let mut marks = Selection::all(3);
    marks.toggle(1);
    assert!(marks.contains(0));
    assert!(!marks.contains(1));
    marks.toggle(1);
    assert!(marks.contains(1));
    assert!(!marks.is_empty());
    assert!(Selection::new().is_empty());
}

#[test]
fn results_show_their_kind_in_capitals() {
    let mut app = test_app();
    app.screen = Screen::Search;
    app.search_title = "água".into();
    app.search_results = vec![search_item("one", SearchKind::Track)];
    app.selected_results.toggle(0);
    let panel = app.panel();
    assert_eq!(panel.title, " SEARCH / ÁGUA / 1 ITEMS ");
    assert_eq!(
        words(&panel.rows[0]),
        "◆ FAIXA   Item one  /  Artist  03:00"
    );
    assert_eq!(panel.rows[0].spans[1].tone, Tone::Muted);
}

#[test]
fn jobs_show_their_state_and_error() {
    let mut app = test_app();
    app.handle_download(DownloadEvent::Queued {
        job_id: "j".into(),
        title: "T".into(),
    });
    app.handle_download(DownloadEvent::Failed {
        job_id: "j".into(),
        error: "rede".into(),
    });
    app.screen = Screen::Downloads;
    let panel = app.panel();
    assert_eq!(panel.title, " TRANSFERS / 1 JOBS ");
    assert_eq!(
        panel.hint,
        "[c] cancel   1 network worker(s)   1 conversion thread"
    );
    assert_eq!(words(&panel.rows[0]), "ERRO        T  /  rede");
    assert_eq!(panel.rows[0].spans[0].tone, Tone::Alarm);
}

#[test]
fn library_and_queue_show_what_is_played() {
    let mut app = playing_app();
    assert_eq!(
        words(&app.panel().rows[0]),
        "▶ TRACK   1  One  /  Playlist Artist"
    );
    press(&mut app, "p3");
    let panel = app.panel();
    assert_eq!(panel.title, " PLAY QUEUE / 3 TRACKS ");
    assert_eq!(words(&panel.rows[0]), "Ⅱ   1  One  /  Playlist Artist");
    assert_eq!(words(&panel.rows[1]), "    2  Three  /  Playlist Artist");
}

#[test]
fn the_context_counts_tracks_and_jobs() {
    let mut app = test_app();
    seed_album(&mut app, "record", &["One", "Two"]);
    app.refresh_library();
    app.handle_download(DownloadEvent::Queued {
        job_id: "j".into(),
        title: "T".into(),
    });
    let rows = app.context();
    assert_eq!(words(&rows[2]), "library          2");
    assert_eq!(words(&rows[4]), "active jobs      1");
    assert_eq!(words(&rows[9]), "[SPACE/P] pause / resume");
}

#[test]
fn the_status_line_shows_what_is_typed() {
    let mut app = test_app();
    assert_eq!(
        words(&app.status_row()),
        " READY  Pronto. / busca musica, ? mostra ajuda.   [?] commands"
    );
    press(&mut app, "Iabc");
    assert_eq!(words(&app.status_row()), " IMPORT  abc█   [?] commands");
}

#[test]
fn the_header_offers_the_way_back() {
    let mut app = test_app();
    assert!(!words(&app.navigation()).contains("ESC BACK"));
    seed_album(&mut app, "record", &["One"]);
    app.refresh_library();
    app.key(plain(KeyCode::Enter));
    assert!(words(&app.navigation()).contains("ESC BACK"));
    assert_eq!(app.navigation().spans[2].tone, Tone::Key);
}

#[test]
fn help_and_notice_name_their_keys() {
    let help = help_rows();
    assert_eq!(words(&help[2]), "  SPACE / p    pause or resume the active track");
    let notice = notice_rows();
    assert_eq!(words(&notice[6]), "[ENTER] ACCEPT    [Q / ESC] EXIT");
}

#[test]
fn the_player_prefers_the_device_it_was_given() {
    let app = App::new(Some("hw:1".into()), false, 1, LibraryDb::in_memory());
    assert_eq!(app.player.preferred_device.as_deref(), Some("hw:1"));
    let app = App::new(None, false, 1, LibraryDb::in_memory());
    assert_eq!(app.player.preferred_device, None);
}

#[test]
fn saving_a_page_leaves_the_cursor_where_it_is() {
    let mut app = test_app();
    app.search_results = vec![
        search_item("one", SearchKind::Track),
        search_item("two", SearchKind::Track),
    ];
    app.search_index = 1;
    app.save_search_page();
    assert_eq!(app.search_index, 1);
    assert_eq!(app.search_history[0].index, 1);
}

#[test]
fn chance_chooses_from_the_whole_queue() {
    let mut app = test_app();
    assert_eq!((app.roll_choices(), app.roll()), (0, 0));
    app.queue = vec![track(1), track(2), track(3)];
    assert_eq!(app.roll_choices(), 3);
    let mut drawn = [false; 3];
    for _ in 0..1000 {
        drawn[app.roll()] = true;
    }
    assert_eq!(drawn, [true; 3]);
}
