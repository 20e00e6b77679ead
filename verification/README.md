# EzMusic

A music downloader and player for the terminal. The library in `src/` holds the rules of the program
and is verified with Verus; the program in `app/` performs what the library asks for: files,
processes, the network, SQLite, sound and the terminal. Three things are computed in `app/` too and
are not verified: the resampler, which works on floating-point samples, and reading the
configuration file and the release listings into values.

## Library

| Module | What it states |
| --- | --- |
| `config` | where files lie, the settings and their limits |
| `model` | items, tracks, albums, requests and events |
| `db` | the catalogue: tracks, albums, playlists, queue, imports and jobs |
| `order`, `like` | the order of listings and the patterns of filters |
| `source`, `chapters`, `json` | what the extractor is asked and what its answers mean |
| `seconds` | points in time as doubles, held by their bits |
| `gather` | from chosen items to download requests |
| `download`, `pipeline` | the books of the download service, and one job step by step |
| `tools`, `install` | helper programs: judging, fetching, activating and rolling back |
| `process`, `storage` | limits for child processes and for disk space |
| `player` | the sample buffer, the player's state and the decoder's decisions |
| `tui` | the interface: keys, workspaces, playback, and what is shown |
| `report` | what the commands print |
| `text`, `scan`, `paths`, `selection` | texts, paths and sets of rows |

The interface never performs anything itself. A key or an event changes the state of `tui::App`,
which collects what has to be done outside as a list of `tui::Action`; the program performs them and
hands the outcome back. Downloads and installations work alike: `pipeline::Job` and
`install::Install` take a reply and ask for the next step.

Proof functions whose names begin with `lemma_` and that are public state what holds of the library
as a whole, for instance that importing a folder twice changes nothing
(`db::import::lemma_import_again`), that one playlist and no other bears a name
(`db::playlists::lemma_one_playlist_of_a_name`), that no operation asks for more items than it may
(`gather::lemma_operation_bounded`), that a track appears in the library only whole
(`pipeline::lemma_published_whole`), or that a failed update leaves the old program in place
(`install::lemma_rollback`).

## Paths

A path is held as its text. A folder or file that was found on disk and is not Unicode is told apart
by `db::import::FoundPath`; the program's own folders have to be Unicode.

## What is taken on trust

Contracts of outside functions stand in `text` (properties of characters, case, and `String`), `json`
(`serde_json`), `source` (`url`), `tools` (`sha2`), `config` (`directories`) and `tui::playback`
(`rand`). Each is documented where it stands.
