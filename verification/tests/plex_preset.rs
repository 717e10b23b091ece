use fscache::path::RelPath;
use fscache::path_map::PathMap;
use fscache::preset::{CacheAction, ProcessFilterPolicy, ProcessInfo};
use fscache::presets::cache_on_miss::CacheOnMiss;
use fscache::presets::plex_episode_prediction::{is_plex_playback_cmdline, PlexEpisodePrediction};
use fscache::presets::selection::{Preset, Selection};

fn make_preset() -> PlexEpisodePrediction {
    PlexEpisodePrediction::new(4, vec![], false)
}

fn transcoder(cmdline: &[u8]) -> ProcessInfo {
    ProcessInfo {
        pid: 0,
        name: Some("Plex Transcoder".into()),
        cmdline: Some(cmdline.to_vec()),
        ancestors: vec![],
    }
}

fn transcoder_no_cmdline() -> ProcessInfo {
    ProcessInfo {
        pid: 0,
        name: Some("Plex Transcoder".into()),
        cmdline: None,
        ancestors: vec![],
    }
}

fn other_process(name: &str) -> ProcessInfo {
    ProcessInfo {
        pid: 0,
        name: Some(name.into()),
        cmdline: Some(b"some\0args".to_vec()),
        ancestors: vec![],
    }
}

// Playback shapes are not filtered.

#[test]
fn playback_ssegment_not_filtered() {
    let cmdline = b"Plex Transcoder\0-i\0input.mkv\
        \0-f\0ssegment\0-segment_format\0mpegts\0media-%05d.ts";
    assert!(!make_preset().should_filter(&transcoder(cmdline)));
}

#[test]
fn playback_dash_not_filtered() {
    let cmdline = b"Plex Transcoder\0-i\0input.mkv\
        \0-progressurl\0http://127.0.0.1:32400/.../progress\
        \0-f\0dash\0manifest.mpd";
    assert!(!make_preset().should_filter(&transcoder(cmdline)));
}

#[test]
fn playback_mpegts_pipe_not_filtered() {
    // Direct-stream to pipe: real playback mode, no segment manifest.
    let cmdline = b"Plex Transcoder\0-i\0input.ts\
        \0-progressurl\0http://127.0.0.1:32400/.../progress\
        \0-f\0mpegts\0pipe:1";
    assert!(!make_preset().should_filter(&transcoder(cmdline)));
}

#[test]
fn playback_dash_with_secondary_null_not_filtered() {
    // Subtitle extraction adds -f null; streaming format takes precedence.
    let cmdline = b"Plex Transcoder\0-i\0input.mkv\
        \0-f\0dash\0manifest.mpd\
        \0-map\x000:2\0-f\0null\0-codec\0ass\0nullfile";
    assert!(!make_preset().should_filter(&transcoder(cmdline)));
}

// Detection and analysis shapes are filtered.

#[test]
fn detection_null_filtered() {
    let cmdline = b"Plex Transcoder\0-i\0input.mkv\0-vn\0-f\0null\0-";
    assert!(make_preset().should_filter(&transcoder(cmdline)));
}

#[test]
fn detection_chromaprint_filtered() {
    let cmdline = b"Plex Transcoder\0-i\0input.mkv\0-f\0chromaprint\0-";
    assert!(make_preset().should_filter(&transcoder(cmdline)));
}

#[test]
fn detection_flac_filtered() {
    // Credits detection: -f flac to Detection path, -progressurl present.
    let cmdline = b"Plex Transcoder\0-i\0input.mkv\
        \0-progressurl\0http://127.0.0.1:32400/.../progress\
        \0-codec:0\0flac\0-f\0flac\
        \0/dev/shm/Transcode/Detection/abc123\
        \0-f\0null\0nullfile";
    assert!(make_preset().should_filter(&transcoder(cmdline)));
}

#[test]
fn detection_image2_thumbnails_filtered() {
    let cmdline = b"Plex Transcoder\0-i\0input.mkv\
        \0-skip_frame\0noref\0-vf\0fps=0.5,scale=w=320:h=320\
        \0-f\0image2\0thumb-%05d.jpeg";
    assert!(make_preset().should_filter(&transcoder(cmdline)));
}

#[test]
fn unknown_format_filtered() {
    // Unknown purpose, no streaming muxer: not playback, so it is filtered.
    let cmdline = b"Plex Transcoder\0-i\0input.mkv\0-codec\0copy\0output.mkv";
    assert!(make_preset().should_filter(&transcoder(cmdline)));
}

#[test]
fn detection_output_path_unknown_format_filtered() {
    let cmdline = b"Plex Transcoder\0-i\0input.mkv\
        \0-f\0someunknownformat\
        \0/dev/shm/Transcode/Detection/abc123";
    assert!(make_preset().should_filter(&transcoder(cmdline)));
}

// A command line that cannot be read is filtered.

#[test]
fn no_cmdline_filtered() {
    assert!(make_preset().should_filter(&transcoder_no_cmdline()));
}

// Other processes are unaffected by the transcoder rule.

#[test]
fn other_process_not_filtered() {
    assert!(!make_preset().should_filter(&other_process("Plex Media Server")));
}

// The blocklist still applies.

#[test]
fn blocklist_blocks_scanner() {
    let preset = PlexEpisodePrediction::new(4, vec!["Plex Media Scanner".into()], false);
    assert!(preset.should_filter(&other_process("Plex Media Scanner")));
}

#[test]
fn allowlist_beats_blocklist() {
    let preset = PlexEpisodePrediction::new_with_process_policy(
        4,
        vec!["Plex Media Server".into()],
        vec!["Plex Media Server".into()],
        false,
    );
    assert!(!preset.should_filter(&other_process("Plex Media Server")));
    assert!(preset.should_filter(&other_process("Plex Media Scanner")));
}

#[test]
fn allowlist_does_not_bypass_transcoder_safety_filter() {
    let preset = PlexEpisodePrediction::new_with_process_policy(
        4,
        vec!["Plex Transcoder".into()],
        vec![],
        false,
    );
    let cmdline = b"Plex Transcoder\0-i\0input.mkv\0-vn\0-f\0null\0-";
    assert!(preset.should_filter(&transcoder(cmdline)));
}

#[test]
fn empty_format_option_is_no_playback() {
    assert!(!is_plex_playback_cmdline(b""));
    assert!(!is_plex_playback_cmdline(b"-f"));
    assert!(is_plex_playback_cmdline(b"-f\0dash"));
    assert!(!is_plex_playback_cmdline(b"-F\0dash"));
}

#[test]
fn streaming_takes_precedence_in_either_order() {
    assert!(is_plex_playback_cmdline(b"x\0-f\0null\0-f\0dash"));
    assert!(is_plex_playback_cmdline(b"x\0-f\0dash\0-f\0null"));
    assert!(!is_plex_playback_cmdline(b"x\0-f\0null\0-f\0null"));
}

fn season(names: &[&str]) -> PathMap<Vec<Vec<u8>>> {
    let mut tree = PathMap::new();
    let listing: Vec<Vec<u8>> = names.iter().map(|n| n.as_bytes().to_vec()).collect();
    tree.insert(RelPath::from_bytes(b"tv/Show"), listing);
    tree
}

fn cached(actions: &[CacheAction]) -> Vec<Vec<u8>> {
    actions
        .iter()
        .flat_map(|a| match a {
            CacheAction::Cache(paths) => paths.iter().map(|p| p.to_bytes()).collect::<Vec<_>>(),
        })
        .collect()
}

#[test]
fn miss_caches_file_and_following_episodes() {
    let preset = PlexEpisodePrediction::new(2, vec![], false);
    let tree = season(&[
        "Show.S01E03.mkv",
        "Show.S01E01.mkv",
        "Show.S01E04.mkv",
        "Show.S01E02.mkv",
    ]);
    let file = RelPath::from_bytes(b"tv/Show/Show.S01E01.mkv");
    let got = cached(&preset.on_miss(&file, &tree));
    assert_eq!(
        got,
        vec![
            b"tv/Show/Show.S01E01.mkv".to_vec(),
            b"tv/Show/Show.S01E02.mkv".to_vec(),
            b"tv/Show/Show.S01E03.mkv".to_vec(),
        ]
    );
    assert!(cached(&preset.on_hit(&file, &tree)).is_empty());
    let rolling = PlexEpisodePrediction::new(2, vec![], true);
    assert_eq!(cached(&rolling.on_hit(&file, &tree)), got);
    assert_eq!(preset.deduplicate_key(&file).to_bytes(), b"tv/Show".to_vec());
}

#[test]
fn cache_on_miss_caches_only_the_file() {
    let preset = CacheOnMiss::new(vec!["cat".into()]);
    let file = RelPath::from_bytes(b"movies/Movie.mkv");
    assert_eq!(cached(&preset.on_miss(&file)), vec![b"movies/Movie.mkv".to_vec()]);
    assert!(preset.on_hit(&file).is_empty());
    assert_eq!(preset.name(), "cache_on_miss");
    assert!(preset.should_filter(&other_process("cat")));
    assert!(!preset.should_filter(&other_process("vlc")));
}

#[test]
fn blocked_ancestor_blocks_process() {
    let mut info = other_process("worker");
    info.ancestors = vec!["systemd".into(), "Plex Media Scanner".into()];
    assert!(info.is_blocked_by(&vec!["Plex Media Scanner".to_string()]));
    assert!(!info.is_blocked_by(&vec!["Plex".to_string()]));
    let policy = ProcessFilterPolicy::new(vec![], vec!["systemd".into()]);
    assert!(policy.should_filter(&info));
}

#[test]
fn selection_falls_back_for_unknown_names() {
    let Selection::Made(plex) = Preset::select("plex-episode-prediction", 4, vec![], false) else {
        panic!("known name");
    };
    assert!(matches!(plex, Preset::PlexEpisodePrediction(_)));
    let known = Preset::select("cache-on-miss", 4, vec![], false);
    assert!(matches!(known, Selection::Made(Preset::CacheOnMiss(_))));
    let Selection::Made(plain) = Preset::select("episode-prediction", 4, vec![], false) else {
        panic!("known name");
    };
    assert!(!plain.should_filter(&transcoder_no_cmdline()));
    assert_eq!(plain.lookahead(false), Some(4));
    assert!(matches!(Preset::select("prefetch", 4, vec![], false), Selection::Prefetch));
    let Selection::Fallback(other) = Preset::select("nonsense", 4, vec![], false) else {
        panic!("unknown name");
    };
    assert!(matches!(other, Preset::PlexEpisodePrediction(_)));
    assert!(other.should_filter(&transcoder_no_cmdline()));
}
