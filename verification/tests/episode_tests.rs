use rusttv::certainty::Certainty;
use rusttv::episode::{Episode, ParseError};

fn allowed_exts() -> Vec<String> {
    vec!["mkv", "mp4"].into_iter().map(String::from).collect()
}

fn make(path: &str, filename: &str, show: &str) -> Result<Episode, ParseError> {
    Episode::from(path, filename, show, Certainty::one(), &allowed_exts())
}

#[test]
fn valid_episode_exact() {
    let path = "./.testing/irrelevant.mkv";

    let expected = Episode {
        local_path: String::from(path),
        show_name: String::from("All My Circuits"),
        show_certainty: Certainty::one(),
        season_num: 1,
        episode_num: 2,
        ext: String::from("mkv"),
    };

    let actual = make(path, "S01 E02.mkv", "All My Circuits").unwrap();

    assert_eq!(actual, expected);
}

#[test]
fn valid_episode_fuzzy() {
    let path = "./.testing/irrelevant.mkv";

    for f in vec![
        "all.my.circuits.s01e02.1080p.mkv",
        "Calculon Has Amnesia - 1x02.mkv",
        "All.My.Circuits.S01E02.Christmas.Special.1080p.HDTV.H264-FTP[Morbotron.com].mkv",
    ] {
        let expected = Episode {
            local_path: String::from(path),
            show_name: String::from("All My Circuits"),
            show_certainty: Certainty::one(),
            season_num: 1,
            episode_num: 2,
            ext: String::from("mkv"),
        };

        let actual = make(path, f, "All My Circuits").unwrap();

        assert_eq!(actual, expected);
    }
}

#[test]
fn parse_marker_pattern_digits() {
    let ep = make("p", "Show.S01E02.1080p.mkv", "Show").unwrap();
    assert_eq!(ep.season_num, 1);
    assert_eq!(ep.episode_num, 2);
    assert_eq!(ep.ext, "mkv");
}

#[test]
fn parse_remote_filename_round_trip() {
    // Parsing the canonical remote filename gives the key back.
    let ep = make("p", "S07 E69.mkv", "Snakes").unwrap();
    let remote = ep.remote_filename();
    assert_eq!(remote, "S07E69.mkv");
    let again = make("q", &remote, "Snakes").unwrap();
    assert_eq!(again.season_num, 7);
    assert_eq!(again.episode_num, 69);
    assert_eq!(again.ext, "mkv");
}

#[test]
fn parse_numeric_pair_pattern() {
    let ep = make("p", "wild.adventures.1x01.mkv", "W").unwrap();
    assert_eq!(ep.season_num, 1);
    assert_eq!(ep.episode_num, 1);
    // The rightmost occurrence wins: "x01." then "01.10" makes the
    // later pair 01 x 10 the match.
    let ep = make("p", "wild.adventures.1x01.1080p.mkv", "W").unwrap();
    assert_eq!(ep.season_num, 1);
    assert_eq!(ep.episode_num, 10);
}

#[test]
fn parse_marker_with_unicode_separator() {
    // A no-break space between the markers counts as whitespace.
    let ep = make("p", "show S03\u{00A0}E04.mkv", "Show").unwrap();
    assert_eq!(ep.season_num, 3);
    assert_eq!(ep.episode_num, 4);
}

#[test]
fn parse_compact_triple_pattern() {
    let ep = make("p", "show - 102 something.mkv", "S").unwrap();
    assert_eq!(ep.season_num, 1);
    assert_eq!(ep.episode_num, 2);
}

#[test]
fn bad_filename_reported_before_extension() {
    // A file with an unparseable name and a disallowed extension reports
    // the filename failure, not the extension one.
    let r = make("p", "spam file.txt", "Show");
    assert_eq!(r.unwrap_err(), ParseError::BadFilename);
}

#[test]
fn bad_extension_after_successful_match() {
    let r = make("p", "show.S01E02.txt", "Show");
    assert_eq!(r.unwrap_err(), ParseError::BadExtension);
}

#[test]
fn remote_subpath_joins_show_and_filename() {
    let ep = make("p", "S01 E02.mkv", "All My Circuits").unwrap();
    assert_eq!(ep.remote_subpath(), "All My Circuits/S01E02.mkv");
}

#[test]
fn equality_ignores_path_and_certainty() {
    let a = Episode {
        local_path: String::from("a"),
        show_name: String::from("X"),
        show_certainty: Certainty::one(),
        season_num: 1,
        episode_num: 2,
        ext: String::from("mkv"),
    };
    let b = Episode {
        local_path: String::from("b"),
        show_name: String::from("X"),
        show_certainty: Certainty::tenth(),
        season_num: 1,
        episode_num: 2,
        ext: String::from("mkv"),
    };
    assert_eq!(a, b);
}

#[test]
fn parse_error_descriptions_distinct() {
    assert_ne!(
        ParseError::BadFilename.describe(),
        ParseError::BadExtension.describe()
    );
    assert_eq!(
        ParseError::BadExtension.describe(),
        "file extension is not permitted"
    );
}
