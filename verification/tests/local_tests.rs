use rusttv::local::{DirEntry, EpisodeFile, FailureAction, LocalReader, ReadError, RootListing};
use rusttv::resolver::{BasicResolver, Resolver};
use rusttv::strsim::StrsimResolver;

fn tv_shows() -> Vec<String> {
    vec![
        "The Wild Adventures of the Abyssal Horror",
        "Abyssal Horror-chan Gets a Girlfriend",
        "Snakes are our Friends (2010)",
    ]
    .into_iter()
    .map(String::from)
    .collect()
}

fn allowed_exts() -> Vec<String> {
    vec!["mkv", "mp4"].into_iter().map(String::from).collect()
}

fn resolver() -> Resolver {
    Resolver::Basic(BasicResolver::Strsim(StrsimResolver::new(&tv_shows())))
}

fn reader_skip() -> LocalReader {
    LocalReader::new(resolver(), allowed_exts(), FailureAction::Skip)
}

fn reader_abort() -> LocalReader {
    LocalReader::new(resolver(), allowed_exts(), FailureAction::Abort)
}

fn named(prefix: &str, dir: &str, file: &str) -> EpisodeFile {
    EpisodeFile::Named {
        path: format!("{}/{}/{}", prefix, dir, file),
        name: String::from(file),
    }
}

fn show_dir(prefix: &str, dir: &str, files: Vec<&str>) -> DirEntry {
    DirEntry::ShowDir {
        raw_name: String::from(dir),
        files: files.into_iter().map(|f| named(prefix, dir, f)).collect(),
    }
}

// The same library tree in both tests: two resolvable shows with one
// valid episode each, one root-level plain file, one junk file inside a
// resolvable show, and one unresolvable show folder.
fn setup_some_invalid(prefix: &str) -> RootListing {
    RootListing::Entries(vec![
        show_dir(
            prefix,
            "The Wild Adventures of abyssal horror",
            vec!["wild.adventures.abyssal.horror.1x01.1080p.mkv", "spam file.txt"],
        ),
        show_dir(prefix, "Snakes are our Friends (2010)", vec!["S07 E69.mkv"]),
        DirEntry::File,
        show_dir(prefix, "Totally non-existent show", vec!["S01 E01.mkv"]),
    ])
}

#[test]
fn read_local_skip_invalid_shows() {
    let root = setup_some_invalid("./.testing/local-skip-invalid");

    let result = reader_skip().read_local(&root).unwrap();
    assert_eq!(result.len(), 2);
}

#[test]
fn read_local_abort_on_invalid() {
    let root = setup_some_invalid("./.testing/local-abort-invalid");

    let expected = ReadError::Aborted;
    let actual = reader_abort().read_local(&root).unwrap_err();
    assert_eq!(actual, expected);
}

#[test]
fn skip_scoped_per_file_within_show() {
    // One bad file inside a resolved show drops only that file.
    let root = RootListing::Entries(vec![show_dir(
        "p",
        "Snakes are our Friends (2010)",
        vec!["S01 E01.mkv", "notes.txt", "S01 E02.mkv"],
    )]);
    let eps = reader_skip().read_local(&root).unwrap();
    assert_eq!(eps.len(), 2);
    assert_eq!(eps[0].episode_num, 1);
    assert_eq!(eps[1].episode_num, 2);
}

#[test]
fn abort_discards_episodes_from_earlier_folders() {
    // A later folder's failure under Abort surfaces nothing at all.
    let root = RootListing::Entries(vec![
        show_dir("p", "Snakes are our Friends (2010)", vec!["S01 E01.mkv"]),
        show_dir("p", "Totally non-existent show", vec!["S01 E01.mkv"]),
    ]);
    let r = reader_abort().read_local(&root);
    assert_eq!(r.unwrap_err(), ReadError::Aborted);
}

#[test]
fn abort_on_bad_extension_among_valid_files() {
    // One disallowed extension among valid files in the same show stops
    // the whole scan, and nothing is surfaced.
    let root = RootListing::Entries(vec![show_dir(
        "p",
        "Snakes are our Friends (2010)",
        vec!["S01 E01.mkv", "S01 E05.txt", "S01 E02.mkv"],
    )]);
    let r = reader_abort().read_local(&root);
    assert_eq!(r.unwrap_err(), ReadError::Aborted);
}

#[test]
fn unreadable_root_is_fatal() {
    let r = reader_skip().read_local(&RootListing::Unreadable);
    assert_eq!(r.unwrap_err(), ReadError::Fatal);
}

#[test]
fn unreadable_show_folder_is_skipped() {
    let root = RootListing::Entries(vec![
        DirEntry::UnreadableDir,
        show_dir("p", "Snakes are our Friends (2010)", vec!["S01 E01.mkv"]),
    ]);
    let eps = reader_skip().read_local(&root).unwrap();
    assert_eq!(eps.len(), 1);
}

#[test]
fn bad_path_drops_whole_show_folder() {
    // An unreadable entry inside a show folder drops the folder, even
    // files already collected from it, but not the scan.
    let root = RootListing::Entries(vec![
        DirEntry::ShowDir {
            raw_name: String::from("Snakes are our Friends (2010)"),
            files: vec![
                named("p", "Snakes are our Friends (2010)", "S01 E01.mkv"),
                EpisodeFile::BadPath,
            ],
        },
        show_dir("p", "Abyssal Horror-chan Gets a Girlfriend", vec!["S02 E03.mkv"]),
    ]);
    let eps = reader_skip().read_local(&root).unwrap();
    assert_eq!(eps.len(), 1);
    assert_eq!(eps[0].show_name, "Abyssal Horror-chan Gets a Girlfriend");
}

#[test]
fn resolved_show_uses_canonical_name() {
    let root = RootListing::Entries(vec![show_dir(
        "p",
        "The Wild Adventures of abyssal horror",
        vec!["wild.adventures.1x01.mkv"],
    )]);
    let eps = reader_skip().read_local(&root).unwrap();
    assert_eq!(eps.len(), 1);
    assert_eq!(eps[0].show_name, "The Wild Adventures of the Abyssal Horror");
    assert_eq!(eps[0].season_num, 1);
    assert_eq!(eps[0].episode_num, 1);
}
