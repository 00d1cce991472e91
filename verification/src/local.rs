//! The local library scanner: walk a two-level listing of show folders
//! and their files, resolve each folder name to a canonical show, parse
//! each filename, and apply the configured failure policy.
//!
//! The scanner consumes a listing already read from disk: the walking
//! itself happens outside the core, which receives plain values.

use vstd::prelude::*;

use crate::certainty::Certainty;
use crate::episode::{contains_string, parse_spec, Episode, EpisodeView};
use crate::resolver::{admissible, res_view, Resolver};
use crate::sync::ep_views;

verus! {

/// A scan-terminating failure.
#[derive(Clone, Copy, Debug, PartialEq, Eq, Structural)]
pub enum ReadError {
    /// The failure policy stopped the scan; nothing is surfaced.
    Aborted,
    /// The library root itself could not be read.
    Fatal,
}

/// A failure scoped to one show folder.
#[derive(Debug)]
pub enum ReadShowError {
    /// The failure policy stopped the whole scan.
    Aborted,
    /// Something under the folder could not be read; the folder is
    /// skipped with a diagnostic.
    BadPath(String),
    /// The folder was skipped by policy.
    Skipped,
}

/// What to do when a folder cannot be resolved or a file cannot be
/// parsed.
#[derive(Clone, Copy, Debug, PartialEq, Eq, Structural)]
pub enum FailureAction {
    Abort,
    Skip,
}

/// One file found inside a show folder.
pub enum EpisodeFile {
    /// A readable file with its full path and its name.
    Named { path: String, name: String },
    /// An entry whose path could not be read as text.
    BadPath,
}

/// One entry found at the library root.
pub enum DirEntry {
    /// A non-directory entry: ignored.
    File,
    /// A show folder that could not be read: skipped with a diagnostic.
    UnreadableDir,
    /// A show folder with its raw name and its files.
    ShowDir { raw_name: String, files: Vec<EpisodeFile> },
}

/// The library root listing.
pub enum RootListing {
    /// The root itself could not be read.
    Unreadable,
    /// The root's entries.
    Entries(Vec<DirEntry>),
}

/// The outcome of scanning one show folder.
pub enum ShowOutcome {
    Eps(Seq<EpisodeView>),
    Skipped,
    BadPath,
    Aborted,
}

/// The episode value of a named, parsed file under a resolved show.
pub open spec fn file_ev(path: Seq<char>, name: Seq<char>, show: Seq<char>, cert: Certainty) -> EpisodeView {
    let t = parse_spec(name)->Some_0;
    EpisodeView {
        local_path: path,
        show_name: show,
        show_certainty: cert,
        season_num: t.0,
        episode_num: t.1,
        ext: t.2,
    }
}

/// What scanning the files of a resolved show yields, from index `i` on:
/// parsed episodes in order; a parse or extension failure follows the
/// policy (skip the file, or abort everything); an unreadable path drops
/// the whole folder.
pub open spec fn files_scan(
    files: Seq<EpisodeFile>,
    i: int,
    show: Seq<char>,
    cert: Certainty,
    exts: Seq<String>,
    action: FailureAction,
) -> ShowOutcome
    decreases files.len() - i,
{
    if i < 0 || i >= files.len() {
        ShowOutcome::Eps(Seq::empty())
    } else {
        match files[i] {
            EpisodeFile::BadPath => ShowOutcome::BadPath,
            EpisodeFile::Named { path, name } => {
                let parsed = parse_spec(name@);
                if parsed is Some && contains_string(exts, parsed->Some_0.2) {
                    match files_scan(files, i + 1, show, cert, exts, action) {
                        ShowOutcome::Eps(rest) => ShowOutcome::Eps(
                            seq![file_ev(path@, name@, show, cert)] + rest,
                        ),
                        other => other,
                    }
                } else {
                    match action {
                        FailureAction::Skip => files_scan(files, i + 1, show, cert, exts, action),
                        FailureAction::Abort => ShowOutcome::Aborted,
                    }
                }
            },
        }
    }
}

/// What scanning one show folder yields, given how its name resolved:
/// an unresolved name follows the policy for the whole folder.
pub open spec fn show_scan(
    out: Option<(Seq<char>, Certainty)>,
    files: Seq<EpisodeFile>,
    exts: Seq<String>,
    action: FailureAction,
) -> ShowOutcome {
    match out {
        None => match action {
            FailureAction::Skip => ShowOutcome::Skipped,
            FailureAction::Abort => ShowOutcome::Aborted,
        },
        Some((show, cert)) => files_scan(files, 0, show, cert, exts, action),
    }
}

/// Whether a root entry is a show folder.
pub open spec fn is_show_dir(e: DirEntry) -> bool {
    e is ShowDir
}

/// The raw folder name of a show entry.
pub open spec fn entry_raw_name(e: DirEntry) -> Seq<char> {
    match e {
        DirEntry::ShowDir { raw_name, .. } => raw_name@,
        _ => Seq::empty(),
    }
}

/// The entries of a root listing.
pub open spec fn root_entries(r: RootListing) -> Seq<DirEntry> {
    match r {
        RootListing::Unreadable => Seq::empty(),
        RootListing::Entries(es) => es@,
    }
}

/// What scanning the root entries from index `i` on yields, given the
/// resolution outcome of each entry: episodes of scanned folders in
/// order; a skipped or unreadable folder contributes nothing; an abort
/// discards everything, earlier folders included.
pub open spec fn scan_spec(
    entries: Seq<DirEntry>,
    outs: Seq<Option<(Seq<char>, Certainty)>>,
    i: int,
    exts: Seq<String>,
    action: FailureAction,
) -> Result<Seq<EpisodeView>, ReadError>
    decreases entries.len() - i,
{
    if i < 0 || i >= entries.len() {
        Ok(Seq::empty())
    } else {
        match entries[i] {
            DirEntry::File => scan_spec(entries, outs, i + 1, exts, action),
            DirEntry::UnreadableDir => scan_spec(entries, outs, i + 1, exts, action),
            DirEntry::ShowDir { raw_name, files } => {
                match show_scan(outs[i], files@, exts, action) {
                    ShowOutcome::Aborted => Err(ReadError::Aborted),
                    ShowOutcome::Eps(eps) => match scan_spec(entries, outs, i + 1, exts, action) {
                        Ok(rest) => Ok(eps + rest),
                        Err(e) => Err(e),
                    },
                    _ => scan_spec(entries, outs, i + 1, exts, action),
                }
            },
        }
    }
}

/// What reading the whole library yields: an unreadable root is fatal.
pub open spec fn read_local_spec(
    root: RootListing,
    outs: Seq<Option<(Seq<char>, Certainty)>>,
    exts: Seq<String>,
    action: FailureAction,
) -> Result<Seq<EpisodeView>, ReadError> {
    match root {
        RootListing::Unreadable => Err(ReadError::Fatal),
        RootListing::Entries(es) => scan_spec(es@, outs, 0, exts, action),
    }
}

/// Whether an executable show-folder result stands for a spec outcome.
pub open spec fn matches_show(r: Result<Vec<Episode>, ReadShowError>, o: ShowOutcome) -> bool {
    match r {
        Ok(v) => o matches ShowOutcome::Eps(e) && ep_views(v@) == e,
        Err(ReadShowError::Skipped) => o is Skipped,
        Err(ReadShowError::BadPath(_)) => o is BadPath,
        Err(ReadShowError::Aborted) => o is Aborted,
    }
}

/// Whether an executable scan result stands for a spec scan result.
pub open spec fn matches_scan(
    r: Result<Vec<Episode>, ReadError>,
    s: Result<Seq<EpisodeView>, ReadError>,
) -> bool {
    match (r, s) {
        (Ok(v), Ok(e)) => ep_views(v@) == e,
        (Err(a), Err(b)) => a == b,
        _ => false,
    }
}

/// Prefix a scan tail with already-collected episodes.
pub open spec fn combine(
    acc: Seq<EpisodeView>,
    rest: Result<Seq<EpisodeView>, ReadError>,
) -> Result<Seq<EpisodeView>, ReadError> {
    match rest {
        Ok(r) => Ok(acc + r),
        Err(e) => Err(e),
    }
}

proof fn lemma_take_push(
    full: Seq<Option<(Seq<char>, Certainty)>>,
    outs_old: Seq<Option<(Seq<char>, Certainty)>>,
    x: Option<(Seq<char>, Certainty)>,
    i: int,
)
    requires
        0 <= i,
        full.len() >= i + 1,
        outs_old.len() == i,
        full.take(i + 1) == outs_old.push(x),
    ensures
        full.take(i) == outs_old,
        full[i] == x,
{
    assert forall|j: int| 0 <= j < i implies full.take(i)[j] == outs_old[j] by {
        assert(full.take(i + 1)[j] == full[j]);
        assert(outs_old.push(x)[j] == outs_old[j]);
    }
    assert(full.take(i) =~= outs_old);
    assert(full.take(i + 1)[i] == full[i]);
    assert(outs_old.push(x)[i] == x);
}

/// Scans a two-level library listing with a resolver, an extension
/// allow-list, and a failure policy.
pub struct LocalReader {
    pub show_resolver: Resolver,
    pub allowed_exts: Vec<String>,
    pub on_failure: FailureAction,
}

impl LocalReader {
    /// Build a scanner.
    pub fn new(show_resolver: Resolver, allowed_exts: Vec<String>, on_failure: FailureAction) -> (r:
        LocalReader)
        ensures
            r.show_resolver == show_resolver,
            r.allowed_exts == allowed_exts,
            r.on_failure == on_failure,
    {
        LocalReader { show_resolver, allowed_exts, on_failure }
    }

    /// Scan one show folder: resolve its name, then parse its files
    /// under the failure policy.
    #[verifier::loop_isolation(false)]
    fn read_show(&self, raw_name: &String, files: &Vec<EpisodeFile>) -> (r: Result<
        Vec<Episode>,
        ReadShowError,
    >)
        ensures
            exists|out: Option<(Seq<char>, Certainty)>|
                #[trigger] admissible(self.show_resolver, raw_name@, out) && matches_show(
                    r,
                    show_scan(out, files@, self.allowed_exts@, self.on_failure),
                ),
    {
        let resolved = self.show_resolver.resolve(raw_name.as_str());
        let ghost out = res_view(resolved);
        let (show, cert) = match resolved {
            Some(sc) => sc,
            None => {
                match self.on_failure {
                    FailureAction::Skip => {
                        proof {
                            assert(admissible(self.show_resolver, raw_name@, out) && matches_show(
                                Err::<Vec<Episode>, ReadShowError>(ReadShowError::Skipped),
                                show_scan(out, files@, self.allowed_exts@, self.on_failure),
                            ));
                        }
                        return Err(ReadShowError::Skipped);
                    },
                    FailureAction::Abort => {
                        proof {
                            assert(admissible(self.show_resolver, raw_name@, out) && matches_show(
                                Err::<Vec<Episode>, ReadShowError>(ReadShowError::Aborted),
                                show_scan(out, files@, self.allowed_exts@, self.on_failure),
                            ));
                        }
                        return Err(ReadShowError::Aborted);
                    },
                }
            },
        };
        let ghost showv = show@;
        let mut eps: Vec<Episode> = Vec::new();
        let mut k: usize = 0;
        while k < files.len()
            invariant
                k <= files@.len(),
                files_scan(files@, 0, showv, cert, self.allowed_exts@, self.on_failure) == (
                match files_scan(files@, k as int, showv, cert, self.allowed_exts@, self.on_failure) {
                    ShowOutcome::Eps(rest) => ShowOutcome::Eps(ep_views(eps@) + rest),
                    other => other,
                }),
            decreases files@.len() - k,
        {
            let ghost done = ep_views(eps@);
            match &files[k] {
                EpisodeFile::BadPath => {
                    proof {
                        assert(files_scan(files@, k as int, showv, cert, self.allowed_exts@, self.on_failure)
                            is BadPath);
                        assert(show_scan(out, files@, self.allowed_exts@, self.on_failure)
                            is BadPath);
                    }
                    return Err(ReadShowError::BadPath(raw_name.clone()));
                },
                EpisodeFile::Named { path, name } => {
                    match Episode::from(
                        path.as_str(),
                        name.as_str(),
                        show.as_str(),
                        cert,
                        &self.allowed_exts,
                    ) {
                        Ok(ep) => {
                            proof {
                                assert(ep@ == file_ev(path@, name@, showv, cert));
                            }
                            eps.push(ep);
                            proof {
                                let tail = files_scan(
                                    files@,
                                    k as int + 1,
                                    showv,
                                    cert,
                                    self.allowed_exts@,
                                    self.on_failure,
                                );
                                assert(ep_views(eps@) =~= done.push(
                                    file_ev(path@, name@, showv, cert),
                                ));
                                match tail {
                                    ShowOutcome::Eps(rest) => {
                                        assert(done + (seq![file_ev(path@, name@, showv, cert)]
                                            + rest) =~= ep_views(eps@) + rest);
                                    },
                                    _ => {},
                                }
                            }
                        },
                        Err(_) => {
                            match self.on_failure {
                                FailureAction::Skip => {},
                                FailureAction::Abort => {
                                    return Err(ReadShowError::Aborted);
                                },
                            }
                        },
                    }
                },
            }
            k = k + 1;
        }
        proof {
            assert(files_scan(files@, files@.len() as int, showv, cert, self.allowed_exts@, self.on_failure)
                == ShowOutcome::Eps(Seq::<EpisodeView>::empty()));
            assert(ep_views(eps@) + Seq::<EpisodeView>::empty() =~= ep_views(eps@));
        }
        Ok(eps)
    }

    /// Scan the library root: every show folder in order, under the
    /// failure policy. An abort discards everything; an unreadable root
    /// is fatal.
    #[verifier::loop_isolation(false)]
    pub fn read_local(&self, root: &RootListing) -> (r: Result<Vec<Episode>, ReadError>)
        ensures
            exists|outs: Seq<Option<(Seq<char>, Certainty)>>|
                outs.len() == root_entries(*root).len() && (forall|k: int|
                    0 <= k < outs.len() && is_show_dir(#[trigger] root_entries(*root)[k])
                        ==> admissible(
                        self.show_resolver,
                        entry_raw_name(root_entries(*root)[k]),
                        outs[k],
                    )) && #[trigger] matches_scan(
                    r,
                    read_local_spec(*root, outs, self.allowed_exts@, self.on_failure),
                ),
    {
        let entries = match root {
            RootListing::Unreadable => {
                proof {
                    let witness = Seq::<Option<(Seq<char>, Certainty)>>::empty();
                    assert(witness.len() == root_entries(*root).len());
                    assert(matches_scan(
                        Err::<Vec<Episode>, ReadError>(ReadError::Fatal),
                        read_local_spec(*root, witness, self.allowed_exts@, self.on_failure),
                    ));
                }
                return Err(ReadError::Fatal);
            },
            RootListing::Entries(es) => es,
        };
        let ghost es = entries@;
        let ghost exts = self.allowed_exts@;
        let ghost action = self.on_failure;
        let mut eps: Vec<Episode> = Vec::new();
        let mut i: usize = 0;
        let ghost mut outs = Seq::<Option<(Seq<char>, Certainty)>>::empty();
        while i < entries.len()
            invariant
                i <= es.len(),
                outs.len() == i,
                forall|k: int|
                    0 <= k < i && is_show_dir(#[trigger] es[k]) ==> admissible(
                        self.show_resolver,
                        entry_raw_name(es[k]),
                        outs[k],
                    ),
                forall|full: Seq<Option<(Seq<char>, Certainty)>>|
                    full.len() >= i as int && full.take(i as int) == outs ==> #[trigger] scan_spec(
                        es,
                        full,
                        0,
                        exts,
                        action,
                    ) == combine(ep_views(eps@), scan_spec(es, full, i as int, exts, action)),
            decreases es.len() - i,
        {
            let ghost done = ep_views(eps@);
            let ghost outs_old = outs;
            match &entries[i] {
                DirEntry::File => {
                    proof {
                        outs = outs.push(None);
                        assert forall|full: Seq<Option<(Seq<char>, Certainty)>>|
                            full.len() >= i as int + 1 && full.take(i as int + 1) == outs implies
                            #[trigger] scan_spec(es, full, 0, exts, action) == combine(
                            ep_views(eps@),
                            scan_spec(es, full, i as int + 1, exts, action),
                        ) by {
                            lemma_take_push(full, outs_old, None, i as int);
                        }
                    }
                },
                DirEntry::UnreadableDir => {
                    proof {
                        outs = outs.push(None);
                        assert forall|full: Seq<Option<(Seq<char>, Certainty)>>|
                            full.len() >= i as int + 1 && full.take(i as int + 1) == outs implies
                            #[trigger] scan_spec(es, full, 0, exts, action) == combine(
                            ep_views(eps@),
                            scan_spec(es, full, i as int + 1, exts, action),
                        ) by {
                            lemma_take_push(full, outs_old, None, i as int);
                        }
                    }
                },
                DirEntry::ShowDir { raw_name, files } => {
                    let res = self.read_show(raw_name, files);
                    let ghost out = choose|out: Option<(Seq<char>, Certainty)>|
                        #[trigger] admissible(self.show_resolver, raw_name@, out) && matches_show(
                            res,
                            show_scan(out, files@, exts, action),
                        );
                    proof {
                        outs = outs.push(out);
                    }
                    match res {
                        Ok(found) => {
                            let ghost found0 = found@;
                            let mut q: usize = 0;
                            while q < found.len()
                                invariant
                                    q <= found0.len(),
                                    found@ == found0,
                                    ep_views(eps@) =~= done + ep_views(found0).take(q as int),
                                decreases found0.len() - q,
                            {
                                let ghost pre = ep_views(eps@);
                                let x = found[q].clone();
                                proof {
                                    assert(x@ == found0[q as int]@);
                                }
                                eps.push(x);
                                q = q + 1;
                                proof {
                                    assert(ep_views(eps@) =~= pre.push(found0[q as int - 1]@));
                                    assert(ep_views(found0)[q as int - 1] == found0[q as int
                                        - 1]@);
                                    assert(pre.push(found0[q as int - 1]@) =~= done + ep_views(
                                        found0,
                                    ).take(q as int));
                                }
                            }
                            proof {
                                assert(ep_views(found0).take(found0.len() as int) =~= ep_views(
                                    found0,
                                ));
                                assert(ep_views(eps@) =~= done + ep_views(found0));
                                let e = ep_views(found0);
                                assert(show_scan(out, files@, exts, action) == ShowOutcome::Eps(e));
                                assert forall|full: Seq<Option<(Seq<char>, Certainty)>>|
                                    full.len() >= i as int + 1 && full.take(i as int + 1) == outs
                                    implies #[trigger] scan_spec(
                                    es,
                                    full,
                                    0,
                                    exts,
                                    action,
                                ) == combine(ep_views(eps@), scan_spec(
                                    es,
                                    full,
                                    i as int + 1,
                                    exts,
                                    action,
                                )) by {
                                    assert(full.take(i as int) =~= outs_old);
                                    assert(full[i as int] == out);
                                    let tail = scan_spec(es, full, i as int + 1, exts, action);
                                    assert(scan_spec(es, full, i as int, exts, action) == combine(
                                        e,
                                        tail,
                                    ));
                                    match tail {
                                        Ok(rr) => {
                                            assert(done + (e + rr) =~= (done + e) + rr);
                                        },
                                        Err(_) => {},
                                    }
                                }
                            }
                        },
                        Err(ReadShowError::Skipped) => {
                            proof {
                                assert(show_scan(out, files@, exts, action) is Skipped);
                                assert forall|full: Seq<Option<(Seq<char>, Certainty)>>|
                                    full.len() >= i as int + 1 && full.take(i as int + 1) == outs
                                    implies #[trigger] scan_spec(
                                    es,
                                    full,
                                    0,
                                    exts,
                                    action,
                                ) == combine(ep_views(eps@), scan_spec(
                                    es,
                                    full,
                                    i as int + 1,
                                    exts,
                                    action,
                                )) by {
                                    assert(full.take(i as int) =~= outs_old);
                                    assert(full[i as int] == out);
                                }
                            }
                        },
                        Err(ReadShowError::BadPath(_)) => {
                            proof {
                                assert(show_scan(out, files@, exts, action) is BadPath);
                                assert forall|full: Seq<Option<(Seq<char>, Certainty)>>|
                                    full.len() >= i as int + 1 && full.take(i as int + 1) == outs
                                    implies #[trigger] scan_spec(
                                    es,
                                    full,
                                    0,
                                    exts,
                                    action,
                                ) == combine(ep_views(eps@), scan_spec(
                                    es,
                                    full,
                                    i as int + 1,
                                    exts,
                                    action,
                                )) by {
                                    assert(full.take(i as int) =~= outs_old);
                                    assert(full[i as int] == out);
                                }
                            }
                        },
                        Err(ReadShowError::Aborted) => {
                            proof {
                                assert(show_scan(out, files@, exts, action) is Aborted);
                                // Extend the recorded outcomes to every entry:
                                // the unvisited folders get some admissible
                                // outcome, which the aborted scan never reads.
                                let pad = Seq::new(
                                    (es.len() - (i + 1)) as nat,
                                    |j: int|
                                        crate::resolver::some_admissible(
                                            self.show_resolver,
                                            entry_raw_name(es[i + 1 + j]),
                                        ),
                                );
                                let padded = outs + pad;
                                assert(padded.len() == es.len());
                                assert(padded.take(i as int) =~= outs_old);
                                assert(padded[i as int] == out);
                                assert(scan_spec(es, padded, i as int, exts, action) == Err::<
                                    Seq<EpisodeView>,
                                    ReadError,
                                >(ReadError::Aborted));
                                assert(scan_spec(es, padded, 0, exts, action) == combine(
                                    ep_views(eps@),
                                    scan_spec(es, padded, i as int, exts, action),
                                ));
                                assert forall|k: int|
                                    0 <= k < padded.len() && is_show_dir(#[trigger] es[k]) implies
                                    admissible(
                                    self.show_resolver,
                                    entry_raw_name(es[k]),
                                    padded[k],
                                ) by {
                                    if k < i {
                                        assert(padded[k] == outs_old[k]);
                                    } else if k == i {
                                        assert(padded[k] == out);
                                    } else {
                                        crate::resolver::lemma_admissible_exists(
                                            self.show_resolver,
                                            entry_raw_name(es[k]),
                                        );
                                        assert(padded[k] == pad[k - (i + 1)]);
                                    }
                                }
                                assert(root_entries(*root) == es);
                                assert(matches_scan(
                                    Err::<Vec<Episode>, ReadError>(ReadError::Aborted),
                                    read_local_spec(*root, padded, exts, action),
                                ));
                            }
                            return Err(ReadError::Aborted);
                        },
                    }
                },
            }
            i = i + 1;
        }
        proof {
            assert(scan_spec(es, outs, es.len() as int, exts, action) == Ok::<
                Seq<EpisodeView>,
                ReadError,
            >(Seq::<EpisodeView>::empty()));
            assert(outs.take(outs.len() as int) =~= outs);
            assert(ep_views(eps@) + Seq::<EpisodeView>::empty() =~= ep_views(eps@));
            assert(root_entries(*root) == es);
            assert(outs.len() == root_entries(*root).len());
            assert(matches_scan(
                Ok::<Vec<Episode>, ReadError>(eps),
                read_local_spec(*root, outs, exts, action),
            ));
        }
        Ok(eps)
    }
}

} // verus!
