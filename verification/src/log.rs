//! The audit record of a sync run: when it ran, who ran it, and which
//! episodes were synced. Serialising and writing the record happen
//! outside the core; the core fixes its values and the file path.

use vstd::prelude::*;

use chrono::{Datelike, Timelike};

use crate::episode::Episode;
use crate::text::{pad2, pad2_digits, pad4, pad4_digits};

verus! {

/// A wall-clock timestamp broken into plain calendar fields.
#[derive(Clone, Copy, Debug, PartialEq, Eq, Structural)]
pub struct Timestamp {
    pub year: i32,
    pub month: u32,
    pub day: u32,
    pub hour: u32,
    pub minute: u32,
    pub second: u32,
}

impl Timestamp {
    /// Calendar fields in their documented ranges. The year is
    /// unconstrained: the clock may be set to anything.
    pub open spec fn wf(self) -> bool {
        &&& 1 <= self.month <= 12
        &&& 1 <= self.day <= 31
        &&& self.hour < 24
        &&& self.minute < 60
        &&& self.second < 60
    }
}

/// The compact form of a timestamp: `YYYYMMDD_HHMMSS`, each field
/// zero-padded; a negative year keeps its sign.
pub open spec fn compact_spec(t: Timestamp) -> Seq<char> {
    let year = if t.year >= 0 {
        pad4_digits(t.year as nat)
    } else {
        seq!['-'] + pad4_digits((-(t.year as int)) as nat)
    };
    year + pad2_digits(t.month as nat) + pad2_digits(t.day as nat) + seq!['_'] + pad2_digits(
        t.hour as nat,
    ) + pad2_digits(t.minute as nat) + pad2_digits(t.second as nat)
}

/// Relies on chrono's DateTime<Utc> conversion from the system clock and
/// its Datelike/Timelike accessors: the month and day are numbered from 1
/// and the time fields stay below 24, 60 and 60, as their documentation
/// states; the conversion handles a clock set before the Unix epoch. The
/// values themselves come from the clock, so nothing more is promised.
#[verifier::external_body]
pub fn now_timestamp() -> (r: Timestamp)
    ensures
        r.wf(),
{
    let t = chrono::DateTime::<chrono::Utc>::from(std::time::SystemTime::now());
    Timestamp {
        year: t.year(),
        month: t.month(),
        day: t.day(),
        hour: t.hour(),
        minute: t.minute(),
        second: t.second(),
    }
}

/// Relies on whoami's username: the acting account's name, or nothing if
/// the platform will not say. Nothing is promised of the name.
#[verifier::external_body]
pub fn fetch_username() -> Option<String> {
    whoami::username().ok()
}

/// Format a timestamp as `YYYYMMDD_HHMMSS` for use in a filename.
pub fn format_compact(t: &Timestamp) -> (r: String)
    requires
        t.wf(),
    ensures
        r@ == compact_spec(*t),
{
    proof {
        reveal_strlit("-");
        reveal_strlit("_");
    }
    let mut s = if t.year >= 0 {
        pad4(t.year as u32)
    } else {
        let mut neg = "-".to_owned();
        neg.append(pad4((-(t.year as i64)) as u32).as_str());
        neg
    };
    s.append(pad2(t.month).as_str());
    s.append(pad2(t.day).as_str());
    s.append("_");
    s.append(pad2(t.hour).as_str());
    s.append(pad2(t.minute).as_str());
    s.append(pad2(t.second).as_str());
    proof {
        assert(s@ =~= compact_spec(*t));
    }
    s
}

/// One sync run's audit record.
pub struct Event {
    pub timestamp: Timestamp,
    pub username: String,
    pub episodes: Vec<Episode>,
}

impl Event {
    /// Build the record for a run that synced the given episodes, dated
    /// now and signed with the acting username (empty if unknown).
    pub fn new(episodes: Vec<Episode>) -> (r: Event)
        ensures
            r.timestamp.wf(),
            r.episodes == episodes,
    {
        let username = match fetch_username() {
            Some(u) => u,
            None => String::new(),
        };
        Event { timestamp: now_timestamp(), username, episodes }
    }
}

/// Writes one audit record per run under a configured directory.
pub struct Logger {
    pub log_path: String,
}

impl Logger {
    /// A logger writing below the given directory.
    pub fn new(log_path: String) -> (r: Logger)
        ensures
            r.log_path == log_path,
    {
        Logger { log_path }
    }

    /// The file an event is recorded to: the log directory joined with
    /// the compact timestamp plus `.json`.
    pub fn event_file_path(&self, e: &Event) -> (r: String)
        requires
            e.timestamp.wf(),
        ensures
            r@ == self.log_path@ + (if self.log_path@.len() > 0 && self.log_path@.last() == '/' {
                Seq::<char>::empty()
            } else {
                seq!['/']
            }) + compact_spec(e.timestamp) + ".json"@,
    {
        proof {
            reveal_strlit("/");
            reveal_strlit(".json");
        }
        let mut s = self.log_path.clone();
        let n = s.unicode_len();
        if n == 0 || s.as_str().get_char(n - 1) != '/' {
            s.append("/");
        }
        s.append(format_compact(&e.timestamp).as_str());
        s.append(".json");
        proof {
            assert(s@ =~= self.log_path@ + (if self.log_path@.len() > 0 && self.log_path@.last()
                == '/' {
                Seq::<char>::empty()
            } else {
                seq!['/']
            }) + compact_spec(e.timestamp) + ".json"@);
        }
        s
    }
}

} // verus!
