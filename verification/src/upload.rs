//! The transfer protocol: stream a local file to a temporary remote path
//! in fixed-size chunks, fully draining each chunk, and only after the
//! stream closes cleanly rename the temporary path onto the target.
//! The decisions of the protocol live here; the blocking reads, writes
//! and remote commands are performed outside the core, which is handed
//! each event (bytes read, bytes written) as a plain value.

use vstd::prelude::*;

use crate::client::temp_path_spec;

verus! {

/// The buffer size of one transfer chunk, in bytes.
pub const BUF_SIZE: usize = 4096;

/// Draining one chunk: a writer may accept fewer bytes than offered, so
/// the chunk is fed to it until every byte is consumed.
pub struct ChunkProgress {
    /// How many bytes of the chunk were consumed so far.
    pub written: usize,
    /// The chunk's length.
    pub len: usize,
}

impl ChunkProgress {
    /// Start draining a chunk.
    pub fn new(len: usize) -> (r: ChunkProgress)
        ensures
            r.written == 0,
            r.len == len,
    {
        ChunkProgress { written: 0, len }
    }

    /// Record that the writer consumed `n` more bytes.
    pub fn record(&mut self, n: usize)
        requires
            old(self).written + n <= old(self).len,
        ensures
            final(self).written == old(self).written + n,
            final(self).len == old(self).len,
    {
        self.written = self.written + n;
    }

    /// Whether the whole chunk has been consumed.
    pub fn done(&self) -> (r: bool)
        ensures
            r == (self.written == self.len),
    {
        self.written == self.len
    }

    /// The slice of the chunk still to offer to the writer: from
    /// `written` to `len`.
    pub fn remaining(&self) -> (r: (usize, usize))
        requires
            self.written <= self.len,
        ensures
            r.0 == self.written,
            r.1 == self.len,
    {
        (self.written, self.len)
    }
}

/// The streaming state of one upload.
pub struct UploadMachine {
    /// The byte count the remote write stream was opened with.
    pub size: u64,
    /// How many bytes have been fully streamed.
    pub sent: u64,
    /// Whether the last chunk has been seen: a read of zero bytes, or
    /// one shorter than the buffer.
    pub finished: bool,
}

impl UploadMachine {
    /// Start streaming a file of the given size.
    pub fn new(size: u64) -> (r: UploadMachine)
        ensures
            r.size == size,
            r.sent == 0,
            !r.finished,
    {
        UploadMachine { size, sent: 0, finished: false }
    }

    /// Account one local read of `n` bytes: the chunk (if any) is to be
    /// fully drained into the remote stream, and a short or empty read
    /// ends the stream, after which end-of-stream is signalled and the
    /// rename may happen.
    pub fn on_read(&mut self, n: usize)
        requires
            !old(self).finished,
            n <= BUF_SIZE,
            old(self).sent + n <= u64::MAX,
        ensures
            final(self).size == old(self).size,
            final(self).sent == old(self).sent + n,
            final(self).finished == (n == 0 || n < BUF_SIZE),
    {
        self.sent = self.sent + (n as u64);
        if n == 0 || n < BUF_SIZE {
            self.finished = true;
        }
    }

    /// Whether the stream is complete and the rename may proceed.
    pub fn complete(&self) -> (r: bool)
        ensures
            r == self.finished,
    {
        self.finished
    }
}

/// The progress display's side of the notification channel: it consumes
/// byte counts until the channel closes. Channel closure alone does not
/// imply the transfer succeeded; the producer's own result is a second,
/// distinct signal.
pub struct ProgressTracker {
    /// The total of the byte counts received.
    pub received: u64,
}

impl ProgressTracker {
    /// Start consuming notifications.
    pub fn new() -> (r: ProgressTracker)
        ensures
            r.received == 0,
    {
        ProgressTracker { received: 0 }
    }

    /// Account one notification of `n` bytes written.
    pub fn on_packet(&mut self, n: u64)
        requires
            old(self).received + n <= u64::MAX,
        ensures
            final(self).received == old(self).received + n,
    {
        self.received = self.received + n;
    }
}

/// A model of the remote file store: each path maps to its bytes.
/// Writing a path sets its contents.
pub open spec fn store_write(
    fs: Map<Seq<char>, Seq<u8>>,
    p: Seq<char>,
    data: Seq<u8>,
) -> Map<Seq<char>, Seq<u8>> {
    fs.insert(p, data)
}

/// Renaming moves contents from one path to another in a single step.
pub open spec fn store_rename(
    fs: Map<Seq<char>, Seq<u8>>,
    src: Seq<char>,
    dst: Seq<char>,
) -> Map<Seq<char>, Seq<u8>> {
    if fs.contains_key(src) {
        fs.remove(src).insert(dst, fs[src])
    } else {
        fs
    }
}

/// The round trip of one upload over the store model: writing the bytes
/// to the temporary path and then renaming it onto the target leaves the
/// target holding exactly those bytes, and leaves nothing at the
/// temporary path.
pub proof fn lemma_upload_round_trip(fs: Map<Seq<char>, Seq<u8>>, target: Seq<char>, data: Seq<u8>)
    requires
        temp_path_spec(target) is Some,
    ensures
        ({
            let tmp = temp_path_spec(target)->Some_0;
            let fs1 = store_rename(store_write(fs, tmp, data), tmp, target);
            &&& fs1.contains_key(target)
            &&& fs1[target] == data
            &&& !fs1.contains_key(tmp)
        }),
{
    let tmp = temp_path_spec(target)->Some_0;
    lemma_temp_path_differs(target);
    let fs0 = store_write(fs, tmp, data);
    assert(fs0.contains_key(tmp));
    assert(fs0[tmp] == data);
}

/// The temporary path of a target is never the target itself: it is
/// longer by the marker prefix and its dot.
pub proof fn lemma_temp_path_differs(target: Seq<char>)
    requires
        temp_path_spec(target) is Some,
    ensures
        temp_path_spec(target)->Some_0 != target,
        temp_path_spec(target)->Some_0.len() == target.len() + 12,
{
    reveal_strlit(".rusttv.tmp");
    let d = crate::episode::last_index_of(target, '/');
    crate::episode::lemma_last_index_of(target, '/');
    let tmp = temp_path_spec(target)->Some_0;
    assert(target.take(d + 1).len() == d + 1);
    assert(target.skip(d + 1).len() == target.len() - d - 1);
    assert(crate::client::temp_prefix_spec().len() == 11);
    assert(tmp.len() == target.len() + 12);
}

} // verus!
