//! File download decisions: the recursive directory copy as a sequence of
//! requests, destination checks, the viewer size limit and the editor choice.
use vstd::prelude::*;

use crate::paths::{joined_path, join_chars, parent_of, path_parent};
use crate::text::{chars_of, copy_string, push_chars, push_str, string_from_chars, push_decimal};
use crate::types::{DirectoryEntry, EntryType, one_decimal, tenths, f64_round, scaled_text};

verus! {

broadcast use vstd::string::group_string_axioms;

/// Summary of a completed recursive directory download.
#[derive(Debug)]
pub struct DirCopyResult {
    /// Total bytes successfully written to disk.
    pub bytes_transferred: u64,
    /// Number of files successfully downloaded.
    pub files_copied: usize,
    /// Files that failed with path and error reason.
    pub failures: Vec<(String, String)>,
    /// Count of symlink entries skipped.
    pub symlinks_skipped: usize,
}

/// The next piece of I/O that a directory copy needs.
#[derive(Debug, Clone, PartialEq, Eq)]
pub enum WalkRequest {
    /// Create the local directory `local`, then list the remote directory `remote`.
    Directory { remote: String, local: String },
    /// Download the remote file `remote` into the local file `local`.
    Download { remote: String, local: String },
}

/// What happened to a `WalkRequest::Directory`.
#[derive(Debug)]
pub enum DirOutcome {
    /// The local directory could not be created (the reason).
    CreateFailed(String),
    /// The remote directory could not be listed (the reason).
    ListFailed(String),
    /// The remote directory holds these entries.
    Listed(Vec<DirectoryEntry>),
}

/// A frame of the walk: a local directory and the remote entries still to
/// copy into it.
pub type FrameView = (Seq<char>, Seq<DirectoryEntry>);

/// The next entry that needs I/O, from the current entries `rem` (copied
/// into `local`) and then from the pending frames, last first. Returns how
/// many symlinks are passed over on the way, the entry with its local
/// directory and the entries left after it, and the pending frames left.
pub open spec fn advance(local: Seq<char>, rem: Seq<DirectoryEntry>, stack: Seq<FrameView>) -> (
    nat,
    Option<(Seq<char>, DirectoryEntry, Seq<DirectoryEntry>)>,
    Seq<FrameView>,
)
    decreases stack.len(), rem.len(),
{
    if rem.len() > 0 {
        if rem[0].entry_type == EntryType::Symlink {
            let r = advance(local, rem.drop_first(), stack);
            (r.0 + 1, r.1, r.2)
        } else {
            (0, Some((local, rem[0], rem.drop_first())), stack)
        }
    } else if stack.len() == 0 {
        (0, None, stack)
    } else {
        advance(stack.last().0, stack.last().1, stack.drop_last())
    }
}

/// `a + k`, held at `usize::MAX`.
pub open spec fn sat_add(a: usize, k: nat) -> usize {
    if a + k > usize::MAX {
        usize::MAX
    } else {
        (a + k) as usize
    }
}

/// The request for `entry`, found while copying into `local`.
pub open spec fn request_for(local: Seq<char>, entry: DirectoryEntry) -> (bool, Seq<char>, Seq<char>) {
    (entry.entry_type == EntryType::Directory, entry.path@, joined_path(local, entry.name@))
}

/// The view of a request as `(is directory, remote, local)`.
pub open spec fn request_view(r: WalkRequest) -> (bool, Seq<char>, Seq<char>) {
    match r {
        WalkRequest::Directory { remote, local } => (true, remote@, local@),
        WalkRequest::Download { remote, local } => (false, remote@, local@),
    }
}

/// What became of an entry that a directory copy met.
pub enum EntryFate {
    /// A symlink, passed over.
    Skipped,
    /// A file downloaded, with its bytes.
    Copied(u64),
    /// A file or directory that failed.
    Failed,
    /// A directory created and listed, whose entries join the walk.
    Entered,
}

/// The entries met so far, each with what became of it.
pub type WalkLog = Seq<(DirectoryEntry, EntryFate)>;

/// The counts over a log: bytes copied, files copied, symlinks skipped and
/// failures.
pub open spec fn fate_counts(log: WalkLog) -> (nat, nat, nat, nat)
    decreases log.len(),
{
    if log.len() == 0 {
        (0, 0, 0, 0)
    } else {
        let c = fate_counts(log.drop_last());
        match log.last().1 {
            EntryFate::Skipped => (c.0, c.1, c.2 + 1, c.3),
            EntryFate::Copied(b) => (c.0 + b as nat, c.1 + 1, c.2, c.3),
            EntryFate::Failed => (c.0, c.1, c.2, c.3 + 1),
            EntryFate::Entered => c,
        }
    }
}

/// `n`, held at `usize::MAX`.
pub open spec fn capped(n: nat) -> usize {
    if n > usize::MAX {
        usize::MAX
    } else {
        n as usize
    }
}

/// The counts of a log after one more entry.
proof fn lemma_fate_counts_push(log: WalkLog, x: (DirectoryEntry, EntryFate))
    ensures
        fate_counts(log.push(x)) == match x.1 {
            EntryFate::Skipped => {
                let c = fate_counts(log);
                (c.0, c.1, c.2 + 1, c.3)
            },
            EntryFate::Copied(b) => {
                let c = fate_counts(log);
                (c.0 + b as nat, c.1 + 1, c.2, c.3)
            },
            EntryFate::Failed => {
                let c = fate_counts(log);
                (c.0, c.1, c.2, c.3 + 1)
            },
            EntryFate::Entered => fate_counts(log),
        },
{
    assert(log.push(x).drop_last() =~= log);
}

/// The state of a recursive directory copy between two pieces of I/O.
pub struct DirWalk {
    cur_local: String,
    cur_entries: Vec<DirectoryEntry>,
    cur_pos: usize,
    frames: Vec<(String, Vec<DirectoryEntry>)>,
    pending: Option<(String, String, bool)>,
    result: DirCopyResult,
    log: Ghost<WalkLog>,
    handed: Ghost<Option<DirectoryEntry>>,
}

/// The message for a local directory that could not be created.
pub open spec fn create_failed_text(local: Seq<char>, why: Seq<char>) -> Seq<char> {
    "Failed to create local directory '"@ + local + "': "@ + why
}

/// The message for a top-level remote directory that could not be listed.
pub open spec fn top_list_failed_text(remote: Seq<char>, why: Seq<char>) -> Seq<char> {
    "Failed to list remote directory '"@ + remote + "': "@ + why
}

/// The message for a subdirectory that could not be listed.
pub open spec fn sub_list_failed_text(why: Seq<char>) -> Seq<char> {
    "Failed to list remote directory: "@ + why
}

/// The texts of a list of failures.
pub open spec fn failure_views(f: Seq<(String, String)>) -> Seq<(Seq<char>, Seq<char>)> {
    f.map_values(|p: (String, String)| (p.0@, p.1@))
}

impl DirWalk {
    /// The current local directory and the entries still to visit in it.
    pub closed spec fn current(self) -> FrameView {
        (self.cur_local@, self.cur_entries@.skip(self.cur_pos as int))
    }

    /// The frames waiting to be visited, the last one first.
    pub closed spec fn stack(self) -> Seq<FrameView> {
        self.frames@.map_values(|f: (String, Vec<DirectoryEntry>)| (f.0@, f.1@))
    }

    /// The request awaiting its outcome, as `(is directory, remote, local)`.
    pub closed spec fn pending(self) -> Option<(bool, Seq<char>, Seq<char>)> {
        match self.pending {
            Some((r, l, d)) => Some((d, r@, l@)),
            None => None,
        }
    }

    /// The running totals.
    pub closed spec fn totals(self) -> (u64, usize, usize) {
        (self.result.bytes_transferred, self.result.files_copied, self.result.symlinks_skipped)
    }

    /// The failures recorded so far, as `(remote path, reason)`.
    pub closed spec fn failures(self) -> Seq<(Seq<char>, Seq<char>)> {
        failure_views(self.result.failures@)
    }

    /// The entries met so far, in order, each with what became of it.
    pub closed spec fn log(self) -> WalkLog {
        self.log@
    }

    /// The entry of the pending request.
    pub closed spec fn handed(self) -> Option<DirectoryEntry> {
        self.handed@
    }

    /// Internal consistency: the totals and failures are the counts over
    /// the log.
    pub closed spec fn wf(self) -> bool {
        let c = fate_counts(self.log@);
        &&& self.cur_pos <= self.cur_entries@.len()
        &&& self.result.bytes_transferred == c.0
        &&& self.result.files_copied == capped(c.1)
        &&& self.result.symlinks_skipped == capped(c.2)
        &&& self.result.failures@.len() == c.3
        &&& (self.pending is Some <==> self.handed@ is Some)
    }

    /// Start copying the remote directory `remote` into `local`, given what
    /// creating `local` and listing `remote` gave. Creation or listing
    /// failures end the copy before it starts.
    pub fn begin(remote: &str, local: &str, root: DirOutcome) -> (r: Result<DirWalk, String>)
        ensures
            root matches DirOutcome::CreateFailed(why) ==> r matches Err(m) && m@
                == create_failed_text(local@, why@),
            root matches DirOutcome::ListFailed(why) ==> r matches Err(m) && m@
                == top_list_failed_text(remote@, why@),
            root matches DirOutcome::Listed(es) ==> r matches Ok(w) && w.wf() && w.current() == (
                local@,
                Seq::<DirectoryEntry>::empty(),
            ) && w.stack() == seq![(local@, es@)] && w.pending() is None && w.totals() == (
                0u64,
                0usize,
                0usize,
            ) && w.failures() == Seq::<(Seq<char>, Seq<char>)>::empty() && w.log() == Seq::<
                (DirectoryEntry, EntryFate),
            >::empty(),
    {
        match root {
            DirOutcome::CreateFailed(why) => {
                let mut m = String::new();
                push_str(&mut m, "Failed to create local directory '");
                push_str(&mut m, local);
                push_str(&mut m, "': ");
                push_str(&mut m, why.as_str());
                Err(m)
            },
            DirOutcome::ListFailed(why) => {
                let mut m = String::new();
                push_str(&mut m, "Failed to list remote directory '");
                push_str(&mut m, remote);
                push_str(&mut m, "': ");
                push_str(&mut m, why.as_str());
                Err(m)
            },
            DirOutcome::Listed(es) => {
                let lv = chars_of(local);
                let mut frames: Vec<(String, Vec<DirectoryEntry>)> = Vec::new();
                frames.push((string_from_chars(lv.as_slice()), es));
                let w = DirWalk {
                    cur_local: string_from_chars(lv.as_slice()),
                    cur_entries: Vec::new(),
                    cur_pos: 0,
                    frames,
                    pending: None,
                    result: DirCopyResult {
                        bytes_transferred: 0,
                        files_copied: 0,
                        failures: Vec::new(),
                        symlinks_skipped: 0,
                    },
                    log: Ghost(Seq::empty()),
                    handed: Ghost(None),
                };
                assert(w.cur_entries@.skip(0) =~= Seq::<DirectoryEntry>::empty());
                assert(w.stack() =~= seq![(local@, es@)]);
                assert(w.failures() =~= Seq::<(Seq<char>, Seq<char>)>::empty());
                Ok(w)
            },
        }
    }

    /// The next piece of I/O the copy needs, or `None` when every entry has
    /// been visited. Symlinks are passed over and counted; a directory or
    /// file entry becomes the pending request.
    pub fn next_request(&mut self) -> (r: Option<WalkRequest>)
        requires
            old(self).wf(),
            old(self).pending() is None,
        ensures
            final(self).wf(),
            ({
                let (k, next, rest) = advance(old(self).current().0, old(self).current().1, old(self).stack());
                &&& final(self).totals() == (old(self).totals().0, old(self).totals().1, sat_add(old(self).totals().2, k))
                &&& final(self).failures() == old(self).failures()
                &&& final(self).log() == old(self).log() + skipped_log(
                    walk_queue(old(self).current().1, old(self).stack()).take(k as int),
                )
                &&& match next {
                    None => r is None && final(self).pending() is None
                        && final(self).current().1.len() == 0 && final(self).stack().len() == 0,
                    Some((local, e, after)) => r matches Some(req)
                        && request_view(req) == request_for(local, e)
                        && final(self).pending() == Some(request_for(local, e))
                        && final(self).handed() == Some(e)
                        && final(self).current() == (local, after) && final(self).stack() == rest,
                }
            }),
    {
        let ghost start = advance(self.current().0, self.current().1, self.stack());
        let ghost q0 = walk_queue(self.current().1, self.stack());
        let ghost mut skipped: nat = 0;
        proof {
            assert(q0.take(0) =~= Seq::<DirectoryEntry>::empty());
            assert(old(self).log() + skipped_log(q0.take(0)) =~= old(self).log());
            assert(q0.skip(0) =~= q0);
        }
        loop
            invariant
                self.wf(),
                self.pending is None,
                skipped <= q0.len(),
                q0 == walk_queue(old(self).current().1, old(self).stack()),
                walk_queue(self.current().1, self.stack()) == q0.skip(skipped as int),
                self.log@ == old(self).log() + skipped_log(q0.take(skipped as int)),
                self.result.bytes_transferred == old(self).result.bytes_transferred,
                self.result.files_copied == old(self).result.files_copied,
                self.result.failures == old(self).result.failures,
                self.result.symlinks_skipped == sat_add(old(self).result.symlinks_skipped, skipped),
                start == advance(old(self).current().0, old(self).current().1, old(self).stack()),
                ({
                    let now = advance(self.current().0, self.current().1, self.stack());
                    now.0 + skipped == start.0 && now.1 == start.1 && now.2 == start.2
                }),
            decreases self.frames@.len(), self.cur_entries@.len() - self.cur_pos,
        {
            if self.cur_pos < self.cur_entries.len() {
                let ghost rem = self.current().1;
                assert(rem[0] == self.cur_entries@[self.cur_pos as int]);
                assert(rem.drop_first() == self.cur_entries@.skip(self.cur_pos + 1));
                proof {
                    lemma_walk_queue_split(rem, self.stack());
                    lemma_walk_queue_split(rem.drop_first(), self.stack());
                    assert(rem =~= seq![rem[0]] + rem.drop_first());
                    assert(q0.skip(skipped as int)[0] == rem[0]);
                    assert(q0.skip(skipped + 1int) =~= q0.skip(skipped as int).skip(1));
                    assert(walk_queue(rem, self.stack()).skip(1) =~= walk_queue(
                        rem.drop_first(),
                        self.stack(),
                    ));
                }
                let ty = self.cur_entries[self.cur_pos].entry_type;
                if ty == EntryType::Symlink {
                    self.result.symlinks_skipped = self.result.symlinks_skipped.saturating_add(1);
                    self.cur_pos = self.cur_pos + 1;
                    proof {
                        let x = (rem[0], EntryFate::Skipped);
                        lemma_fate_counts_push(self.log@, x);
                        assert(q0.take(skipped + 1int) =~= q0.take(skipped as int).push(rem[0]));
                        assert(skipped_log(q0.take(skipped + 1int)) =~= skipped_log(
                            q0.take(skipped as int),
                        ).push(x));
                        self.log@ = self.log@.push(x);
                        skipped = skipped + 1;
                    }
                } else {
                    let e = &self.cur_entries[self.cur_pos];
                    let lv = chars_of(self.cur_local.as_str());
                    let nv = chars_of(e.name.as_str());
                    let jv = join_chars(lv.as_slice(), nv.as_slice());
                    let remote = copy_string(&e.path);
                    assert(e == rem[0]);
                    let is_dir = ty == EntryType::Directory;
                    let req = if is_dir {
                        WalkRequest::Directory {
                            remote: copy_string(&e.path),
                            local: string_from_chars(jv.as_slice()),
                        }
                    } else {
                        WalkRequest::Download {
                            remote: copy_string(&e.path),
                            local: string_from_chars(jv.as_slice()),
                        }
                    };
                    self.pending = Some((remote, string_from_chars(jv.as_slice()), is_dir));
                    self.cur_pos = self.cur_pos + 1;
                    proof {
                        self.handed@ = Some(rem[0]);
                    }
                    return Some(req);
                }
            } else {
                let ghost st = self.stack();
                let ghost fr = self.frames@;
                assert(self.current().1.len() == 0);
                match self.frames.pop() {
                    None => {
                        return None;
                    },
                    Some((local, entries)) => {
                        assert(fr.last() == (local, entries));
                        assert(st.last() == (local@, entries@));
                        self.cur_local = local;
                        self.cur_entries = entries;
                        self.cur_pos = 0;
                        assert(self.cur_entries@.skip(0) == self.cur_entries@);
                        assert(self.stack() =~= st.drop_last());
                        assert(walk_queue(Seq::<DirectoryEntry>::empty(), st) == Seq::<
                            DirectoryEntry,
                        >::empty() + walk_queue(st.last().1, st.drop_last()));
                        assert(Seq::<DirectoryEntry>::empty() + walk_queue(st.last().1, st.drop_last())
                            =~= walk_queue(st.last().1, st.drop_last()));
                    },
                }
            }
        }
    }
}

impl DirWalk {
    /// Record what the pending directory request gave: a failure is noted
    /// against the remote directory, a listing becomes a frame to visit.
    pub fn record_directory(&mut self, outcome: DirOutcome)
        requires
            old(self).wf(),
            old(self).pending() matches Some(p) && p.0,
        ensures
            final(self).wf(),
            final(self).pending() is None,
            final(self).current() == old(self).current(),
            final(self).totals() == old(self).totals(),
            final(self).log() == old(self).log().push(
                (
                    old(self).handed()->0,
                    if outcome is Listed {
                        EntryFate::Entered
                    } else {
                        EntryFate::Failed
                    },
                ),
            ),
            ({
                let p = old(self).pending()->0;
                match outcome {
                    DirOutcome::CreateFailed(why) => final(self).failures() == old(self).failures().push(
                        (p.1, create_failed_text(p.2, why@)),
                    ) && final(self).stack() == old(self).stack(),
                    DirOutcome::ListFailed(why) => final(self).failures() == old(self).failures().push(
                        (p.1, sub_list_failed_text(why@)),
                    ) && final(self).stack() == old(self).stack(),
                    DirOutcome::Listed(es) => final(self).failures() == old(self).failures()
                        && final(self).stack() == old(self).stack().push((p.2, es@)),
                }
            }),
    {
        let ghost e = self.handed@->0;
        let ghost fate = if outcome is Listed {
            EntryFate::Entered
        } else {
            EntryFate::Failed
        };
        proof {
            lemma_fate_counts_push(self.log@, (e, fate));
            self.log@ = self.log@.push((e, fate));
            self.handed@ = None;
        }
        let (remote, local, _) = self.pending.take().unwrap();
        match outcome {
            DirOutcome::CreateFailed(why) => {
                let mut m = String::new();
                push_str(&mut m, "Failed to create local directory '");
                push_str(&mut m, local.as_str());
                push_str(&mut m, "': ");
                push_str(&mut m, why.as_str());
                let ghost before = self.result.failures@;
                self.result.failures.push((remote, m));
                assert(failure_views(self.result.failures@) =~= failure_views(before).push(
                    (remote@, m@),
                ));
            },
            DirOutcome::ListFailed(why) => {
                let mut m = String::new();
                push_str(&mut m, "Failed to list remote directory: ");
                push_str(&mut m, why.as_str());
                let ghost before = self.result.failures@;
                self.result.failures.push((remote, m));
                assert(failure_views(self.result.failures@) =~= failure_views(before).push(
                    (remote@, m@),
                ));
            },
            DirOutcome::Listed(es) => {
                let ghost before = self.frames@;
                self.frames.push((local, es));
                assert(self.stack() =~= old(self).stack().push((local@, es@)));
            },
        }
    }

    /// The bytes written so far.
    pub fn bytes_transferred(&self) -> (r: u64)
        ensures
            r == self.totals().0,
    {
        self.result.bytes_transferred
    }

    /// Record what the pending download gave: its bytes and one more file
    /// copied, or a failure against the remote file.
    pub fn record_download(&mut self, outcome: Result<u64, String>)
        requires
            old(self).wf(),
            old(self).pending() matches Some(p) && !p.0,
            outcome matches Ok(b) ==> old(self).totals().0 + b <= u64::MAX,
        ensures
            final(self).wf(),
            final(self).pending() is None,
            final(self).current() == old(self).current(),
            final(self).stack() == old(self).stack(),
            final(self).log() == old(self).log().push(
                (
                    old(self).handed()->0,
                    match outcome {
                        Ok(b) => EntryFate::Copied(b),
                        Err(_) => EntryFate::Failed,
                    },
                ),
            ),
            ({
                let p = old(self).pending()->0;
                let t = old(self).totals();
                match outcome {
                    Ok(b) => final(self).totals() == ((t.0 + b) as u64, sat_add(t.1, 1), t.2)
                        && final(self).failures() == old(self).failures(),
                    Err(why) => final(self).totals() == t && final(self).failures() == old(
                        self,
                    ).failures().push((p.1, why@)),
                }
            }),
    {
        let ghost e = self.handed@->0;
        let ghost fate = match outcome {
            Ok(b) => EntryFate::Copied(b),
            Err(_) => EntryFate::Failed,
        };
        proof {
            lemma_fate_counts_push(self.log@, (e, fate));
            self.log@ = self.log@.push((e, fate));
            self.handed@ = None;
        }
        let (remote, _local, _) = self.pending.take().unwrap();
        match outcome {
            Ok(b) => {
                self.result.bytes_transferred = self.result.bytes_transferred + b;
                self.result.files_copied = self.result.files_copied.saturating_add(1);
            },
            Err(why) => {
                let ghost before = self.result.failures@;
                self.result.failures.push((remote, why));
                assert(failure_views(self.result.failures@) =~= failure_views(before).push(
                    (remote@, why@),
                ));
            },
        }
    }

    /// The summary of the copy.
    pub fn finish(self) -> (r: DirCopyResult)
        requires
            self.wf(),
        ensures
            (r.bytes_transferred, r.files_copied, r.symlinks_skipped) == self.totals(),
            failure_views(r.failures@) == self.failures(),
            r.bytes_transferred == fate_counts(self.log()).0,
            r.files_copied == capped(fate_counts(self.log()).1),
            r.symlinks_skipped == capped(fate_counts(self.log()).2),
            r.failures@.len() == fate_counts(self.log()).3,
    {
        self.result
    }
}

/// At every point of a directory copy, its totals are counts over the
/// entries it has met: the bytes and the number of the files copied, the
/// number of symlinks passed over (each count held at `usize::MAX`), and one
/// failure for each file or directory that failed.
pub proof fn law_walk_totals_count_the_log(w: DirWalk)
    requires
        w.wf(),
    ensures
        w.totals().0 == fate_counts(w.log()).0,
        w.totals().1 == capped(fate_counts(w.log()).1),
        w.totals().2 == capped(fate_counts(w.log()).2),
        w.failures().len() == fate_counts(w.log()).3,
{
}

/// The entries still to visit, in visiting order: those of the current
/// directory, then those of the pending frames, last frame first.
pub open spec fn walk_queue(rem: Seq<DirectoryEntry>, stack: Seq<FrameView>) -> Seq<DirectoryEntry>
    decreases stack.len(),
{
    if stack.len() == 0 {
        rem
    } else {
        rem + walk_queue(stack.last().1, stack.drop_last())
    }
}

/// The queue is the current entries followed by those of the frames.
proof fn lemma_walk_queue_split(rem: Seq<DirectoryEntry>, stack: Seq<FrameView>)
    ensures
        walk_queue(rem, stack) == rem + walk_queue(Seq::empty(), stack),
{
    if stack.len() == 0 {
        assert(rem + Seq::<DirectoryEntry>::empty() =~= rem);
    } else {
        assert(Seq::<DirectoryEntry>::empty() + walk_queue(stack.last().1, stack.drop_last())
            =~= walk_queue(stack.last().1, stack.drop_last()));
    }
}

/// Entries passed over as symlinks, in order.
pub open spec fn skipped_log(s: Seq<DirectoryEntry>) -> WalkLog {
    s.map_values(|e: DirectoryEntry| (e, EntryFate::Skipped))
}

/// Whether every entry of `s` is a symlink.
pub open spec fn all_symlinks(s: Seq<DirectoryEntry>) -> bool {
    forall|i: int| 0 <= i < s.len() ==> (#[trigger] s[i]).entry_type == EntryType::Symlink
}

/// Each step of a directory copy takes the entries still to visit in order:
/// it passes over the symlinks at their head, counting them, then hands out
/// exactly the next entry, which is a file or a directory; what remains to
/// visit afterwards is the rest of the queue, nothing lost and nothing
/// repeated. When no entry is handed out, only symlinks were left.
pub proof fn law_walk_visits_queue_in_order(
    local: Seq<char>,
    rem: Seq<DirectoryEntry>,
    stack: Seq<FrameView>,
)
    ensures
        ({
            let (k, next, rest) = advance(local, rem, stack);
            let q = walk_queue(rem, stack);
            &&& k <= q.len()
            &&& all_symlinks(q.take(k as int))
            &&& match next {
                None => q.len() == k,
                Some((l, e, after)) => q.len() > k && q[k as int] == e && e.entry_type
                    != EntryType::Symlink && q.skip(k + 1int) == walk_queue(after, rest),
            }
        }),
    decreases stack.len(), rem.len(),
{
    let (k, next, rest) = advance(local, rem, stack);
    let q = walk_queue(rem, stack);
    if rem.len() > 0 {
        let tail_q = walk_queue(rem.drop_first(), stack);
        assert(q =~= seq![rem[0]] + tail_q) by {
            if stack.len() > 0 {
                assert(rem =~= seq![rem[0]] + rem.drop_first());
            } else {
                assert(rem =~= seq![rem[0]] + rem.drop_first());
            }
        }
        if rem[0].entry_type == EntryType::Symlink {
            law_walk_visits_queue_in_order(local, rem.drop_first(), stack);
            let r = advance(local, rem.drop_first(), stack);
            assert(q.take(k as int) =~= seq![rem[0]] + tail_q.take(r.0 as int));
            assert forall|i: int| 0 <= i < q.take(k as int).len() implies (#[trigger] q.take(
                k as int,
            )[i]).entry_type == EntryType::Symlink by {
                if i > 0 {
                    assert(q.take(k as int)[i] == tail_q.take(r.0 as int)[i - 1]);
                }
            }
            match r.1 {
                None => {},
                Some((l, e, after)) => {
                    assert(q.skip(k + 1int) =~= tail_q.skip(r.0 + 1int));
                },
            }
        } else {
            assert(q.take(0) =~= Seq::<DirectoryEntry>::empty());
            assert(q.skip(1) =~= tail_q);
        }
    } else if stack.len() == 0 {
        assert(q.take(0) =~= Seq::<DirectoryEntry>::empty());
    } else {
        law_walk_visits_queue_in_order(stack.last().0, stack.last().1, stack.drop_last());
        assert(q =~= walk_queue(stack.last().1, stack.drop_last()));
    }
}

/// Maximum file size allowed for viewing (50 MB).
pub const MAX_VIEW_SIZE: u64 = 52428800;

/// The outcome of checking a copy destination's parent, given whether it
/// exists and is a directory: no parent at all, none to check (a bare file
/// name), or a parent that must exist and be a directory.
pub open spec fn destination_verdict(local: Seq<char>, exists: bool, is_dir: bool) -> Result<
    (),
    Seq<char>,
> {
    match path_parent(local) {
        None => Err("Cannot determine parent directory of destination path"@),
        Some(p) => if p.len() == 0 {
            Ok(())
        } else if !exists {
            Err("Parent directory does not exist: "@ + p)
        } else if !is_dir {
            Err("Parent path is not a directory: "@ + p)
        } else {
            Ok(())
        },
    }
}

/// The view of a check result.
pub open spec fn check_view(r: Result<(), String>) -> Result<(), Seq<char>> {
    match r {
        Ok(()) => Ok(()),
        Err(m) => Err(m@),
    }
}

/// The directory that must exist before copying to `local_path`: `None`
/// when the destination is a bare file name.
pub fn destination_parent(local_path: &str) -> (r: Option<String>)
    ensures
        r matches Some(p) ==> path_parent(local_path@) == Some(p@) && p@.len() > 0,
        r is None ==> path_parent(local_path@) is None || path_parent(local_path@) == Some(
            Seq::<char>::empty(),
        ),
{
    let v = chars_of(local_path);
    match parent_of(v.as_slice()) {
        Some(p) => {
            if p.len() == 0 {
                None
            } else {
                Some(string_from_chars(p.as_slice()))
            }
        },
        None => None,
    }
}

/// Validate that the destination path's parent directory exists, given
/// whether that parent (`destination_parent`) exists and is a directory.
///
/// Returns `Ok(())` if the parent directory exists and is a directory.
/// Returns `Err(message)` if the parent does not exist or is not a directory.
pub fn validate_copy_destination(local_path: &str, parent_exists: bool, parent_is_dir: bool) -> (r:
    Result<(), String>)
    ensures
        check_view(r) == destination_verdict(local_path@, parent_exists, parent_is_dir),
{
    let v = chars_of(local_path);
    match parent_of(v.as_slice()) {
        None => {
            let mut m = String::new();
            push_str(&mut m, "Cannot determine parent directory of destination path");
            Err(m)
        },
        Some(p) => {
            if p.len() == 0 {
                Ok(())
            } else if !parent_exists {
                let mut m = String::new();
                push_str(&mut m, "Parent directory does not exist: ");
                push_chars(&mut m, p.as_slice());
                Err(m)
            } else if !parent_is_dir {
                let mut m = String::new();
                push_str(&mut m, "Parent path is not a directory: ");
                push_chars(&mut m, p.as_slice());
                Err(m)
            } else {
                Ok(())
            }
        },
    }
}

/// The editor to use: `EDITOR` when set and not empty, else `VISUAL` when
/// set and not empty, else `less`.
pub open spec fn editor_choice(editor: Option<Seq<char>>, visual: Option<Seq<char>>) -> Seq<char> {
    if editor matches Some(e) && e.len() > 0 {
        editor->0
    } else if visual matches Some(v) && v.len() > 0 {
        visual->0
    } else {
        "less"@
    }
}

/// The editor command, given the values of `EDITOR` and `VISUAL` (`None`
/// when unset).
pub fn choose_editor(editor: Option<String>, visual: Option<String>) -> (r: String)
    ensures
        r@ == editor_choice(
            match editor {
                Some(e) => Some(e@),
                None => None,
            },
            match visual {
                Some(v) => Some(v@),
                None => None,
            },
        ),
{
    if let Some(e) = editor {
        if !e.as_str().is_empty() {
            return e;
        }
    }
    if let Some(v) = visual {
        if !v.as_str().is_empty() {
            return v;
        }
    }
    let mut r = String::new();
    push_str(&mut r, "less");
    r
}

/// The refusal to view a file over the size limit.
pub open spec fn too_large_text(size: u64, max_size: u64) -> Seq<char> {
    "File too large ("@ + scaled_text(size, 1048576) + " MB). Maximum allowed size is "@
        + crate::text::decimal((max_size / 1048576) as nat) + " MB."@
}

/// Check a file's size against the viewing limit.
pub fn check_view_size(file_size: u64, max_size: u64) -> (r: Result<(), String>)
    ensures
        file_size <= max_size ==> r is Ok,
        file_size > max_size ==> (r matches Err(m) && m@ == too_large_text(file_size, max_size)),
{
    if file_size > max_size {
        let mut m = String::new();
        push_str(&mut m, "File too large (");
        crate::types::push_scaled_bytes(&mut m, file_size, 1048576);
        push_str(&mut m, " MB). Maximum allowed size is ");
        push_decimal(&mut m, (max_size / 1048576) as u128);
        push_str(&mut m, " MB.");
        Err(m)
    } else {
        Ok(())
    }
}

} // verus!
