//! The item source: turning directory entries into units of work.
//!
//! A run walks one source directory and transcribes every audio file whose
//! transcription is not already present in the destination directory. Paths
//! are handled as byte strings, the form the operating system hands them
//! over in. For each entry the decision is: a name without an extension
//! aborts the enumeration; a name with an extension other than `wav` is
//! skipped; a `wav` whose destination text file already exists is skipped;
//! anything else becomes one unit of work. The decision and the plan built
//! from it are verified here; reading the directory and probing for existing
//! destinations is the caller's concern, which feeds the answers in.

use vstd::prelude::*;

use crate::client::Topic;
use vstd::slice::slice_subrange;

verus! {

/// The path separator byte, '/'.
pub const SEPARATOR: u8 = 47;

/// The extension separator byte, '.'.
pub const DOT: u8 = 46;

/// The index of the last occurrence of `b` in `s`, if any.
pub open spec fn rfind(s: Seq<u8>, b: u8) -> Option<int>
    decreases s.len(),
{
    if s.len() == 0 {
        None
    } else if s[s.len() - 1] == b {
        Some(s.len() - 1)
    } else {
        rfind(s.drop_last(), b)
    }
}

/// What `rfind` returns: the last position holding `b`, or nothing when no
/// position does.
proof fn lemma_rfind(s: Seq<u8>, b: u8)
    ensures
        match rfind(s, b) {
            Some(i) => 0 <= i < s.len() && s[i] == b && (forall|k: int|
                i < k < s.len() ==> s[k] != b),
            None => forall|k: int| 0 <= k < s.len() ==> s[k] != b,
        },
    decreases s.len(),
{
    if s.len() > 0 && s[s.len() - 1] != b {
        lemma_rfind(s.drop_last(), b);
        match rfind(s.drop_last(), b) {
            Some(i) => {
                assert(s[i] == s.drop_last()[i]);
                assert forall|k: int| i < k < s.len() implies s[k] != b by {
                    if k < s.len() - 1 {
                        assert(s[k] == s.drop_last()[k]);
                    }
                }
            },
            None => {
                assert forall|k: int| 0 <= k < s.len() implies s[k] != b by {
                    if k < s.len() - 1 {
                        assert(s[k] == s.drop_last()[k]);
                    }
                }
            },
        }
    }
}

/// A suffix free of `b` does not change where `b` last occurs.
proof fn lemma_rfind_clean_suffix(s: Seq<u8>, b: u8, j: int)
    requires
        0 <= j <= s.len(),
        forall|k: int| j <= k < s.len() ==> s[k] != b,
    ensures
        rfind(s, b) == rfind(s.take(j), b),
    decreases s.len() - j,
{
    if j < s.len() {
        lemma_rfind_clean_suffix(s.drop_last(), b, j);
        assert(s.drop_last().take(j) =~= s.take(j));
    } else {
        assert(s.take(j) =~= s);
    }
}

/// Scans `s` for the last occurrence of `b`.
pub fn rfind_byte(s: &[u8], b: u8) -> (r: Option<usize>)
    ensures
        rfind(s@, b) == match r {
            Some(i) => Some(i as int),
            None => None::<int>,
        },
        r matches Some(i) ==> i < s@.len() && s@[i as int] == b,
{
    let mut j = s.len();
    while j > 0
        invariant
            j <= s@.len(),
            forall|k: int| j <= k < s@.len() ==> s@[k] != b,
        decreases j,
    {
        j = j - 1;
        if s[j] == b {
            proof {
                lemma_rfind_clean_suffix(s@, b, j as int + 1);
                assert(s@.take(j as int + 1).len() == j + 1);
                assert(s@.take(j as int + 1)[j as int] == b);
            }
            return Some(j);
        }
    }
    proof {
        lemma_rfind_clean_suffix(s@, b, 0);
    }
    None
}

/// The file name of a path: everything after the last separator, or the
/// whole path when there is none.
pub open spec fn file_name_of(path: Seq<u8>) -> Seq<u8> {
    match rfind(path, SEPARATOR) {
        Some(i) => path.skip(i + 1),
        None => path,
    }
}

/// The extension of a file name: everything after the last dot, provided
/// that dot is not the leading byte. A name without a dot, or with its only
/// dot at the front, has no extension.
pub open spec fn extension_of(name: Seq<u8>) -> Option<Seq<u8>> {
    match rfind(name, DOT) {
        Some(i) => if i >= 1 {
            Some(name.skip(i + 1))
        } else {
            None
        },
        None => None,
    }
}

/// The stem of a file name: everything before the dot that starts the
/// extension, or the whole name when there is no extension.
pub open spec fn stem_of(name: Seq<u8>) -> Seq<u8> {
    match rfind(name, DOT) {
        Some(i) => if i >= 1 {
            name.take(i)
        } else {
            name
        },
        None => name,
    }
}

/// Bytes of the audio extension, "wav".
pub open spec fn wav_extension() -> Seq<u8> {
    seq!['w' as u8, 'a' as u8, 'v' as u8]
}

/// Bytes of the transcription suffix, ".txt".
pub open spec fn txt_suffix() -> Seq<u8> {
    seq!['.' as u8, 't' as u8, 'x' as u8, 't' as u8]
}

/// The path names an audio file: its file name carries the `wav` extension.
pub open spec fn is_wav(path: Seq<u8>) -> bool {
    extension_of(file_name_of(path)) == Some(wav_extension())
}

/// The destination of a source path: its stem moved under the destination
/// directory, with the transcription suffix.
pub open spec fn dest_path(path: Seq<u8>, dest_dir: Seq<u8>) -> Seq<u8> {
    dest_dir + seq![SEPARATOR] + stem_of(file_name_of(path)) + txt_suffix()
}

/// A file name with an extension is its stem, the dot, and the extension,
/// put back together.
proof fn lemma_name_reconstruct(name: Seq<u8>)
    requires
        extension_of(name) is Some,
    ensures
        name =~= stem_of(name) + seq![DOT] + extension_of(name).unwrap(),
{
    lemma_rfind(name, DOT);
    let i = rfind(name, DOT).unwrap();
    assert(name =~= name.take(i) + seq![name[i]] + name.skip(i + 1));
}

/// Two audio files with different names land on different destinations.
/// Directory entries bear distinct names, so the destinations of one run's
/// work items are distinct — what the failure-isolation law assumes of
/// them.
pub proof fn lemma_dest_path_injective(p1: Seq<u8>, p2: Seq<u8>, dest_dir: Seq<u8>)
    requires
        is_wav(p1),
        is_wav(p2),
        file_name_of(p1) != file_name_of(p2),
    ensures
        dest_path(p1, dest_dir) != dest_path(p2, dest_dir),
{
    let n1 = file_name_of(p1);
    let n2 = file_name_of(p2);
    let s1 = stem_of(n1);
    let s2 = stem_of(n2);
    lemma_name_reconstruct(n1);
    lemma_name_reconstruct(n2);
    if dest_path(p1, dest_dir) == dest_path(p2, dest_dir) {
        assert(dest_path(p1, dest_dir).len() == dest_dir.len() + 1 + s1.len() + 4);
        assert(dest_path(p2, dest_dir).len() == dest_dir.len() + 1 + s2.len() + 4);
        assert(s1.len() == s2.len());
        assert forall|k: int| 0 <= k < s1.len() implies s1[k] == s2[k] by {
            assert(dest_path(p1, dest_dir)[dest_dir.len() + 1 + k] == s1[k]);
            assert(dest_path(p2, dest_dir)[dest_dir.len() + 1 + k] == s2[k]);
        }
        assert(s1 =~= s2);
        assert(n1 =~= s1 + seq![DOT] + wav_extension());
        assert(n2 =~= s2 + seq![DOT] + wav_extension());
        assert(n1 =~= n2);
    }
}

/// A failure of the run's setup or enumeration, carrying the offending path.
#[derive(Clone, Debug)]
pub enum BatchError {
    /// The path exists but does not name a directory.
    NotADirectory(Vec<u8>),
    /// A directory entry whose name has no extension; this aborts the
    /// enumeration.
    MalformedPath(Vec<u8>),
}

/// What to do about a directory that a run needs.
#[derive(Clone, Copy, Debug, PartialEq, Eq, Structural)]
pub enum DirAction {
    /// The directory is there; use it.
    UseExisting,
    /// Nothing is there; create the directory first.
    Create,
}

/// Decides how to provide a directory a run needs, given whether its path
/// exists and whether it names a directory. A path that exists but is no
/// directory is a fatal startup error.
pub fn ensure_dir_plan(path: &Vec<u8>, exists: bool, is_dir: bool) -> (r: Result<
    DirAction,
    BatchError,
>)
    ensures
        exists && is_dir ==> r == Ok::<DirAction, BatchError>(DirAction::UseExisting),
        exists && !is_dir ==> (r matches Err(BatchError::NotADirectory(p)) && p@ == path@),
        !exists ==> r == Ok::<DirAction, BatchError>(DirAction::Create),
{
    if exists {
        if is_dir {
            Ok(DirAction::UseExisting)
        } else {
            Err(BatchError::NotADirectory(path.clone()))
        }
    } else {
        Ok(DirAction::Create)
    }
}

/// One unit of transcription work: read `source`, recognise it in
/// `language` against `topic`, write the text to `dest`.
#[derive(Clone, Debug)]
pub struct WorkItem {
    pub source: Vec<u8>,
    pub dest: Vec<u8>,
    pub topic: Topic,
    pub language: String,
}

/// The mathematical value of a work item.
pub ghost struct WorkV {
    pub source: Seq<u8>,
    pub dest: Seq<u8>,
    pub topic: Topic,
    pub language: Seq<char>,
}

impl View for WorkItem {
    type V = WorkV;

    open spec fn view(&self) -> WorkV {
        WorkV {
            source: self.source@,
            dest: self.dest@,
            topic: self.topic,
            language: self.language@,
        }
    }
}

/// A task in the queue: one file to transcribe, or the poison pill that
/// terminates exactly one worker. In the running system the poison pill
/// carries its acknowledgement channel; that channel is transport plumbing
/// and stays with the loop that drives the pool.
#[derive(Clone, Debug)]
pub enum Payload {
    File(WorkItem),
    Close,
}

/// The mathematical value of a task.
pub ghost enum PayloadV {
    File(WorkV),
    Close,
}

impl View for Payload {
    type V = PayloadV;

    open spec fn view(&self) -> PayloadV {
        match self {
            Payload::File(w) => PayloadV::File(w@),
            Payload::Close => PayloadV::Close,
        }
    }
}

/// One directory entry as the enumeration sees it: the entry's path and
/// whether the destination computed for it already exists.
pub struct SourceEntry {
    pub path: Vec<u8>,
    pub dest_exists: bool,
}

/// The mathematical value of a directory entry.
pub ghost struct SourceEntryV {
    pub path: Seq<u8>,
    pub dest_exists: bool,
}

impl View for SourceEntry {
    type V = SourceEntryV;

    open spec fn view(&self) -> SourceEntryV {
        SourceEntryV { path: self.path@, dest_exists: self.dest_exists }
    }
}

/// The views of a sequence of tasks.
pub open spec fn payloads_view(s: Seq<Payload>) -> Seq<PayloadV> {
    s.map_values(|p: Payload| p@)
}

/// The views of a sequence of directory entries.
pub open spec fn entries_view(s: Seq<SourceEntry>) -> Seq<SourceEntryV> {
    s.map_values(|e: SourceEntry| e@)
}

/// Which destinations a sequence of work tasks writes: no two tasks share
/// one.
pub open spec fn distinct_dests(works: Seq<PayloadV>) -> bool {
    forall|i: int, j: int|
        0 <= i < j < works.len() ==> (#[trigger] works[i])->File_0.dest != (
        #[trigger] works[j])->File_0.dest
}

/// The fate of one directory entry.
pub ghost enum EntryDecision {
    /// The name has no extension: the enumeration aborts.
    Malformed,
    /// Not an audio file, or already transcribed: no work.
    Skip,
    /// One unit of work.
    Work(WorkV),
}

/// The work item one eligible path yields.
pub open spec fn work_of(
    path: Seq<u8>,
    language: Seq<char>,
    topic: Topic,
    dest_dir: Seq<u8>,
) -> WorkV {
    WorkV { source: path, dest: dest_path(path, dest_dir), topic, language }
}

/// Decides the fate of one directory entry, as `entry_to_payload` carries
/// it out.
pub open spec fn entry_decision(
    path: Seq<u8>,
    language: Seq<char>,
    topic: Topic,
    dest_dir: Seq<u8>,
    dest_exists: bool,
) -> EntryDecision {
    match extension_of(file_name_of(path)) {
        None => EntryDecision::Malformed,
        Some(ext) => if ext != wav_extension() || dest_exists {
            EntryDecision::Skip
        } else {
            EntryDecision::Work(work_of(path, language, topic, dest_dir))
        },
    }
}

/// The extension bytes spell "wav".
fn is_wav_bytes(ext: &[u8]) -> (r: bool)
    ensures
        r == (ext@ == wav_extension()),
{
    if ext.len() == 3 {
        let r = ext[0] == 'w' as u8 && ext[1] == 'a' as u8 && ext[2] == 'v' as u8;
        proof {
            if r {
                assert(ext@ =~= wav_extension());
            }
        }
        r
    } else {
        false
    }
}

/// Appends the transcription suffix to a stem under the destination
/// directory.
fn build_dest(stem: &[u8], dest_dir: &Vec<u8>) -> (d: Vec<u8>)
    ensures
        d@ == dest_dir@ + seq![SEPARATOR] + stem@ + txt_suffix(),
{
    let mut d = dest_dir.clone();
    d.push(SEPARATOR);
    d.extend_from_slice(stem);
    d.push(DOT);
    d.push('t' as u8);
    d.push('x' as u8);
    d.push('t' as u8);
    proof {
        assert(d@ =~= dest_dir@ + seq![SEPARATOR] + stem@ + txt_suffix());
    }
    d
}

/// Computes where the transcription of `path` would go: the destination to
/// probe before the entry's fate can be decided. An entry without an
/// extension is malformed; one with an extension other than `wav` has no
/// destination.
pub fn dest_path_for(path: &Vec<u8>, dest_dir: &Vec<u8>) -> (r: Result<Option<Vec<u8>>, BatchError>)
    ensures
        match r {
            Err(e) => extension_of(file_name_of(path@)) is None && (e matches
            BatchError::MalformedPath(p) && p@ == path@),
            Ok(o) => match o {
                None => extension_of(file_name_of(path@)) matches Some(x) && x != wav_extension(),
                Some(d) => is_wav(path@) && d@ == dest_path(path@, dest_dir@),
            },
        },
{
    let path_len = path.len();
    let name_start: usize = match rfind_byte(path.as_slice(), SEPARATOR) {
        Some(i) => i + 1,
        None => 0,
    };
    proof {
        assert(file_name_of(path@) =~= path@.skip(name_start as int));
    }
    let name = slice_subrange(path.as_slice(), name_start, path_len);
    let dot = rfind_byte(name, DOT);
    match dot {
        None => Err(BatchError::MalformedPath(path.clone())),
        Some(i) => {
            if i == 0 {
                Err(BatchError::MalformedPath(path.clone()))
            } else {
                let ext = slice_subrange(name, i + 1, name.len());
                proof {
                    assert(ext@ =~= name@.skip(i + 1));
                    assert(extension_of(name@) == Some(ext@));
                }
                if !is_wav_bytes(ext) {
                    Ok(None)
                } else {
                    let stem = slice_subrange(name, 0, i);
                    proof {
                        assert(stem@ =~= name@.take(i as int));
                        assert(stem_of(name@) == stem@);
                    }
                    let d = build_dest(stem, dest_dir);
                    Ok(Some(d))
                }
            }
        },
    }
}

/// Decides the fate of one directory entry, handed the probe's answer for
/// its destination. This is the whole per-entry logic of the item source.
pub fn entry_to_payload(
    path: &Vec<u8>,
    language: &str,
    topic: Topic,
    dest_dir: &Vec<u8>,
    dest_exists: bool,
) -> (r: Result<Option<Payload>, BatchError>)
    ensures
        match entry_decision(path@, language@, topic, dest_dir@, dest_exists) {
            EntryDecision::Malformed => r matches Err(BatchError::MalformedPath(p)) && p@ == path@,
            EntryDecision::Skip => r matches Ok(o) && o is None,
            EntryDecision::Work(w) => r matches Ok(o) && o matches Some(p) && p@ == PayloadV::File(
                w,
            ),
        },
{
    let d = match dest_path_for(path, dest_dir) {
        Err(e) => {
            return Err(e);
        },
        Ok(None) => {
            return Ok(None);
        },
        Ok(Some(d)) => d,
    };
    if dest_exists {
        Ok(None)
    } else {
        Ok(
            Some(
                Payload::File(
                    WorkItem {
                        source: path.clone(),
                        dest: d,
                        topic,
                        language: language.to_owned(),
                    },
                ),
            ),
        )
    }
}

/// The work half of a run's plan: one task per eligible entry, in entry
/// order. The first entry without an extension aborts the enumeration, and
/// its path is the error.
pub open spec fn plan_works(
    entries: Seq<SourceEntryV>,
    language: Seq<char>,
    topic: Topic,
    dest_dir: Seq<u8>,
) -> Result<Seq<PayloadV>, Seq<u8>>
    decreases entries.len(),
{
    if entries.len() == 0 {
        Ok(Seq::empty())
    } else {
        match plan_works(entries.drop_last(), language, topic, dest_dir) {
            Err(p) => Err(p),
            Ok(ws) => {
                let e = entries.last();
                match entry_decision(e.path, language, topic, dest_dir, e.dest_exists) {
                    EntryDecision::Malformed => Err(e.path),
                    EntryDecision::Skip => Ok(ws),
                    EntryDecision::Work(w) => Ok(ws.push(PayloadV::File(w))),
                }
            },
        }
    }
}

/// A run's whole plan: the work tasks followed by one poison pill per
/// worker.
pub open spec fn plan_spec(
    entries: Seq<SourceEntryV>,
    language: Seq<char>,
    topic: Topic,
    dest_dir: Seq<u8>,
    workers: nat,
) -> Result<Seq<PayloadV>, Seq<u8>> {
    match plan_works(entries, language, topic, dest_dir) {
        Err(p) => Err(p),
        Ok(ws) => Ok(ws + Seq::new(workers, |i: int| PayloadV::Close)),
    }
}

/// Builds a run's plan from the enumerated entries: one task per eligible
/// entry, in order, then one poison pill per worker. The first entry whose
/// name has no extension aborts the plan instead.
pub fn build_plan(
    entries: &Vec<SourceEntry>,
    language: &str,
    topic: Topic,
    dest_dir: &Vec<u8>,
    workers: usize,
) -> (r: Result<Vec<Payload>, BatchError>)
    ensures
        match r {
            Ok(plan) => plan_spec(
                entries_view(entries@),
                language@,
                topic,
                dest_dir@,
                workers as nat,
            ) == Ok::<Seq<PayloadV>, Seq<u8>>(payloads_view(plan@)),
            Err(e) => e matches BatchError::MalformedPath(p) && plan_spec(
                entries_view(entries@),
                language@,
                topic,
                dest_dir@,
                workers as nat,
            ) == Err::<Seq<PayloadV>, Seq<u8>>(p@),
        },
{
    let ghost all = entries_view(entries@);
    let mut plan: Vec<Payload> = Vec::new();
    proof {
        assert(all.take(0) =~= Seq::<SourceEntryV>::empty());
        assert(payloads_view(plan@) =~= Seq::<PayloadV>::empty());
    }
    let n = entries.len();
    let mut i: usize = 0;
    while i < n
        invariant
            i <= n,
            n == entries@.len(),
            all == entries_view(entries@),
            plan_works(all.take(i as int), language@, topic, dest_dir@) == Ok::<
                Seq<PayloadV>,
                Seq<u8>,
            >(payloads_view(plan@)),
        decreases n - i,
    {
        let e = &entries[i];
        proof {
            assert(all.take(i + 1).drop_last() =~= all.take(i as int));
            assert(all.take(i + 1).last() == entries@[i as int]@);
        }
        match entry_to_payload(&e.path, language, topic, dest_dir, e.dest_exists) {
            Err(err) => {
                proof {
                    lemma_plan_works_err_prefix(all, language@, topic, dest_dir@, i + 1);
                }
                return Err(err);
            },
            Ok(Some(p)) => {
                let ghost before = payloads_view(plan@);
                plan.push(p);
                proof {
                    assert(payloads_view(plan@) =~= before.push(p@));
                }
            },
            Ok(None) => {},
        }
        i += 1;
    }
    proof {
        assert(all.take(n as int) =~= all);
    }
    let ghost works = payloads_view(plan@);
    let mut k: usize = 0;
    while k < workers
        invariant
            k <= workers,
            payloads_view(plan@) =~= works + Seq::new(k as nat, |j: int| PayloadV::Close),
            plan_works(entries_view(entries@), language@, topic, dest_dir@) == Ok::<
                Seq<PayloadV>,
                Seq<u8>,
            >(works),
        decreases workers - k,
    {
        let ghost before = payloads_view(plan@);
        plan.push(Payload::Close);
        proof {
            assert(payloads_view(plan@) =~= before.push(Payload::Close@));
            assert(before.push(Payload::Close@) =~= works + Seq::new(
                k as nat + 1,
                |j: int| PayloadV::Close,
            ));
        }
        k += 1;
    }
    proof {
        assert(payloads_view(plan@) =~= works + Seq::new(
            workers as nat,
            |j: int| PayloadV::Close,
        ));
    }
    Ok(plan)
}

/// Once a prefix of the entries aborts the enumeration, the whole
/// enumeration aborts with the same error.
proof fn lemma_plan_works_err_prefix(
    entries: Seq<SourceEntryV>,
    language: Seq<char>,
    topic: Topic,
    dest_dir: Seq<u8>,
    j: int,
)
    requires
        0 <= j <= entries.len(),
        plan_works(entries.take(j), language, topic, dest_dir) is Err,
    ensures
        plan_works(entries, language, topic, dest_dir) == plan_works(
            entries.take(j),
            language,
            topic,
            dest_dir,
        ),
    decreases entries.len() - j,
{
    if j < entries.len() {
        assert(entries.take(j + 1).drop_last() =~= entries.take(j));
        lemma_plan_works_err_prefix(entries, language, topic, dest_dir, j + 1);
    } else {
        assert(entries.take(j) =~= entries);
    }
}

/// Every task of a successful plan's work half is a work task; the poison
/// pills enter a plan only after it.
pub proof fn lemma_plan_works_are_files(
    entries: Seq<SourceEntryV>,
    language: Seq<char>,
    topic: Topic,
    dest_dir: Seq<u8>,
)
    ensures
        plan_works(entries, language, topic, dest_dir) matches Ok(ws) ==> forall|i: int|
            0 <= i < ws.len() ==> (#[trigger] ws[i]) is File,
    decreases entries.len(),
{
    if entries.len() > 0 {
        lemma_plan_works_are_files(entries.drop_last(), language, topic, dest_dir);
    }
}

/// Every work task of a successful plan stems from one of the entries: an
/// audio entry, under its computed destination.
proof fn lemma_plan_works_sources(
    entries: Seq<SourceEntryV>,
    language: Seq<char>,
    topic: Topic,
    dest_dir: Seq<u8>,
)
    ensures
        plan_works(entries, language, topic, dest_dir) matches Ok(ws) ==> forall|k: int|
            0 <= k < ws.len() ==> exists|i: int|
                0 <= i < entries.len() && is_wav(entries[i].path) && (#[trigger] ws[k])
                    == PayloadV::File(work_of(entries[i].path, language, topic, dest_dir)),
    decreases entries.len(),
{
    if entries.len() > 0 {
        lemma_plan_works_sources(entries.drop_last(), language, topic, dest_dir);
        let r = plan_works(entries, language, topic, dest_dir);
        if r is Ok {
            let ws = r->Ok_0;
            let dl = entries.drop_last();
            let ws0 = plan_works(dl, language, topic, dest_dir)->Ok_0;
            let e = entries.last();
            assert forall|k: int| 0 <= k < ws.len() implies exists|i: int|
                0 <= i < entries.len() && is_wav(entries[i].path) && (#[trigger] ws[k])
                    == PayloadV::File(work_of(entries[i].path, language, topic, dest_dir)) by {
                if k < ws0.len() {
                    assert(ws[k] == ws0[k]);
                    let i = choose|i: int|
                        0 <= i < dl.len() && is_wav(dl[i].path) && ws0[k] == PayloadV::File(
                            work_of(dl[i].path, language, topic, dest_dir),
                        );
                    assert(entries[i] == dl[i]);
                    assert(is_wav(entries[i].path) && ws[k] == PayloadV::File(
                        work_of(entries[i].path, language, topic, dest_dir),
                    ));
                } else {
                    let i = entries.len() - 1;
                    assert(entries[i] == e);
                    assert(is_wav(e.path));
                    assert(ws[k] == PayloadV::File(
                        work_of(entries[i].path, language, topic, dest_dir),
                    ));
                }
            }
        }
    }
}

/// A plan built over entries bearing distinct file names — as the entries
/// of one directory always do — writes each destination at most once: what
/// the failure-isolation law assumes of a run's work.
pub proof fn lemma_plan_dests_distinct(
    entries: Seq<SourceEntryV>,
    language: Seq<char>,
    topic: Topic,
    dest_dir: Seq<u8>,
)
    requires
        forall|i: int, j: int|
            0 <= i < j < entries.len() ==> file_name_of((#[trigger] entries[i]).path)
                != file_name_of((#[trigger] entries[j]).path),
    ensures
        plan_works(entries, language, topic, dest_dir) matches Ok(ws) ==> distinct_dests(ws),
    decreases entries.len(),
{
    if entries.len() > 0 && plan_works(entries, language, topic, dest_dir) is Ok {
        let dl = entries.drop_last();
        assert(forall|i: int| 0 <= i < dl.len() ==> dl[i] == entries[i]);
        lemma_plan_dests_distinct(dl, language, topic, dest_dir);
        lemma_plan_works_sources(dl, language, topic, dest_dir);
        let ws0 = plan_works(dl, language, topic, dest_dir)->Ok_0;
        let ws = plan_works(entries, language, topic, dest_dir)->Ok_0;
        let e = entries.last();
        match entry_decision(e.path, language, topic, dest_dir, e.dest_exists) {
            EntryDecision::Malformed => {},
            EntryDecision::Skip => {
                assert(ws == ws0);
            },
            EntryDecision::Work(w) => {
                assert(ws == ws0.push(PayloadV::File(w)));
                assert(w == work_of(e.path, language, topic, dest_dir));
                assert(is_wav(e.path));
                assert forall|k: int|
                    0 <= k < ws0.len() implies (#[trigger] ws0[k])->File_0.dest != w.dest by {
                    let i = choose|i: int|
                        0 <= i < dl.len() && is_wav(dl[i].path) && ws0[k] == PayloadV::File(
                            work_of(dl[i].path, language, topic, dest_dir),
                        );
                    assert(entries[i] == dl[i]);
                    assert(file_name_of(entries[i].path) != file_name_of(
                        entries[entries.len() - 1].path,
                    ));
                    lemma_dest_path_injective(dl[i].path, e.path, dest_dir);
                }
                assert forall|a: int, b: int|
                    0 <= a < b < ws.len() implies (#[trigger] ws[a])->File_0.dest != (
                #[trigger] ws[b])->File_0.dest by {
                    assert(ws[a] == ws0[a]);
                    if b < ws0.len() {
                        assert(ws[b] == ws0[b]);
                        assert(ws0[a]->File_0.dest != ws0[b]->File_0.dest);
                    } else {
                        assert(ws[b] == PayloadV::File(w));
                        assert(ws0[a]->File_0.dest != w.dest);
                    }
                }
            },
        }
    }
}

/// Idempotent resume: when every audio entry's destination already exists
/// (as it does immediately after a completed run), the plan holds no work
/// at all, so a second run performs no recognition calls.
pub proof fn lemma_idempotent_resume(
    entries: Seq<SourceEntryV>,
    language: Seq<char>,
    topic: Topic,
    dest_dir: Seq<u8>,
)
    requires
        forall|i: int|
            0 <= i < entries.len() ==> extension_of(
                file_name_of((#[trigger] entries[i]).path),
            ) is Some,
        forall|i: int|
            0 <= i < entries.len() ==> (is_wav((#[trigger] entries[i]).path)
                ==> entries[i].dest_exists),
    ensures
        plan_works(entries, language, topic, dest_dir) == Ok::<Seq<PayloadV>, Seq<u8>>(
            Seq::empty(),
        ),
    decreases entries.len(),
{
    if entries.len() > 0 {
        assert(forall|i: int|
            0 <= i < entries.drop_last().len() ==> entries.drop_last()[i] == entries[i]);
        lemma_idempotent_resume(entries.drop_last(), language, topic, dest_dir);
        let e = entries.last();
        assert(e == entries[entries.len() - 1]);
        assert(extension_of(file_name_of(e.path)) is Some);
        assert(entry_decision(e.path, language, topic, dest_dir, e.dest_exists)
            is Skip);
    }
}

} // verus!
