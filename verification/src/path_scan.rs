//! The decisions of a path scan, as a state machine that the program around it
//! drives: each typed-in path is walked in turn; a deep scan then searches the
//! recycle bins and the MFTs of the paths' drives; the found files are saved and
//! the front end is told of the progress, of a cancellation and of the end.
//!
//! The driver performs the actions that [`path_scan_step`] hands it (walking a
//! path, scanning a drive, emitting a report, saving the results) and hands back
//! what the work found, with whether the scan was cancelled meanwhile.
use vstd::prelude::*;
use crate::scan::{
    count_deleted, count_deleted_in, completion_message, deep_start_message, join_notes,
    path_done_message, path_start_message, preview_len, spec_completion_message,
    spec_deep_start_message, spec_join, spec_path_done_message, spec_path_start_message, texts,
    FoundFile, EVENT_RESULT_CAP,
};

verus! {

/// How many of the latest files a report at the end of a path carries.
pub const PATH_DONE_TAIL: usize = 100;

/// The status a report gives the front end.
#[derive(Debug, Clone, Copy, PartialEq, Eq, Structural)]
pub enum ScanStatus {
    Scanning,
    Cancelled,
    Completed,
}

/// A report to the front end. The progress is the fraction `progress.0 /
/// progress.1` of the whole scan; `current` is the index of the path concerned;
/// `path_progress` the share of that path done, in percent; `results` the range
/// of the files found so far that the report carries.
#[derive(Debug)]
pub struct ScanReport {
    pub status: ScanStatus,
    pub progress: (usize, usize),
    pub message: String,
    pub found: usize,
    pub current: Option<usize>,
    pub path_progress: Option<u32>,
    pub results: (usize, usize),
}

/// A [`ScanReport`] with its message as text.
pub struct ReportView {
    pub status: ScanStatus,
    pub progress: (usize, usize),
    pub message: Seq<char>,
    pub found: usize,
    pub current: Option<usize>,
    pub path_progress: Option<u32>,
    pub results: (usize, usize),
}

impl View for ScanReport {
    type V = ReportView;

    open spec fn view(&self) -> ReportView {
        ReportView {
            status: self.status,
            progress: self.progress,
            message: self.message@,
            found: self.found,
            current: self.current,
            path_progress: self.path_progress,
            results: self.results,
        }
    }
}

/// What the driver does next.
#[derive(Debug)]
pub enum PathScanAction {
    /// Tell the front end.
    Emit(ScanReport),
    /// Walk the path with this index, then report the files found.
    WalkPath(usize),
    /// Scan the recycle bin of the drive with this index.
    ScanRecycle(usize),
    /// Scan the MFT of the drive with this index for deleted files.
    ScanMft(usize),
    /// Save all the files found so far as the scan's results.
    Save,
    /// Release what the scan holds (its cancellation token).
    Cleanup,
}

pub enum ActionView {
    Emit(ReportView),
    WalkPath(usize),
    ScanRecycle(usize),
    ScanMft(usize),
    Save,
    Cleanup,
}

impl View for PathScanAction {
    type V = ActionView;

    open spec fn view(&self) -> ActionView {
        match self {
            PathScanAction::Emit(r) => ActionView::Emit(r@),
            PathScanAction::WalkPath(i) => ActionView::WalkPath(*i),
            PathScanAction::ScanRecycle(d) => ActionView::ScanRecycle(*d),
            PathScanAction::ScanMft(d) => ActionView::ScanMft(*d),
            PathScanAction::Save => ActionView::Save,
            PathScanAction::Cleanup => ActionView::Cleanup,
        }
    }
}

/// The views of a list of actions.
pub open spec fn actions_view(a: Seq<PathScanAction>) -> Seq<ActionView> {
    a.map_values(|x: PathScanAction| x@)
}

/// What the driver hands back: the files that the last work found (none at the
/// start), the note of a drive that could not be scanned, and whether the scan
/// was cancelled.
pub struct PathScanEvent {
    pub files: Vec<FoundFile>,
    pub note: Option<String>,
    pub cancelled: bool,
}

/// The phase a scan is in.
#[derive(Debug, Clone, Copy, PartialEq, Eq, Structural)]
pub enum ScanStage {
    Paths,
    Recycle,
    Mft,
    Finished,
}

/// A path scan in progress.
pub struct PathScanState {
    labels: Vec<String>,
    deep: bool,
    drives: usize,
    stage: ScanStage,
    pos: usize,
    busy: bool,
    files: Vec<FoundFile>,
    notes: Vec<String>,
}

/// The state of a path scan: the labels of its paths (their last components),
/// whether it is deep, how many drives a deep scan searches, its phase, the
/// index of the path or drive it is at, whether work on that one is under way,
/// the files found so far and the notes of drives that could not be scanned.
pub struct ScanView {
    pub labels: Seq<Seq<char>>,
    pub deep: bool,
    pub drives: usize,
    pub stage: ScanStage,
    pub pos: usize,
    pub busy: bool,
    pub files: Seq<FoundFile>,
    pub notes: Seq<Seq<char>>,
}

impl View for PathScanState {
    type V = ScanView;

    closed spec fn view(&self) -> ScanView {
        ScanView {
            labels: texts(self.labels@),
            deep: self.deep,
            drives: self.drives,
            stage: self.stage,
            pos: self.pos,
            busy: self.busy,
            files: self.files@,
            notes: texts(self.notes@),
        }
    }
}

/// A consistent scan state: the position lies within its phase, work is under
/// way only on an existing path or drive, and a scan that is not deep never
/// enters the deleted-file phases.
pub open spec fn scan_wf(v: ScanView) -> bool {
    &&& v.stage == ScanStage::Paths ==> v.pos <= v.labels.len() && (v.busy ==> v.pos < v.labels.len())
    &&& (v.stage == ScanStage::Recycle || v.stage == ScanStage::Mft) ==> v.deep && v.pos <= v.drives && (
    v.busy ==> v.pos < v.drives)
    &&& v.stage == ScanStage::Finished ==> !v.busy
}

/// The files of a preview: the first [`EVENT_RESULT_CAP`] at most.
pub open spec fn preview_range(n: nat) -> (usize, usize) {
    (0, if n <= EVENT_RESULT_CAP { n as usize } else { EVENT_RESULT_CAP })
}

/// The report of a cancellation before the path at `v.pos`.
pub open spec fn cancel_report(v: ScanView) -> ReportView {
    ReportView {
        status: ScanStatus::Cancelled,
        progress: (0, 1),
        message: "已取消"@,
        found: v.files.len() as usize,
        current: Some(v.pos),
        path_progress: None,
        results: preview_range(v.files.len()),
    }
}

/// The report that the walk of the path at `v.pos` begins.
pub open spec fn start_report(v: ScanView) -> ReportView {
    ReportView {
        status: ScanStatus::Scanning,
        progress: (v.pos, v.labels.len() as usize),
        message: spec_path_start_message((v.pos + 1) as nat, v.labels.len(), v.labels[v.pos as int]),
        found: 0,
        current: Some(v.pos),
        path_progress: Some(0),
        results: (0, 0),
    }
}

/// The report that the walk of the path at `v.pos` is done, `v.files` holding
/// what it found: it carries the last [`PATH_DONE_TAIL`] files.
pub open spec fn done_report(v: ScanView) -> ReportView {
    let n = v.files.len();
    ReportView {
        status: ScanStatus::Scanning,
        progress: ((v.pos + 1) as usize, v.labels.len() as usize),
        message: spec_path_done_message((v.pos + 1) as nat, v.labels.len(), v.labels[v.pos as int], n),
        found: n as usize,
        current: Some(v.pos),
        path_progress: Some(100),
        results: ((if n <= PATH_DONE_TAIL { 0 } else { n - PATH_DONE_TAIL }) as usize, n as usize),
    }
}

/// The report that the deleted-file phases begin (at 90%).
pub open spec fn deep_report(v: ScanView) -> ReportView {
    ReportView {
        status: ScanStatus::Scanning,
        progress: (90, 100),
        message: spec_deep_start_message(v.drives as nat),
        found: v.files.len() as usize,
        current: None,
        path_progress: None,
        results: (0, 0),
    }
}

/// The report of the notes of drives that could not be scanned (at 98%).
pub open spec fn notes_report(v: ScanView) -> ReportView {
    ReportView {
        status: ScanStatus::Scanning,
        progress: (98, 100),
        message: spec_join(v.notes, "；"@),
        found: v.files.len() as usize,
        current: None,
        path_progress: None,
        results: (0, 0),
    }
}

/// The report that the scan is complete.
pub open spec fn completed_report(v: ScanView) -> ReportView {
    let n = v.files.len();
    let d = count_deleted_in(v.files);
    ReportView {
        status: ScanStatus::Completed,
        progress: (1, 1),
        message: spec_completion_message(v.labels.len(), (n - d) as nat, d, v.notes),
        found: n as usize,
        current: None,
        path_progress: None,
        results: preview_range(n),
    }
}

/// `v` moved to `stage` at position `pos`, with no work under way.
pub open spec fn moved(v: ScanView, stage: ScanStage, pos: usize) -> ScanView {
    ScanView { stage, pos, busy: false, ..v }
}

/// `v` with work under way at its position.
pub open spec fn started(v: ScanView) -> ScanView {
    ScanView { busy: true, ..v }
}

/// The end of a scan: save everything, report completion, release.
pub open spec fn spec_finish(v: ScanView) -> (ScanView, Seq<ActionView>) {
    (
        moved(v, ScanStage::Finished, v.pos),
        seq![ActionView::Save, ActionView::Emit(completed_report(v)), ActionView::Cleanup],
    )
}

/// The MFT phase at `v.pos`: scan the next drive unless all are done or the
/// scan was cancelled; then report the notes, if any, and finish.
pub open spec fn spec_mft(v: ScanView, cancelled: bool) -> (ScanView, Seq<ActionView>) {
    if v.pos < v.drives && !cancelled {
        (started(v), seq![ActionView::ScanMft(v.pos)])
    } else if v.notes.len() > 0 {
        (spec_finish(v).0, seq![ActionView::Emit(notes_report(v))] + spec_finish(v).1)
    } else {
        spec_finish(v)
    }
}

/// The recycle bin phase at `v.pos`: scan the next drive unless all are done or
/// the scan was cancelled; then the MFT phase.
pub open spec fn spec_recycle(v: ScanView, cancelled: bool) -> (ScanView, Seq<ActionView>) {
    if v.pos < v.drives && !cancelled {
        (started(v), seq![ActionView::ScanRecycle(v.pos)])
    } else {
        spec_mft(moved(v, ScanStage::Mft, 0), cancelled)
    }
}

/// The path phase at `v.pos`: on a cancellation before a path, save what was
/// found, report the cancellation and release; else walk the next path; after
/// the last path, a deep scan with drives enters the recycle bin phase and any
/// other finishes.
pub open spec fn spec_paths(v: ScanView, cancelled: bool) -> (ScanView, Seq<ActionView>) {
    if v.pos < v.labels.len() {
        if cancelled {
            (
                moved(v, ScanStage::Finished, v.pos),
                seq![ActionView::Save, ActionView::Emit(cancel_report(v)), ActionView::Cleanup],
            )
        } else {
            (started(v), seq![ActionView::Emit(start_report(v)), ActionView::WalkPath(v.pos)])
        }
    } else if v.deep && v.drives > 0 {
        let r = spec_recycle(moved(v, ScanStage::Recycle, 0), cancelled);
        (r.0, seq![ActionView::Emit(deep_report(v))] + r.1)
    } else {
        spec_finish(v)
    }
}

/// What the scan does next from a state with no work under way.
pub open spec fn spec_advance(v: ScanView, cancelled: bool) -> (ScanView, Seq<ActionView>) {
    match v.stage {
        ScanStage::Paths => spec_paths(v, cancelled),
        ScanStage::Recycle => spec_recycle(v, cancelled),
        ScanStage::Mft => spec_mft(v, cancelled),
        ScanStage::Finished => (v, Seq::empty()),
    }
}

/// Takes in what the work under way found: its files are added after those
/// found before; a finished path is reported; the note of a drive is kept.
pub open spec fn spec_absorb(v: ScanView, files: Seq<FoundFile>, note: Option<Seq<char>>) -> (
    ScanView,
    Seq<ActionView>,
) {
    if !v.busy {
        (v, Seq::empty())
    } else {
        let w = ScanView { files: v.files + files, ..v };
        match v.stage {
            ScanStage::Paths => (
                moved(w, ScanStage::Paths, (v.pos + 1) as usize),
                seq![ActionView::Emit(done_report(w))],
            ),
            ScanStage::Recycle => (moved(w, ScanStage::Recycle, (v.pos + 1) as usize), Seq::empty()),
            ScanStage::Mft => {
                let x = match note {
                    Some(n) => ScanView { notes: w.notes.push(n), ..w },
                    None => w,
                };
                (moved(x, ScanStage::Mft, (v.pos + 1) as usize), Seq::empty())
            },
            ScanStage::Finished => (v, Seq::empty()),
        }
    }
}

/// One step of a scan on what the driver handed back.
pub open spec fn spec_step(v: ScanView, files: Seq<FoundFile>, note: Option<Seq<char>>, cancelled: bool) -> (
    ScanView,
    Seq<ActionView>,
) {
    let a = spec_absorb(v, files, note);
    let b = spec_advance(a.0, cancelled);
    (b.0, a.1 + b.1)
}

/// The text of an optional string.
pub open spec fn opt_text(o: Option<String>) -> Option<Seq<char>> {
    match o {
        Some(s) => Some(s@),
        None => None,
    }
}

/// Whether an action starts a deleted-file phase's work.
pub open spec fn is_deleted_scan(a: ActionView) -> bool {
    match a {
        ActionView::ScanRecycle(_) => true,
        ActionView::ScanMft(_) => true,
        _ => false,
    }
}

/// Law: a scan that is not deep never searches the recycle bins or the MFTs:
/// no step hands out such work, and its state never enters those phases.
pub proof fn lemma_shallow_scan_stays_shallow(
    v: ScanView,
    files: Seq<FoundFile>,
    note: Option<Seq<char>>,
    cancelled: bool,
)
    requires
        scan_wf(v),
        !v.deep,
    ensures
        !spec_step(v, files, note, cancelled).0.deep,
        spec_step(v, files, note, cancelled).0.stage != ScanStage::Recycle,
        spec_step(v, files, note, cancelled).0.stage != ScanStage::Mft,
        forall|k: int|
            0 <= k < spec_step(v, files, note, cancelled).1.len() ==> !is_deleted_scan(
                #[trigger] spec_step(v, files, note, cancelled).1[k],
            ),
{
    let a = spec_absorb(v, files, note);
    let b = spec_advance(a.0, cancelled);
    let r = spec_step(v, files, note, cancelled);
    assert(r.1 == a.1 + b.1);
    assert forall|k: int| 0 <= k < r.1.len() implies !is_deleted_scan(#[trigger] r.1[k]) by {
        if k < a.1.len() {
            assert(r.1[k] == a.1[k]);
        } else {
            assert(r.1[k] == b.1[k - a.1.len()]);
        }
    }
}

/// Law: a step adds the files that the work under way found after those found
/// before, in order, and keeps every file found before.
pub proof fn lemma_step_keeps_files(v: ScanView, files: Seq<FoundFile>, note: Option<Seq<char>>, cancelled: bool)
    requires
        scan_wf(v),
    ensures
        spec_step(v, files, note, cancelled).0.files == (if v.busy { v.files + files } else { v.files }),
{
}

/// Whether `acts` ends by saving the results, reporting the cancellation or the
/// completion with `n` files found and a preview of them, and releasing the scan.
pub open spec fn ends_with_save(acts: Seq<ActionView>, n: nat) -> bool {
    let k = acts.len();
    &&& k >= 3
    &&& acts[k - 3] == ActionView::Save
    &&& acts[k - 1] == ActionView::Cleanup
    &&& acts[k - 2] matches ActionView::Emit(rep) && (rep.status == ScanStatus::Cancelled || rep.status
        == ScanStatus::Completed) && rep.found == n as usize && rep.results == preview_range(n)
}

proof fn lemma_prefix_keeps_end(p: Seq<ActionView>, q: Seq<ActionView>, n: nat)
    requires
        ends_with_save(q, n),
    ensures
        ends_with_save(p + q, n),
{
    let r = p + q;
    let k = r.len();
    assert(r[k - 3] == q[q.len() - 3]);
    assert(r[k - 2] == q[q.len() - 2]);
    assert(r[k - 1] == q[q.len() - 1]);
}

proof fn lemma_finish_ends(v: ScanView)
    ensures
        ends_with_save(spec_finish(v).1, v.files.len()),
        spec_finish(v).0.files == v.files,
{
}

proof fn lemma_mft_ends(v: ScanView, c: bool)
    requires
        spec_mft(v, c).0.stage == ScanStage::Finished,
        v.stage != ScanStage::Finished,
    ensures
        ends_with_save(spec_mft(v, c).1, v.files.len()),
        spec_mft(v, c).0.files == v.files,
{
    lemma_finish_ends(v);
    if !(v.pos < v.drives && !c) && v.notes.len() > 0 {
        lemma_prefix_keeps_end(seq![ActionView::Emit(notes_report(v))], spec_finish(v).1, v.files.len());
    }
}

proof fn lemma_recycle_ends(v: ScanView, c: bool)
    requires
        spec_recycle(v, c).0.stage == ScanStage::Finished,
        v.stage != ScanStage::Finished,
    ensures
        ends_with_save(spec_recycle(v, c).1, v.files.len()),
        spec_recycle(v, c).0.files == v.files,
{
    if !(v.pos < v.drives && !c) {
        lemma_mft_ends(moved(v, ScanStage::Mft, 0), c);
    }
}

proof fn lemma_advance_ends(v: ScanView, c: bool)
    requires
        spec_advance(v, c).0.stage == ScanStage::Finished,
        v.stage != ScanStage::Finished,
    ensures
        ends_with_save(spec_advance(v, c).1, v.files.len()),
        spec_advance(v, c).0.files == v.files,
{
    match v.stage {
        ScanStage::Paths => {
            if v.pos < v.labels.len() {
            } else if v.deep && v.drives > 0 {
                let w = moved(v, ScanStage::Recycle, 0);
                lemma_recycle_ends(w, c);
                lemma_prefix_keeps_end(seq![ActionView::Emit(deep_report(v))], spec_recycle(w, c).1, v.files.len());
            } else {
                lemma_finish_ends(v);
            }
        },
        ScanStage::Recycle => lemma_recycle_ends(v, c),
        ScanStage::Mft => lemma_mft_ends(v, c),
        ScanStage::Finished => {},
    }
}

/// Law: the step that ends a scan saves all the files found, then reports
/// either the cancellation or the completion with the number of those files
/// and a preview of at most [`EVENT_RESULT_CAP`] of them, then releases the
/// scan; a finished scan hands out nothing more.
pub proof fn lemma_scan_ends_with_save(v: ScanView, files: Seq<FoundFile>, note: Option<Seq<char>>, cancelled: bool)
    requires
        scan_wf(v),
        v.stage != ScanStage::Finished,
        spec_step(v, files, note, cancelled).0.stage == ScanStage::Finished,
    ensures
        ends_with_save(spec_step(v, files, note, cancelled).1, spec_step(v, files, note, cancelled).0.files.len()),
        spec_advance(spec_step(v, files, note, cancelled).0, false).1 == Seq::<ActionView>::empty(),
{
    let a = spec_absorb(v, files, note);
    lemma_advance_ends(a.0, cancelled);
    lemma_prefix_keeps_end(a.1, spec_advance(a.0, cancelled).1, a.0.files.len());
}

proof fn lemma_actions_view_push(a: Seq<PathScanAction>, x: PathScanAction)
    ensures
        actions_view(a.push(x)) == actions_view(a).push(x@),
{
    assert(actions_view(a.push(x)) =~= actions_view(a).push(x@));
}

impl PathScanState {
    /// A scan of paths labelled `labels`; `deep` asks for the deleted-file
    /// phases, over `drives` drives.
    pub fn new(labels: Vec<String>, deep: bool, drives: usize) -> (s: Self)
        ensures
            s@.labels == texts(labels@),
            s@.deep == deep,
            s@.drives == drives,
            s@.stage == ScanStage::Paths,
            s@.pos == 0,
            !s@.busy,
            s@.files == Seq::<FoundFile>::empty(),
            s@.notes == Seq::<Seq<char>>::empty(),
            scan_wf(s@),
    {
        PathScanState {
            labels,
            deep,
            drives,
            stage: ScanStage::Paths,
            pos: 0,
            busy: false,
            files: Vec::new(),
            notes: Vec::new(),
        }
    }

    /// The files found so far.
    pub fn files(&self) -> (r: &[FoundFile])
        ensures
            r@ == self@.files,
    {
        self.files.as_slice()
    }

    /// Whether the scan is over.
    pub fn is_finished(&self) -> (r: bool)
        ensures
            r == (self@.stage == ScanStage::Finished),
    {
        match self.stage {
            ScanStage::Finished => true,
            _ => false,
        }
    }
}

/// Appends `x` to `acts`.
fn push_action(acts: &mut Vec<PathScanAction>, x: PathScanAction)
    ensures
        actions_view(final(acts)@) == actions_view(old(acts)@).push(x@),
{
    proof {
        lemma_actions_view_push(acts@, x);
    }
    acts.push(x);
}

fn range_tail(n: usize) -> (r: (usize, usize))
    ensures
        r == ((if n <= PATH_DONE_TAIL { 0 } else { n - PATH_DONE_TAIL }) as usize, n),
{
    if n <= PATH_DONE_TAIL {
        (0, n)
    } else {
        (n - PATH_DONE_TAIL, n)
    }
}

fn preview_of(n: usize) -> (r: (usize, usize))
    ensures
        r == preview_range(n as nat),
{
    (0, preview_len(n))
}

fn finish(s: PathScanState, acts: &mut Vec<PathScanAction>) -> (r: PathScanState)
    ensures
        r@ == spec_finish(s@).0,
        actions_view(final(acts)@) == actions_view(old(acts)@) + spec_finish(s@).1,
{
    let ghost a0 = actions_view(acts@);
    let n = s.files.len();
    let d = count_deleted(s.files.as_slice());
    let message = completion_message(s.labels.len(), n - d, d, s.notes.as_slice());
    push_action(acts, PathScanAction::Save);
    let rep = ScanReport {
        status: ScanStatus::Completed,
        progress: (1, 1),
        message,
        found: n,
        current: None,
        path_progress: None,
        results: preview_of(n),
    };
    assert(rep@ == completed_report(s@));
    push_action(acts, PathScanAction::Emit(rep));
    push_action(acts, PathScanAction::Cleanup);
    assert(actions_view(acts@) =~= a0 + spec_finish(s@).1);
    PathScanState { stage: ScanStage::Finished, busy: false, ..s }
}

fn mft(s: PathScanState, cancelled: bool, acts: &mut Vec<PathScanAction>) -> (r: PathScanState)
    ensures
        r@ == spec_mft(s@, cancelled).0,
        actions_view(final(acts)@) == actions_view(old(acts)@) + spec_mft(s@, cancelled).1,
{
    let ghost a0 = actions_view(acts@);
    if s.pos < s.drives && !cancelled {
        push_action(acts, PathScanAction::ScanMft(s.pos));
        assert(actions_view(acts@) =~= a0 + spec_mft(s@, cancelled).1);
        PathScanState { busy: true, ..s }
    } else if s.notes.len() > 0 {
        let rep = ScanReport {
            status: ScanStatus::Scanning,
            progress: (98, 100),
            message: join_notes(s.notes.as_slice()),
            found: s.files.len(),
            current: None,
            path_progress: None,
            results: (0, 0),
        };
        assert(rep@ == notes_report(s@));
        push_action(acts, PathScanAction::Emit(rep));
        let ghost a1 = actions_view(acts@);
        let r = finish(s, acts);
        assert(actions_view(acts@) =~= a0 + spec_mft(s@, cancelled).1);
        r
    } else {
        finish(s, acts)
    }
}

fn recycle(s: PathScanState, cancelled: bool, acts: &mut Vec<PathScanAction>) -> (r: PathScanState)
    requires
        s@.stage == ScanStage::Recycle,
    ensures
        r@ == spec_recycle(s@, cancelled).0,
        actions_view(final(acts)@) == actions_view(old(acts)@) + spec_recycle(s@, cancelled).1,
{
    let ghost a0 = actions_view(acts@);
    if s.pos < s.drives && !cancelled {
        push_action(acts, PathScanAction::ScanRecycle(s.pos));
        assert(actions_view(acts@) =~= a0 + spec_recycle(s@, cancelled).1);
        PathScanState { busy: true, ..s }
    } else {
        let m = PathScanState { stage: ScanStage::Mft, pos: 0, busy: false, ..s };
        assert(m@ == moved(s@, ScanStage::Mft, 0));
        mft(m, cancelled, acts)
    }
}

fn paths(s: PathScanState, cancelled: bool, acts: &mut Vec<PathScanAction>) -> (r: PathScanState)
    requires
        s@.stage == ScanStage::Paths,
    ensures
        r@ == spec_paths(s@, cancelled).0,
        actions_view(final(acts)@) == actions_view(old(acts)@) + spec_paths(s@, cancelled).1,
{
    let ghost a0 = actions_view(acts@);
    let n = s.labels.len();
    if s.pos < n {
        if cancelled {
            push_action(acts, PathScanAction::Save);
            let rep = ScanReport {
                status: ScanStatus::Cancelled,
                progress: (0, 1),
                message: "已取消".to_owned(),
                found: s.files.len(),
                current: Some(s.pos),
                path_progress: None,
                results: preview_of(s.files.len()),
            };
            assert(rep@ == cancel_report(s@));
            push_action(acts, PathScanAction::Emit(rep));
            push_action(acts, PathScanAction::Cleanup);
            assert(actions_view(acts@) =~= a0 + spec_paths(s@, cancelled).1);
            PathScanState { stage: ScanStage::Finished, busy: false, ..s }
        } else {
            let rep = ScanReport {
                status: ScanStatus::Scanning,
                progress: (s.pos, n),
                message: path_start_message(s.pos + 1, n, s.labels[s.pos].as_str()),
                found: 0,
                current: Some(s.pos),
                path_progress: Some(0),
                results: (0, 0),
            };
            assert(s@.labels[s.pos as int] == s.labels@[s.pos as int]@);
            assert(rep@ == start_report(s@));
            push_action(acts, PathScanAction::Emit(rep));
            push_action(acts, PathScanAction::WalkPath(s.pos));
            assert(actions_view(acts@) =~= a0 + spec_paths(s@, cancelled).1);
            PathScanState { busy: true, ..s }
        }
    } else if s.deep && s.drives > 0 {
        let rep = ScanReport {
            status: ScanStatus::Scanning,
            progress: (90, 100),
            message: deep_start_message(s.drives),
            found: s.files.len(),
            current: None,
            path_progress: None,
            results: (0, 0),
        };
        assert(rep@ == deep_report(s@));
        push_action(acts, PathScanAction::Emit(rep));
        let ghost a1 = actions_view(acts@);
        let m = PathScanState { stage: ScanStage::Recycle, pos: 0, busy: false, ..s };
        assert(m@ == moved(s@, ScanStage::Recycle, 0));
        let r = recycle(m, cancelled, acts);
        assert(actions_view(acts@) =~= a0 + spec_paths(s@, cancelled).1);
        r
    } else {
        finish(s, acts)
    }
}

fn advance(s: PathScanState, cancelled: bool, acts: &mut Vec<PathScanAction>) -> (r: PathScanState)
    ensures
        r@ == spec_advance(s@, cancelled).0,
        actions_view(final(acts)@) == actions_view(old(acts)@) + spec_advance(s@, cancelled).1,
{
    match s.stage {
        ScanStage::Paths => paths(s, cancelled, acts),
        ScanStage::Recycle => recycle(s, cancelled, acts),
        ScanStage::Mft => mft(s, cancelled, acts),
        ScanStage::Finished => {
            assert(actions_view(acts@) =~= actions_view(acts@) + Seq::<ActionView>::empty());
            s
        },
    }
}

/// `s` with `files` added after the files found so far.
fn with_files(s: PathScanState, files: Vec<FoundFile>) -> (r: PathScanState)
    ensures
        r@ == (ScanView { files: s@.files + files@, ..s@ }),
{
    let mut s = s;
    let mut files = files;
    s.files.append(&mut files);
    s
}

fn absorb_path(s: PathScanState, files: Vec<FoundFile>, acts: &mut Vec<PathScanAction>) -> (r: PathScanState)
    requires
        scan_wf(s@),
        s@.busy,
        s@.stage == ScanStage::Paths,
    ensures
        r@ == spec_absorb(s@, files@, None).0,
        actions_view(final(acts)@) == actions_view(old(acts)@) + spec_absorb(s@, files@, None).1,
{
    let ghost a0 = actions_view(acts@);
    let ghost v = s@;
    let ghost f0 = files@;
    let s = with_files(s, files);
    assert(s@.labels.len() == s.labels@.len());
    let count = s.labels.len();
    let n = s.files.len();
    let rep = ScanReport {
        status: ScanStatus::Scanning,
        progress: (s.pos + 1, count),
        message: path_done_message(s.pos + 1, count, s.labels[s.pos].as_str(), n),
        found: n,
        current: Some(s.pos),
        path_progress: Some(100),
        results: range_tail(n),
    };
    assert(s@.labels[s.pos as int] == s.labels@[s.pos as int]@);
    assert(rep@ == done_report(s@));
    push_action(acts, PathScanAction::Emit(rep));
    assert(actions_view(acts@) =~= a0 + spec_absorb(v, f0, None).1);
    PathScanState { pos: s.pos + 1, busy: false, ..s }
}

fn absorb_drive(s: PathScanState, files: Vec<FoundFile>, note: Option<String>) -> (r: PathScanState)
    requires
        scan_wf(s@),
        s@.busy,
        s@.stage == ScanStage::Recycle || s@.stage == ScanStage::Mft,
    ensures
        r@ == spec_absorb(s@, files@, opt_text(note)).0,
        spec_absorb(s@, files@, opt_text(note)).1 == Seq::<ActionView>::empty(),
{
    let ghost v = s@;
    let mut s = with_files(s, files);
    let ghost w = s@;
    if s.stage == ScanStage::Mft {
        match note {
            Some(n) => {
                let ghost nv = n@;
                s.notes.push(n);
                assert(texts(s.notes@) =~= w.notes.push(nv));
            },
            None => {},
        }
    }
    PathScanState { pos: s.pos + 1, busy: false, ..s }
}

fn absorb(s: PathScanState, files: Vec<FoundFile>, note: Option<String>, acts: &mut Vec<PathScanAction>) -> (r: PathScanState)
    requires
        scan_wf(s@),
    ensures
        r@ == spec_absorb(s@, files@, opt_text(note)).0,
        actions_view(final(acts)@) == actions_view(old(acts)@) + spec_absorb(s@, files@, opt_text(note)).1,
{
    let ghost a0 = actions_view(acts@);
    if !s.busy {
        assert(actions_view(acts@) =~= a0 + Seq::<ActionView>::empty());
        return s;
    }
    if s.stage == ScanStage::Paths {
        absorb_path(s, files, acts)
    } else {
        assert(actions_view(acts@) =~= a0 + Seq::<ActionView>::empty());
        absorb_drive(s, files, note)
    }
}

/// One step of a path scan: takes in what the driver's last work found (see
/// [`spec_step`]) and returns the next state with the actions to perform, in order.
pub fn path_scan_step(s: PathScanState, ev: PathScanEvent) -> (r: (PathScanState, Vec<PathScanAction>))
    requires
        scan_wf(s@),
    ensures
        scan_wf(r.0@),
        r.0@ == spec_step(s@, ev.files@, opt_text(ev.note), ev.cancelled).0,
        actions_view(r.1@) == spec_step(s@, ev.files@, opt_text(ev.note), ev.cancelled).1,
{
    let mut acts: Vec<PathScanAction> = Vec::new();
    let PathScanEvent { files, note, cancelled } = ev;
    let a = absorb(s, files, note, &mut acts);
    let ghost a1 = actions_view(acts@);
    let b = advance(a, cancelled, &mut acts);
    proof {
        assert(actions_view(Seq::<PathScanAction>::empty()) =~= Seq::<ActionView>::empty());
    }
    (b, acts)
}

} // verus!
