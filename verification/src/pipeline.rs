//! The correlation map and the streaming bridge: requests go out under a
//! fresh identifier, responses come back in any order and are matched to
//! their pending record by that identifier alone.

use vstd::prelude::*;
use crate::export::{Bbox, ExportFrame, ExportFrameV, finalized_frame};
use crate::media::{ErrFile, Frame, WebpItem};
use crate::utils::clone_bytes;

verus! {

/// The key-value pairs of the correlation store, folded into a map.
pub open spec fn entries_map(s: Seq<(Vec<u8>, ExportFrame)>) -> Map<Seq<u8>, ExportFrameV>
    decreases s.len(),
{
    if s.len() == 0 {
        Map::empty()
    } else {
        entries_map(s.drop_last()).insert(s.last().0@, s.last().1@)
    }
}

/// No two entries share a key.
pub open spec fn keys_unique(s: Seq<(Vec<u8>, ExportFrame)>) -> bool {
    forall|i: int, j: int| 0 <= i < j < s.len() ==> (#[trigger] s[i]).0@ != (#[trigger] s[j]).0@
}

proof fn lemma_entries_map_domain(s: Seq<(Vec<u8>, ExportFrame)>, key: Seq<u8>)
    ensures
        entries_map(s).contains_key(key) <==> exists|i: int|
            0 <= i < s.len() && (#[trigger] s[i]).0@ == key,
    decreases s.len(),
{
    if s.len() == 0 {
    } else {
        lemma_entries_map_domain(s.drop_last(), key);
        if entries_map(s).contains_key(key) {
            if s.last().0@ == key {
                assert(s[s.len() - 1].0@ == key);
            } else {
                let i = choose|i: int| 0 <= i < s.drop_last().len() && (#[trigger] s.drop_last()[i]).0@ == key;
                assert(s[i].0@ == key);
            }
        }
        if exists|i: int| 0 <= i < s.len() && (#[trigger] s[i]).0@ == key {
            let i = choose|i: int| 0 <= i < s.len() && (#[trigger] s[i]).0@ == key;
            if i == s.len() - 1 {
                assert(entries_map(s).contains_key(key));
            } else {
                assert(s.drop_last()[i].0@ == key);
                assert(entries_map(s.drop_last()).contains_key(key));
            }
        }
    }
}

proof fn lemma_entries_map_remove(s: Seq<(Vec<u8>, ExportFrame)>, k: int)
    requires
        keys_unique(s),
        0 <= k < s.len(),
    ensures
        entries_map(s.remove(k)) =~= entries_map(s).remove(s[k].0@),
    decreases s.len(),
{
    if k == s.len() - 1 {
        assert(s.remove(k) =~= s.drop_last());
        lemma_entries_map_domain(s.drop_last(), s[k].0@);
        assert(!entries_map(s.drop_last()).contains_key(s[k].0@));
        assert(entries_map(s) == entries_map(s.drop_last()).insert(s.last().0@, s.last().1@));
        assert(entries_map(s.drop_last()).insert(s.last().0@, s.last().1@).remove(s[k].0@)
            =~= entries_map(s.drop_last()));
    } else {
        assert(s.remove(k).drop_last() =~= s.drop_last().remove(k));
        assert(s.remove(k).last() == s.last());
        assert(forall|i: int, j: int|
            0 <= i < j < s.drop_last().len() ==> (#[trigger] s.drop_last()[i]).0@ != (
            #[trigger] s.drop_last()[j]).0@);
        lemma_entries_map_remove(s.drop_last(), k);
        assert(s.drop_last()[k].0@ == s[k].0@);
        assert(s[k].0@ != s.last().0@);
        assert(entries_map(s.remove(k)) == entries_map(s.drop_last().remove(k)).insert(
            s.last().0@,
            s.last().1@,
        ));
        assert(entries_map(s.drop_last()).remove(s[k].0@).insert(s.last().0@, s.last().1@)
            =~= entries_map(s.drop_last()).insert(s.last().0@, s.last().1@).remove(s[k].0@));
    }
}

/// The correlation store: each in-flight request identifier mapped to the
/// pending record that awaits its response.
pub struct PendingMap {
    entries: Vec<(Vec<u8>, ExportFrame)>,
}

impl View for PendingMap {
    type V = Map<Seq<u8>, ExportFrameV>;

    closed spec fn view(&self) -> Map<Seq<u8>, ExportFrameV> {
        entries_map(self.entries@)
    }
}

impl PendingMap {
    /// The store's internal invariant: one entry per key.
    pub closed spec fn wf(self) -> bool {
        keys_unique(self.entries@)
    }

    pub fn new() -> (r: Self)
        ensures
            r.wf(),
            r@ == Map::<Seq<u8>, ExportFrameV>::empty(),
            r.spec_len() == 0,
    {
        PendingMap { entries: Vec::new() }
    }

    /// How many requests are in flight.
    pub fn len(&self) -> (r: usize)
        ensures
            r == self.spec_len(),
    {
        self.entries.len()
    }

    /// The number of stored entries, for contracts.
    pub closed spec fn spec_len(self) -> nat {
        self.entries@.len()
    }

    fn find(&self, uuid: &Vec<u8>) -> (r: Option<usize>)
        ensures
            match r {
                Some(k) => k < self.entries@.len() && self.entries@[k as int].0@ == uuid@,
                None => forall|i: int|
                    0 <= i < self.entries@.len() ==> (#[trigger] self.entries@[i]).0@ != uuid@,
            },
    {
        let mut i: usize = 0;
        while i < self.entries.len()
            invariant
                i <= self.entries@.len(),
                forall|k: int|
                    0 <= k < i ==> (#[trigger] self.entries@[k]).0@ != uuid@,
            decreases self.entries@.len() - i,
        {
            if crate::utils::bytes_eq(&self.entries[i].0, uuid) {
                return Some(i);
            }
            i = i + 1;
        }
        None
    }

    /// Remove and return the record filed under `uuid`, if one is pending.
    pub fn take(&mut self, uuid: &Vec<u8>) -> (r: Option<ExportFrame>)
        requires
            old(self).wf(),
        ensures
            final(self).wf(),
            match r {
                Some(f) => {
                    &&& old(self)@.contains_key(uuid@)
                    &&& f@ == old(self)@[uuid@]
                    &&& final(self)@ == old(self)@.remove(uuid@)
                    &&& final(self).spec_len() + 1 == old(self).spec_len()
                },
                None => {
                    &&& !old(self)@.contains_key(uuid@)
                    &&& final(self)@ == old(self)@
                    &&& final(self).spec_len() == old(self).spec_len()
                },
            },
    {
        match self.find(uuid) {
            Some(k) => {
                proof {
                    lemma_entries_map_domain(self.entries@, uuid@);
                    lemma_entries_map_remove(self.entries@, k as int);
                    lemma_entries_map_at(self.entries@, k as int);
                }
                let (_key, frame) = self.entries.remove(k);
                proof {
                    assert forall|i: int, j: int|
                        0 <= i < j < self.entries@.len() implies (#[trigger] self.entries@[i]).0@
                        != (#[trigger] self.entries@[j]).0@ by {
                        let s = old(self).entries@;
                        if i < k as int {
                            if j < k as int {
                                assert(s[i].0@ != s[j].0@);
                            } else {
                                assert(s[i].0@ != s[j + 1].0@);
                            }
                        } else {
                            assert(s[i + 1].0@ != s[j + 1].0@);
                        }
                    }
                }
                Some(frame)
            },
            None => {
                proof {
                    lemma_entries_map_domain(self.entries@, uuid@);
                }
                None
            },
        }
    }

    /// File a record under `uuid`, replacing any entry already there.
    pub fn insert(&mut self, uuid: Vec<u8>, frame: ExportFrame)
        requires
            old(self).wf(),
        ensures
            final(self).wf(),
            final(self)@ == old(self)@.insert(uuid@, frame@),
    {
        let _ = self.take(&uuid);
        proof {
            lemma_entries_map_domain(self.entries@, uuid@);
        }
        let ghost before = self.entries@;
        self.entries.push((uuid, frame));
        proof {
            assert(self.entries@.drop_last() =~= before);
            assert(entries_map(self.entries@) == entries_map(before).insert(
                self.entries@.last().0@,
                self.entries@.last().1@,
            ));
            assert(old(self)@.remove(uuid@).insert(uuid@, frame@) =~= old(self)@.insert(
                uuid@,
                frame@,
            ));
            assert forall|i: int, j: int|
                0 <= i < j < self.entries@.len() implies (#[trigger] self.entries@[i]).0@ != (
            #[trigger] self.entries@[j]).0@ by {
                if j < self.entries@.len() - 1 {
                    assert(before[i].0@ != before[j].0@);
                } else {
                    assert(before[i].0@ != uuid@);
                }
            }
        }
    }

    /// Drop every pending entry.
    pub fn clear(&mut self)
        ensures
            final(self).wf(),
            final(self)@ == Map::<Seq<u8>, ExportFrameV>::empty(),
            final(self).spec_len() == 0,
    {
        self.entries.clear();
    }
}

proof fn lemma_entries_map_at(s: Seq<(Vec<u8>, ExportFrame)>, k: int)
    requires
        keys_unique(s),
        0 <= k < s.len(),
    ensures
        entries_map(s).contains_key(s[k].0@),
        entries_map(s)[s[k].0@] == s[k].1@,
    decreases s.len(),
{
    if k == s.len() - 1 {
    } else {
        assert(forall|i: int, j: int|
            0 <= i < j < s.drop_last().len() ==> (#[trigger] s.drop_last()[i]).0@ != (
            #[trigger] s.drop_last()[j]).0@);
        lemma_entries_map_at(s.drop_last(), k);
        assert(s.drop_last()[k] == s[k]);
        assert(s[k].0@ != s.last().0@);
    }
}

// ---------------------------------------------------------------------------
// The bridge state machine.
/// Where the bridge stands in its life cycle.
#[derive(Clone, Copy, PartialEq, Eq, Structural, Debug)]
pub enum BridgeState {
    Init,
    Authenticated,
    Streaming,
    Draining,
    Done,
    Failed,
}

/// A distinguished close status of the inbound stream.
#[derive(Clone, Copy, PartialEq, Eq, Structural, Debug)]
pub enum StatusKind {
    Unauthenticated,
    ResourceExhausted,
    Other,
}

/// Classify a wire status code: `16` means unauthenticated, `8` means
/// resource exhausted, anything else is undistinguished.
pub fn classify_status(code: i32) -> (r: StatusKind)
    ensures
        r == StatusKind::Unauthenticated <==> code == 16,
        r == StatusKind::ResourceExhausted <==> code == 8,
{
    if code == 16 {
        StatusKind::Unauthenticated
    } else if code == 8 {
        StatusKind::ResourceExhausted
    } else {
        StatusKind::Other
    }
}

/// One outgoing detection request: the fresh identifier, the encoded image
/// and its post-resize dimensions. Thresholds are attached by the caller.
pub struct DetectRequestData {
    pub uuid: Vec<u8>,
    pub image: Vec<u8>,
    pub width: usize,
    pub height: usize,
}

/// What the bridge does with one media item.
pub enum OutboundAction {
    SendRequest(DetectRequestData),
    ExportError(ExportFrame),
}

/// The pending record a frame is filed under while its detection is in
/// flight.
pub open spec fn pending_frame_of(fr: Frame) -> ExportFrameV {
    ExportFrameV {
        file: fr.file@.file_path,
        frame_index: fr.iframe_index as nat,
        shoot_time: crate::json::opt_view(fr.shoot_time),
        total_frames: fr.total_frames as nat,
        bboxes: None,
        label: None,
        error: None,
    }
}

/// Every pending record still awaits its result.
pub open spec fn pending_values_pending(m: Map<Seq<u8>, ExportFrameV>) -> bool {
    forall|k: Seq<u8>| #[trigger]
        m.contains_key(k) ==> m[k].bboxes is None && m[k].label is None && m[k].error is None
}

/// Relies on uuid's random generator: the hyphenated text of a fresh
/// version-4 identifier, which is always 36 bytes long.
#[verifier::external_body]
fn new_uuid() -> (r: Vec<u8>)
    ensures
        r@.len() == 36,
{
    uuid::Uuid::new_v4().to_string().into_bytes()
}

/// The streaming bridge: its life-cycle state, the correlation store, and
/// the session token returned by authentication.
pub struct RpcBridge {
    pub state: BridgeState,
    pub pending: PendingMap,
    pub session_token: Option<Vec<u8>>,
}

impl RpcBridge {
    /// The bridge invariant: a sound correlation store whose records all
    /// await their result, and an empty store once the bridge is done.
    pub open spec fn wf(self) -> bool {
        &&& self.pending.wf()
        &&& pending_values_pending(self.pending@)
        &&& (self.state == BridgeState::Done ==> self.pending@ =~= Map::<
            Seq<u8>,
            ExportFrameV,
        >::empty())
    }

    pub fn new() -> (r: Self)
        ensures
            r.wf(),
            r.state == BridgeState::Init,
            r.pending@ == Map::<Seq<u8>, ExportFrameV>::empty(),
            r.session_token is None,
    {
        RpcBridge { state: BridgeState::Init, pending: PendingMap::new(), session_token: None }
    }

    /// Record the outcome of authentication: keep the returned session
    /// token on success, fail the bridge otherwise.
    pub fn on_auth(&mut self, success: bool, token: Vec<u8>)
        requires
            old(self).wf(),
            old(self).state == BridgeState::Init,
        ensures
            final(self).wf(),
            final(self).pending@ == old(self).pending@,
            success ==> (final(self).state == BridgeState::Authenticated && (final(self).session_token matches Some(t) && t@ == token@)),
            !success ==> final(self).state == BridgeState::Failed && final(self).session_token
                is None,
    {
        if success {
            self.state = BridgeState::Authenticated;
            self.session_token = Some(token);
        } else {
            self.state = BridgeState::Failed;
            self.session_token = None;
        }
    }

    /// The detection stream is open.
    pub fn open_stream(&mut self)
        requires
            old(self).wf(),
            old(self).state == BridgeState::Authenticated,
        ensures
            final(self).wf(),
            final(self).state == BridgeState::Streaming,
            final(self).pending@ == old(self).pending@,
            final(self).session_token == old(self).session_token,
    {
        self.state = BridgeState::Streaming;
    }

    /// Turn one media item into its outbound action: a frame is filed under
    /// a fresh identifier and becomes a request; a failed file bypasses the
    /// stream as a finalized error record.
    pub fn on_media_item(&mut self, item: WebpItem) -> (r: OutboundAction)
        requires
            old(self).wf(),
            old(self).state == BridgeState::Streaming,
        ensures
            final(self).wf(),
            final(self).state == BridgeState::Streaming,
            final(self).session_token == old(self).session_token,
            match item {
                WebpItem::Frame(fr) => (r matches OutboundAction::SendRequest(req) && req.uuid@.len()
                    == 36 && req.image@ == fr.webp@ && req.width == fr.width && req.height
                    == fr.height && final(self).pending@ == old(self).pending@.insert(
                    req.uuid@,
                    pending_frame_of(fr),
                )),
                WebpItem::ErrFile(ef) => (r matches OutboundAction::ExportError(frame) && frame@.file
                    == ef.file@.file_path && frame@.error == Some(ef.error@) && frame@.label
                    is None && frame@.shoot_time is None && finalized_frame(frame@) && final(self).pending@ == old(self).pending@),
            },
    {
        match item {
            WebpItem::Frame(fr) => {
                let uuid = new_uuid();
                let record = ExportFrame::pending(
                    clone_bytes(&fr.file.file_path),
                    fr.iframe_index,
                    fr.shoot_time,
                    fr.total_frames,
                );
                let key = clone_bytes(&uuid);
                proof {
                    assert(record@ == pending_frame_of(
                        Frame {
                            file: fr.file,
                            webp: fr.webp,
                            width: fr.width,
                            height: fr.height,
                            iframe_index: fr.iframe_index,
                            total_frames: fr.total_frames,
                            shoot_time: fr.shoot_time,
                        },
                    ));
                }
                self.pending.insert(key, record);
                OutboundAction::SendRequest(
                    DetectRequestData {
                        uuid,
                        image: fr.webp,
                        width: fr.width,
                        height: fr.height,
                    },
                )
            },
            WebpItem::ErrFile(ef) => {
                let frame = ExportFrame::errored(&ef.file, ef.error);
                OutboundAction::ExportError(frame)
            },
        }
    }

    /// Merge one inbound response into its pending record, by identifier
    /// alone. An unknown identifier is dropped.
    pub fn on_response(&mut self, uuid: &Vec<u8>, label: Vec<u8>, bboxes: Vec<Bbox>) -> (r: Option<
        ExportFrame,
    >)
        requires
            old(self).wf(),
            old(self).state == BridgeState::Streaming,
        ensures
            final(self).wf(),
            final(self).state == BridgeState::Streaming,
            final(self).session_token == old(self).session_token,
            match r {
                Some(frame) => {
                    &&& old(self).pending@.contains_key(uuid@)
                    &&& final(self).pending@ == old(self).pending@.remove(uuid@)
                    &&& frame@.file == old(self).pending@[uuid@].file
                    &&& frame@.frame_index == old(self).pending@[uuid@].frame_index
                    &&& frame@.shoot_time == old(self).pending@[uuid@].shoot_time
                    &&& frame@.total_frames == old(self).pending@[uuid@].total_frames
                    &&& frame@.bboxes == Some(bboxes@.map_values(|b: Bbox| b@))
                    &&& frame@.label == Some(label@)
                    &&& finalized_frame(frame@)
                },
                None => {
                    &&& !old(self).pending@.contains_key(uuid@)
                    &&& final(self).pending@ == old(self).pending@
                },
            },
    {
        match self.pending.take(uuid) {
            Some(pending) => Some(pending.completed(label, bboxes)),
            None => None,
        }
    }

    /// The inbound stream has closed or failed: start draining.
    pub fn start_drain(&mut self)
        requires
            old(self).wf(),
            old(self).state == BridgeState::Streaming,
        ensures
            final(self).wf(),
            final(self).state == BridgeState::Draining,
            final(self).pending@ == old(self).pending@,
            final(self).session_token == old(self).session_token,
    {
        self.state = BridgeState::Draining;
    }

    /// Authentication or connection failed before streaming: fail the
    /// bridge.
    pub fn fail(&mut self)
        requires
            old(self).wf(),
            old(self).state != BridgeState::Done,
        ensures
            final(self).wf(),
            final(self).state == BridgeState::Failed,
            final(self).pending@ == old(self).pending@,
    {
        self.state = BridgeState::Failed;
    }

    /// Draining is over: abandon whatever is still pending and finish. The
    /// correlation store is empty from here on.
    pub fn finish(&mut self)
        requires
            old(self).wf(),
            old(self).state == BridgeState::Draining,
        ensures
            final(self).wf(),
            final(self).state == BridgeState::Done,
            final(self).pending@ == Map::<Seq<u8>, ExportFrameV>::empty(),
            final(self).pending.spec_len() == 0,
    {
        self.pending.clear();
        self.state = BridgeState::Done;
    }
}

/// The correlation map is empty whenever the bridge has reached its final
/// state.
pub proof fn lemma_pending_empty_at_done(b: RpcBridge)
    requires
        b.wf(),
        b.state == BridgeState::Done,
    ensures
        b.pending@ =~= Map::<Seq<u8>, ExportFrameV>::empty(),
{
}


// ---------------------------------------------------------------------------
// Accounting for every work item over one whole run.
/// How one work item fared in a run: its decode failed outright, or `sent`
/// requests went out and the first `delivered` of them were answered before
/// the stream ended.
pub enum RunOutcome {
    Failed,
    Sent { sent: nat, delivered: nat },
}

/// A run outcome that the pipeline can produce: nothing is delivered that
/// was not sent, and a decoded file sends at least one request.
pub open spec fn wf_outcome(o: RunOutcome) -> bool {
    match o {
        RunOutcome::Failed => true,
        RunOutcome::Sent { sent, delivered } => delivered <= sent && sent >= 1,
    }
}

/// The finalized record of a failed item.
pub open spec fn model_error_record(it: crate::utils::FileItemV) -> ExportFrameV {
    ExportFrameV {
        file: it.file_path,
        frame_index: 0,
        shoot_time: None,
        total_frames: 0,
        bboxes: None,
        label: None,
        error: Some(Seq::empty()),
    }
}

/// The finalized record of the `j`-th answered frame of an item.
pub open spec fn model_detection_record(
    it: crate::utils::FileItemV,
    sent: nat,
    j: int,
) -> ExportFrameV {
    ExportFrameV {
        file: it.file_path,
        frame_index: j as nat,
        shoot_time: None,
        total_frames: sent,
        bboxes: Some(Seq::empty()),
        label: Some(Seq::empty()),
        error: None,
    }
}

/// The records the exporter ends up holding for one item.
pub open spec fn item_records(it: crate::utils::FileItemV, o: RunOutcome) -> Seq<ExportFrameV> {
    match o {
        RunOutcome::Failed => seq![model_error_record(it)],
        RunOutcome::Sent { sent, delivered } => Seq::new(
            delivered,
            |j: int| model_detection_record(it, sent, j),
        ),
    }
}

/// The records of a whole run, in work order.
pub open spec fn run_records(run: Seq<(crate::utils::FileItemV, RunOutcome)>) -> Seq<ExportFrameV>
    decreases run.len(),
{
    if run.len() == 0 {
        Seq::empty()
    } else {
        run_records(run.drop_last()) + item_records(run.last().0, run.last().1)
    }
}

/// Some record of the file at `p` carries a detection result.
pub open spec fn has_detection(fs: Seq<ExportFrameV>, p: Seq<u8>) -> bool {
    exists|i: int| 0 <= i < fs.len() && (#[trigger] fs[i]).file == p && fs[i].bboxes is Some
}

/// Some record of the file at `p` carries an error.
pub open spec fn has_error(fs: Seq<ExportFrameV>, p: Seq<u8>) -> bool {
    exists|i: int| 0 <= i < fs.len() && (#[trigger] fs[i]).file == p && fs[i].error is Some
}

/// The items of a run name pairwise distinct files.
pub open spec fn distinct_paths(run: Seq<(crate::utils::FileItemV, RunOutcome)>) -> bool {
    forall|i: int, j: int|
        0 <= i < j < run.len() ==> (#[trigger] run[i]).0.file_path != (#[trigger] run[j]).0.file_path
}

proof fn lemma_item_records_files(it: crate::utils::FileItemV, o: RunOutcome)
    ensures
        forall|i: int|
            0 <= i < item_records(it, o).len() ==> (#[trigger] item_records(it, o)[i]).file
                == it.file_path,
{
}

/// Every work item is accounted for at the end of a run, in exactly one
/// way: a detection record when any of its frames was answered, an error
/// record when its decode failed, and neither only when the stream ended
/// before any of its frames was answered.
pub proof fn lemma_every_item_accounted(run: Seq<(crate::utils::FileItemV, RunOutcome)>, k: int)
    requires
        0 <= k < run.len(),
        distinct_paths(run),
        forall|i: int| 0 <= i < run.len() ==> wf_outcome((#[trigger] run[i]).1),
    ensures
        has_detection(run_records(run), run[k].0.file_path) <==> (run[k].1 matches RunOutcome::Sent {
            sent,
            delivered,
        } && delivered >= 1),
        has_error(run_records(run), run[k].0.file_path) <==> run[k].1 is Failed,
    decreases run.len(),
{
    let p = run[k].0.file_path;
    let prefix = run.drop_last();
    let last = run.last();
    let fs = run_records(run);
    let fsp = run_records(prefix);
    let ls = item_records(last.0, last.1);
    lemma_item_records_files(last.0, last.1);
    if k == run.len() - 1 {
        // none of the earlier items' records can name this file
        assert forall|i: int| 0 <= i < fsp.len() implies (#[trigger] fsp[i]).file != p by {
            lemma_run_records_files(prefix, i);
            let m = choose|m: int|
                0 <= m < prefix.len() && fsp[i].file == (#[trigger] prefix[m]).0.file_path;
            assert(run[m].0.file_path != p);
        }
        match last.1 {
            RunOutcome::Failed => {
                assert(ls[0] == model_error_record(last.0));
                assert(fs[fsp.len() as int] == ls[0]);
                assert(has_error(fs, p));
                if has_detection(fs, p) {
                    let i = choose|i: int|
                        0 <= i < fs.len() && (#[trigger] fs[i]).file == p && fs[i].bboxes is Some;
                    assert(fs[i] == ls[i - fsp.len()]);
                    assert(ls[i - fsp.len()].bboxes is None);
                }
            },
            RunOutcome::Sent { sent, delivered } => {
                if delivered >= 1 {
                    assert(ls[0] == model_detection_record(last.0, sent, 0));
                    assert(fs[fsp.len() as int] == ls[0]);
                    assert(has_detection(fs, p));
                }
                if has_detection(fs, p) {
                    let i = choose|i: int|
                        0 <= i < fs.len() && (#[trigger] fs[i]).file == p && fs[i].bboxes is Some;
                    assert(i >= fsp.len());
                    assert(delivered >= 1);
                }
                if has_error(fs, p) {
                    let i = choose|i: int|
                        0 <= i < fs.len() && (#[trigger] fs[i]).file == p && fs[i].error is Some;
                    assert(fs[i] == ls[i - fsp.len()]);
                    assert(ls[i - fsp.len()].error is None);
                }
            },
        }
    } else {
        lemma_every_item_accounted(prefix, k);
        assert(prefix[k] == run[k]);
        // the last item's records cannot name this file
        assert(last.0.file_path != p);
        if has_detection(fs, p) {
            let i = choose|i: int|
                0 <= i < fs.len() && (#[trigger] fs[i]).file == p && fs[i].bboxes is Some;
            if i < fsp.len() {
                assert(has_detection(fsp, p));
            } else {
                assert(fs[i] == ls[i - fsp.len()]);
                assert(ls[i - fsp.len()].file == last.0.file_path);
            }
        }
        if has_detection(fsp, p) {
            let i = choose|i: int|
                0 <= i < fsp.len() && (#[trigger] fsp[i]).file == p && fsp[i].bboxes is Some;
            assert(fs[i] == fsp[i]);
            assert(has_detection(fs, p));
        }
        if has_error(fs, p) {
            let i = choose|i: int|
                0 <= i < fs.len() && (#[trigger] fs[i]).file == p && fs[i].error is Some;
            if i < fsp.len() {
                assert(has_error(fsp, p));
            } else {
                assert(fs[i] == ls[i - fsp.len()]);
                assert(ls[i - fsp.len()].file == last.0.file_path);
            }
        }
        if has_error(fsp, p) {
            let i = choose|i: int|
                0 <= i < fsp.len() && (#[trigger] fsp[i]).file == p && fsp[i].error is Some;
            assert(fs[i] == fsp[i]);
            assert(has_error(fs, p));
        }
    }
}

proof fn lemma_run_records_files(run: Seq<(crate::utils::FileItemV, RunOutcome)>, i: int)
    requires
        0 <= i < run_records(run).len(),
    ensures
        exists|m: int|
            0 <= m < run.len() && run_records(run)[i].file == (#[trigger] run[m]).0.file_path,
    decreases run.len(),
{
    let fsp = run_records(run.drop_last());
    let ls = item_records(run.last().0, run.last().1);
    if i < fsp.len() {
        lemma_run_records_files(run.drop_last(), i);
        let m = choose|m: int|
            0 <= m < run.drop_last().len() && fsp[i].file == (#[trigger] run.drop_last()[m]).0.file_path;
        assert(run_records(run)[i] == fsp[i]);
        assert(run[m].0.file_path == run.drop_last()[m].0.file_path);
    } else {
        lemma_item_records_files(run.last().0, run.last().1);
        assert(run_records(run)[i] == ls[i - fsp.len()]);
        assert(run[run.len() - 1].0.file_path == run.last().0.file_path);
    }
}

} // verus!
