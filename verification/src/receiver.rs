//! The receiving side of a transfer as a state machine. Its events are each
//! complete frame read from the connection and the outcome of each write it
//! asked for; its answer is the list of actions (packets to send, file
//! operations) that the connection handler performs in order, with the
//! transfer's outcome once it has ended.

use vstd::prelude::*;
use vstd::slice::slice_to_vec;
use vstd::string::StringExecFns;
use vstd::utf8::encode_utf8;

use crate::digest::{hashed_bytes, sha256_of, Sha256Hasher};
use crate::protocol::{
    spec_ack_payload, spec_chunk_payload, spec_decode_frame, spec_frame, spec_done_payload, spec_hello_payload,
    spec_meta_payload, spec_nack_payload, spec_parse_chunk, spec_parse_hello, spec_parse_meta,
    MetaPayload, MetaView,
    NackReason, Packet, PacketType, ProtocolError, MAX_PAYLOAD_LEN,
};
use crate::laws::{
    lemma_chunk_roundtrip, lemma_frame_roundtrip, lemma_hello_roundtrip, lemma_meta_roundtrip,
};
use crate::text::{sanitize_file_name, spec_sanitize_file_name};

verus! {

/// Why a transfer ended without a saved file.
#[derive(Debug, Clone, PartialEq, Eq)]
pub enum TransferError {
    /// A frame or payload was refused.
    Protocol(ProtocolError),
    /// The SHA-256 of the received content differs from the one in META.
    IntegrityCheckFailed,
}

/// One thing the connection handler must do.
#[derive(Debug)]
pub enum Action {
    /// Write this packet's frame to the client.
    Send(Packet),
    /// Create the part file that receives the content; it is renamed to
    /// `final_name` once the content is verified.
    CreateFile { part_name: String, final_name: String },
    /// Append these bytes to the part file, then report with
    /// `Receiver::on_written` whether the write succeeded.
    Write(Vec<u8>),
    /// Cut the part file back to this many bytes, dropping what a failed
    /// write may have left.
    Truncate(u64),
    /// Flush and close the part file.
    CloseFile,
    /// Rename the part file to its final name.
    Commit,
    /// Delete the part file.
    Discard,
}

/// An action as plain values.
pub enum ActionView {
    Send(PacketType, Seq<u8>),
    CreateFile(Seq<char>, Seq<char>),
    Write(Seq<u8>),
    Truncate(u64),
    CloseFile,
    Commit,
    Discard,
}

impl Action {
    pub open spec fn view_action(&self) -> ActionView {
        match self {
            Action::Send(p) => ActionView::Send(p.packet_type, p.payload@),
            Action::CreateFile { part_name, final_name } => ActionView::CreateFile(
                part_name@,
                final_name@,
            ),
            Action::Write(d) => ActionView::Write(d@),
            Action::Truncate(n) => ActionView::Truncate(*n),
            Action::CloseFile => ActionView::CloseFile,
            Action::Commit => ActionView::Commit,
            Action::Discard => ActionView::Discard,
        }
    }
}

/// Where a connection stands.
#[derive(Debug, Clone, Copy, PartialEq, Eq, Structural)]
pub enum Phase {
    /// Waiting for the client's HELLO.
    AwaitHello,
    /// Waiting for META.
    AwaitMeta,
    /// Receiving chunks.
    Receiving,
    /// The chunk just accepted is being written; its outcome is awaited.
    AwaitWrite,
    /// The transfer has ended, well or badly.
    Finished,
}

/// What one event led to: the actions, in order, and the outcome of the
/// transfer when it ended with this event (the file name, or the error).
pub struct Step {
    pub actions: Vec<Action>,
    pub outcome: Option<Result<String, TransferError>>,
}

/// The state of a connection as plain values.
pub struct ReceiverView {
    pub phase: Phase,
    pub meta: Option<MetaView>,
    /// Bytes of content accepted so far (kept at `u64::MAX` at most).
    pub received: u64,
    /// Index of the next chunk to accept.
    pub expected_index: u32,
    /// The content accepted so far, in order.
    pub data: Seq<u8>,
    /// The chunk whose write is awaited.
    pub pending: Seq<u8>,
}

/// A step as plain values.
pub struct StepView {
    pub next: ReceiverView,
    pub actions: Seq<ActionView>,
    pub outcome: Option<Result<Seq<char>, TransferError>>,
}

/// The state after a transfer has ended.
pub open spec fn finished_state() -> ReceiverView {
    ReceiverView {
        phase: Phase::Finished,
        meta: None,
        received: 0,
        expected_index: 0,
        data: Seq::empty(),
        pending: Seq::empty(),
    }
}

/// The transfer ends on a refused frame or payload: nothing is sent.
pub open spec fn failed_step(e: ProtocolError) -> StepView {
    StepView {
        next: finished_state(),
        actions: Seq::empty(),
        outcome: Some(Err(TransferError::Protocol(e))),
    }
}

/// The actions that end a transfer whose integrity verdict is `ok`.
pub open spec fn finish_tail(ok: bool) -> Seq<ActionView> {
    seq![
        ActionView::CloseFile,
        ActionView::Send(PacketType::Done, spec_done_payload(ok)),
        if ok {
            ActionView::Commit
        } else {
            ActionView::Discard
        },
    ]
}

/// All content has arrived: close the file, answer DONE with the integrity
/// verdict, and keep or delete the file according to it.
pub open spec fn finish_step(meta: MetaView, data: Seq<u8>, before: Seq<ActionView>) -> StepView {
    let ok = sha256_of(data) == meta.sha256;
    StepView {
        next: finished_state(),
        actions: before + finish_tail(ok),
        outcome: Some(
            if ok {
                Ok(meta.file_name)
            } else {
                Err(TransferError::IntegrityCheckFailed)
            },
        ),
    }
}

/// `received + n`, kept at `u64::MAX` at most.
pub open spec fn add_received(received: u64, n: nat) -> u64 {
    if received + n > u64::MAX {
        u64::MAX
    } else {
        (received + n) as u64
    }
}

/// What a connection in state `s` does with the frame `frame`.
pub open spec fn spec_on_frame(s: ReceiverView, frame: Seq<u8>) -> StepView {
    match s.phase {
        Phase::Finished | Phase::AwaitWrite => StepView {
            next: s,
            actions: Seq::empty(),
            outcome: None,
        },
        Phase::AwaitHello => match spec_decode_frame(frame) {
            Err(e) => failed_step(e),
            Ok((t, p)) => match spec_parse_hello(t, p) {
                Err(e) => failed_step(e),
                Ok(_) => StepView {
                    next: ReceiverView { phase: Phase::AwaitMeta, ..s },
                    actions: seq![ActionView::Send(PacketType::Hello, spec_hello_payload())],
                    outcome: None,
                },
            },
        },
        Phase::AwaitMeta => match spec_decode_frame(frame) {
            Err(e) => failed_step(e),
            Ok((t, p)) => match spec_parse_meta(t, p) {
                Err(e) => failed_step(e),
                Ok(m) => {
                    let name = spec_sanitize_file_name(m.file_name);
                    let opened = seq![
                        ActionView::Send(PacketType::Ack, spec_ack_payload(0)),
                        ActionView::CreateFile(name + ".part"@, name),
                    ];
                    if m.file_size == 0 {
                        finish_step(m, Seq::empty(), opened)
                    } else {
                        StepView {
                            next: ReceiverView {
                                phase: Phase::Receiving,
                                meta: Some(m),
                                received: 0,
                                expected_index: 0,
                                data: Seq::empty(),
                                pending: Seq::empty(),
                            },
                            actions: opened,
                            outcome: None,
                        }
                    }
                },
            },
        },
        Phase::Receiving => {
            let m = s.meta->0;
            match spec_decode_frame(frame) {
                Err(ProtocolError::CrcMismatch { .. }) => StepView {
                    next: s,
                    actions: seq![
                        ActionView::Send(
                            PacketType::Nack,
                            spec_nack_payload(s.expected_index, NackReason::CrcMismatch),
                        ),
                    ],
                    outcome: None,
                },
                Err(e) => failed_step(e),
                Ok((t, p)) => if t != PacketType::Chunk {
                    failed_step(
                        ProtocolError::UnexpectedType { expected: PacketType::Chunk, actual: t },
                    )
                } else {
                    match spec_parse_chunk(t, p) {
                        Err(e) => failed_step(e),
                        Ok((index, d)) => if index != s.expected_index {
                            StepView {
                                next: s,
                                actions: seq![
                                    ActionView::Send(
                                        PacketType::Nack,
                                        spec_nack_payload(index, NackReason::OutOfOrder),
                                    ),
                                ],
                                outcome: None,
                            }
                        } else {
                            StepView {
                                next: ReceiverView { phase: Phase::AwaitWrite, pending: d, ..s },
                                actions: seq![ActionView::Write(d)],
                                outcome: None,
                            }
                        },
                    }
                },
            }
        },
    }
}

/// What a connection in state `s` does when told whether the write of the
/// awaited chunk succeeded. On success the chunk joins the content and is
/// acknowledged, and the transfer ends once all announced bytes are there.
/// On failure the file is cut back to the accepted content, the chunk is
/// refused with NACK(IoError), and the same chunk is awaited again.
pub open spec fn spec_on_written(s: ReceiverView, ok: bool) -> StepView {
    if s.phase != Phase::AwaitWrite {
        StepView { next: s, actions: Seq::empty(), outcome: None }
    } else if !ok {
        StepView {
            next: ReceiverView { phase: Phase::Receiving, pending: Seq::empty(), ..s },
            actions: seq![
                ActionView::Truncate(s.received),
                ActionView::Send(
                    PacketType::Nack,
                    spec_nack_payload(s.expected_index, NackReason::IoError),
                ),
            ],
            outcome: None,
        }
    } else {
        let m = s.meta->0;
        let data = s.data + s.pending;
        let received = add_received(s.received, s.pending.len());
        let acked = seq![ActionView::Send(PacketType::Ack, spec_ack_payload(s.expected_index))];
        if received >= m.file_size {
            finish_step(m, data, acked)
        } else {
            StepView {
                next: ReceiverView {
                    phase: Phase::Receiving,
                    meta: s.meta,
                    received,
                    expected_index: if s.expected_index == u32::MAX {
                        0
                    } else {
                        (s.expected_index + 1) as u32
                    },
                    data,
                    pending: Seq::empty(),
                },
                actions: acked,
                outcome: None,
            }
        }
    }
}

/// The outcome of a step as plain values.
pub open spec fn outcome_view(o: Option<Result<String, TransferError>>) -> Option<
    Result<Seq<char>, TransferError>,
> {
    match o {
        None => None,
        Some(Ok(name)) => Some(Ok(name@)),
        Some(Err(e)) => Some(Err(e)),
    }
}

/// The server side of one connection.
pub struct Receiver {
    phase: Phase,
    meta: Option<MetaPayload>,
    received: u64,
    expected_index: u32,
    hasher: Sha256Hasher,
    pending: Vec<u8>,
}

/// Whether two digests are equal, byte for byte.
fn digests_equal(a: &[u8; 32], b: &[u8; 32]) -> (r: bool)
    ensures
        r == (a@ == b@),
{
    let mut k: usize = 0;
    while k < 32
        invariant
            k <= 32,
            a@.len() == 32,
            b@.len() == 32,
            forall|i: int| 0 <= i < k ==> a@[i] == b@[i],
        decreases 32 - k,
    {
        if a[k] != b[k] {
            return false;
        }
        k += 1;
    }
    assert(a@ =~= b@);
    true
}

impl Receiver {
    pub closed spec fn view_state(&self) -> ReceiverView {
        ReceiverView {
            phase: self.phase,
            meta: match self.meta {
                Some(m) => Some(m.view_meta()),
                None => None,
            },
            received: self.received,
            expected_index: self.expected_index,
            data: hashed_bytes(self.hasher),
            pending: self.pending@,
        }
    }

    /// While chunks are being received, the metadata is known, fewer bytes
    /// than announced have arrived, and the count is the content's length.
    pub closed spec fn wf(&self) -> bool {
        let v = self.view_state();
        (v.phase == Phase::Receiving || v.phase == Phase::AwaitWrite) ==> {
            &&& v.meta is Some
            &&& v.received < v.meta->0.file_size
            &&& v.received == v.data.len()
        }
    }

    /// A connection that has just been accepted.
    pub fn new() -> (r: Receiver)
        ensures
            r.wf(),
            r.view_state() == (ReceiverView {
                phase: Phase::AwaitHello,
                meta: None,
                received: 0,
                expected_index: 0,
                data: Seq::empty(),
                pending: Seq::empty(),
            }),
    {
        Receiver {
            phase: Phase::AwaitHello,
            meta: None,
            received: 0,
            expected_index: 0,
            hasher: Sha256Hasher::new(),
            pending: Vec::new(),
        }
    }

    /// Where the connection stands.
    pub fn phase(&self) -> (r: Phase)
        ensures
            r == self.view_state().phase,
    {
        self.phase
    }

    fn close(&mut self)
        ensures
            final(self).view_state() == finished_state(),
    {
        self.phase = Phase::Finished;
        self.meta = None;
        self.received = 0;
        self.expected_index = 0;
        self.hasher = Sha256Hasher::new();
        self.pending = Vec::new();
    }

    fn fail(&mut self, e: ProtocolError) -> (r: Step)
        ensures
            final(self).view_state() == failed_step(e).next,
            r.actions@.map_values(|a: Action| a.view_action()) == failed_step(e).actions,
            outcome_view(r.outcome) == failed_step(e).outcome,
    {
        self.close();
        let actions: Vec<Action> = Vec::new();
        assert(actions@.map_values(|a: Action| a.view_action()) =~= failed_step(e).actions);
        Step { actions, outcome: Some(Err(TransferError::Protocol(e))) }
    }

    /// Closes the file, answers DONE with the integrity verdict and keeps or
    /// deletes the file.
    fn finish(&mut self, meta: MetaPayload, mut actions: Vec<Action>) -> (r: Step)
        ensures
            final(self).view_state() == finish_step(
                meta.view_meta(),
                hashed_bytes(old(self).hasher),
                actions@.map_values(|a: Action| a.view_action()),
            ).next,
            r.actions@.map_values(|a: Action| a.view_action()) == finish_step(
                meta.view_meta(),
                hashed_bytes(old(self).hasher),
                actions@.map_values(|a: Action| a.view_action()),
            ).actions,
            outcome_view(r.outcome) == finish_step(
                meta.view_meta(),
                hashed_bytes(old(self).hasher),
                actions@.map_values(|a: Action| a.view_action()),
            ).outcome,
    {
        let ghost before = actions@.map_values(|a: Action| a.view_action());
        let ghost data = hashed_bytes(self.hasher);
        let mut hasher = Sha256Hasher::new();
        std::mem::swap(&mut hasher, &mut self.hasher);
        let computed = hasher.finalize();
        let ok = digests_equal(&computed, &meta.sha256);
        self.close();
        actions.push(Action::CloseFile);
        actions.push(Action::Send(Packet::done(ok)));
        let outcome = if ok {
            actions.push(Action::Commit);
            Ok(meta.file_name)
        } else {
            actions.push(Action::Discard);
            Err(TransferError::IntegrityCheckFailed)
        };
        assert(actions@.map_values(|a: Action| a.view_action()) =~= finish_step(
            meta.view_meta(),
            data,
            before,
        ).actions);
        Step { actions, outcome: Some(outcome) }
    }

    /// Handles one complete frame read from the connection.
    pub fn on_frame(&mut self, frame: &[u8]) -> (r: Step)
        requires
            old(self).wf(),
        ensures
            final(self).wf(),
            final(self).view_state() == spec_on_frame(old(self).view_state(), frame@).next,
            r.actions@.map_values(|a: Action| a.view_action()) == spec_on_frame(
                old(self).view_state(),
                frame@,
            ).actions,
            outcome_view(r.outcome) == spec_on_frame(old(self).view_state(), frame@).outcome,
    {
        match self.phase {
            Phase::Finished | Phase::AwaitWrite => {
                let actions: Vec<Action> = Vec::new();
                assert(actions@.map_values(|a: Action| a.view_action()) =~= Seq::<
                    ActionView,
                >::empty());
                Step { actions, outcome: None }
            },
            Phase::AwaitHello => self.on_hello_frame(frame),
            Phase::AwaitMeta => self.on_meta_frame(frame),
            Phase::Receiving => self.on_chunk_frame(frame),
        }
    }

    fn on_hello_frame(&mut self, frame: &[u8]) -> (r: Step)
        requires
            old(self).wf(),
            old(self).phase == Phase::AwaitHello,
        ensures
            final(self).wf(),
            final(self).view_state() == spec_on_frame(old(self).view_state(), frame@).next,
            r.actions@.map_values(|a: Action| a.view_action()) == spec_on_frame(
                old(self).view_state(),
                frame@,
            ).actions,
            outcome_view(r.outcome) == spec_on_frame(old(self).view_state(), frame@).outcome,
    {
        let packet = match Packet::from_bytes(frame) {
            Ok(p) => p,
            Err(e) => {
                return self.fail(e);
            },
        };
        match packet.parse_hello() {
            Ok(_) => {},
            Err(e) => {
                return self.fail(e);
            },
        }
        self.phase = Phase::AwaitMeta;
        let mut actions: Vec<Action> = Vec::new();
        actions.push(Action::Send(Packet::hello()));
        assert(actions@.map_values(|a: Action| a.view_action()) =~= seq![
            ActionView::Send(PacketType::Hello, spec_hello_payload()),
        ]);
        Step { actions, outcome: None }
    }

    fn on_meta_frame(&mut self, frame: &[u8]) -> (r: Step)
        requires
            old(self).wf(),
            old(self).phase == Phase::AwaitMeta,
        ensures
            final(self).wf(),
            final(self).view_state() == spec_on_frame(old(self).view_state(), frame@).next,
            r.actions@.map_values(|a: Action| a.view_action()) == spec_on_frame(
                old(self).view_state(),
                frame@,
            ).actions,
            outcome_view(r.outcome) == spec_on_frame(old(self).view_state(), frame@).outcome,
    {
        let packet = match Packet::from_bytes(frame) {
            Ok(p) => p,
            Err(e) => {
                return self.fail(e);
            },
        };
        let meta = match packet.parse_meta() {
            Ok(m) => m,
            Err(e) => {
                return self.fail(e);
            },
        };
        let final_name = sanitize_file_name(meta.file_name.as_str());
        let part_name = final_name.clone().concat(".part");
        let mut actions: Vec<Action> = Vec::new();
        actions.push(Action::Send(Packet::ack(0)));
        actions.push(Action::CreateFile { part_name, final_name });
        let ghost opened = actions@.map_values(|a: Action| a.view_action());
        assert(opened =~= seq![
            ActionView::Send(PacketType::Ack, spec_ack_payload(0)),
            ActionView::CreateFile(
                spec_sanitize_file_name(meta.file_name@) + ".part"@,
                spec_sanitize_file_name(meta.file_name@),
            ),
        ]);
        if meta.file_size == 0 {
            self.hasher = Sha256Hasher::new();
            return self.finish(meta, actions);
        }
        self.phase = Phase::Receiving;
        self.meta = Some(meta);
        self.received = 0;
        self.expected_index = 0;
        self.hasher = Sha256Hasher::new();
        self.pending = Vec::new();
        Step { actions, outcome: None }
    }

    fn on_chunk_frame(&mut self, frame: &[u8]) -> (r: Step)
        requires
            old(self).wf(),
            old(self).phase == Phase::Receiving,
        ensures
            final(self).wf(),
            final(self).view_state() == spec_on_frame(old(self).view_state(), frame@).next,
            r.actions@.map_values(|a: Action| a.view_action()) == spec_on_frame(
                old(self).view_state(),
                frame@,
            ).actions,
            outcome_view(r.outcome) == spec_on_frame(old(self).view_state(), frame@).outcome,
    {
        let packet = match Packet::from_bytes(frame) {
            Ok(p) => p,
            Err(ProtocolError::CrcMismatch { .. }) => {
                let mut actions: Vec<Action> = Vec::new();
                actions.push(Action::Send(Packet::nack(self.expected_index, NackReason::CrcMismatch)));
                assert(actions@.map_values(|a: Action| a.view_action()) =~= seq![
                    ActionView::Send(
                        PacketType::Nack,
                        spec_nack_payload(self.expected_index, NackReason::CrcMismatch),
                    ),
                ]);
                return Step { actions, outcome: None };
            },
            Err(e) => {
                return self.fail(e);
            },
        };
        if packet.packet_type != PacketType::Chunk {
            return self.fail(
                ProtocolError::UnexpectedType { expected: PacketType::Chunk, actual: packet.packet_type },
            );
        }
        let (index, data) = match packet.parse_chunk() {
            Ok(c) => c,
            Err(e) => {
                return self.fail(e);
            },
        };
        if index != self.expected_index {
            let mut actions: Vec<Action> = Vec::new();
            actions.push(Action::Send(Packet::nack(index, NackReason::OutOfOrder)));
            assert(actions@.map_values(|a: Action| a.view_action()) =~= seq![
                ActionView::Send(PacketType::Nack, spec_nack_payload(index, NackReason::OutOfOrder)),
            ]);
            return Step { actions, outcome: None };
        }
        let mut actions: Vec<Action> = Vec::new();
        actions.push(Action::Write(slice_to_vec(data)));
        self.phase = Phase::AwaitWrite;
        self.pending = slice_to_vec(data);
        assert(actions@.map_values(|a: Action| a.view_action()) =~= seq![ActionView::Write(data@)]);
        Step { actions, outcome: None }
    }

    /// Handles the outcome of the write that the last accepted chunk asked for.
    pub fn on_written(&mut self, ok: bool) -> (r: Step)
        requires
            old(self).wf(),
        ensures
            final(self).wf(),
            final(self).view_state() == spec_on_written(old(self).view_state(), ok).next,
            r.actions@.map_values(|a: Action| a.view_action()) == spec_on_written(
                old(self).view_state(),
                ok,
            ).actions,
            outcome_view(r.outcome) == spec_on_written(old(self).view_state(), ok).outcome,
    {
        let mut actions: Vec<Action> = Vec::new();
        if self.phase != Phase::AwaitWrite {
            assert(actions@.map_values(|a: Action| a.view_action()) =~= Seq::<ActionView>::empty());
            return Step { actions, outcome: None };
        }
        let index = self.expected_index;
        if !ok {
            actions.push(Action::Truncate(self.received));
            actions.push(Action::Send(Packet::nack(index, NackReason::IoError)));
            self.phase = Phase::Receiving;
            self.pending = Vec::new();
            assert(actions@.map_values(|a: Action| a.view_action()) =~= seq![
                ActionView::Truncate(old(self).received),
                ActionView::Send(PacketType::Nack, spec_nack_payload(index, NackReason::IoError)),
            ]);
            return Step { actions, outcome: None };
        }
        let mut chunk: Vec<u8> = Vec::new();
        std::mem::swap(&mut chunk, &mut self.pending);
        self.hasher.update(chunk.as_slice());
        self.received = self.received.saturating_add(chunk.len() as u64);
        actions.push(Action::Send(Packet::ack(index)));
        self.expected_index = self.expected_index.wrapping_add(1);
        self.phase = Phase::Receiving;
        assert(actions@.map_values(|a: Action| a.view_action()) =~= seq![
            ActionView::Send(PacketType::Ack, spec_ack_payload(index)),
        ]);
        let mut meta: Option<MetaPayload> = None;
        std::mem::swap(&mut meta, &mut self.meta);
        let meta = meta.unwrap();
        if self.received >= meta.file_size {
            return self.finish(meta, actions);
        }
        self.meta = Some(meta);
        Step { actions, outcome: None }
    }
}

/// The state of a connection that has just been accepted.
pub open spec fn initial_state() -> ReceiverView {
    ReceiverView {
        phase: Phase::AwaitHello,
        meta: None,
        received: 0,
        expected_index: 0,
        data: Seq::empty(),
        pending: Seq::empty(),
    }
}

/// What the connection handler reports to the receiver: a frame it read, or
/// whether the write the receiver asked for succeeded.
pub enum Event {
    Frame(Seq<u8>),
    Written(bool),
}

/// What a connection in state `s` does with the event `e`.
pub open spec fn spec_on_event(s: ReceiverView, e: Event) -> StepView {
    match e {
        Event::Frame(f) => spec_on_frame(s, f),
        Event::Written(ok) => spec_on_written(s, ok),
    }
}

/// The state after `events` one by one, and every action taken, in order.
pub open spec fn spec_run(s: ReceiverView, events: Seq<Event>) -> (ReceiverView, Seq<ActionView>)
    decreases events.len(),
{
    if events.len() == 0 {
        (s, Seq::empty())
    } else {
        let step = spec_on_event(s, events[0]);
        let rest = spec_run(step.next, events.drop_first());
        (rest.0, step.actions + rest.1)
    }
}

/// The part file's content after one action.
pub open spec fn apply_action(c: Seq<u8>, a: ActionView) -> Seq<u8> {
    match a {
        ActionView::Write(d) => c + d,
        ActionView::Truncate(n) => c.take(n as int),
        _ => c,
    }
}

/// The part file's content after the actions, in order, starting from `c`.
pub open spec fn apply_actions(c: Seq<u8>, actions: Seq<ActionView>) -> Seq<u8>
    decreases actions.len(),
{
    if actions.len() == 0 {
        c
    } else {
        apply_actions(apply_action(c, actions[0]), actions.drop_first())
    }
}

/// The part file's content after the actions, starting from an empty file.
pub open spec fn file_content(actions: Seq<ActionView>) -> Seq<u8> {
    apply_actions(Seq::empty(), actions)
}

spec fn leaves_content(a: ActionView) -> bool {
    !(a is Write) && !(a is Truncate)
}

proof fn lemma_apply_concat(c: Seq<u8>, a: Seq<ActionView>, b: Seq<ActionView>)
    ensures
        apply_actions(c, a + b) == apply_actions(apply_actions(c, a), b),
    decreases a.len(),
{
    if a.len() == 0 {
        assert(a + b =~= b);
    } else {
        assert((a + b).drop_first() =~= a.drop_first() + b);
        assert((a + b)[0] == a[0]);
        lemma_apply_concat(apply_action(c, a[0]), a.drop_first(), b);
    }
}

proof fn lemma_apply_leaves(c: Seq<u8>, actions: Seq<ActionView>)
    requires
        forall|i: int| 0 <= i < actions.len() ==> leaves_content(#[trigger] actions[i]),
    ensures
        apply_actions(c, actions) == c,
    decreases actions.len(),
{
    if actions.len() > 0 {
        assert(leaves_content(actions[0]));
        assert forall|i: int| 0 <= i < actions.drop_first().len() implies leaves_content(
            #[trigger] actions.drop_first()[i],
        ) by {
            assert(actions.drop_first()[i] == actions[i + 1]);
        }
        lemma_apply_leaves(c, actions.drop_first());
    }
}

proof fn lemma_apply_one(c: Seq<u8>, a: ActionView, rest: Seq<ActionView>)
    requires
        forall|i: int| 0 <= i < rest.len() ==> leaves_content(#[trigger] rest[i]),
    ensures
        apply_actions(c, seq![a] + rest) == apply_action(c, a),
{
    lemma_apply_concat(c, seq![a], rest);
    assert(seq![a].drop_first() =~= Seq::<ActionView>::empty());
    assert(apply_actions(c, seq![a]) == apply_actions(apply_action(c, a), Seq::<ActionView>::empty()));
    lemma_apply_leaves(apply_action(c, a), rest);
}

/// Ending a transfer leaves the part file as it was.
proof fn lemma_apply_finish(c: Seq<u8>, before: Seq<ActionView>, ok: bool)
    ensures
        apply_actions(c, before + finish_tail(ok)) == apply_actions(c, before),
{
    lemma_apply_concat(c, before, finish_tail(ok));
    lemma_apply_leaves(apply_actions(c, before), finish_tail(ok));
}

/// What a reachable state keeps of the part file: before META it is empty;
/// while receiving it holds exactly the accepted content, and while a write
/// is awaited it holds the accepted content followed by the awaited chunk.
pub open spec fn consistent(s: ReceiverView, content: Seq<u8>) -> bool {
    &&& (s.phase == Phase::AwaitHello || s.phase == Phase::AwaitMeta) ==> content.len() == 0
    &&& (s.phase == Phase::Receiving || s.phase == Phase::AwaitWrite) ==> {
        &&& s.meta is Some
        &&& s.received == s.data.len()
        &&& s.received < s.meta->0.file_size
    }
    &&& s.phase == Phase::Receiving ==> content == s.data
    &&& s.phase == Phase::AwaitWrite ==> content == s.data + s.pending
}

/// The SHA-256 announced by META that is in force when `e` arrives in state
/// `s`: the one already received, or the one a frame carries when META is
/// awaited.
pub open spec fn announced_sha256(s: ReceiverView, e: Event) -> Seq<u8> {
    if s.phase == Phase::AwaitMeta {
        match e {
            Event::Frame(frame) => match spec_decode_frame(frame) {
                Ok((t, p)) => match spec_parse_meta(t, p) {
                    Ok(m) => m.sha256,
                    Err(_) => Seq::empty(),
                },
                Err(_) => Seq::empty(),
            },
            Event::Written(_) => Seq::empty(),
        }
    } else {
        s.meta->0.sha256
    }
}

/// One step keeps the part file consistent with the state, and a step that
/// ends the transfer judges exactly the part file's content.
proof fn lemma_step_content(s: ReceiverView, content: Seq<u8>, e: Event)
    requires
        consistent(s, content),
    ensures
        ({
            let step = spec_on_event(s, e);
            let after = apply_actions(content, step.actions);
            &&& consistent(step.next, after)
            &&& step.outcome matches Some(Ok(_)) ==> sha256_of(after) == announced_sha256(s, e)
            &&& step.outcome == Some(Err::<Seq<char>, TransferError>(TransferError::IntegrityCheckFailed))
                ==> sha256_of(after) != announced_sha256(s, e)
        }),
{
    let step = spec_on_event(s, e);
    let empty = Seq::<ActionView>::empty();
    match e {
        Event::Frame(frame) => {
            if s.phase == Phase::AwaitMeta && spec_decode_frame(frame) is Ok && spec_parse_meta(
                spec_decode_frame(frame)->Ok_0.0,
                spec_decode_frame(frame)->Ok_0.1,
            ) is Ok {
                let m = spec_parse_meta(
                    spec_decode_frame(frame)->Ok_0.0,
                    spec_decode_frame(frame)->Ok_0.1,
                )->Ok_0;
                let name = spec_sanitize_file_name(m.file_name);
                let opened = seq![
                    ActionView::Send(PacketType::Ack, spec_ack_payload(0)),
                    ActionView::CreateFile(name + ".part"@, name),
                ];
                lemma_apply_leaves(content, opened);
                lemma_apply_finish(content, opened, sha256_of(Seq::empty()) == m.sha256);
                assert(content =~= Seq::<u8>::empty());
            } else if s.phase == Phase::Receiving && spec_decode_frame(frame) is Ok
                && spec_decode_frame(frame)->Ok_0.0 == PacketType::Chunk && spec_parse_chunk(
                PacketType::Chunk,
                spec_decode_frame(frame)->Ok_0.1,
            ) is Ok && spec_parse_chunk(
                PacketType::Chunk,
                spec_decode_frame(frame)->Ok_0.1,
            )->Ok_0.0 == s.expected_index {
                let d = spec_parse_chunk(PacketType::Chunk, spec_decode_frame(frame)->Ok_0.1)->Ok_0.1;
                lemma_apply_one(content, ActionView::Write(d), empty);
                assert(seq![ActionView::Write(d)] + empty =~= seq![ActionView::Write(d)]);
            } else {
                lemma_apply_leaves(content, step.actions);
            }
        },
        Event::Written(ok) => {
            if s.phase == Phase::AwaitWrite {
                let nack = ActionView::Send(
                    PacketType::Nack,
                    spec_nack_payload(s.expected_index, NackReason::IoError),
                );
                if !ok {
                    lemma_apply_one(content, ActionView::Truncate(s.received), seq![nack]);
                    assert(seq![ActionView::Truncate(s.received)] + seq![nack] =~= step.actions);
                    assert(content.take(s.received as int) =~= s.data);
                } else {
                    let acked = seq![
                        ActionView::Send(PacketType::Ack, spec_ack_payload(s.expected_index)),
                    ];
                    let data = s.data + s.pending;
                    lemma_apply_leaves(content, acked);
                    lemma_apply_finish(content, acked, sha256_of(data) == s.meta->0.sha256);
                }
            } else {
                lemma_apply_leaves(content, step.actions);
            }
        },
    }
}

proof fn lemma_run_consistent(s: ReceiverView, content: Seq<u8>, events: Seq<Event>)
    requires
        consistent(s, content),
    ensures
        consistent(spec_run(s, events).0, apply_actions(content, spec_run(s, events).1)),
    decreases events.len(),
{
    if events.len() > 0 {
        let step = spec_on_event(s, events[0]);
        let rest = spec_run(step.next, events.drop_first());
        lemma_step_content(s, content, events[0]);
        lemma_run_consistent(step.next, apply_actions(content, step.actions), events.drop_first());
        lemma_apply_concat(content, step.actions, rest.1);
    }
}

/// Over any sequence of events from a fresh connection, the content whose
/// SHA-256 decides the DONE verdict is exactly what the part file holds:
/// nothing is written before META, and while chunks are received the file
/// holds the accepted content (followed by the chunk whose write is awaited).
pub proof fn lemma_run_keeps_file_content(events: Seq<Event>)
    ensures
        consistent(
            spec_run(initial_state(), events).0,
            file_content(spec_run(initial_state(), events).1),
        ),
{
    lemma_run_consistent(initial_state(), Seq::empty(), events);
}

/// On a fresh connection, the file is saved only when the SHA-256 of what the
/// part file holds equals the hash announced in META, and it is deleted only
/// when they differ.
pub proof fn lemma_saved_only_if_verified(events: Seq<Event>, e: Event)
    ensures
        ({
            let (s, before) = spec_run(initial_state(), events);
            let step = spec_on_event(s, e);
            let content = file_content(before + step.actions);
            &&& step.outcome matches Some(Ok(_)) ==> sha256_of(content) == announced_sha256(s, e)
            &&& step.outcome == Some(Err::<Seq<char>, TransferError>(TransferError::IntegrityCheckFailed))
                ==> sha256_of(content) != announced_sha256(s, e)
        }),
{
    let (s, before) = spec_run(initial_state(), events);
    let step = spec_on_event(s, e);
    lemma_run_keeps_file_content(events);
    lemma_step_content(s, file_content(before), e);
    lemma_apply_concat(Seq::empty(), before, step.actions);
}

/// A finished connection stays finished and does nothing more, whatever it
/// is told.
pub proof fn lemma_finished_is_final(s: ReceiverView, events: Seq<Event>)
    requires
        s.phase == Phase::Finished,
    ensures
        spec_run(s, events).0 == s,
        spec_run(s, events).1 == Seq::<ActionView>::empty(),
    decreases events.len(),
{
    if events.len() > 0 {
        lemma_finished_is_final(s, events.drop_first());
        assert(Seq::<ActionView>::empty() + Seq::<ActionView>::empty() =~= Seq::<
            ActionView,
        >::empty());
    }
}

/// A step that ends the transfer leaves the connection finished. It saves the
/// file exactly when it reports success, and then after closing the file and
/// sending a DONE whose verdict is success; a failed integrity check sends a
/// DONE with a failure verdict and deletes the file; a refused frame sends
/// nothing.
pub proof fn lemma_outcome_actions(s: ReceiverView, e: Event)
    ensures
        ({
            let step = spec_on_event(s, e);
            let n = step.actions.len();
            &&& step.outcome is Some ==> step.next.phase == Phase::Finished
            &&& step.outcome is None ==> step.next.phase != Phase::Finished || s.phase
                == Phase::Finished
            &&& step.outcome matches Some(Ok(_)) ==> {
                &&& n >= 3
                &&& step.actions[n - 3] == ActionView::CloseFile
                &&& step.actions[n - 2] == ActionView::Send(PacketType::Done, seq![1u8])
                &&& step.actions[n - 1] == ActionView::Commit
            }
            &&& step.outcome == Some(Err::<Seq<char>, TransferError>(TransferError::IntegrityCheckFailed)) ==> {
                &&& n >= 3
                &&& step.actions[n - 3] == ActionView::CloseFile
                &&& step.actions[n - 2] == ActionView::Send(PacketType::Done, seq![0u8])
                &&& step.actions[n - 1] == ActionView::Discard
            }
            &&& step.outcome matches Some(Err(TransferError::Protocol(_))) ==> n == 0
        }),
{
}

/// A chunk whose write failed is refused with NACK(IoError), the part file is
/// cut back to the accepted content, the same chunk index is awaited, and a
/// resent copy of that chunk is accepted and written again.
pub proof fn lemma_failed_write_is_retried(s: ReceiverView, data: Seq<u8>)
    requires
        s.phase == Phase::AwaitWrite,
        4 + data.len() <= MAX_PAYLOAD_LEN,
    ensures
        ({
            let failed = spec_on_written(s, false);
            let resent = spec_on_frame(
                failed.next,
                spec_frame(PacketType::Chunk, spec_chunk_payload(s.expected_index, data)),
            );
            &&& failed.outcome is None
            &&& failed.actions == seq![
                ActionView::Truncate(s.received),
                ActionView::Send(
                    PacketType::Nack,
                    spec_nack_payload(s.expected_index, NackReason::IoError),
                ),
            ]
            &&& failed.next == (ReceiverView { phase: Phase::Receiving, pending: Seq::empty(), ..s })
            &&& resent.outcome is None
            &&& resent.actions == seq![ActionView::Write(data)]
            &&& resent.next == (ReceiverView { phase: Phase::AwaitWrite, pending: data, ..s })
        }),
{
    lemma_expected_chunk_accepted(spec_on_written(s, false).next, data);
}

/// In the middle of a transfer, an intact CHUNK frame carrying the index
/// that is awaited is taken: its data is handed to the file and its write
/// awaited, and nothing else changes.
pub proof fn lemma_expected_chunk_accepted(s: ReceiverView, data: Seq<u8>)
    requires
        s.phase == Phase::Receiving,
        4 + data.len() <= MAX_PAYLOAD_LEN,
    ensures
        spec_on_frame(s, spec_frame(PacketType::Chunk, spec_chunk_payload(s.expected_index, data)))
            == (StepView {
            next: ReceiverView { phase: Phase::AwaitWrite, pending: data, ..s },
            actions: seq![ActionView::Write(data)],
            outcome: None,
        }),
{
    let payload = spec_chunk_payload(s.expected_index, data);
    assert(payload.len() == 4 + data.len()) by {
        vstd::bytes::lemma_auto_spec_u32_to_from_le_bytes();
    }
    lemma_frame_roundtrip(PacketType::Chunk, payload, Seq::empty());
    assert(spec_frame(PacketType::Chunk, payload) + Seq::<u8>::empty() =~= spec_frame(
        PacketType::Chunk,
        payload,
    ));
    lemma_chunk_roundtrip(s.expected_index, data);
}

/// A successful write decides whether the transfer is over by the number of
/// bytes received against the size announced in META alone: while fewer
/// bytes than announced are there the transfer goes on (no outcome, chunks
/// still received, the written chunk joins the content); once they are all
/// there it ends.
pub proof fn lemma_write_ends_transfer_only_at_file_size(s: ReceiverView)
    requires
        s.phase == Phase::AwaitWrite,
        s.meta is Some,
        s.received == s.data.len(),
    ensures
        ({
            let step = spec_on_written(s, true);
            let total = s.data.len() + s.pending.len();
            &&& total < s.meta->0.file_size ==> {
                &&& step.outcome is None
                &&& step.next.phase == Phase::Receiving
                &&& step.next.data == s.data + s.pending
                &&& step.next.received == total
                &&& step.next.meta == s.meta
            }
            &&& total >= s.meta->0.file_size ==> {
                &&& step.outcome is Some
                &&& step.next.phase == Phase::Finished
            }
        }),
{
}

/// After the write of chunk `i` succeeds without ending the transfer, chunk
/// `i` is acknowledged, chunk `i + 1` is the one awaited, and an intact
/// CHUNK frame with index `i + 1` is taken and written.
pub proof fn lemma_next_chunk_follows(s: ReceiverView, data: Seq<u8>)
    requires
        s.phase == Phase::AwaitWrite,
        s.meta is Some,
        s.received == s.data.len(),
        s.data.len() + s.pending.len() < s.meta->0.file_size,
        s.expected_index < u32::MAX,
        4 + data.len() <= MAX_PAYLOAD_LEN,
    ensures
        ({
            let written = spec_on_written(s, true);
            let i = s.expected_index;
            let next_frame = spec_frame(
                PacketType::Chunk,
                spec_chunk_payload((i + 1) as u32, data),
            );
            &&& written.actions == seq![
                ActionView::Send(PacketType::Ack, spec_ack_payload(i)),
            ]
            &&& written.next.expected_index == i + 1
            &&& spec_on_frame(written.next, next_frame).actions == seq![ActionView::Write(data)]
            &&& spec_on_frame(written.next, next_frame).outcome is None
        }),
{
    let written = spec_on_written(s, true);
    lemma_write_ends_transfer_only_at_file_size(s);
    lemma_expected_chunk_accepted(written.next, data);
}

/// While chunks are received, a frame refused for a CRC-32 mismatch is
/// answered with NACK(awaited index, CrcMismatch) and changes nothing, so an
/// intact resent copy of the awaited chunk is then taken and written.
pub proof fn lemma_crc_refused_chunk_is_resent(s: ReceiverView, frame: Seq<u8>, data: Seq<u8>)
    requires
        s.phase == Phase::Receiving,
        spec_decode_frame(frame) matches Err(ProtocolError::CrcMismatch { .. }),
        4 + data.len() <= MAX_PAYLOAD_LEN,
    ensures
        ({
            let refused = spec_on_frame(s, frame);
            let resent = spec_on_frame(
                refused.next,
                spec_frame(PacketType::Chunk, spec_chunk_payload(s.expected_index, data)),
            );
            &&& refused.next == s
            &&& refused.outcome is None
            &&& refused.actions == seq![
                ActionView::Send(
                    PacketType::Nack,
                    spec_nack_payload(s.expected_index, NackReason::CrcMismatch),
                ),
            ]
            &&& resent.actions == seq![ActionView::Write(data)]
            &&& resent.outcome is None
        }),
{
    lemma_expected_chunk_accepted(s, data);
}

/// A fresh connection answers an intact HELLO with its own HELLO and then
/// awaits META.
pub proof fn lemma_handshake(s: ReceiverView)
    requires
        s.phase == Phase::AwaitHello,
    ensures
        spec_on_frame(s, spec_frame(PacketType::Hello, spec_hello_payload())) == (StepView {
            next: ReceiverView { phase: Phase::AwaitMeta, ..s },
            actions: seq![ActionView::Send(PacketType::Hello, spec_hello_payload())],
            outcome: None,
        }),
{
    lemma_frame_roundtrip(PacketType::Hello, spec_hello_payload(), Seq::empty());
    assert(spec_frame(PacketType::Hello, spec_hello_payload()) + Seq::<u8>::empty() =~= spec_frame(
        PacketType::Hello,
        spec_hello_payload(),
    ));
    lemma_hello_roundtrip();
}

/// An intact META for a non-empty file is acknowledged with ACK(0), the part
/// file is created under the sanitised name followed by `.part`, and chunk 0
/// is awaited with nothing received yet.
pub proof fn lemma_meta_opens_transfer(
    s: ReceiverView,
    file_name: Seq<char>,
    file_size: u64,
    sha256: Seq<u8>,
)
    requires
        s.phase == Phase::AwaitMeta,
        encode_utf8(file_name).len() <= u16::MAX,
        sha256.len() == 32,
        file_size > 0,
    ensures
        ({
            let payload = spec_meta_payload(encode_utf8(file_name), file_size, sha256);
            let name = spec_sanitize_file_name(file_name);
            spec_on_frame(s, spec_frame(PacketType::Meta, payload)) == (StepView {
                next: ReceiverView {
                    phase: Phase::Receiving,
                    meta: Some(MetaView { file_name, file_size, sha256 }),
                    received: 0,
                    expected_index: 0,
                    data: Seq::empty(),
                    pending: Seq::empty(),
                },
                actions: seq![
                    ActionView::Send(PacketType::Ack, spec_ack_payload(0)),
                    ActionView::CreateFile(name + ".part"@, name),
                ],
                outcome: None,
            })
        }),
{
    let payload = spec_meta_payload(encode_utf8(file_name), file_size, sha256);
    assert(payload.len() == 2 + encode_utf8(file_name).len() + 8 + 32) by {
        vstd::bytes::lemma_auto_spec_u16_to_from_le_bytes();
        vstd::bytes::lemma_auto_spec_u64_to_from_le_bytes();
    }
    lemma_frame_roundtrip(PacketType::Meta, payload, Seq::empty());
    assert(spec_frame(PacketType::Meta, payload) + Seq::<u8>::empty() =~= spec_frame(
        PacketType::Meta,
        payload,
    ));
    lemma_meta_roundtrip(file_name, file_size, sha256);
}

/// While chunks are received, an intact CHUNK frame with another index than
/// the awaited one is answered with NACK(its index, OutOfOrder) and changes
/// nothing.
pub proof fn lemma_out_of_order_chunk_refused(s: ReceiverView, index: u32, data: Seq<u8>)
    requires
        s.phase == Phase::Receiving,
        index != s.expected_index,
        4 + data.len() <= MAX_PAYLOAD_LEN,
    ensures
        spec_on_frame(s, spec_frame(PacketType::Chunk, spec_chunk_payload(index, data))) == (StepView {
            next: s,
            actions: seq![
                ActionView::Send(PacketType::Nack, spec_nack_payload(index, NackReason::OutOfOrder)),
            ],
            outcome: None,
        }),
{
    let payload = spec_chunk_payload(index, data);
    assert(payload.len() == 4 + data.len()) by {
        vstd::bytes::lemma_auto_spec_u32_to_from_le_bytes();
    }
    lemma_frame_roundtrip(PacketType::Chunk, payload, Seq::empty());
    assert(spec_frame(PacketType::Chunk, payload) + Seq::<u8>::empty() =~= spec_frame(
        PacketType::Chunk,
        payload,
    ));
    lemma_chunk_roundtrip(index, data);
}

/// While chunks are received, an intact packet of another type than CHUNK
/// ends the transfer as unexpected, with nothing sent.
pub proof fn lemma_non_chunk_ends_transfer(s: ReceiverView, t: PacketType, payload: Seq<u8>)
    requires
        s.phase == Phase::Receiving,
        t != PacketType::Chunk,
        payload.len() <= MAX_PAYLOAD_LEN,
    ensures
        ({
            let step = spec_on_frame(s, spec_frame(t, payload));
            &&& step.actions == Seq::<ActionView>::empty()
            &&& step.next.phase == Phase::Finished
            &&& step.outcome == Some(
                Err::<Seq<char>, TransferError>(
                    TransferError::Protocol(
                        ProtocolError::UnexpectedType { expected: PacketType::Chunk, actual: t },
                    ),
                ),
            )
        }),
{
    lemma_frame_roundtrip(t, payload, Seq::empty());
    assert(spec_frame(t, payload) + Seq::<u8>::empty() =~= spec_frame(t, payload));
}

} // verus!
