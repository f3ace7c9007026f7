//! The transfer engine: one session's state machine, from the first poll to a
//! terminal state.
//!
//! The engine does no I/O. Its driver performs the [`Action`] that each step
//! returns and hands the outcome back as the next [`Event`]; the engine decides
//! what happens next and which [`Progress`] event, if any, the session emits.
use vstd::prelude::*;
use crate::access::AccessError;

verus! {

/// The two kinds of image source.
#[derive(Clone, Copy, Debug, PartialEq, Eq, Structural)]
pub enum SourceKind {
    /// Streamed over HTTP(S).
    Remote,
    /// Read from a local file.
    Local,
}

/// Failures of a remote source.
#[derive(Clone, Copy, Debug, PartialEq, Eq, Structural)]
pub enum NetworkError {
    ConnectFailed,
    NoContentLength,
    StreamError,
}

/// The cause carried by a terminal `Errored` event.
#[derive(Clone, Copy, Debug, PartialEq, Eq, Structural)]
pub enum TransferError {
    Access(AccessError),
    Network(NetworkError),
    /// A local read, or a metadata, seek or write operation on the device, failed.
    Io,
}

/// A progress event of one session.
///
/// `Advanced` carries the bytes of the image that are on the device and the
/// image's declared size; the percentage is `written / total * 100`.
#[derive(Clone, Copy, Debug, PartialEq, Eq, Structural)]
pub enum Progress {
    Started,
    Advanced { written: u64, total: u64 },
    Finished,
    Errored(TransferError),
}

/// The state of one session.
///
/// `Opening`, `Measuring` and `Seeking` are the steps of the first poll, before
/// the transfer starts. `skip` counts the bytes at the head of the source that
/// the device already holds and that are therefore not written again.
#[derive(Clone, Copy, Debug, PartialEq, Eq, Structural)]
pub enum State {
    Ready,
    Opening { total: u64 },
    Measuring { total: u64 },
    Seeking { total: u64, offset: u64 },
    Transferring { written: u64, total: u64, skip: u64 },
    /// A write of `fresh` bytes is under way.
    Writing { written: u64, total: u64, skip: u64, fresh: u64 },
    Finished,
    Errored(TransferError),
}

/// The outcome of the last action, handed to the engine by its driver.
#[derive(Debug)]
pub enum Event {
    /// A poll of a session that has not begun.
    Begin,
    /// The source was fetched; it declared this total length, if any.
    Fetched(Option<u64>),
    FetchFailed,
    Opened,
    OpenFailed(AccessError),
    /// The device already holds this many bytes.
    Measured(u64),
    MeasureFailed,
    Sought,
    SeekFailed,
    /// The next chunk of the source.
    Pulled(Vec<u8>),
    /// The source has no more chunks.
    Ended,
    PullFailed,
    Written,
    WriteFailed,
}

/// The mathematical value of an [`Event`].
pub enum EventView {
    Begin,
    Fetched(Option<u64>),
    FetchFailed,
    Opened,
    OpenFailed(AccessError),
    Measured(u64),
    MeasureFailed,
    Sought,
    SeekFailed,
    Pulled(Seq<u8>),
    Ended,
    PullFailed,
    Written,
    WriteFailed,
}

impl View for Event {
    type V = EventView;

    open spec fn view(&self) -> EventView {
        match self {
            Event::Begin => EventView::Begin,
            Event::Fetched(l) => EventView::Fetched(*l),
            Event::FetchFailed => EventView::FetchFailed,
            Event::Opened => EventView::Opened,
            Event::OpenFailed(a) => EventView::OpenFailed(*a),
            Event::Measured(n) => EventView::Measured(*n),
            Event::MeasureFailed => EventView::MeasureFailed,
            Event::Sought => EventView::Sought,
            Event::SeekFailed => EventView::SeekFailed,
            Event::Pulled(c) => EventView::Pulled(c@),
            Event::Ended => EventView::Ended,
            Event::PullFailed => EventView::PullFailed,
            Event::Written => EventView::Written,
            Event::WriteFailed => EventView::WriteFailed,
        }
    }
}

/// What the driver is to do next.
#[derive(Debug)]
pub enum Action {
    /// Fetch the source and report its declared length.
    Fetch,
    /// Open the device through the privileged opener.
    Open,
    /// Read how many bytes the device already holds.
    Measure,
    /// Move the device handle's cursor to this offset.
    Seek(u64),
    /// Pull the next chunk of the source.
    Pull,
    /// Write these bytes at the device handle's cursor.
    Write(Vec<u8>),
    /// Nothing more: the session emits no further events.
    Suspend,
}

/// The mathematical value of an [`Action`].
pub enum ActionView {
    Fetch,
    Open,
    Measure,
    Seek(u64),
    Pull,
    Write(Seq<u8>),
    Suspend,
}

impl View for Action {
    type V = ActionView;

    open spec fn view(&self) -> ActionView {
        match self {
            Action::Fetch => ActionView::Fetch,
            Action::Open => ActionView::Open,
            Action::Measure => ActionView::Measure,
            Action::Seek(n) => ActionView::Seek(*n),
            Action::Pull => ActionView::Pull,
            Action::Write(d) => ActionView::Write(d@),
            Action::Suspend => ActionView::Suspend,
        }
    }
}

/// The cause of a failed fetch.
pub open spec fn fetch_error(kind: SourceKind) -> TransferError {
    match kind {
        SourceKind::Remote => TransferError::Network(NetworkError::ConnectFailed),
        SourceKind::Local => TransferError::Io,
    }
}

/// The cause of a failed pull.
pub open spec fn pull_error(kind: SourceKind) -> TransferError {
    match kind {
        SourceKind::Remote => TransferError::Network(NetworkError::StreamError),
        SourceKind::Local => TransferError::Io,
    }
}

/// `written + fresh`, held at `total`.
pub open spec fn advance(written: u64, fresh: u64, total: u64) -> u64 {
    if written + fresh < total {
        (written + fresh) as u64
    } else {
        total
    }
}

/// A step into the terminal error state.
pub open spec fn failure(e: TransferError) -> (State, Option<Progress>, ActionView) {
    (State::Errored(e), Some(Progress::Errored(e)), ActionView::Suspend)
}

/// A step on an event that does not answer the pending action, or on a
/// terminal state: nothing changes and nothing more is asked.
pub open spec fn idle(s: State) -> (State, Option<Progress>, ActionView) {
    (s, None, ActionView::Suspend)
}

/// One step of a session of the given kind: the next state, the progress event
/// emitted, if any, and the next action.
pub open spec fn next(kind: SourceKind, s: State, e: EventView) -> (State, Option<Progress>, ActionView) {
    match s {
        State::Ready => match e {
            EventView::Begin => (State::Ready, None, ActionView::Fetch),
            EventView::Fetched(Some(total)) => (State::Opening { total }, None, ActionView::Open),
            EventView::Fetched(None) => failure(TransferError::Network(NetworkError::NoContentLength)),
            EventView::FetchFailed => failure(fetch_error(kind)),
            _ => idle(s),
        },
        State::Opening { total } => match e {
            EventView::Opened => (State::Measuring { total }, None, ActionView::Measure),
            EventView::OpenFailed(a) => failure(TransferError::Access(a)),
            _ => idle(s),
        },
        State::Measuring { total } => match e {
            EventView::Measured(extent) => {
                let offset = if extent < total { extent } else { total };
                (State::Seeking { total, offset }, None, ActionView::Seek(offset))
            },
            EventView::MeasureFailed => failure(TransferError::Io),
            _ => idle(s),
        },
        State::Seeking { total, offset } => match e {
            EventView::Sought => (
                State::Transferring { written: offset, total, skip: offset },
                Some(Progress::Started),
                ActionView::Pull,
            ),
            EventView::SeekFailed => failure(TransferError::Io),
            _ => idle(s),
        },
        State::Transferring { written, total, skip } => match e {
            EventView::Pulled(c) => {
                let cut = if skip < c.len() { skip as int } else { c.len() as int };
                (
                    State::Writing {
                        written,
                        total,
                        skip: (skip - cut) as u64,
                        fresh: (c.len() - cut) as u64,
                    },
                    None,
                    ActionView::Write(c.subrange(cut, c.len() as int)),
                )
            },
            EventView::Ended => (State::Finished, Some(Progress::Finished), ActionView::Suspend),
            EventView::PullFailed => failure(pull_error(kind)),
            _ => idle(s),
        },
        State::Writing { written, total, skip, fresh } => match e {
            EventView::Written => {
                let w = advance(written, fresh, total);
                (
                    State::Transferring { written: w, total, skip },
                    Some(Progress::Advanced { written: w, total }),
                    ActionView::Pull,
                )
            },
            EventView::WriteFailed => failure(TransferError::Io),
            _ => idle(s),
        },
        State::Finished => idle(s),
        State::Errored(_) => idle(s),
    }
}

/// One transfer session: the kind of its source and its state.
pub struct Transfer {
    kind: SourceKind,
    state: State,
}

impl Transfer {
    pub closed spec fn spec_kind(&self) -> SourceKind {
        self.kind
    }

    pub closed spec fn spec_state(&self) -> State {
        self.state
    }

    /// A session in the `Ready` state.
    pub fn new(kind: SourceKind) -> (r: Transfer)
        ensures
            r.spec_kind() == kind,
            r.spec_state() == State::Ready,
    {
        Transfer { kind, state: State::Ready }
    }

    pub fn kind(&self) -> (r: SourceKind)
        ensures
            r == self.spec_kind(),
    {
        self.kind
    }

    pub fn state(&self) -> (r: State)
        ensures
            r == self.spec_state(),
    {
        self.state
    }

    /// Takes the outcome of the last action and returns the progress event to
    /// emit, if any, and the next action. An event that does not answer the
    /// pending action, and any event after a terminal state, changes nothing,
    /// emits nothing and asks for nothing more.
    pub fn step(&mut self, event: Event) -> (r: (Option<Progress>, Action))
        ensures
            final(self).spec_kind() == old(self).spec_kind(),
            (final(self).spec_state(), r.0, r.1@) == next(
                old(self).spec_kind(),
                old(self).spec_state(),
                event@,
            ),
    {
        match self.state {
            State::Ready => match event {
                Event::Begin => (None, Action::Fetch),
                Event::Fetched(Some(total)) => {
                    self.state = State::Opening { total };
                    (None, Action::Open)
                },
                Event::Fetched(None) => {
                    self.fail(TransferError::Network(NetworkError::NoContentLength))
                },
                Event::FetchFailed => {
                    let e = match self.kind {
                        SourceKind::Remote => TransferError::Network(NetworkError::ConnectFailed),
                        SourceKind::Local => TransferError::Io,
                    };
                    self.fail(e)
                },
                _ => (None, Action::Suspend),
            },
            State::Opening { total } => match event {
                Event::Opened => {
                    self.state = State::Measuring { total };
                    (None, Action::Measure)
                },
                Event::OpenFailed(a) => self.fail(TransferError::Access(a)),
                _ => (None, Action::Suspend),
            },
            State::Measuring { total } => match event {
                Event::Measured(extent) => {
                    let offset = if extent < total {
                        extent
                    } else {
                        total
                    };
                    self.state = State::Seeking { total, offset };
                    (None, Action::Seek(offset))
                },
                Event::MeasureFailed => self.fail(TransferError::Io),
                _ => (None, Action::Suspend),
            },
            State::Seeking { total, offset } => match event {
                Event::Sought => {
                    self.state = State::Transferring { written: offset, total, skip: offset };
                    (Some(Progress::Started), Action::Pull)
                },
                Event::SeekFailed => self.fail(TransferError::Io),
                _ => (None, Action::Suspend),
            },
            State::Transferring { written, total, skip } => match event {
                Event::Pulled(mut chunk) => {
                    let len = chunk.len();
                    let cut: usize = if skip < len as u64 {
                        skip as usize
                    } else {
                        len
                    };
                    let data = chunk.split_off(cut);
                    self.state = State::Writing {
                        written,
                        total,
                        skip: skip - cut as u64,
                        fresh: (len - cut) as u64,
                    };
                    (None, Action::Write(data))
                },
                Event::Ended => {
                    self.state = State::Finished;
                    (Some(Progress::Finished), Action::Suspend)
                },
                Event::PullFailed => {
                    let e = match self.kind {
                        SourceKind::Remote => TransferError::Network(NetworkError::StreamError),
                        SourceKind::Local => TransferError::Io,
                    };
                    self.fail(e)
                },
                _ => (None, Action::Suspend),
            },
            State::Writing { written, total, skip, fresh } => match event {
                Event::Written => {
                    let w = if written < total && fresh < total - written {
                        written + fresh
                    } else {
                        total
                    };
                    self.state = State::Transferring { written: w, total, skip };
                    (Some(Progress::Advanced { written: w, total }), Action::Pull)
                },
                Event::WriteFailed => self.fail(TransferError::Io),
                _ => (None, Action::Suspend),
            },
            State::Finished => (None, Action::Suspend),
            State::Errored(_) => (None, Action::Suspend),
        }
    }

    fn fail(&mut self, e: TransferError) -> (r: (Option<Progress>, Action))
        ensures
            final(self).spec_kind() == old(self).spec_kind(),
            (final(self).spec_state(), r.0, r.1@) == failure(e),
    {
        self.state = State::Errored(e);
        (Some(Progress::Errored(e)), Action::Suspend)
    }
}


/// The progress event a step emits, as a sequence of zero or one events.
pub open spec fn emitted(p: Option<Progress>) -> Seq<Progress> {
    match p {
        Some(x) => seq![x],
        None => Seq::empty(),
    }
}

/// A session fed `events` from state `s`: its last state, the progress events
/// it emitted and the actions it asked for, in order.
pub open spec fn run(kind: SourceKind, s: State, events: Seq<EventView>) -> (State, Seq<Progress>, Seq<ActionView>)
    decreases events.len(),
{
    if events.len() == 0 {
        (s, Seq::empty(), Seq::empty())
    } else {
        let (s1, p, a) = next(kind, s, events[0]);
        let rest = run(kind, s1, events.drop_first());
        (rest.0, emitted(p) + rest.1, seq![a] + rest.2)
    }
}

/// `ps` is a prefix of `Started, Advanced*, (Finished | Errored)` whose
/// `Advanced` events share one total, stay within it and never go back.
pub open spec fn in_order(ps: Seq<Progress>) -> bool {
    &&& ps.len() > 0 ==> ps[0] is Started
    &&& forall|i: int| 0 < i < ps.len() ==> !(#[trigger] ps[i] is Started)
    &&& forall|i: int| 0 <= i < ps.len() - 1 ==> (#[trigger] ps[i] is Started || ps[i] is Advanced)
    &&& forall|i: int| 0 <= i < ps.len() && #[trigger] ps[i] is Advanced ==> ps[i]->written <= ps[i]->total
    &&& forall|i: int, j: int|
        0 <= i < j < ps.len() && #[trigger] ps[i] is Advanced && #[trigger] ps[j] is Advanced
            ==> ps[i]->total == ps[j]->total && ps[i]->written <= ps[j]->written
}

/// `ps` is a whole session's events: in order and ended by `Finished` or `Errored`.
pub open spec fn complete(ps: Seq<Progress>) -> bool {
    &&& in_order(ps)
    &&& ps.len() >= 2
    &&& (ps.last() is Finished || ps.last() is Errored)
}

/// What the events emitted so far say of a session in state `s`.
pub open spec fn consistent(s: State, ps: Seq<Progress>) -> bool {
    match s {
        State::Ready => ps.len() == 0,
        State::Opening { .. } => ps.len() == 0,
        State::Measuring { .. } => ps.len() == 0,
        State::Seeking { total, offset } => ps.len() == 0 && offset <= total,
        State::Transferring { written, total, .. } => running(ps, written, total),
        State::Writing { written, total, .. } => running(ps, written, total),
        State::Finished => complete(ps) && ps.last() is Finished,
        State::Errored(e) => ps == seq![Progress::Errored(e)] || (complete(ps) && ps.last()
            == Progress::Errored(e)),
    }
}

/// The events of a started session that has `written` of `total` bytes on the device.
pub open spec fn running(ps: Seq<Progress>, written: u64, total: u64) -> bool {
    &&& in_order(ps)
    &&& ps.len() > 0
    &&& written <= total
    &&& forall|i: int|
        0 < i < ps.len() ==> (#[trigger] ps[i] is Advanced && ps[i]->total == total && ps[i]->written
            <= written)
}

proof fn lemma_next_consistent(kind: SourceKind, s: State, ps: Seq<Progress>, e: EventView)
    requires
        consistent(s, ps),
    ensures
        consistent(next(kind, s, e).0, ps + emitted(next(kind, s, e).1)),
{
    let (s1, p, a) = next(kind, s, e);
    let qs = ps + emitted(p);
    match p {
        None => {
            assert(qs =~= ps);
        },
        Some(x) => {
            assert(qs =~= ps.push(x));
            assert(qs.last() == x);
            assert forall|i: int| 0 <= i < ps.len() implies qs[i] == ps[i] by {}
        },
    }
}

proof fn lemma_run_consistent(kind: SourceKind, s: State, ps: Seq<Progress>, events: Seq<EventView>)
    requires
        consistent(s, ps),
    ensures
        consistent(run(kind, s, events).0, ps + run(kind, s, events).1),
    decreases events.len(),
{
    if events.len() == 0 {
        assert(ps + run(kind, s, events).1 =~= ps);
    } else {
        let (s1, p, a) = next(kind, s, events[0]);
        lemma_next_consistent(kind, s, ps, events[0]);
        lemma_run_consistent(kind, s1, ps + emitted(p), events.drop_first());
        let rest = run(kind, s1, events.drop_first());
        assert(ps + emitted(p) + rest.1 =~= ps + (emitted(p) + rest.1));
    }
}

/// A session emits its progress events in the order `Started`, any number of
/// `Advanced`, then one of `Finished` or `Errored`, and nothing after that.
/// Its `Advanced` events share one total, never exceed it and never go back,
/// so their percentages stay within 0 to 100 and never decrease; a session
/// that has reached `Finished` or `Errored` has emitted the whole sequence.
/// This holds of every session but one that fails before it starts, which
/// emits a lone `Errored` (see [`failure_before_start`]).
pub proof fn progress_in_order(kind: SourceKind, events: Seq<EventView>)
    requires
        !(run(kind, State::Ready, events).1.len() > 0 && run(kind, State::Ready, events).1[0] is Errored),
    ensures
        in_order(run(kind, State::Ready, events).1),
        run(kind, State::Ready, events).0 is Finished || run(kind, State::Ready, events).0 is Errored
            ==> complete(run(kind, State::Ready, events).1),
{
    lemma_run_consistent(kind, State::Ready, Seq::empty(), events);
    assert(Seq::<Progress>::empty() + run(kind, State::Ready, events).1 =~= run(kind, State::Ready, events).1);
}

/// A session whose first progress event is `Errored` emits nothing else and
/// ends in the error state with the same cause.
pub proof fn failure_before_start(kind: SourceKind, events: Seq<EventView>)
    requires
        run(kind, State::Ready, events).1.len() > 0,
        run(kind, State::Ready, events).1[0] is Errored,
    ensures
        run(kind, State::Ready, events).1 == seq![run(kind, State::Ready, events).1[0]],
        run(kind, State::Ready, events).0 == State::Errored(run(kind, State::Ready, events).1[0]->Errored_0),
{
    lemma_run_consistent(kind, State::Ready, Seq::empty(), events);
    assert(Seq::<Progress>::empty() + run(kind, State::Ready, events).1 =~= run(kind, State::Ready, events).1);
}


/// Whatever events it is fed, a session never counts more bytes written than
/// its image holds.
pub proof fn written_within_total(kind: SourceKind, events: Seq<EventView>)
    ensures
        match run(kind, State::Ready, events).0 {
            State::Transferring { written, total, .. } => written <= total,
            State::Writing { written, total, .. } => written <= total,
            _ => true,
        },
{
    lemma_run_consistent(kind, State::Ready, Seq::empty(), events);
}

proof fn lemma_terminal_stays(kind: SourceKind, s: State, events: Seq<EventView>)
    requires
        s is Finished || s is Errored,
    ensures
        run(kind, s, events).0 == s,
        run(kind, s, events).1 == Seq::<Progress>::empty(),
    decreases events.len(),
{
    if events.len() > 0 {
        lemma_terminal_stays(kind, s, events.drop_first());
        assert(emitted(None) + run(kind, s, events.drop_first()).1 =~= Seq::<Progress>::empty());
    }
}

proof fn lemma_no_length(kind: SourceKind, events: Seq<EventView>, k: int, n: int)
    requires
        0 <= k < events.len(),
        forall|i: int| 0 <= i < k ==> events[i] is Begin,
        events[k] == EventView::Fetched(None),
        0 <= n <= events.len(),
    ensures
        n <= k ==> run(kind, State::Ready, events.take(n)).0 == State::Ready,
        n <= k ==> run(kind, State::Ready, events.take(n)).1 == Seq::<Progress>::empty(),
        n > k ==> run(kind, State::Ready, events.take(n)).0 == State::Errored(
            TransferError::Network(NetworkError::NoContentLength),
        ),
        n > k ==> run(kind, State::Ready, events.take(n)).1 == seq![
            Progress::Errored(TransferError::Network(NetworkError::NoContentLength)),
        ],
    decreases k,
{
    let err = TransferError::Network(NetworkError::NoContentLength);
    if n > 0 {
        let t = events.take(n);
        assert(t[0] == events[0]);
        assert(t.drop_first() =~= events.drop_first().take(n - 1));
        if k == 0 {
            lemma_terminal_stays(kind, State::Errored(err), t.drop_first());
            assert(emitted(Some(Progress::Errored(err))) + Seq::<Progress>::empty() =~= seq![
                Progress::Errored(err),
            ]);
        } else {
            assert forall|i: int| 0 <= i < k - 1 implies events.drop_first()[i] is Begin by {
                assert(events.drop_first()[i] == events[i + 1]);
            }
            lemma_no_length(kind, events.drop_first(), k - 1, n - 1);
            assert(emitted(None) + run(kind, State::Ready, t.drop_first()).1 =~= run(
                kind,
                State::Ready,
                t.drop_first(),
            ).1);
        }
    }
}

/// A source that declares no length (only a remote one can) never brings its
/// session to `Transferring`: whatever events follow, the session goes
/// straight from `Ready` to `Errored(NoContentLength)`, emits that and nothing
/// else, and stays there.
pub proof fn no_length_no_transfer(kind: SourceKind, events: Seq<EventView>, k: int)
    requires
        0 <= k < events.len(),
        forall|i: int| 0 <= i < k ==> events[i] is Begin,
        events[k] == EventView::Fetched(None),
    ensures
        forall|n: int|
            0 <= n <= events.len() ==> !(#[trigger] run(kind, State::Ready, events.take(n)).0 is Transferring),
        run(kind, State::Ready, events).0 == State::Errored(
            TransferError::Network(NetworkError::NoContentLength),
        ),
        run(kind, State::Ready, events).1 == seq![
            Progress::Errored(TransferError::Network(NetworkError::NoContentLength)),
        ],
{
    assert forall|n: int| 0 <= n <= events.len() implies !(#[trigger] run(
        kind,
        State::Ready,
        events.take(n),
    ).0 is Transferring) by {
        lemma_no_length(kind, events, k, n);
    }
    lemma_no_length(kind, events, k, events.len() as int);
    assert(events.take(events.len() as int) =~= events);
}


/// The events that a source's `chunks` bring about when every write succeeds.
pub open spec fn chunk_events(chunks: Seq<Seq<u8>>) -> Seq<EventView>
    decreases chunks.len(),
{
    if chunks.len() == 0 {
        Seq::empty()
    } else {
        seq![EventView::Pulled(chunks[0]), EventView::Written] + chunk_events(chunks.drop_first())
    }
}

/// The events of a session in which every action succeeds: the source
/// declares `total` bytes and comes in `chunks`, and the device already holds
/// `extent` bytes.
pub open spec fn smooth_events(total: u64, extent: u64, chunks: Seq<Seq<u8>>) -> Seq<EventView> {
    seq![
        EventView::Begin,
        EventView::Fetched(Some(total)),
        EventView::Opened,
        EventView::Measured(extent),
        EventView::Sought,
    ] + chunk_events(chunks) + seq![EventView::Ended]
}

/// The bytes that `actions` write, in order.
pub open spec fn written_data(actions: Seq<ActionView>) -> Seq<u8>
    decreases actions.len(),
{
    if actions.len() == 0 {
        Seq::empty()
    } else {
        let d = match actions[0] {
            ActionView::Write(d) => d,
            _ => Seq::empty(),
        };
        d + written_data(actions.drop_first())
    }
}

/// The offsets that `actions` seek to, in order.
pub open spec fn seeks(actions: Seq<ActionView>) -> Seq<u64>
    decreases actions.len(),
{
    if actions.len() == 0 {
        Seq::empty()
    } else {
        let o = match actions[0] {
            ActionView::Seek(o) => seq![o],
            _ => Seq::empty(),
        };
        o + seeks(actions.drop_first())
    }
}

/// A device that held `dev`, after `data` is written at its cursor placed at `offset`.
pub open spec fn device_after(dev: Seq<u8>, offset: int, data: Seq<u8>) -> Seq<u8> {
    let end = offset + data.len();
    dev.subrange(0, offset) + data + if end < dev.len() {
        dev.subrange(end, dev.len() as int)
    } else {
        Seq::empty()
    }
}

proof fn lemma_run_cons(kind: SourceKind, s: State, e: EventView, rest: Seq<EventView>)
    ensures
        run(kind, s, seq![e] + rest) == ({
            let (s1, p, a) = next(kind, s, e);
            let r = run(kind, s1, rest);
            (r.0, emitted(p) + r.1, seq![a] + r.2)
        }),
{
    let evs = seq![e] + rest;
    assert(evs[0] == e);
    assert(evs.drop_first() =~= rest);
}

proof fn lemma_run_concat(kind: SourceKind, s: State, a: Seq<EventView>, b: Seq<EventView>)
    ensures
        run(kind, s, a + b) == ({
            let ra = run(kind, s, a);
            let rb = run(kind, ra.0, b);
            (rb.0, ra.1 + rb.1, ra.2 + rb.2)
        }),
    decreases a.len(),
{
    let ra = run(kind, s, a);
    let rb = run(kind, ra.0, b);
    if a.len() == 0 {
        assert(a + b =~= b);
        assert(ra.1 + rb.1 =~= rb.1);
        assert(ra.2 + rb.2 =~= rb.2);
    } else {
        let (s1, p, x) = next(kind, s, a[0]);
        assert(a + b =~= seq![a[0]] + (a.drop_first() + b));
        lemma_run_cons(kind, s, a[0], a.drop_first() + b);
        lemma_run_concat(kind, s1, a.drop_first(), b);
        let r1 = run(kind, s1, a.drop_first());
        assert(emitted(p) + (r1.1 + rb.1) =~= ra.1 + rb.1);
        assert(seq![x] + (r1.2 + rb.2) =~= ra.2 + rb.2);
    }
}

proof fn lemma_written_data_concat(x: Seq<ActionView>, y: Seq<ActionView>)
    ensures
        written_data(x + y) == written_data(x) + written_data(y),
        seeks(x + y) == seeks(x) + seeks(y),
    decreases x.len(),
{
    if x.len() == 0 {
        assert(x + y =~= y);
        assert(written_data(x) + written_data(y) =~= written_data(y));
        assert(seeks(x) + seeks(y) =~= seeks(y));
    } else {
        assert((x + y).drop_first() =~= x.drop_first() + y);
        assert((x + y)[0] == x[0]);
        lemma_written_data_concat(x.drop_first(), y);
        let d = match x[0] {
            ActionView::Write(d) => d,
            _ => Seq::empty(),
        };
        let o = match x[0] {
            ActionView::Seek(o) => seq![o],
            _ => Seq::<u64>::empty(),
        };
        assert(d + (written_data(x.drop_first()) + written_data(y)) =~= written_data(x) + written_data(y));
        assert(o + (seeks(x.drop_first()) + seeks(y)) =~= seeks(x) + seeks(y));
    }
}

/// `written + fresh`, held at `total`, over the integers.
pub open spec fn held(written: int, fresh: int, total: int) -> int {
    if written + fresh < total {
        written + fresh
    } else {
        total
    }
}

proof fn lemma_chunks(kind: SourceKind, written: u64, total: u64, skip: u64, chunks: Seq<Seq<u8>>)
    requires
        written <= total,
        chunks.flatten().len() <= u64::MAX,
    ensures
        ({
            let len = chunks.flatten().len() as int;
            let cut = if skip < len { skip as int } else { len };
            let r = run(kind, State::Transferring { written, total, skip }, chunk_events(chunks));
            &&& r.0 == State::Transferring {
                written: held(written as int, len - cut, total as int) as u64,
                total,
                skip: (skip - cut) as u64,
            }
            &&& written_data(r.2) == chunks.flatten().subrange(cut, len)
            &&& seeks(r.2) == Seq::<u64>::empty()
            &&& r.1.len() == chunks.len()
            &&& chunks.len() > 0 ==> r.1.last() == Progress::Advanced {
                written: held(written as int, len - cut, total as int) as u64,
                total,
            }
        }),
    decreases chunks.len(),
{
    let s = State::Transferring { written, total, skip };
    let len = chunks.flatten().len() as int;
    if chunks.len() == 0 {
        assert(chunk_events(chunks) =~= Seq::<EventView>::empty());
        assert(chunks.flatten().subrange(0, 0) =~= Seq::<u8>::empty());
    } else {
        let c = chunks[0];
        let rest = chunks.drop_first();
        assert(chunks.flatten() == c + rest.flatten());
        let cut1 = if skip < c.len() { skip as int } else { c.len() as int };
        let s1 = State::Writing {
            written,
            total,
            skip: (skip - cut1) as u64,
            fresh: (c.len() - cut1) as u64,
        };
        let w1 = held(written as int, c.len() - cut1, total as int) as u64;
        let s2 = State::Transferring { written: w1, total, skip: (skip - cut1) as u64 };
        let pair = seq![EventView::Pulled(c), EventView::Written];
        assert(chunk_events(chunks) == pair + chunk_events(rest));
        lemma_run_concat(kind, s, pair, chunk_events(rest));
        assert(pair =~= seq![EventView::Pulled(c)] + seq![EventView::Written]);
        lemma_run_cons(kind, s, EventView::Pulled(c), seq![EventView::Written]);
        assert(seq![EventView::Written] =~= seq![EventView::Written] + Seq::<EventView>::empty());
        lemma_run_cons(kind, s1, EventView::Written, Seq::<EventView>::empty());
        let rp = run(kind, s, pair);
        assert(rp.0 == s2);
        assert(rp.1 =~= seq![Progress::Advanced { written: w1, total }]);
        assert(rp.2 =~= seq![ActionView::Write(c.subrange(cut1, c.len() as int)), ActionView::Pull]);
        lemma_chunks(kind, w1, total, (skip - cut1) as u64, rest);
        let rr = run(kind, s2, chunk_events(rest));
        lemma_written_data_concat(rp.2, rr.2);
        reveal_with_fuel(written_data, 3);
        reveal_with_fuel(seeks, 3);
        assert(written_data(rp.2) =~= c.subrange(cut1, c.len() as int));
        assert(seeks(rp.2) =~= Seq::<u64>::empty());
        let lr = rest.flatten().len() as int;
        let cut2 = if (skip - cut1) < lr { (skip - cut1) as int } else { lr };
        assert(written_data(rr.2) == rest.flatten().subrange(cut2, lr));
        let cut = if skip < len { skip as int } else { len };
        assert(cut == cut1 + cut2);
        assert(c.subrange(cut1, c.len() as int) + rest.flatten().subrange(cut2, lr)
            =~= chunks.flatten().subrange(cut, len));
        assert(seeks(rp.2) + seeks(rr.2) =~= Seq::<u64>::empty());
    }
}


proof fn lemma_head(kind: SourceKind, total: u64, extent: u64)
    ensures
        ({
            let offset = if extent < total { extent } else { total };
            let r = run(
                kind,
                State::Ready,
                seq![
                    EventView::Begin,
                    EventView::Fetched(Some(total)),
                    EventView::Opened,
                    EventView::Measured(extent),
                    EventView::Sought,
                ],
            );
            &&& r.0 == State::Transferring { written: offset, total, skip: offset }
            &&& r.1 == seq![Progress::Started]
            &&& r.2 == seq![
                ActionView::Fetch,
                ActionView::Open,
                ActionView::Measure,
                ActionView::Seek(offset),
                ActionView::Pull,
            ]
        }),
{
    let offset = if extent < total { extent } else { total };
    let e0 = EventView::Begin;
    let e1 = EventView::Fetched(Some(total));
    let e2 = EventView::Opened;
    let e3 = EventView::Measured(extent);
    let e4 = EventView::Sought;
    let t4 = seq![e4];
    let t3 = seq![e3] + t4;
    let t2 = seq![e2] + t3;
    let t1 = seq![e1] + t2;
    let t0 = seq![e0] + t1;
    assert(t0 =~= seq![e0, e1, e2, e3, e4]);
    assert(t4 =~= seq![e4] + Seq::<EventView>::empty());
    let s1 = State::Opening { total };
    let s2 = State::Measuring { total };
    let s3 = State::Seeking { total, offset };
    let s4 = State::Transferring { written: offset, total, skip: offset };
    lemma_run_cons(kind, s3, e4, Seq::<EventView>::empty());
    lemma_run_cons(kind, s2, e3, t4);
    lemma_run_cons(kind, s1, e2, t3);
    lemma_run_cons(kind, State::Ready, e1, t2);
    lemma_run_cons(kind, State::Ready, e0, t1);
    let r = run(kind, State::Ready, t0);
    assert(r.0 == s4);
    assert(r.1 =~= seq![Progress::Started]);
    assert(r.2 =~= seq![
        ActionView::Fetch,
        ActionView::Open,
        ActionView::Measure,
        ActionView::Seek(offset),
        ActionView::Pull,
    ]);
}

proof fn lemma_smooth(kind: SourceKind, chunks: Seq<Seq<u8>>, extent: u64)
    requires
        chunks.flatten().len() <= u64::MAX,
    ensures
        ({
            let src = chunks.flatten();
            let total = src.len() as u64;
            let offset = if extent < total { extent } else { total };
            let r = run(kind, State::Ready, smooth_events(total, extent, chunks));
            &&& r.0 == State::Finished
            &&& seeks(r.2) == seq![offset]
            &&& written_data(r.2) == src.subrange(offset as int, total as int)
            &&& r.1.len() == chunks.len() + 2
            &&& r.1[0] == Progress::Started
            &&& r.1.last() == Progress::Finished
            &&& chunks.len() > 0 ==> r.1[r.1.len() - 2] == Progress::Advanced { written: total, total }
        }),
{
    let src = chunks.flatten();
    let total = src.len() as u64;
    let offset = if extent < total { extent } else { total };
    let head = seq![
        EventView::Begin,
        EventView::Fetched(Some(total)),
        EventView::Opened,
        EventView::Measured(extent),
        EventView::Sought,
    ];
    let ce = chunk_events(chunks);
    let end = seq![EventView::Ended];
    let s0 = State::Transferring { written: offset, total, skip: offset };
    lemma_head(kind, total, extent);
    let rh = run(kind, State::Ready, head);
    lemma_run_concat(kind, State::Ready, head + ce, end);
    lemma_run_concat(kind, State::Ready, head, ce);
    lemma_chunks(kind, offset, total, offset, chunks);
    let rc = run(kind, s0, ce);
    let re = run(kind, rc.0, end);
    assert(end =~= seq![EventView::Ended] + Seq::<EventView>::empty());
    lemma_run_cons(kind, rc.0, EventView::Ended, Seq::<EventView>::empty());
    assert(re.0 == State::Finished);
    assert(re.1 =~= seq![Progress::Finished]);
    assert(re.2 =~= seq![ActionView::Suspend]);
    lemma_written_data_concat(rh.2, rc.2);
    lemma_written_data_concat(rh.2 + rc.2, re.2);
    reveal_with_fuel(written_data, 6);
    reveal_with_fuel(seeks, 6);
    assert(written_data(rh.2) =~= Seq::<u8>::empty());
    assert(seeks(rh.2) =~= seq![offset]);
    assert(written_data(re.2) =~= Seq::<u8>::empty());
    assert(seeks(re.2) =~= Seq::<u64>::empty());
    let r = run(kind, State::Ready, smooth_events(total, extent, chunks));
    assert(r.1 == rh.1 + rc.1 + re.1);
    assert(written_data(r.2) =~= src.subrange(offset as int, total as int));
    assert(seeks(r.2) =~= seq![offset]);
    if chunks.len() > 0 {
        assert(r.1[r.1.len() - 2] == rc.1.last());
    }
}

/// Resuming: when the device already holds the first `k` bytes of a source of
/// `total` bytes, a session whose actions all succeed seeks once, to `k`, and
/// then writes exactly bytes `[k, total)` of the source, however the source
/// splits them into chunks, and finishes. The device then holds the source's
/// `total` bytes exactly, followed by whatever it held beyond them.
pub proof fn resume_writes_rest(kind: SourceKind, chunks: Seq<Seq<u8>>, dev: Seq<u8>, k: u64)
    requires
        chunks.flatten().len() <= u64::MAX,
        k <= chunks.flatten().len(),
        k <= dev.len(),
        dev.subrange(0, k as int) == chunks.flatten().subrange(0, k as int),
    ensures
        ({
            let src = chunks.flatten();
            let total = src.len() as u64;
            let r = run(kind, State::Ready, smooth_events(total, k, chunks));
            &&& r.0 == State::Finished
            &&& seeks(r.2) == seq![k]
            &&& written_data(r.2) == src.subrange(k as int, total as int)
            &&& device_after(dev, k as int, written_data(r.2)).subrange(0, total as int) == src
        }),
{
    lemma_smooth(kind, chunks, k);
    let src = chunks.flatten();
    let total = src.len() as u64;
    let r = run(kind, State::Ready, smooth_events(total, k, chunks));
    let after = device_after(dev, k as int, written_data(r.2));
    assert(after.subrange(0, total as int) =~= src);
}

/// When a source's chunks add up to exactly the size it declares, the last
/// `Advanced` event, the one just before `Finished`, reports all of it: 100%.
pub proof fn full_source_reports_all(kind: SourceKind, chunks: Seq<Seq<u8>>, extent: u64)
    requires
        chunks.flatten().len() <= u64::MAX,
        chunks.len() > 0,
    ensures
        ({
            let total = chunks.flatten().len() as u64;
            let ps = run(kind, State::Ready, smooth_events(total, extent, chunks)).1;
            &&& ps.last() == Progress::Finished
            &&& ps[ps.len() - 2] == Progress::Advanced { written: total, total }
        }),
{
    lemma_smooth(kind, chunks, extent);
}

} // verus!
