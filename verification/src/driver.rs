//! The pipeline driver: a state machine that turns the events of a run into
//! the next thing to do. The caller performs what it is told (a send, the
//! floating-point readings of a row) and reports back; the driver reads the
//! rows, encodes them, fills the batches and keeps the count.
//!
//! A run begins with the liveness probe, which the caller makes before the
//! first event.

use vstd::prelude::*;
use crate::batch::{dispatched, dispatched_after, fed, is_full, payload, window, BatchAssembler};
use crate::document::{dict_to_json, document};
use crate::record::{row_of, CsvIter};
use crate::tokenizer::{after_record, lemma_no_record_is_final, lemma_record_advances, record_at};
use crate::transport::{has_bulk_errors, reports_errors};

verus! {

/// Where a run stands.
#[derive(Clone, Copy, PartialEq, Eq, Debug, Structural)]
pub enum Phase {
    /// The probe has not been answered yet.
    Probing,
    /// Rows are read and full batches are sent.
    Streaming,
    /// The input is exhausted and the last, partial batch is on its way.
    Flushing,
    /// Everything was dispatched and the count was reported.
    Done,
    /// The run was given up.
    Failed,
}

/// Why a run was given up.
#[derive(PartialEq, Eq, Debug)]
pub enum Failure {
    /// The probe failed.
    Connectivity,
    /// A send failed; the text is what the transport said.
    Transport(String),
    /// An event came that the driver was not waiting for.
    OutOfTurn,
}

/// What the caller reports.
#[derive(PartialEq, Eq, Debug)]
pub enum Event {
    /// The probe succeeded; the text is the whole input.
    Reachable(String),
    /// The probe failed.
    Unreachable,
    /// The floating-point readings of the values last asked about, in order.
    Floats(Vec<Option<String>>),
    /// The payload was sent; the text is the response.
    Sent(String),
    /// The payload could not be sent; the text says why.
    SendFailed(String),
}

/// What the caller is to do next.
#[derive(PartialEq, Eq, Debug)]
pub enum Action {
    /// Report, for each of these values, its literal as a floating-point
    /// number, where it reads as one.
    Classify(Vec<String>),
    /// Send this payload to the bulk endpoint and report the outcome.
    Send(String),
    /// The run is over: this many documents were dispatched.
    Finish(usize),
    /// The run is given up.
    Abort(Failure),
}

/// A failure as plain values.
pub enum Cause {
    Connectivity,
    Transport(Seq<char>),
    OutOfTurn,
}

/// An event as plain values.
pub enum EventView {
    Reachable(Seq<char>),
    Unreachable,
    Floats(Seq<Option<Seq<char>>>),
    Sent(Seq<char>),
    SendFailed(Seq<char>),
}

/// An action as plain values.
pub enum ActionView {
    Classify(Seq<Seq<char>>),
    Send(Seq<char>),
    Finish(nat),
    Abort(Cause),
}

impl View for Failure {
    type V = Cause;

    open spec fn view(&self) -> Cause {
        match self {
            Failure::Connectivity => Cause::Connectivity,
            Failure::Transport(message) => Cause::Transport(message@),
            Failure::OutOfTurn => Cause::OutOfTurn,
        }
    }
}

impl View for Event {
    type V = EventView;

    open spec fn view(&self) -> EventView {
        match self {
            Event::Reachable(text) => EventView::Reachable(text@),
            Event::Unreachable => EventView::Unreachable,
            Event::Floats(floats) => EventView::Floats(floats.deep_view()),
            Event::Sent(response) => EventView::Sent(response@),
            Event::SendFailed(message) => EventView::SendFailed(message@),
        }
    }
}

impl View for Action {
    type V = ActionView;

    open spec fn view(&self) -> ActionView {
        match self {
            Action::Classify(values) => ActionView::Classify(values.deep_view()),
            Action::Send(body) => ActionView::Send(body@),
            Action::Finish(count) => ActionView::Finish(*count as nat),
            Action::Abort(failure) => ActionView::Abort(failure@),
        }
    }
}

/// The state of a run as plain values.
pub struct Model {
    pub phase: Phase,
    /// The name of the index.
    pub index: Seq<char>,
    /// The configured size of a batch.
    pub batch_size: nat,
    /// The input, its column names, and where the next record starts.
    pub text: Seq<char>,
    pub headers: Seq<Seq<char>>,
    pub position: int,
    /// The row whose floating-point readings are awaited.
    pub row: Option<Seq<(Seq<char>, Seq<char>)>>,
    /// The documents gathered for the next batch.
    pub pending: Seq<Seq<char>>,
    /// The documents of the payload that is being sent.
    pub sending: Seq<Seq<char>>,
    /// The number of documents dispatched so far.
    pub total: nat,
    /// Whether the last response reported rejected documents.
    pub rejected: bool,
}

/// The values of a row, without the names.
pub open spec fn values_of(row: Seq<(Seq<char>, Seq<char>)>) -> Seq<Seq<char>> {
    Seq::new(row.len(), |i: int| row[i].1)
}

/// Giving the run up because of an event that was not awaited.
pub open spec fn out_of_turn(m: Model) -> (Model, ActionView) {
    (Model { phase: Phase::Failed, ..m }, ActionView::Abort(Cause::OutOfTurn))
}

/// Going on to the next record: where there is one, its row is taken up and
/// its values are to be classified; where there is none, what was gathered
/// is flushed, or, with nothing gathered, the run is over.
pub open spec fn pull(m: Model) -> (Model, ActionView) {
    let position = after_record(m.text, m.position);
    match record_at(m.text, m.position) {
        Some(record) => {
            let row = row_of(m.headers, record);
            (
                Model { phase: Phase::Streaming, position, row: Some(row), ..m },
                ActionView::Classify(values_of(row)),
            )
        },
        None => if m.pending.len() > 0 {
            (
                Model {
                    phase: Phase::Flushing,
                    position,
                    pending: Seq::empty(),
                    sending: m.pending,
                    ..m
                },
                ActionView::Send(payload(m.index, m.pending)),
            )
        } else {
            (Model { phase: Phase::Done, position, ..m }, ActionView::Finish(m.total))
        },
    }
}

/// The next state and the next action, from a state and an event.
///
/// While probing, a failed probe gives the run up and a successful one opens
/// the input: its first record names the columns. While streaming, the
/// readings of the awaited row complete its document, which joins the batch;
/// a full batch is sent, and otherwise the next record is taken up. The
/// answer to a send adds the documents of the payload to the count, notes
/// whether the response reported errors, and goes on, or ends the run after
/// the flush. A failed send gives the run up, and so does every event that
/// was not awaited.
pub open spec fn step(m: Model, event: EventView) -> (Model, ActionView) {
    match event {
        EventView::Reachable(text) => if m.phase == Phase::Probing {
            pull(
                Model {
                    text,
                    headers: match record_at(text, 0) {
                        Some(names) => names,
                        None => Seq::empty(),
                    },
                    position: after_record(text, 0),
                    ..m
                },
            )
        } else {
            out_of_turn(m)
        },
        EventView::Unreachable => if m.phase == Phase::Probing {
            (Model { phase: Phase::Failed, ..m }, ActionView::Abort(Cause::Connectivity))
        } else {
            out_of_turn(m)
        },
        EventView::Floats(floats) => if m.phase == Phase::Streaming && m.row is Some {
            let all = m.pending.push(document(m.row->0, floats));
            if is_full(all.len(), m.batch_size) {
                (
                    Model { row: None, pending: Seq::empty(), sending: all, ..m },
                    ActionView::Send(payload(m.index, all)),
                )
            } else {
                pull(Model { row: None, pending: all, ..m })
            }
        } else {
            out_of_turn(m)
        },
        EventView::Sent(response) => if m.phase == Phase::Streaming && m.row is None {
            pull(
                Model {
                    total: m.total + m.sending.len(),
                    sending: Seq::empty(),
                    rejected: reports_errors(response),
                    ..m
                },
            )
        } else if m.phase == Phase::Flushing {
            (
                Model {
                    phase: Phase::Done,
                    total: m.total + m.sending.len(),
                    sending: Seq::empty(),
                    rejected: reports_errors(response),
                    ..m
                },
                ActionView::Finish(m.total + m.sending.len()),
            )
        } else {
            out_of_turn(m)
        },
        EventView::SendFailed(message) => if (m.phase == Phase::Streaming && m.row is None)
            || m.phase == Phase::Flushing {
            (
                Model { phase: Phase::Failed, ..m },
                ActionView::Abort(Cause::Transport(message)),
            )
        } else {
            out_of_turn(m)
        },
    }
}

/// What holds of the state of every run.
///
/// The reader stands inside the input, and every document that was counted,
/// is being sent or is gathered, and the awaited row, came from a record of
/// its own. Less than a batch is gathered. While a row is awaited nothing is
/// being sent; a payload sent while streaming holds a full batch; the
/// payload of the flush holds less, but something, and goes out only when no
/// record is left; and a run is done only when no record is left and
/// nothing is gathered or being sent.
pub open spec fn valid(m: Model) -> bool {
    &&& m.text.len() <= usize::MAX
    &&& 0 <= m.position <= m.text.len()
    &&& m.pending.len() == 0 || m.pending.len() < m.batch_size
    &&& m.total + m.sending.len() + m.pending.len() + (if m.row is Some {
        1nat
    } else {
        0nat
    }) <= m.position
    &&& match m.phase {
        Phase::Probing => m.row is None && m.pending.len() == 0 && m.sending.len() == 0 && m.total
            == 0,
        Phase::Streaming => if m.row is Some {
            m.sending.len() == 0
        } else {
            m.pending.len() == 0 && m.sending.len() == window(m.batch_size)
        },
        Phase::Flushing => m.row is None && m.pending.len() == 0 && 0 < m.sending.len()
            < m.batch_size && record_at(m.text, m.position) is None,
        Phase::Done => m.row is None && m.pending.len() == 0 && m.sending.len() == 0
            && record_at(m.text, m.position) is None,
        Phase::Failed => true,
    }
}

/// What holds between two records, when the driver is about to go on: no
/// row is awaited, nothing is being sent, less than a batch is gathered, and
/// every document that was counted or is gathered came from a record of its
/// own.
pub open spec fn idle(m: Model) -> bool {
    &&& m.text.len() <= usize::MAX
    &&& 0 <= m.position <= m.text.len()
    &&& m.pending.len() == 0 || m.pending.len() < m.batch_size
    &&& m.total + m.pending.len() <= m.position
    &&& m.row is None
    &&& m.sending.len() == 0
}

/// The actions of a run: what the driver answers to each event in turn.
pub open spec fn run(m: Model, events: Seq<EventView>) -> Seq<ActionView>
    decreases events.len(),
{
    if events.len() == 0 {
        Seq::empty()
    } else {
        seq![step(m, events[0]).1] + run(step(m, events[0]).0, events.drop_first())
    }
}

/// Going on from an idle state gives a valid state, and leaves the count,
/// the index and the batch size as they were.
pub proof fn lemma_pull_keeps_valid(m: Model)
    requires
        idle(m),
    ensures
        valid(pull(m).0),
        pull(m).0.total == m.total,
        pull(m).0.index == m.index,
        pull(m).0.batch_size == m.batch_size,
{
    lemma_record_advances(m.text, m.position);
    if record_at(m.text, m.position) is None {
        lemma_no_record_is_final(m.text, m.position);
    }
}

/// Every step takes a valid state to a valid state. The count of dispatched
/// documents never goes down, and the index and the batch size stay.
pub proof fn lemma_step_keeps_valid(m: Model, event: EventView)
    requires
        valid(m),
        event matches EventView::Reachable(text) ==> text.len() <= usize::MAX,
    ensures
        valid(step(m, event).0),
        step(m, event).0.total >= m.total,
        step(m, event).0.index == m.index,
        step(m, event).0.batch_size == m.batch_size,
{
    match event {
        EventView::Reachable(text) => {
            if m.phase == Phase::Probing {
                lemma_record_advances(text, 0);
                lemma_pull_keeps_valid(
                    Model {
                        text,
                        headers: match record_at(text, 0) {
                            Some(names) => names,
                            None => Seq::empty(),
                        },
                        position: after_record(text, 0),
                        ..m
                    },
                );
            }
        },
        EventView::Unreachable => {},
        EventView::Floats(floats) => {
            if m.phase == Phase::Streaming && m.row is Some {
                let all = m.pending.push(document(m.row->0, floats));
                if !is_full(all.len(), m.batch_size) {
                    lemma_pull_keeps_valid(Model { row: None, pending: all, ..m });
                }
            }
        },
        EventView::Sent(response) => {
            if m.phase == Phase::Streaming && m.row is None {
                lemma_pull_keeps_valid(
                    Model {
                        total: m.total + m.sending.len(),
                        sending: Seq::empty(),
                        rejected: reports_errors(response),
                        ..m
                    },
                );
            }
        },
        EventView::SendFailed(message) => {},
    }
}

/// Every payload is the payload of the documents that the new state holds
/// as being sent. One sent while streaming holds a full batch: as many
/// documents as the batch size says, and one where the size is zero. The
/// payload of the flush holds at least one document and less than a full
/// batch, and goes out only when no record is left.
pub proof fn lemma_send_carries_a_batch(m: Model, event: EventView)
    requires
        valid(m),
        event matches EventView::Reachable(text) ==> text.len() <= usize::MAX,
        step(m, event).1 is Send,
    ensures
        step(m, event).1 == ActionView::Send(payload(m.index, step(m, event).0.sending)),
        step(m, event).0.phase == Phase::Streaming || step(m, event).0.phase == Phase::Flushing,
        step(m, event).0.phase == Phase::Streaming ==> step(m, event).0.sending.len() == window(
            m.batch_size,
        ),
        step(m, event).0.phase == Phase::Flushing ==> 0 < step(m, event).0.sending.len()
            < m.batch_size && record_at(step(m, event).0.text, step(m, event).0.position) is None,
{
    lemma_step_keeps_valid(m, event);
}

/// The run ends, with the count of all dispatched documents, only when no
/// record is left and nothing is gathered or being sent.
pub proof fn lemma_finish_reports_the_count(m: Model, event: EventView)
    requires
        valid(m),
        event matches EventView::Reachable(text) ==> text.len() <= usize::MAX,
        step(m, event).1 is Finish,
    ensures
        step(m, event).0.phase == Phase::Done,
        step(m, event).1 == ActionView::Finish(step(m, event).0.total),
        step(m, event).0.total == m.total + m.sending.len(),
        step(m, event).0.pending.len() == 0,
        step(m, event).0.sending.len() == 0,
        record_at(step(m, event).0.text, step(m, event).0.position) is None,
{
    lemma_step_keeps_valid(m, event);
}

/// Once a run is given up or done, every further event is answered by
/// giving up: nothing is sent, classified or reported any more.
pub proof fn lemma_ended_run_only_aborts(m: Model, events: Seq<EventView>)
    requires
        m.phase == Phase::Failed || m.phase == Phase::Done,
    ensures
        run(m, events).len() == events.len(),
        forall|i: int| 0 <= i < events.len() ==> #[trigger] run(m, events)[i] is Abort,
    decreases events.len(),
{
    if events.len() > 0 {
        lemma_ended_run_only_aborts(step(m, events[0]).0, events.drop_first());
    }
}

/// A run whose probe fails is given up at once for want of connectivity,
/// and whatever is reported after that, no payload is ever sent and no row
/// is ever taken up.
pub proof fn lemma_failed_probe_sends_nothing(m: Model, events: Seq<EventView>)
    requires
        m.phase == Phase::Probing,
        events.len() > 0,
        events[0] == EventView::Unreachable,
    ensures
        run(m, events).len() == events.len(),
        run(m, events)[0] == ActionView::Abort(Cause::Connectivity),
        forall|i: int| 0 <= i < events.len() ==> #[trigger] run(m, events)[i] is Abort,
{
    lemma_ended_run_only_aborts(step(m, events[0]).0, events.drop_first());
}

/// An input in which no record follows the first (the column names alone,
/// or nothing at all) ends the run at once with a count of zero, and
/// whatever is reported after that, no payload is ever sent.
pub proof fn lemma_no_rows_sends_nothing(m: Model, text: Seq<char>, events: Seq<EventView>)
    requires
        valid(m),
        m.phase == Phase::Probing,
        text.len() <= usize::MAX,
        record_at(text, after_record(text, 0)) is None,
        events.len() > 0,
        events[0] == EventView::Reachable(text),
    ensures
        run(m, events).len() == events.len(),
        run(m, events)[0] == ActionView::Finish(0),
        forall|i: int| 0 <= i < events.len() ==> !(#[trigger] run(m, events)[i] is Send),
{
    lemma_ended_run_only_aborts(step(m, events[0]).0, events.drop_first());
}

/// The document of a row when each value is read by `reading`.
pub open spec fn doc_of(
    row: Seq<(Seq<char>, Seq<char>)>,
    reading: spec_fn(Seq<char>) -> Option<Seq<char>>,
) -> Seq<char> {
    document(row, values_of(row).map_values(reading))
}

/// The documents of all the records from `start` to the end of the text,
/// in order.
pub open spec fn docs_from(
    text: Seq<char>,
    headers: Seq<Seq<char>>,
    start: int,
    reading: spec_fn(Seq<char>) -> Option<Seq<char>>,
) -> Seq<Seq<char>>
    decreases text.len() - start,
    via docs_from_decreases
{
    if 0 <= start <= text.len() {
        match record_at(text, start) {
            Some(record) => seq![doc_of(row_of(headers, record), reading)] + docs_from(
                text,
                headers,
                after_record(text, start),
                reading,
            ),
            None => Seq::empty(),
        }
    } else {
        Seq::empty()
    }
}

#[via_fn]
proof fn docs_from_decreases(
    text: Seq<char>,
    headers: Seq<Seq<char>>,
    start: int,
    reading: spec_fn(Seq<char>) -> Option<Seq<char>>,
) {
    if 0 <= start <= text.len() {
        lemma_record_advances(text, start);
    }
}

/// The documents of a whole input: those of the records after the first,
/// under the column names that the first record gives.
pub open spec fn docs_of(text: Seq<char>, reading: spec_fn(Seq<char>) -> Option<Seq<char>>) -> Seq<
    Seq<char>,
> {
    docs_from(
        text,
        match record_at(text, 0) {
            Some(names) => names,
            None => Seq::empty(),
        },
        after_record(text, 0),
        reading,
    )
}

/// Whether `action` is what the driver asked for when it got into state `m`.
pub open spec fn awaited(m: Model, action: ActionView) -> bool {
    match action {
        ActionView::Classify(values) => m.phase == Phase::Streaming && m.row is Some && values
            == values_of(m.row->0),
        ActionView::Send(body) => (m.phase == Phase::Streaming && m.row is None) || m.phase
            == Phase::Flushing,
        _ => true,
    }
}

/// How far a state is from the end of its run, among states that stand at
/// the same place in the input.
pub open spec fn rank(m: Model, action: ActionView) -> int {
    match action {
        ActionView::Classify(values) => 6,
        ActionView::Send(body) => if m.phase == Phase::Flushing {
            2
        } else {
            4
        },
        _ => 0,
    }
}

/// What comes of a run that is carried on faithfully.
pub struct Outcome {
    /// The batches of documents sent, in order.
    pub sent: Seq<Seq<Seq<char>>>,
    /// The action that ended the run.
    pub last: ActionView,
}

/// The outcome of carrying a run on from state `m`, in which `action` is
/// awaited, with a caller that does as it is told: it reads each value
/// with `reading`, and every send succeeds, with the response that `answer`
/// gives to the payload.
pub open spec fn outcome(
    m: Model,
    action: ActionView,
    reading: spec_fn(Seq<char>) -> Option<Seq<char>>,
    answer: spec_fn(Seq<char>) -> Seq<char>,
) -> Outcome
    decreases m.text.len() - m.position, rank(m, action),
    when valid(m) && awaited(m, action)
    via outcome_decreases
{
    match action {
        ActionView::Classify(values) => {
            let next = step(m, EventView::Floats(values.map_values(reading)));
            outcome(next.0, next.1, reading, answer)
        },
        ActionView::Send(body) => {
            let next = step(m, EventView::Sent(answer(body)));
            let rest = outcome(next.0, next.1, reading, answer);
            Outcome { sent: seq![m.sending] + rest.sent, last: rest.last }
        },
        _ => Outcome { sent: Seq::empty(), last: action },
    }
}

#[via_fn]
proof fn outcome_decreases(
    m: Model,
    action: ActionView,
    reading: spec_fn(Seq<char>) -> Option<Seq<char>>,
    answer: spec_fn(Seq<char>) -> Seq<char>,
) {
    lemma_record_advances(m.text, m.position);
}

/// The outcome that is due after going on from an idle state.
proof fn lemma_outcome_of_pull(
    m: Model,
    reading: spec_fn(Seq<char>) -> Option<Seq<char>>,
    answer: spec_fn(Seq<char>) -> Seq<char>,
)
    requires
        idle(m),
    ensures
        valid(pull(m).0),
        awaited(pull(m).0, pull(m).1),
        outcome(pull(m).0, pull(m).1, reading, answer) == (Outcome {
            sent: dispatched_after(
                m.pending,
                docs_from(m.text, m.headers, m.position, reading),
                m.batch_size,
            ),
            last: ActionView::Finish(
                m.total + m.pending.len() + docs_from(m.text, m.headers, m.position, reading).len(),
            ),
        }),
    decreases m.text.len() - m.position, 3int,
{
    lemma_pull_keeps_valid(m);
    lemma_record_advances(m.text, m.position);
    let next = pull(m);
    let docs = docs_from(m.text, m.headers, m.position, reading);
    match record_at(m.text, m.position) {
        Some(record) => {
            lemma_outcome(next.0, next.1, reading, answer);
        },
        None => {
            assert(docs =~= Seq::<Seq<char>>::empty());
            if m.pending.len() > 0 {
                lemma_outcome(next.0, next.1, reading, answer);
                assert(dispatched_after(m.pending, docs, m.batch_size) =~= seq![m.pending]);
            } else {
                assert(dispatched_after(m.pending, docs, m.batch_size) =~= Seq::<
                    Seq<Seq<char>>,
                >::empty());
            }
        },
    }
}

/// The outcome that is due in a state in which an action is awaited.
proof fn lemma_outcome(
    m: Model,
    action: ActionView,
    reading: spec_fn(Seq<char>) -> Option<Seq<char>>,
    answer: spec_fn(Seq<char>) -> Seq<char>,
)
    requires
        valid(m),
        awaited(m, action),
    ensures
        outcome(m, action, reading, answer) == match action {
            ActionView::Classify(values) => Outcome {
                sent: dispatched_after(
                    m.pending,
                    seq![doc_of(m.row->0, reading)] + docs_from(
                        m.text,
                        m.headers,
                        m.position,
                        reading,
                    ),
                    m.batch_size,
                ),
                last: ActionView::Finish(
                    m.total + m.pending.len() + 1 + docs_from(
                        m.text,
                        m.headers,
                        m.position,
                        reading,
                    ).len(),
                ),
            },
            ActionView::Send(body) => if m.phase == Phase::Flushing {
                Outcome {
                    sent: seq![m.sending],
                    last: ActionView::Finish(m.total + m.sending.len()),
                }
            } else {
                Outcome {
                    sent: seq![m.sending] + dispatched(
                        docs_from(m.text, m.headers, m.position, reading),
                        m.batch_size,
                    ),
                    last: ActionView::Finish(
                        m.total + m.sending.len() + docs_from(
                            m.text,
                            m.headers,
                            m.position,
                            reading,
                        ).len(),
                    ),
                }
            },
            _ => Outcome { sent: Seq::empty(), last: action },
        },
    decreases m.text.len() - m.position, rank(m, action),
{
    let docs = docs_from(m.text, m.headers, m.position, reading);
    match action {
        ActionView::Classify(values) => {
            let doc = doc_of(m.row->0, reading);
            let all = m.pending.push(doc);
            let event = EventView::Floats(values.map_values(reading));
            let next = step(m, event);
            lemma_step_keeps_valid(m, event);
            assert((seq![doc] + docs).drop_first() =~= docs);
            if is_full(all.len(), m.batch_size) {
                lemma_outcome(next.0, next.1, reading, answer);
                let rest = fed(Seq::empty(), docs, m.batch_size);
                assert(fed(m.pending, seq![doc] + docs, m.batch_size) == (
                    seq![all] + rest.0,
                    rest.1,
                ));
                assert(dispatched_after(m.pending, seq![doc] + docs, m.batch_size) =~= seq![all]
                    + dispatched(docs, m.batch_size));
            } else {
                lemma_outcome_of_pull(Model { row: None, pending: all, ..m }, reading, answer);
                assert(fed(m.pending, seq![doc] + docs, m.batch_size) == fed(
                    all,
                    docs,
                    m.batch_size,
                ));
            }
        },
        ActionView::Send(body) => {
            let event = EventView::Sent(answer(body));
            let next = step(m, event);
            lemma_step_keeps_valid(m, event);
            if m.phase == Phase::Flushing {
                lemma_outcome(next.0, next.1, reading, answer);
                assert(seq![m.sending] + Seq::<Seq<Seq<char>>>::empty() =~= seq![m.sending]);
            } else {
                assert(m.pending =~= Seq::<Seq<char>>::empty());
                lemma_outcome_of_pull(
                    Model {
                        total: m.total + m.sending.len(),
                        sending: Seq::empty(),
                        rejected: reports_errors(answer(body)),
                        ..m
                    },
                    reading,
                    answer,
                );
            }
        },
        _ => {},
    }
}

/// A run that is carried on faithfully after a successful probe sends the
/// documents of the input, each once and in order, cut into batches as the
/// batch size says, and then reports how many documents there were. This
/// holds whatever the responses say.
pub proof fn lemma_run_dispatches_every_document(
    m: Model,
    text: Seq<char>,
    reading: spec_fn(Seq<char>) -> Option<Seq<char>>,
    answer: spec_fn(Seq<char>) -> Seq<char>,
)
    requires
        valid(m),
        m.phase == Phase::Probing,
        text.len() <= usize::MAX,
    ensures
        outcome(
            step(m, EventView::Reachable(text)).0,
            step(m, EventView::Reachable(text)).1,
            reading,
            answer,
        ) == (Outcome {
            sent: dispatched(docs_of(text, reading), m.batch_size),
            last: ActionView::Finish(docs_of(text, reading).len()),
        }),
{
    lemma_record_advances(text, 0);
    let opened = Model {
        text,
        headers: match record_at(text, 0) {
            Some(names) => names,
            None => Seq::empty(),
        },
        position: after_record(text, 0),
        ..m
    };
    assert(m.pending =~= Seq::<Seq<char>>::empty());
    lemma_outcome_of_pull(opened, reading, answer);
}

/// The driver of one run.
pub struct Driver {
    phase: Phase,
    rows: CsvIter,
    row: Option<Vec<(String, String)>>,
    batch: BatchAssembler,
    sending: Ghost<Seq<Seq<char>>>,
    in_flight: usize,
    total: usize,
    rejected: bool,
}

impl View for Driver {
    type V = Model;

    closed spec fn view(&self) -> Model {
        Model {
            phase: self.phase,
            index: self.batch.index(),
            batch_size: self.batch.batch_size(),
            text: self.rows.text(),
            headers: self.rows.headers(),
            position: self.rows.position(),
            row: self.row.deep_view(),
            pending: self.batch.pending(),
            sending: self.sending@,
            total: self.total as nat,
            rejected: self.rejected,
        }
    }
}

impl Driver {
    /// Whether the driver is in a state that a run can be in.
    pub closed spec fn wf(&self) -> bool {
        valid(self@) && self.in_flight == self.sending@.len()
    }

    /// A driver in order is in a valid state.
    pub proof fn lemma_wf_is_valid(&self)
        requires
            self.wf(),
        ensures
            valid(self@),
    {
    }

    /// A driver that waits for the outcome of the probe.
    pub fn new(index: String, batch_size: usize) -> (r: Driver)
        ensures
            r.wf(),
            r@.phase == Phase::Probing,
            r@.index == index@,
            r@.batch_size == batch_size,
            r@.row is None,
            r@.pending == Seq::<Seq<char>>::empty(),
            r@.sending == Seq::<Seq<char>>::empty(),
            r@.total == 0,
            !r@.rejected,
    {
        proof {
            reveal_strlit("");
        }
        Driver {
            phase: Phase::Probing,
            rows: CsvIter::from_reader(""),
            row: None,
            batch: BatchAssembler::new(index, batch_size),
            sending: Ghost(Seq::empty()),
            in_flight: 0,
            total: 0,
            rejected: false,
        }
    }

    /// Where the run stands.
    pub fn phase(&self) -> (r: Phase)
        ensures
            r == self@.phase,
    {
        self.phase
    }

    /// The number of documents dispatched so far.
    pub fn total(&self) -> (r: usize)
        ensures
            r == self@.total,
    {
        self.total
    }

    /// Whether the last response reported rejected documents.
    pub fn last_rejected(&self) -> (r: bool)
        ensures
            r == self@.rejected,
    {
        self.rejected
    }

    fn give_up(&mut self) -> (r: Action)
        requires
            old(self).wf(),
        ensures
            final(self).wf(),
            final(self)@ == out_of_turn(old(self)@).0,
            r@ == out_of_turn(old(self)@).1,
    {
        self.phase = Phase::Failed;
        Action::Abort(Failure::OutOfTurn)
    }

    fn advance(&mut self) -> (r: Action)
        requires
            idle(old(self)@),
            old(self).in_flight == 0,
        ensures
            final(self).wf(),
            final(self)@ == pull(old(self)@).0,
            r@ == pull(old(self)@).1,
    {
        let ghost before = self@;
        proof {
            lemma_record_advances(before.text, before.position);
            if record_at(before.text, before.position) is None {
                lemma_no_record_is_final(before.text, before.position);
            }
        }
        match self.rows.next() {
            Some(row) => {
                let mut values: Vec<String> = Vec::new();
                let mut i: usize = 0;
                while i < row.len()
                    invariant
                        i <= row@.len(),
                        values.deep_view() == values_of(row.deep_view()).take(i as int),
                    decreases row@.len() - i,
                {
                    let ghost gathered = values.deep_view();
                    values.push(row[i].1.clone());
                    assert(values.deep_view() =~= gathered.push(row.deep_view()[i as int].1));
                    i += 1;
                    assert(values.deep_view() =~= values_of(row.deep_view()).take(i as int));
                }
                assert(values.deep_view() =~= values_of(row.deep_view()));
                self.row = Some(row);
                self.phase = Phase::Streaming;
                Action::Classify(values)
            },
            None => {
                let count: usize = self.batch.pending_count();
                match self.batch.finish() {
                    Some(body) => {
                        self.sending = Ghost(before.pending);
                        self.in_flight = count;
                        self.phase = Phase::Flushing;
                        Action::Send(body)
                    },
                    None => {
                        assert(before.pending =~= Seq::<Seq<char>>::empty());
                        self.phase = Phase::Done;
                        Action::Finish(self.total)
                    },
                }
            },
        }
    }

    /// Takes an event and says what to do next.
    pub fn handle(&mut self, event: Event) -> (r: Action)
        requires
            old(self).wf(),
        ensures
            final(self).wf(),
            final(self)@ == step(old(self)@, event@).0,
            r@ == step(old(self)@, event@).1,
    {
        match event {
            Event::Reachable(text) => {
                if self.phase == Phase::Probing {
                    self.rows = CsvIter::from_reader(text.as_str());
                    proof {
                        lemma_record_advances(text@, 0);
                    }
                    self.advance()
                } else {
                    self.give_up()
                }
            },
            Event::Unreachable => {
                if self.phase == Phase::Probing {
                    self.phase = Phase::Failed;
                    Action::Abort(Failure::Connectivity)
                } else {
                    self.give_up()
                }
            },
            Event::Floats(floats) => {
                if self.phase == Phase::Streaming && self.row.is_some() {
                    let row = self.row.take().unwrap();
                    let pairs = row.as_slice();
                    let readings = floats.as_slice();
                    assert(pairs.deep_view() =~= row.deep_view());
                    assert(readings.deep_view() =~= floats.deep_view());
                    let doc = dict_to_json(pairs, readings);
                    let count: usize = self.batch.pending_count() + 1;
                    let ghost all = self.batch.pending().push(doc@);
                    match self.batch.push(doc) {
                        Some(body) => {
                            self.sending = Ghost(all);
                            self.in_flight = count;
                            Action::Send(body)
                        },
                        None => self.advance(),
                    }
                } else {
                    self.give_up()
                }
            },
            Event::Sent(response) => {
                if self.phase == Phase::Streaming && self.row.is_none() {
                    self.total = self.total + self.in_flight;
                    self.sending = Ghost(Seq::empty());
                    self.in_flight = 0;
                    self.rejected = has_bulk_errors(response.as_str());
                    self.advance()
                } else if self.phase == Phase::Flushing {
                    self.total = self.total + self.in_flight;
                    self.sending = Ghost(Seq::empty());
                    self.in_flight = 0;
                    self.rejected = has_bulk_errors(response.as_str());
                    self.phase = Phase::Done;
                    Action::Finish(self.total)
                } else {
                    self.give_up()
                }
            },
            Event::SendFailed(message) => {
                if (self.phase == Phase::Streaming && self.row.is_none()) || self.phase
                    == Phase::Flushing {
                    self.phase = Phase::Failed;
                    Action::Abort(Failure::Transport(message))
                } else {
                    self.give_up()
                }
            },
        }
    }
}

} // verus!
