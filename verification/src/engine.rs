//! The session engine: the per-connection protocol state machine.
//!
//! One session serves one subscriber, from the `Ready` handshake to the
//! closed state. The machine consumes events — a request line, a worker's
//! query result, a transport condition — and produces the actions the
//! unverified shell must perform: send a response, spawn a query worker,
//! re-initialize a plugin, or invoke a plugin on a selection. Every
//! transition is given by the spec function [`step_spec`]; the executable
//! [`Session::step`] is proved to follow it exactly.

use vstd::prelude::*;

use crate::protocol::HandleResult;
use crate::protocol::HandleResultV;
use crate::protocol::MatchV;
use crate::protocol::PluginInfoV;
use crate::protocol::Request;
use crate::protocol::RequestV;
use crate::protocol::Response;
use crate::protocol::ResponseV;
use crate::registry::all_cleared;
use crate::registry::all_pending;
use crate::registry::first_match;
use crate::registry::infos;
use crate::registry::lemma_first_match_characterization;
use crate::registry::EntryV;
use crate::registry::Registry;

verus! {

/// Where the session stands. The handshake is one-shot: once left,
/// `AwaitingHandshake` is never re-entered. `Closed` is terminal and
/// records whether the subscriber asked the whole provider to quit or
/// only this connection ended.
#[derive(Clone, Copy, PartialEq, Eq, Structural, Debug)]
pub enum Phase {
    /// Connected, `Ready` not sent yet: no request is processed here.
    AwaitingHandshake,
    /// The steady state: requests and worker results are processed.
    Serving,
    /// A `Handle` request is being served by a synchronous plugin call;
    /// nothing else is processed until its outcome arrives.
    AwaitingHandle { index: usize },
    /// Terminal. `quit` distinguishes "stop the provider" from "this
    /// connection ended, keep serving new ones".
    Closed { quit: bool },
}

/// An input to the state machine, reported by the unverified shell.
pub enum Event {
    /// A worker spawned for `round` finished the query for the plugin at
    /// `index` and returned these matches.
    WorkerDone { index: usize, round: u64, matches: Vec<crate::protocol::Match> },
    /// One request line was read and decoded.
    Line(Request),
    /// No request line was available this tick.
    WouldBlock,
    /// The peer closed the connection.
    Disconnected,
    /// An unrecoverable transport error.
    IoError,
    /// A line was read but did not decode to a request.
    Malformed,
    /// The synchronous plugin call for the pending `Handle` returned.
    HandleReturned(HandleResult),
}

/// Mathematical value of an [`Event`].
pub enum EventV {
    WorkerDone { index: usize, round: u64, matches: Seq<MatchV> },
    Line(RequestV),
    WouldBlock,
    Disconnected,
    IoError,
    Malformed,
    HandleReturned(HandleResultV),
}

impl View for Event {
    type V = EventV;

    open spec fn view(&self) -> EventV {
        match self {
            Event::WorkerDone { index, round, matches } => EventV::WorkerDone {
                index: *index,
                round: *round,
                matches: matches@.map_values(|m: crate::protocol::Match| m@),
            },
            Event::Line(req) => EventV::Line(req@),
            Event::WouldBlock => EventV::WouldBlock,
            Event::Disconnected => EventV::Disconnected,
            Event::IoError => EventV::IoError,
            Event::Malformed => EventV::Malformed,
            Event::HandleReturned(result) => EventV::HandleReturned(result@),
        }
    }
}

/// An output of the state machine, performed by the unverified shell.
pub enum Action {
    /// Write this response to the transport, one line.
    Send(Response),
    /// Start an independent worker that asks the plugin at `index` for
    /// matches on `text` and reports back a `WorkerDone` event carrying
    /// the same `index` and `round`.
    Spawn { index: usize, round: u64, text: String },
    /// Re-invoke `init` on the plugin at `index`, synchronously.
    Reinit { index: usize },
    /// Call `handle_selection` on the plugin at `index`, synchronously,
    /// and report its outcome back as a `HandleReturned` event.
    Invoke { index: usize, selection: crate::protocol::Match },
}

/// Mathematical value of an [`Action`].
pub enum ActionV {
    Send(ResponseV),
    Spawn { index: usize, round: u64, text: Seq<char> },
    Reinit { index: usize },
    Invoke { index: usize, selection: MatchV },
}

impl View for Action {
    type V = ActionV;

    open spec fn view(&self) -> ActionV {
        match self {
            Action::Send(response) => ActionV::Send(response@),
            Action::Spawn { index, round, text } => ActionV::Spawn {
                index: *index,
                round: *round,
                text: text@,
            },
            Action::Reinit { index } => ActionV::Reinit { index: *index },
            Action::Invoke { index, selection } => ActionV::Invoke {
                index: *index,
                selection: selection@,
            },
        }
    }
}

/// The whole state of one session.
pub struct Session {
    pub phase: Phase,
    pub registry: Registry,
    /// The round number the next query will use. Each query gets a fresh
    /// one, which is how a later round supersedes an earlier one.
    pub next_round: u64,
}

/// Mathematical value of a [`Session`].
pub struct SessionV {
    pub phase: Phase,
    pub entries: Seq<EntryV>,
    pub next_round: u64,
}

impl View for Session {
    type V = SessionV;

    open spec fn view(&self) -> SessionV {
        SessionV { phase: self.phase, entries: self.registry@, next_round: self.next_round }
    }
}

/// Internal consistency of a session state: a pending `Handle` always
/// names a registered plugin, and the registry is small enough to index.
pub open spec fn wf(s: SessionV) -> bool {
    &&& s.entries.len() <= usize::MAX
    &&& (s.phase matches Phase::AwaitingHandle { index } ==> index < s.entries.len())
}

/// The machine limit on the round counter: a query needs a fresh round
/// number.
pub open spec fn round_counter_ok(s: SessionV, ev: EventV) -> bool {
    ev matches EventV::Line(RequestV::Query { .. }) ==> s.next_round < u64::MAX
}

/// The session after a transport-level end of this connection (`quit`
/// false) or a subscriber-requested provider shutdown (`quit` true).
pub open spec fn close(pre: SessionV, quit: bool) -> SessionV {
    SessionV { phase: Phase::Closed { quit }, ..pre }
}

/// Transition for a worker result in the serving phase: delivered as one
/// `Matches` response if and only if its exact round is still awaited at
/// its index; a stale, superseded or unknown result is discarded with no
/// response and no state change.
pub open spec fn spec_worker_done(
    pre: SessionV,
    index: usize,
    round: u64,
    matches: Seq<MatchV>,
) -> (SessionV, Seq<ActionV>) {
    if index < pre.entries.len() && pre.entries[index as int].pending == Some(round) {
        (
            SessionV {
                entries: pre.entries.update(
                    index as int,
                    EntryV { info: pre.entries[index as int].info, pending: None },
                ),
                ..pre
            },
            seq![
                ActionV::Send(
                    ResponseV::Matches { plugin: pre.entries[index as int].info, matches },
                ),
            ],
        )
    } else {
        (pre, Seq::empty())
    }
}

/// Transition for one decoded request in the serving phase.
pub open spec fn spec_request(pre: SessionV, req: RequestV) -> (SessionV, Seq<ActionV>) {
    match req {
        // Fire-and-forget: every plugin is re-initialized in order, all
        // pending dispatch state is discarded, no response is emitted.
        RequestV::Reset => (
            SessionV { entries: all_cleared(pre.entries), ..pre },
            Seq::new(pre.entries.len(), |i: int| ActionV::Reinit { index: i as usize }),
        ),
        // Fan out: one worker per plugin, all on a fresh round, which
        // supersedes whatever round was pending.
        RequestV::Query { text } => (
            SessionV {
                entries: all_pending(pre.entries, pre.next_round),
                next_round: (pre.next_round + 1) as u64,
                ..pre
            },
            Seq::new(
                pre.entries.len(),
                |i: int| ActionV::Spawn { index: i as usize, round: pre.next_round, text },
            ),
        ),
        // A synchronous, blocking plugin call. Naming a plugin that is
        // not in the session fails this one request, silently, and never
        // the session.
        RequestV::Handle { plugin, selection } => match first_match(pre.entries, plugin) {
            Some(i) => (
                SessionV { phase: Phase::AwaitingHandle { index: i as usize }, ..pre },
                seq![ActionV::Invoke { index: i as usize, selection }],
            ),
            None => (pre, Seq::empty()),
        },
        RequestV::Quit => (close(pre, true), Seq::empty()),
    }
}

/// Transition for any event in the serving phase.
pub open spec fn spec_serving(pre: SessionV, ev: EventV) -> (SessionV, Seq<ActionV>) {
    match ev {
        EventV::WorkerDone { index, round, matches } => spec_worker_done(
            pre,
            index,
            round,
            matches,
        ),
        EventV::Line(req) => spec_request(pre, req),
        EventV::WouldBlock => (pre, Seq::empty()),
        EventV::Disconnected => (close(pre, false), Seq::empty()),
        EventV::IoError => (close(pre, false), Seq::empty()),
        EventV::Malformed => (close(pre, false), Seq::empty()),
        // No handle call is outstanding: nothing to respond to.
        EventV::HandleReturned(_) => (pre, Seq::empty()),
    }
}

/// Transition while a synchronous `Handle` call is outstanding: its
/// outcome yields exactly one `Handled` response tagged with the called
/// plugin's identity; no other event is processed before that.
pub open spec fn spec_awaiting_handle(pre: SessionV, index: usize, ev: EventV) -> (
    SessionV,
    Seq<ActionV>,
) {
    match ev {
        EventV::HandleReturned(result) => (
            SessionV { phase: Phase::Serving, ..pre },
            seq![
                ActionV::Send(
                    ResponseV::Handled { plugin: pre.entries[index as int].info, result },
                ),
            ],
        ),
        _ => (pre, Seq::empty()),
    }
}

/// The complete transition relation of the session state machine: from a
/// state and an event to the next state and the actions the shell must
/// perform, in order. Before the handshake and after closing, every event
/// is ignored.
pub open spec fn step_spec(pre: SessionV, ev: EventV) -> (SessionV, Seq<ActionV>) {
    match pre.phase {
        Phase::AwaitingHandshake => (pre, Seq::empty()),
        Phase::Serving => spec_serving(pre, ev),
        Phase::AwaitingHandle { index } => spec_awaiting_handle(pre, index, ev),
        Phase::Closed { .. } => (pre, Seq::empty()),
    }
}

impl Session {
    /// A fresh session over the given registry, before the handshake.
    pub fn new(registry: Registry) -> (r: Session)
        requires
            registry@.len() <= usize::MAX,
        ensures
            r@ == (SessionV {
                phase: Phase::AwaitingHandshake,
                entries: registry@,
                next_round: 0,
            }),
            wf(r@),
    {
        Session { phase: Phase::AwaitingHandshake, registry, next_round: 0 }
    }

    /// The mandatory first message of a session: report the loaded
    /// plugins, in load order, and move to the serving phase. One-shot by
    /// construction: the serving phase never leads back here.
    pub fn handshake(&mut self) -> (r: Response)
        requires
            old(self)@.phase == Phase::AwaitingHandshake,
            wf(old(self)@),
        ensures
            final(self)@ == (SessionV { phase: Phase::Serving, ..old(self)@ }),
            wf(final(self)@),
            r@ == (ResponseV::Ready { info: infos(old(self)@.entries) }),
    {
        let info = self.registry.list();
        self.phase = Phase::Serving;
        Response::Ready { info }
    }

    /// True once the session reached its terminal phase.
    pub fn is_closed(&self) -> (r: bool)
        ensures
            r == (self@.phase matches Phase::Closed { .. }),
    {
        match self.phase {
            Phase::Closed { .. } => true,
            _ => false,
        }
    }

    /// True when the session closed because the subscriber asked the
    /// whole provider to quit, rather than because this one connection
    /// ended.
    pub fn quit_requested(&self) -> (r: bool)
        ensures
            r == (self@.phase == Phase::Closed { quit: true }),
    {
        match self.phase {
            Phase::Closed { quit } => quit,
            _ => false,
        }
    }

    /// Feed one event through the state machine and collect the actions
    /// the shell must perform, in order. Follows [`step_spec`] exactly.
    pub fn step(&mut self, ev: Event) -> (out: Vec<Action>)
        requires
            wf(old(self)@),
            round_counter_ok(old(self)@, ev@),
        ensures
            wf(final(self)@),
            final(self)@ == step_spec(old(self)@, ev@).0,
            out@.map_values(|a: Action| a@) == step_spec(old(self)@, ev@).1,
    {
        let mut out: Vec<Action> = Vec::new();
        proof {
            assert(self.registry@.len() == self.registry.entries@.len());
        }
        match self.phase {
            Phase::AwaitingHandshake => {
                proof {
                    assert(out@.map_values(|a: Action| a@) =~= step_spec(old(self)@, ev@).1);
                }
            },
            Phase::Closed { .. } => {
                proof {
                    assert(out@.map_values(|a: Action| a@) =~= step_spec(old(self)@, ev@).1);
                }
            },
            Phase::AwaitingHandle { index } => {
                match ev {
                    Event::HandleReturned(result) => {
                        let plugin = self.registry.entries[index].info.clone();
                        self.phase = Phase::Serving;
                        out.push(Action::Send(Response::Handled { plugin, result }));
                        proof {
                            assert(out@.map_values(|a: Action| a@) =~= step_spec(
                                old(self)@,
                                ev@,
                            ).1);
                        }
                    },
                    _ => {
                        proof {
                            assert(out@.map_values(|a: Action| a@) =~= step_spec(
                                old(self)@,
                                ev@,
                            ).1);
                        }
                    },
                }
            },
            Phase::Serving => {
                match ev {
                    Event::WorkerDone { index, round, matches } => {
                        let delivered = if index < self.registry.len() {
                            self.registry.take_ready(index, round)
                        } else {
                            false
                        };
                        if delivered {
                            proof {
                                assert(self.registry@ == old(self)@.entries.update(
                                    index as int,
                                    EntryV {
                                        info: old(self)@.entries[index as int].info,
                                        pending: None,
                                    },
                                ));
                                assert(self.registry@.len() == self.registry.entries@.len());
                                assert(self.registry.entries@[index as int]@
                                    == self.registry@[index as int]);
                                assert(self.registry@[index as int].info == old(
                                    self,
                                )@.entries[index as int].info);
                            }
                            let plugin = self.registry.entries[index].info.clone();
                            out.push(Action::Send(Response::Matches { plugin, matches }));
                        }
                        proof {
                            assert(out@.map_values(|a: Action| a@) =~= step_spec(
                                old(self)@,
                                ev@,
                            ).1);
                        }
                    },
                    Event::Line(req) => match req {
                        Request::Reset => {
                            self.registry.clear_pending();
                            let n = self.registry.len();
                            let ghost target = step_spec(old(self)@, ev@).1;
                            let mut i: usize = 0;
                            while i < n
                                invariant
                                    target == Seq::new(
                                        n as nat,
                                        |k: int| ActionV::Reinit { index: k as usize },
                                    ),
                                    i <= n,
                                    out@.len() == i,
                                    forall|j: int| 0 <= j < i ==> out@[j]@ == target[j],
                                decreases n - i,
                            {
                                out.push(Action::Reinit { index: i });
                                i = i + 1;
                            }
                            proof {
                                assert(out@.map_values(|a: Action| a@) =~= target);
                            }
                        },
                        Request::Query { text } => {
                            let round = self.next_round;
                            self.next_round = self.next_round + 1;
                            self.registry.begin_round(round);
                            let n = self.registry.len();
                            let ghost target = step_spec(old(self)@, ev@).1;
                            let mut i: usize = 0;
                            while i < n
                                invariant
                                    target == Seq::new(
                                        n as nat,
                                        |k: int| ActionV::Spawn {
                                            index: k as usize,
                                            round,
                                            text: text@,
                                        },
                                    ),
                                    i <= n,
                                    out@.len() == i,
                                    forall|j: int| 0 <= j < i ==> out@[j]@ == target[j],
                                decreases n - i,
                            {
                                out.push(Action::Spawn { index: i, round, text: text.clone() });
                                i = i + 1;
                            }
                            proof {
                                assert(out@.map_values(|a: Action| a@) =~= target);
                            }
                        },
                        Request::Handle { plugin, selection } => {
                            match self.registry.find(&plugin) {
                                Some(index) => {
                                    proof {
                                        lemma_first_match_characterization(
                                            self.registry@,
                                            plugin@,
                                        );
                                    }
                                    self.phase = Phase::AwaitingHandle { index };
                                    out.push(Action::Invoke { index, selection });
                                    proof {
                                        assert(out@.map_values(|a: Action| a@) =~= step_spec(
                                            old(self)@,
                                            ev@,
                                        ).1);
                                    }
                                },
                                None => {
                                    proof {
                                        assert(out@.map_values(|a: Action| a@) =~= step_spec(
                                            old(self)@,
                                            ev@,
                                        ).1);
                                    }
                                },
                            }
                        },
                        Request::Quit => {
                            self.phase = Phase::Closed { quit: true };
                            proof {
                                assert(out@.map_values(|a: Action| a@) =~= step_spec(
                                    old(self)@,
                                    ev@,
                                ).1);
                            }
                        },
                    },
                    Event::WouldBlock => {
                        proof {
                            assert(out@.map_values(|a: Action| a@) =~= step_spec(
                                old(self)@,
                                ev@,
                            ).1);
                        }
                    },
                    Event::Disconnected => {
                        self.phase = Phase::Closed { quit: false };
                        proof {
                            assert(out@.map_values(|a: Action| a@) =~= step_spec(
                                old(self)@,
                                ev@,
                            ).1);
                        }
                    },
                    Event::IoError => {
                        self.phase = Phase::Closed { quit: false };
                        proof {
                            assert(out@.map_values(|a: Action| a@) =~= step_spec(
                                old(self)@,
                                ev@,
                            ).1);
                        }
                    },
                    Event::Malformed => {
                        self.phase = Phase::Closed { quit: false };
                        proof {
                            assert(out@.map_values(|a: Action| a@) =~= step_spec(
                                old(self)@,
                                ev@,
                            ).1);
                        }
                    },
                    Event::HandleReturned(_) => {
                        proof {
                            assert(out@.map_values(|a: Action| a@) =~= step_spec(
                                old(self)@,
                                ev@,
                            ).1);
                        }
                    },
                }
            },
        }
        out
    }
}

/// Law (fan-out): in the serving phase a query starts one worker per
/// registered plugin — exactly as many spawn actions as entries, the
/// `i`-th naming index `i` — all carrying the fresh round and the query
/// text, and leaves every entry awaiting that round. Identities, their
/// order and the phase are untouched, and the round counter moves on, so
/// the round is never reused.
pub proof fn lemma_query_fans_out(pre: SessionV, text: Seq<char>)
    requires
        pre.phase == Phase::Serving,
        pre.next_round < u64::MAX,
    ensures
        ({
            let (post, acts) = step_spec(pre, EventV::Line(RequestV::Query { text }));
            &&& acts.len() == pre.entries.len()
            &&& (forall|i: int|
                0 <= i < acts.len() ==> acts[i] == (ActionV::Spawn {
                    index: i as usize,
                    round: pre.next_round,
                    text,
                }))
            &&& post.entries.len() == pre.entries.len()
            &&& (forall|i: int|
                0 <= i < pre.entries.len() ==> post.entries[i] == (EntryV {
                    info: pre.entries[i].info,
                    pending: Some(pre.next_round),
                }))
            &&& infos(post.entries) == infos(pre.entries)
            &&& post.phase == Phase::Serving
            &&& post.next_round == pre.next_round + 1
        }),
{
    let (post, acts) = step_spec(pre, EventV::Line(RequestV::Query { text }));
    assert(infos(post.entries) =~= infos(pre.entries));
}

/// Law (at most one delivery per plugin and round): while an entry
/// awaits round `round`, the first worker result for that index and
/// round is delivered as exactly one `Matches` response, tagged with
/// that entry's identity; delivering clears the pending state, so a
/// second result for the same index and round emits nothing and changes
/// nothing. With the fan-out law this bounds a round's responses by one
/// per registered plugin, each tagged from its own registry entry.
pub proof fn lemma_round_delivered_exactly_once(
    pre: SessionV,
    index: usize,
    round: u64,
    m1: Seq<MatchV>,
    m2: Seq<MatchV>,
)
    requires
        pre.phase == Phase::Serving,
        index < pre.entries.len(),
        pre.entries[index as int].pending == Some(round),
    ensures
        ({
            let (s1, out1) = step_spec(pre, EventV::WorkerDone { index, round, matches: m1 });
            let (s2, out2) = step_spec(s1, EventV::WorkerDone { index, round, matches: m2 });
            &&& out1 == seq![
                ActionV::Send(
                    ResponseV::Matches { plugin: pre.entries[index as int].info, matches: m1 },
                ),
            ]
            &&& s1.phase == Phase::Serving
            &&& infos(s1.entries) == infos(pre.entries)
            &&& out2 == Seq::<ActionV>::empty()
            &&& s2 == s1
        }),
{
    let (s1, out1) = step_spec(pre, EventV::WorkerDone { index, round, matches: m1 });
    assert(infos(s1.entries) =~= infos(pre.entries));
    assert(s1.entries[index as int].pending is None);
}

/// Law (supersede): a query immediately followed by another query,
/// before any result arrived, leaves no entry awaiting the first round:
/// a worker result from the first round is then discarded for every
/// plugin — no response, no state change. Only the later round's results
/// can still be observed.
pub proof fn lemma_supersede(
    pre: SessionV,
    first_text: Seq<char>,
    second_text: Seq<char>,
    index: usize,
    m: Seq<MatchV>,
)
    requires
        pre.phase == Phase::Serving,
        pre.next_round + 1 < u64::MAX,
    ensures
        ({
            let old_round = pre.next_round;
            let (s1, _) = step_spec(pre, EventV::Line(RequestV::Query { text: first_text }));
            let (s2, _) = step_spec(s1, EventV::Line(RequestV::Query { text: second_text }));
            let (s3, out) = step_spec(s2, EventV::WorkerDone { index, round: old_round, matches: m });
            out == Seq::<ActionV>::empty() && s3 == s2
        }),
{
    let old_round = pre.next_round;
    let (s1, _) = step_spec(pre, EventV::Line(RequestV::Query { text: first_text }));
    let (s2, _) = step_spec(s1, EventV::Line(RequestV::Query { text: second_text }));
    assert(s2.phase == Phase::Serving);
    if (index as int) < s2.entries.len() {
        assert(s2.entries[index as int].pending == Some((old_round + 1) as u64));
    }
}

/// Law (exactly one `Handled`, nothing in between): a `Handle` request
/// naming a registered plugin yields exactly one invocation of the first
/// entry carrying that identity; while that synchronous call is
/// outstanding no request is processed at all; and its outcome yields
/// exactly one `Handled` response, tagged with the named identity, after
/// which the session serves again, otherwise unchanged.
pub proof fn lemma_handle_exactly_once(
    pre: SessionV,
    plugin: PluginInfoV,
    selection: MatchV,
    interim: RequestV,
    outcome: HandleResultV,
)
    requires
        wf(pre),
        pre.phase == Phase::Serving,
        first_match(pre.entries, plugin) is Some,
    ensures
        ({
            let i = first_match(pre.entries, plugin)->Some_0;
            let (s1, out1) = step_spec(
                pre,
                EventV::Line(RequestV::Handle { plugin, selection }),
            );
            let (s2, out2) = step_spec(s1, EventV::Line(interim));
            let (s3, out3) = step_spec(s1, EventV::HandleReturned(outcome));
            &&& pre.entries[i].info == plugin
            &&& out1 == seq![ActionV::Invoke { index: i as usize, selection }]
            &&& s1 == (SessionV { phase: Phase::AwaitingHandle { index: i as usize }, ..pre })
            &&& out2 == Seq::<ActionV>::empty() && s2 == s1
            &&& out3 == seq![
                ActionV::Send(ResponseV::Handled { plugin, result: outcome }),
            ]
            &&& s3 == (SessionV { phase: Phase::Serving, ..pre })
        }),
{
    lemma_first_match_characterization(pre.entries, plugin);
    let i = first_match(pre.entries, plugin)->Some_0;
    assert(0 <= i < pre.entries.len());
    assert(i as usize as int == i);
}

/// Law (reset idempotence): one `Reset` discards every pending round and
/// asks for each plugin to be re-initialized, in order, with no
/// response; an immediate second `Reset` leaves the session state
/// exactly as the first did and asks for exactly the same
/// re-initializations. The reported plugin list is untouched by either.
pub proof fn lemma_reset_idempotent(pre: SessionV)
    requires
        pre.phase == Phase::Serving,
    ensures
        ({
            let (s1, out1) = step_spec(pre, EventV::Line(RequestV::Reset));
            let (s2, out2) = step_spec(s1, EventV::Line(RequestV::Reset));
            &&& s1.phase == Phase::Serving
            &&& infos(s1.entries) == infos(pre.entries)
            &&& (forall|i: int| 0 <= i < s1.entries.len() ==> s1.entries[i].pending is None)
            &&& s2 == s1
            &&& out2 == out1
        }),
{
    let (s1, out1) = step_spec(pre, EventV::Line(RequestV::Reset));
    let (s2, out2) = step_spec(s1, EventV::Line(RequestV::Reset));
    assert(infos(s1.entries) =~= infos(pre.entries));
    assert(s2.entries =~= s1.entries);
    assert(out2 =~= out1);
}

/// Law (disconnect discards the round in flight): a transport disconnect
/// while workers are still running closes the session gracefully — no
/// quit signal, nothing emitted — and afterwards no event, in particular
/// no late worker result, emits any response or changes the state again.
pub proof fn lemma_disconnect_discards_inflight(pre: SessionV, later: EventV)
    requires
        pre.phase == Phase::Serving,
    ensures
        ({
            let (s1, out1) = step_spec(pre, EventV::Disconnected);
            let (s2, out2) = step_spec(s1, later);
            &&& out1 == Seq::<ActionV>::empty()
            &&& s1 == close(pre, false)
            &&& s2 == s1
            &&& out2 == Seq::<ActionV>::empty()
        }),
{
}

/// Law (one handshake per connection): once the session has left the
/// handshake phase, no event ever brings it back, so `Ready` is sent at
/// most once per connection.
pub proof fn lemma_handshake_never_recurs(pre: SessionV, ev: EventV)
    requires
        pre.phase != Phase::AwaitingHandshake,
    ensures
        step_spec(pre, ev).0.phase != Phase::AwaitingHandshake,
{
}

} // verus!
