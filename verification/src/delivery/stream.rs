//! Streaming pull sessions: which messages are out on which stream, and how many more a stream may
//! take.

use crate::id_map::IdMap;
use vstd::prelude::*;

verus! {

/// An open stream.
#[derive(Debug, Clone, Copy, PartialEq, Eq, Structural)]
pub struct StreamInfo {
    /// The subscription that the stream pulls from.
    pub sub_id: u64,
    /// The subscription's topic.
    pub topic_id: u64,
    /// Ack deadline of every lease on this stream, in seconds.
    pub ack_deadline_secs: i32,
    /// Most messages that may be out; not positive means unlimited.
    pub max_outstanding_messages: i64,
    /// Most bytes that may be out; not positive means unlimited.
    pub max_outstanding_bytes: i64,
}

#[derive(Debug)]
struct SessionState {
    info: StreamInfo,
    outstanding: IdMap<i64>,
    generations: IdMap<u64>,
    outstanding_bytes: i128,
}

/// What is known of an open stream: its settings, the bytes of each message that is out, the
/// generation of the last lease of each message that it may hold, and the bytes that count against
/// its budget.
pub struct SessionView {
    pub info: StreamInfo,
    pub outstanding: Map<u64, i64>,
    pub generations: Map<u64, u64>,
    pub outstanding_bytes: int,
}

/// The bytes of all messages that are out.
pub open spec fn total(outstanding: Map<u64, i64>) -> int
    decreases outstanding.dom().len(),
    when outstanding.dom().finite()
{
    if outstanding.dom().len() == 0 {
        0
    } else {
        let seq = outstanding.dom().choose();
        outstanding[seq] + total(outstanding.remove(seq))
    }
}

/// What counts against a stream's budget is what is out on it.
pub open spec fn is_balanced(s: SessionView) -> bool {
    &&& s.outstanding.dom().finite()
    &&& forall|seq: u64| #[trigger] s.outstanding.contains_key(seq) ==> 0 <= s.outstanding[seq]
    &&& s.outstanding_bytes == total(s.outstanding)
}

proof fn lemma_total_without(outstanding: Map<u64, i64>, seq: u64)
    requires
        outstanding.dom().finite(),
        outstanding.contains_key(seq),
    ensures
        total(outstanding) == outstanding[seq] + total(outstanding.remove(seq)),
    decreases outstanding.dom().len(),
{
    let first = outstanding.dom().choose();
    assert(outstanding.dom().contains(seq));
    if first != seq {
        let a = outstanding.remove(first);
        let b = outstanding.remove(seq);
        lemma_total_without(a, seq);
        lemma_total_without(b, first);
        assert(a.remove(seq) =~= b.remove(first));
    }
}

proof fn lemma_total_with(outstanding: Map<u64, i64>, seq: u64, bytes: i64)
    requires
        outstanding.dom().finite(),
    ensures
        total(outstanding.insert(seq, bytes)) == bytes + total(outstanding.remove(seq)),
{
    let more = outstanding.insert(seq, bytes);
    lemma_total_without(more, seq);
    assert(more.remove(seq) =~= outstanding.remove(seq));
}

proof fn lemma_total_bounds(outstanding: Map<u64, i64>)
    requires
        outstanding.dom().finite(),
        forall|seq: u64| #[trigger] outstanding.contains_key(seq) ==> 0 <= outstanding[seq],
    ensures
        0 <= total(outstanding) <= outstanding.dom().len() * i64::MAX,
    decreases outstanding.dom().len(),
{
    let n = outstanding.dom().len();
    if n > 0 {
        let first = outstanding.dom().choose();
        assert(outstanding.dom().contains(first));
        let rest = outstanding.remove(first);
        lemma_total_bounds(rest);
        assert((n - 1) * i64::MAX + i64::MAX == n * i64::MAX) by (nonlinear_arith);
    }
}

impl View for SessionState {
    type V = SessionView;

    closed spec fn view(&self) -> SessionView {
        SessionView {
            info: self.info,
            outstanding: self.outstanding@,
            generations: self.generations@,
            outstanding_bytes: self.outstanding_bytes as int,
        }
    }
}

impl SessionState {
    #[verifier::type_invariant]
    spec fn balanced(self) -> bool {
        is_balanced(self@)
    }

    /// The stream without a message that was out on it.
    fn without(self, seq: u64) -> (r: Self)
        ensures
            r@ == (SessionView {
                outstanding: self@.outstanding.remove(seq),
                outstanding_bytes: self@.outstanding_bytes - bytes_of(self@, seq),
                ..self@
            }),
    {
        proof {
            use_type_invariant(&self);
        }
        let ghost before = self@;
        let info = self.info;
        let generations = self.generations;
        let mut outstanding = self.outstanding;
        let mut outstanding_bytes: i128 = self.outstanding_bytes;
        match outstanding.remove(seq) {
            Some(bytes) => {
                proof {
                    lemma_total_without(before.outstanding, seq);
                    lemma_total_bounds(before.outstanding.remove(seq));
                }
                outstanding_bytes = outstanding_bytes - bytes as i128;
            },
            None => {
                assert(outstanding@ =~= before.outstanding);
            },
        }
        SessionState { info, outstanding, generations, outstanding_bytes }
    }
}

/// The open streams.
pub type Sessions = Map<u64, SessionView>;

/// A number of bytes as an `i64`, held within its range.
pub open spec fn bytes_i64(n: usize) -> i64 {
    if n > i64::MAX {
        i64::MAX
    } else {
        n as i64
    }
}

/// How many more messages and bytes a stream may take; `i64::MAX` where it is unlimited, and
/// nothing when it is not open.
pub open spec fn budget(sessions: Sessions, stream_id: u64) -> (int, int) {
    if sessions.contains_key(stream_id) {
        let s = sessions[stream_id];
        (
            if s.info.max_outstanding_messages <= 0 {
                i64::MAX as int
            } else {
                let left = s.info.max_outstanding_messages - s.outstanding.len();
                if left < 0 {
                    0
                } else {
                    left
                }
            },
            if s.info.max_outstanding_bytes <= 0 {
                i64::MAX as int
            } else {
                let left = s.info.max_outstanding_bytes - s.outstanding_bytes;
                if left < 0 {
                    0
                } else {
                    left
                }
            },
        )
    } else {
        (0, 0)
    }
}

/// The bytes that a message takes on a stream; nothing when it is not out there.
pub open spec fn bytes_of(s: SessionView, seq: u64) -> int {
    if s.outstanding.contains_key(seq) {
        s.outstanding[seq] as int
    } else {
        0
    }
}

/// The streams after a message went out on one of them, for the first time or again. Of its lease
/// nothing is known.
pub open spec fn after_leased(
    sessions: Sessions,
    stream_id: u64,
    seq: u64,
    payload_bytes: usize,
) -> Sessions {
    if sessions.contains_key(stream_id) {
        let s = sessions[stream_id];
        sessions.insert(
            stream_id,
            SessionView {
                outstanding: s.outstanding.insert(seq, bytes_i64(payload_bytes)),
                generations: s.generations.remove(seq),
                outstanding_bytes: s.outstanding_bytes - bytes_of(s, seq) + bytes_i64(
                    payload_bytes,
                ),
                ..s
            },
        )
    } else {
        sessions
    }
}

/// The streams after a message went out on one of them, on a lease of this generation.
pub open spec fn after_delivered(
    sessions: Sessions,
    stream_id: u64,
    seq: u64,
    payload_bytes: usize,
    generation: u64,
) -> Sessions {
    let leased = after_leased(sessions, stream_id, seq, payload_bytes);
    if sessions.contains_key(stream_id) {
        let s = leased[stream_id];
        leased.insert(
            stream_id,
            SessionView { generations: s.generations.insert(seq, generation), ..s },
        )
    } else {
        leased
    }
}

/// The streams after a message was acknowledged or given back on one of them.
pub open spec fn after_resolved(sessions: Sessions, stream_id: u64, seq: u64) -> Sessions {
    if sessions.contains_key(stream_id) {
        let s = sessions[stream_id];
        sessions.insert(
            stream_id,
            SessionView {
                outstanding: s.outstanding.remove(seq),
                generations: s.generations.remove(seq),
                outstanding_bytes: s.outstanding_bytes - bytes_of(s, seq),
                ..s
            },
        )
    } else {
        sessions
    }
}

/// The streams after a message that went out on one of them, on a lease of this generation, was put
/// off: it does not count any more, but its lease is still that stream's.
pub open spec fn after_put_off(
    sessions: Sessions,
    stream_id: u64,
    seq: u64,
    generation: u64,
) -> Sessions {
    if sessions.contains_key(stream_id) && sessions[stream_id].generations.contains_key(seq)
        && sessions[stream_id].generations[seq] == generation {
        let s = sessions[stream_id];
        sessions.insert(
            stream_id,
            SessionView {
                outstanding: s.outstanding.remove(seq),
                outstanding_bytes: s.outstanding_bytes - bytes_of(s, seq),
                ..s
            },
        )
    } else {
        sessions
    }
}

/// A stream's settings with those replaced that are given.
pub open spec fn updated_info(
    info: StreamInfo,
    ack_deadline_secs: Option<i32>,
    max_outstanding_messages: Option<i64>,
    max_outstanding_bytes: Option<i64>,
) -> StreamInfo {
    StreamInfo {
        ack_deadline_secs: match ack_deadline_secs {
            Some(v) => v,
            None => info.ack_deadline_secs,
        },
        max_outstanding_messages: match max_outstanding_messages {
            Some(v) => v,
            None => info.max_outstanding_messages,
        },
        max_outstanding_bytes: match max_outstanding_bytes {
            Some(v) => v,
            None => info.max_outstanding_bytes,
        },
        ..info
    }
}

/// The id of the next stream: one more than the number opened so far, up to the largest id.
pub open spec fn next_stream_id(opened: u64) -> u64 {
    if opened == u64::MAX {
        u64::MAX
    } else {
        (opened + 1) as u64
    }
}

/// The open streams and the number opened so far.
#[derive(Debug)]
pub struct StreamRegistry {
    last_id: u64,
    sessions: IdMap<SessionState>,
}

impl View for StreamRegistry {
    type V = Sessions;

    closed spec fn view(&self) -> Sessions {
        self.sessions@.map_values(|s: SessionState| s@)
    }
}

impl StreamRegistry {
    /// The id of the stream opened last, 0 when there was none.
    pub closed spec fn last_id(&self) -> u64 {
        self.last_id
    }

    /// A registry without streams.
    pub fn new() -> (r: Self)
        ensures
            r@ == Sessions::empty(),
            r.last_id() == 0,
    {
        let r = StreamRegistry { last_id: 0, sessions: IdMap::new() };
        assert(r@ =~= Sessions::empty());
        r
    }

    /// Opens a stream and returns its id.
    pub fn open(&mut self, info: StreamInfo) -> (id: u64)
        ensures
            id == next_stream_id(old(self).last_id()),
            final(self).last_id() == id,
            final(self)@ == old(self)@.insert(
                id,
                (SessionView {
                    info,
                    outstanding: Map::empty(),
                    generations: Map::empty(),
                    outstanding_bytes: 0,
                }),
            ),
    {
        let id: u64 = if self.last_id == u64::MAX {
            u64::MAX
        } else {
            self.last_id + 1
        };
        let session = SessionState {
            info,
            outstanding: IdMap::new(),
            generations: IdMap::new(),
            outstanding_bytes: 0,
        };
        let ghost state = session;
        self.last_id = id;
        self.sessions.insert(id, session);
        assert(self@ =~= old(self)@.insert(id, state@));
        id
    }

    /// Closes a stream. Returns its subscription and the messages that were still out on it, each
    /// once; nothing when the stream is not open.
    pub fn close(&mut self, stream_id: u64) -> (r: Option<(u64, Vec<u64>)>)
        ensures
            final(self).last_id() == old(self).last_id(),
            final(self)@ == old(self)@.remove(stream_id),
            match r {
                Some((sub_id, seqs)) => {
                    &&& old(self)@.contains_key(stream_id)
                    &&& sub_id == old(self)@[stream_id].info.sub_id
                    &&& seqs@.no_duplicates()
                    &&& forall|seq: u64| #[trigger]
                        seqs@.contains(seq) <==> old(self)@[stream_id].outstanding.contains_key(seq)
                },
                None => !old(self)@.contains_key(stream_id),
            },
    {
        let removed = self.sessions.remove(stream_id);
        assert(self@ =~= old(self)@.remove(stream_id));
        match removed {
            Some(s) => {
                let seqs = s.outstanding.ids();
                Some((s.info.sub_id, seqs))
            },
            None => None,
        }
    }

    /// The messages that are out on a stream, each once, with the generation of the lease on which
    /// it went out; none when the stream is not open.
    pub fn deliveries(&self, stream_id: u64) -> (r: Vec<(u64, u64)>)
        ensures
            forall|i: int, j: int|
                #![trigger r@[i], r@[j]]
                0 <= i < j < r@.len() ==> r@[i].0 != r@[j].0,
            forall|d: (u64, u64)| #[trigger]
                r@.contains(d) <==> self@.contains_key(stream_id)
                    && self@[stream_id].generations.contains_key(d.0)
                    && self@[stream_id].generations[d.0] == d.1,
    {
        let mut r: Vec<(u64, u64)> = Vec::new();
        let s = match self.sessions.get(stream_id) {
            Some(s) => s,
            None => {
                return r;
            },
        };
        let seqs = s.generations.ids();
        let ghost known = s.generations@;
        let mut i: usize = 0;
        while i < seqs.len()
            invariant
                i <= seqs.len(),
                r.len() == i,
                known == s.generations@,
                forall|seq: u64| #[trigger] seqs@.contains(seq) <==> known.contains_key(seq),
                forall|j: int|
                    0 <= j < i ==> (#[trigger] r@[j]).0 == seqs@[j] && r@[j].1 == known[seqs@[j]],
            decreases seqs.len() - i,
        {
            assert(seqs@.contains(seqs@[i as int]));
            if let Some(generation) = s.generations.get(seqs[i]) {
                r.push((seqs[i], *generation));
            }
            i = i + 1;
        }
        proof {
            assert forall|d: (u64, u64)| #[trigger] r@.contains(d) <==> known.contains_key(d.0)
                && known[d.0] == d.1 by {
                if r@.contains(d) {
                    let j = choose|j: int| 0 <= j < r@.len() && r@[j] == d;
                    assert(seqs@.contains(seqs@[j]));
                }
                if known.contains_key(d.0) && known[d.0] == d.1 {
                    assert(seqs@.contains(d.0));
                    let j = choose|j: int| 0 <= j < seqs@.len() && seqs@[j] == d.0;
                    assert(r@[j] == d);
                }
            }
        }
        r
    }

    /// The settings of a stream, if it is open.
    pub fn info(&self, stream_id: u64) -> (r: Option<StreamInfo>)
        ensures
            match r {
                Some(info) => self@.contains_key(stream_id) && info == self@[stream_id].info,
                None => !self@.contains_key(stream_id),
            },
    {
        match self.sessions.get(stream_id) {
            Some(s) => Some(s.info),
            None => None,
        }
    }

    /// Replaces those settings of a stream that are given. Nothing happens when it is not open.
    pub fn update(
        &mut self,
        stream_id: u64,
        ack_deadline_secs: Option<i32>,
        max_outstanding_messages: Option<i64>,
        max_outstanding_bytes: Option<i64>,
    )
        ensures
            final(self).last_id() == old(self).last_id(),
            final(self)@ == if old(self)@.contains_key(stream_id) {
                old(self)@.insert(
                    stream_id,
                    SessionView {
                        info: updated_info(
                            old(self)@[stream_id].info,
                            ack_deadline_secs,
                            max_outstanding_messages,
                            max_outstanding_bytes,
                        ),
                        ..old(self)@[stream_id]
                    },
                )
            } else {
                old(self)@
            },
    {
        match self.sessions.remove(stream_id) {
            Some(session) => {
                proof {
                    use_type_invariant(&session);
                }
                let mut info = session.info;
                if let Some(v) = ack_deadline_secs {
                    info.ack_deadline_secs = v;
                }
                if let Some(v) = max_outstanding_messages {
                    info.max_outstanding_messages = v;
                }
                if let Some(v) = max_outstanding_bytes {
                    info.max_outstanding_bytes = v;
                }
                let s = SessionState {
                    info,
                    outstanding: session.outstanding,
                    generations: session.generations,
                    outstanding_bytes: session.outstanding_bytes,
                };
                let ghost state = s;
                self.sessions.insert(stream_id, s);
                assert(self@ =~= old(self)@.insert(stream_id, state@));
            },
            None => {
                assert(self@ =~= old(self)@);
            },
        }
    }

    /// How many more messages and bytes a stream may take. What counts against the budget is what
    /// is out on the stream.
    pub fn remaining_budget(&self, stream_id: u64) -> (r: (i64, i64))
        ensures
            (r.0 as int, r.1 as int) == budget(self@, stream_id),
            self@.contains_key(stream_id) ==> is_balanced(self@[stream_id]),
    {
        match self.sessions.get(stream_id) {
            None => (0, 0),
            Some(s) => {
                proof {
                    use_type_invariant(s);
                    lemma_total_bounds(s.outstanding@);
                }
                let out: usize = s.outstanding.len();
                let msgs: i64 = if s.info.max_outstanding_messages <= 0 {
                    i64::MAX
                } else if out as u64 >= s.info.max_outstanding_messages as u64 {
                    0
                } else {
                    s.info.max_outstanding_messages - out as i64
                };
                let bytes: i64 = if s.info.max_outstanding_bytes <= 0 {
                    i64::MAX
                } else {
                    let left: i128 = s.info.max_outstanding_bytes as i128 - s.outstanding_bytes;
                    if left < 0 {
                        0
                    } else {
                        left as i64
                    }
                };
                (msgs, bytes)
            },
        }
    }

    /// Notes that a message went out on a stream.
    pub fn record_leased(&mut self, stream_id: u64, seq: u64, payload_bytes: usize)
        ensures
            final(self).last_id() == old(self).last_id(),
            final(self)@ == after_leased(old(self)@, stream_id, seq, payload_bytes),
    {
        match self.sessions.remove(stream_id) {
            Some(session) => {
                proof {
                    use_type_invariant(&session);
                }
                let bytes: i64 = if payload_bytes as u64 > i64::MAX as u64 {
                    i64::MAX
                } else {
                    payload_bytes as i64
                };
                let ghost before = session@;
                let info = session.info;
                let mut outstanding = session.outstanding;
                let mut generations = session.generations;
                let mut outstanding_bytes: i128 = session.outstanding_bytes;
                let _ = generations.remove(seq);
                match outstanding.remove(seq) {
                    Some(old_bytes) => {
                        proof {
                            lemma_total_without(before.outstanding, seq);
                            lemma_total_bounds(before.outstanding.remove(seq));
                        }
                        outstanding_bytes = outstanding_bytes - old_bytes as i128;
                    },
                    None => {
                        assert(before.outstanding.remove(seq) =~= before.outstanding);
                    },
                }
                let count: usize = outstanding.len();
                proof {
                    assert(outstanding@ =~= before.outstanding.remove(seq));
                    lemma_total_bounds(outstanding@);
                    lemma_total_with(before.outstanding, seq, bytes);
                    assert(outstanding@.dom().len() <= usize::MAX);
                    assert(outstanding@.dom().len() * i64::MAX <= u64::MAX * i64::MAX)
                        by (nonlinear_arith)
                        requires
                            outstanding@.dom().len() <= u64::MAX,
                    ;
                    assert(outstanding@.insert(seq, bytes) =~= before.outstanding.insert(
                        seq,
                        bytes,
                    ));
                }
                outstanding_bytes = outstanding_bytes + bytes as i128;
                outstanding.insert(seq, bytes);
                let s = SessionState { info, outstanding, generations, outstanding_bytes };
                let ghost state = s;
                self.sessions.insert(stream_id, s);
                assert(self@ =~= old(self)@.insert(stream_id, state@));
            },
            None => {
                assert(self@ =~= old(self)@);
            },
        }
    }

    /// Notes that a message went out on a stream, on a lease of this generation.
    pub fn record_delivery(
        &mut self,
        stream_id: u64,
        seq: u64,
        payload_bytes: usize,
        generation: u64,
    )
        ensures
            final(self).last_id() == old(self).last_id(),
            final(self)@ == after_delivered(
                old(self)@,
                stream_id,
                seq,
                payload_bytes,
                generation,
            ),
    {
        self.record_leased(stream_id, seq, payload_bytes);
        let ghost leased = self@;
        match self.sessions.remove(stream_id) {
            Some(session) => {
                proof {
                    use_type_invariant(&session);
                }
                let info = session.info;
                let outstanding = session.outstanding;
                let outstanding_bytes: i128 = session.outstanding_bytes;
                let mut generations = session.generations;
                generations.insert(seq, generation);
                let s = SessionState { info, outstanding, generations, outstanding_bytes };
                let ghost state = s;
                self.sessions.insert(stream_id, s);
                assert(self@ =~= leased.insert(stream_id, state@));
            },
            None => {
                assert(self@ =~= leased);
            },
        }
    }

    /// Notes that a message was acknowledged or given back on a stream, which frees what was noted
    /// for it. Nothing happens when the stream is not open or the message is not out on it.
    pub fn record_resolved(&mut self, stream_id: u64, seq: u64)
        ensures
            final(self).last_id() == old(self).last_id(),
            final(self)@ == after_resolved(old(self)@, stream_id, seq),
    {
        match self.sessions.remove(stream_id) {
            Some(session) => {
                let freed = session.without(seq);
                proof {
                    use_type_invariant(&freed);
                }
                let mut generations = freed.generations;
                let _ = generations.remove(seq);
                let s = SessionState {
                    info: freed.info,
                    outstanding: freed.outstanding,
                    generations,
                    outstanding_bytes: freed.outstanding_bytes,
                };
                let ghost state = s;
                self.sessions.insert(stream_id, s);
                assert(self@ =~= old(self)@.insert(stream_id, state@));
            },
            None => {
                assert(self@ =~= old(self)@);
            },
        }
    }

    /// Notes that a message which went out on a stream, on a lease of this generation, was put off.
    /// It does not count against the budget any more, but is given back when the stream is closed.
    /// Nothing happens when the stream has not that lease.
    pub fn record_put_off(&mut self, stream_id: u64, seq: u64, generation: u64)
        ensures
            final(self).last_id() == old(self).last_id(),
            final(self)@ == after_put_off(old(self)@, stream_id, seq, generation),
    {
        let known = match self.sessions.get(stream_id) {
            Some(s) => match s.generations.get(seq) {
                Some(g) => *g == generation,
                None => false,
            },
            None => false,
        };
        if !known {
            return;
        }
        if let Some(session) = self.sessions.remove(stream_id) {
            let s = session.without(seq);
            let ghost state = s;
            self.sessions.insert(stream_id, s);
            assert(self@ =~= old(self)@.insert(stream_id, state@));
        }
    }
}

/// What counts against a stream's budget stays what is out on it, whatever goes out, also again, and
/// whatever is resolved or put off.
pub proof fn law_budgets_stay_balanced(
    sessions: Sessions,
    stream_id: u64,
    seq: u64,
    payload_bytes: usize,
)
    requires
        sessions.contains_key(stream_id),
        is_balanced(sessions[stream_id]),
    ensures
        is_balanced(after_leased(sessions, stream_id, seq, payload_bytes)[stream_id]),
        forall|generation: u64|
            is_balanced(
                (#[trigger] after_delivered(
                    sessions,
                    stream_id,
                    seq,
                    payload_bytes,
                    generation,
                ))[stream_id],
            ),
        is_balanced(after_resolved(sessions, stream_id, seq)[stream_id]),
        forall|generation: u64|
            is_balanced(
                (#[trigger] after_put_off(sessions, stream_id, seq, generation))[stream_id],
            ),
{
    let s = sessions[stream_id];
    lemma_total_with(s.outstanding, seq, bytes_i64(payload_bytes));
    if s.outstanding.contains_key(seq) {
        lemma_total_without(s.outstanding, seq);
    } else {
        assert(s.outstanding.remove(seq) =~= s.outstanding);
    }
}

/// With nothing out on a stream the whole budget is there.
pub proof fn law_nothing_out_leaves_the_whole_budget(sessions: Sessions, stream_id: u64)
    requires
        sessions.contains_key(stream_id),
        is_balanced(sessions[stream_id]),
        sessions[stream_id].outstanding == Map::<u64, i64>::empty(),
    ensures
        sessions[stream_id].info.max_outstanding_messages > 0 ==> budget(sessions, stream_id).0
            == sessions[stream_id].info.max_outstanding_messages,
        sessions[stream_id].info.max_outstanding_bytes > 0 ==> budget(sessions, stream_id).1
            == sessions[stream_id].info.max_outstanding_bytes,
{
}

/// Resolving a message frees exactly what it took, however often it went out: the stream is as if
/// it had never gone out.
pub proof fn law_resolving_frees_the_budget(
    sessions: Sessions,
    stream_id: u64,
    seq: u64,
    payload_bytes: usize,
)
    requires
        sessions.contains_key(stream_id),
    ensures
        after_resolved(after_leased(sessions, stream_id, seq, payload_bytes), stream_id, seq)
            == after_resolved(sessions, stream_id, seq),
        forall|generation: u64|
            after_resolved(
                #[trigger] after_delivered(sessions, stream_id, seq, payload_bytes, generation),
                stream_id,
                seq,
            ) == after_resolved(sessions, stream_id, seq),
        !sessions[stream_id].outstanding.contains_key(seq)
            && !sessions[stream_id].generations.contains_key(seq) ==> after_resolved(
            sessions,
            stream_id,
            seq,
        ) == sessions,
{
    let s = sessions[stream_id];
    let mid = after_leased(sessions, stream_id, seq, payload_bytes);
    let end = after_resolved(mid, stream_id, seq);
    assert(mid[stream_id].outstanding.remove(seq) =~= s.outstanding.remove(seq));
    if !s.outstanding.contains_key(seq) && !s.generations.contains_key(seq) {
        assert(s.outstanding.remove(seq) =~= s.outstanding);
        assert(s.generations.remove(seq) =~= s.generations);
        assert(after_resolved(sessions, stream_id, seq) =~= sessions);
    }
    assert(mid[stream_id].generations.remove(seq) =~= s.generations.remove(seq));
    assert(end =~= after_resolved(sessions, stream_id, seq));
    assert forall|generation: u64|
        after_resolved(
            #[trigger] after_delivered(sessions, stream_id, seq, payload_bytes, generation),
            stream_id,
            seq,
        ) == after_resolved(sessions, stream_id, seq) by {
        let out = after_delivered(sessions, stream_id, seq, payload_bytes, generation);
        assert(out[stream_id].outstanding == mid[stream_id].outstanding);
        assert(out[stream_id].generations.remove(seq) =~= mid[stream_id].generations.remove(seq));
        assert(after_resolved(out, stream_id, seq) =~= end);
    }
}

/// Putting a message off frees the same budget as resolving it.
pub proof fn law_putting_off_frees_the_budget(
    sessions: Sessions,
    stream_id: u64,
    seq: u64,
    payload_bytes: usize,
    generation: u64,
)
    requires
        sessions.contains_key(stream_id),
    ensures
        ({
            let out = after_delivered(sessions, stream_id, seq, payload_bytes, generation);
            let off = after_put_off(out, stream_id, seq, generation);
            &&& budget(off, stream_id) == budget(after_resolved(out, stream_id, seq), stream_id)
            &&& off[stream_id].generations == out[stream_id].generations
        }),
{
}

/// A message that goes out takes one message and its bytes from a limited budget.
pub proof fn law_leasing_takes_from_the_budget(
    sessions: Sessions,
    stream_id: u64,
    seq: u64,
    payload_bytes: usize,
)
    requires
        sessions.contains_key(stream_id),
        is_balanced(sessions[stream_id]),
        !sessions[stream_id].outstanding.contains_key(seq),
        sessions[stream_id].info.max_outstanding_messages > 0,
        sessions[stream_id].info.max_outstanding_bytes > 0,
        budget(sessions, stream_id).0 >= 1,
        budget(sessions, stream_id).1 >= bytes_i64(payload_bytes),
    ensures
        budget(after_leased(sessions, stream_id, seq, payload_bytes), stream_id) == (
            budget(sessions, stream_id).0 - 1,
            budget(sessions, stream_id).1 - bytes_i64(payload_bytes),
        ),
{
    lemma_total_bounds(sessions[stream_id].outstanding);
}

} // verus!
