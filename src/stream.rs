use vstd::prelude::*;
use crate::verify_state::VerifyInfo;

verus! {

/// Verdict of one paper against one interest.
#[derive(Debug, Clone, Copy, PartialEq, Eq, Structural)]
pub enum VerificationMatch {
    Yes,
    No,
    Partial,
}

/// One verdict of a paper for a user's interest.
#[derive(Debug, Clone, Copy, PartialEq, Eq, Structural)]
pub struct VerificationItem {
    pub user_id: i64,
    pub paper_id: i64,
    pub interest_id: i64,
    pub match_: VerificationMatch,
}

/// What a worker publishes after a paper was verified for a user.
#[derive(Debug, Clone)]
pub struct VerifyResultMessage {
    pub user_id: i64,
    pub paper_id: i64,
    pub verifications: Vec<VerificationItem>,
    pub verify_info: VerifyInfo,
}

pub open spec fn has_yes(vs: Seq<VerificationItem>) -> bool {
    exists|i: int| 0 <= i < vs.len() && (#[trigger] vs[i]).match_ == VerificationMatch::Yes
}

/// Whether at least one verdict is `Yes`.
pub fn has_yes_match(vs: &Vec<VerificationItem>) -> (r: bool)
    ensures
        r == has_yes(vs@),
{
    let mut i: usize = 0;
    while i < vs.len()
        invariant
            0 <= i <= vs.len(),
            forall|k: int| 0 <= k < i ==> (#[trigger] vs@[k]).match_ != VerificationMatch::Yes,
        decreases vs.len() - i,
    {
        if vs[i].match_ == VerificationMatch::Yes {
            return true;
        }
        i = i + 1;
    }
    false
}

/// Whether the counters say the run used up its match quota.
pub open spec fn limit_reached(info: VerifyInfo) -> bool {
    info.max_match_limit != 0 && info.matched_count >= info.max_match_limit
}

/// Whether the counters say nothing is left to verify.
pub open spec fn drained(info: VerifyInfo) -> bool {
    info.pending_unverify_count + info.processing_count == 0
}

pub fn is_limit_reached(info: &VerifyInfo) -> (r: bool)
    ensures
        r == limit_reached(*info),
{
    info.max_match_limit != 0 && info.matched_count >= info.max_match_limit
}

pub fn is_drained(info: &VerifyInfo) -> (r: bool)
    ensures
        r == drained(*info),
{
    info.pending_unverify_count == 0 && info.processing_count == 0
}

/// An event of a user's verification stream.
#[derive(Debug, Clone)]
pub enum StreamEvent {
    Heartbeat { user_id: i64, verify_info: VerifyInfo, timestamp: i64 },
    PaperVerified { result: VerifyResultMessage, user_verify_info: VerifyInfo, timestamp: i64 },
    Completed { timestamp: i64 },
    MatchLimitReached { user_id: i64, matched: u64, max_limit: u64, timestamp: i64 },
    Error { message: String, timestamp: i64 },
}

/// What a stream reacts to.
#[derive(Debug, Clone)]
pub enum StreamInput {
    /// The heartbeat timer fired; `info` holds the user's current counters.
    Tick { info: VerifyInfo, now: i64 },
    /// A result message arrived on the shared channel.
    Message { message: VerifyResultMessage, now: i64 },
}

/// State of one client's verification stream.
#[derive(Debug, Clone, Copy, PartialEq, Eq, Structural)]
pub struct StreamState {
    pub user_id: i64,
    pub ended: bool,
}

/// The terminal event the counters call for, if any: the quota first,
/// then completion.
pub open spec fn terminal_event(user_id: i64, info: VerifyInfo, now: i64) -> Option<StreamEvent> {
    if limit_reached(info) {
        Some(
            StreamEvent::MatchLimitReached {
                user_id,
                matched: info.matched_count,
                max_limit: info.max_match_limit,
                timestamp: now,
            },
        )
    } else if drained(info) {
        Some(StreamEvent::Completed { timestamp: now })
    } else {
        None
    }
}

impl StreamState {
    pub open spec fn step(self, input: StreamInput) -> (StreamState, Seq<StreamEvent>) {
        if self.ended {
            (self, Seq::empty())
        } else {
            match input {
                StreamInput::Tick { info, now } => match terminal_event(self.user_id, info, now) {
                    Some(e) => (StreamState { ended: true, ..self }, seq![e]),
                    None => (
                        self,
                        seq![StreamEvent::Heartbeat { user_id: self.user_id, verify_info: info, timestamp: now }],
                    ),
                },
                StreamInput::Message { message, now } => {
                    if message.user_id != self.user_id || !has_yes(message.verifications@) {
                        (self, Seq::empty())
                    } else {
                        let paper = StreamEvent::PaperVerified {
                            result: message,
                            user_verify_info: message.verify_info,
                            timestamp: now,
                        };
                        match terminal_event(self.user_id, message.verify_info, now) {
                            Some(e) => (StreamState { ended: true, ..self }, seq![paper, e]),
                            None => (self, seq![paper]),
                        }
                    }
                },
            }
        }
    }

    pub fn new(user_id: i64) -> (r: StreamState)
        ensures
            r == (StreamState { user_id, ended: false }),
    {
        StreamState { user_id, ended: false }
    }

    fn terminal(&self, info: &VerifyInfo, now: i64) -> (r: Option<StreamEvent>)
        ensures
            r == terminal_event(self.user_id, *info, now),
    {
        if is_limit_reached(info) {
            Some(
                StreamEvent::MatchLimitReached {
                    user_id: self.user_id,
                    matched: info.matched_count,
                    max_limit: info.max_match_limit,
                    timestamp: now,
                },
            )
        } else if is_drained(info) {
            Some(StreamEvent::Completed { timestamp: now })
        } else {
            None
        }
    }

    /// Reacts to one input: heartbeats while the run goes on, a paper event
    /// for each of the user's results with at least one `Yes` verdict, and
    /// once a terminal event (quota reached, or nothing left), after which
    /// the stream has ended and stays silent.
    pub fn on_input(&mut self, input: StreamInput) -> (r: Vec<StreamEvent>)
        ensures
            (*final(self), r@) == old(self).step(input),
            old(self).ended ==> r@.len() == 0,
            forall|i: int| 0 <= i < r@.len() ==> (#[trigger] r@[i] matches StreamEvent::PaperVerified { result, .. }
                ==> has_yes(result.verifications@) && result.user_id == old(self).user_id),
            forall|i: int| 0 <= i < r@.len() && (#[trigger] r@[i] is MatchLimitReached || r@[i] is Completed)
                ==> final(self).ended && i == r@.len() - 1,
    {
        let mut out: Vec<StreamEvent> = Vec::new();
        if self.ended {
            return out;
        }
        match input {
            StreamInput::Tick { info, now } => {
                match self.terminal(&info, now) {
                    Some(e) => {
                        self.ended = true;
                        out.push(e);
                    },
                    None => {
                        out.push(StreamEvent::Heartbeat { user_id: self.user_id, verify_info: info, timestamp: now });
                    },
                }
            },
            StreamInput::Message { message, now } => {
                if message.user_id == self.user_id && has_yes_match(&message.verifications) {
                    let info = message.verify_info;
                    let term = self.terminal(&info, now);
                    out.push(StreamEvent::PaperVerified { result: message, user_verify_info: info, timestamp: now });
                    match term {
                        Some(e) => {
                            self.ended = true;
                            out.push(e);
                        },
                        None => {},
                    }
                }
            },
        }
        proof {
            let evs = old(self).step(input).1;
            assert(out@ =~= evs);
        }
        out
    }
}

/// Match cap on a stream: once the counters show the quota reached, the
/// next heartbeat tick emits exactly one `match_limit_reached` and ends the
/// stream, and an ended stream emits nothing more, paper events included.
pub proof fn lemma_limit_ends_stream(s: StreamState, info: VerifyInfo, now: i64, next: StreamInput)
    requires
        !s.ended,
        limit_reached(info),
    ensures
        s.step(StreamInput::Tick { info, now }).1 == seq![
            StreamEvent::MatchLimitReached {
                user_id: s.user_id,
                matched: info.matched_count,
                max_limit: info.max_match_limit,
                timestamp: now,
            },
        ],
        s.step(StreamInput::Tick { info, now }).0.ended,
        s.step(StreamInput::Tick { info, now }).0.step(next).1.len() == 0,
{
}

} // verus!
