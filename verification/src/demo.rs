//! The public console has to be able to make the decommission target genuinely
//! stop answering, otherwise the drift that it demonstrates would be theatre.
//! This is the only place where this service reaches out to another service, and it
//! only ever talks to the decommission target.

use vstd::prelude::*;
use vstd::string::*;
use vstd::utf8::*;

use crate::evaluation;
use crate::evaluation::EvaluateReq;
use crate::http;
use crate::http::{err, Reply};
use crate::json;
use crate::json::Json;
use crate::ledger;
use crate::policy;
use crate::policy::Effect;
use crate::text;

verus! {

/// Long enough for three probe cycles of 15 seconds plus slack.
pub const PLAYDEAD_SECONDS: u32 = 90;

/// The host to decommission unless another one is configured.
pub const DEFAULT_TARGET: &'static str = "oldworker";

/// The port to reach it at unless another one is configured.
pub const DEFAULT_TARGET_PORT: u16 = 3000;

/// The host to decommission, from its setting.
pub fn target(setting: Option<String>) -> (r: String)
    ensures
        r@ == match setting {
            Some(host) => host@,
            None => DEFAULT_TARGET@,
        },
        setting is None ==> r@ == "oldworker"@,
{
    match setting {
        Some(host) => host,
        None => DEFAULT_TARGET.to_owned(),
    }
}

/// The port to reach it at, from its setting: the default where the setting is
/// no port number.
pub fn target_port(setting: Option<&str>) -> (r: u16)
    ensures
        r == match setting {
            Some(s) => match text::u16_value(s@) {
                Some(port) => port,
                None => DEFAULT_TARGET_PORT,
            },
            None => DEFAULT_TARGET_PORT,
        },
        setting is None ==> r == 3000,
{
    match setting {
        Some(s) => match text::parse_u16(s) {
            Some(port) => port,
            None => DEFAULT_TARGET_PORT,
        },
        None => DEFAULT_TARGET_PORT,
    }
}

/// The body of the request to play dead.
pub open spec fn request_body(seconds: u32) -> Seq<char> {
    "{\"seconds\":"@ + text::dec(seconds as nat) + "}"@
}

/// The request to play dead: one fixed HTTP/1.1 POST, with the length of its
/// body in bytes.
pub open spec fn request_text(host: Seq<char>, seconds: u32) -> Seq<char> {
    "POST /playdead HTTP/1.1\r\nHost: "@ + host
        + "\r\nContent-Type: application/json\r\nContent-Length: "@ + text::dec(
        encode_utf8(request_body(seconds)).len(),
    ) + "\r\nConnection: close\r\n\r\n"@ + request_body(seconds)
}

/// The request that makes `host` play dead for so many seconds.
pub fn play_dead_request(host: &str, seconds: u32) -> (r: String)
    ensures
        r@ == request_text(host@, seconds),
{
    let mut body = String::new();
    body.append("{\"seconds\":");
    let digits = text::dec_text(seconds as u64);
    body.append(digits.as_str());
    body.append("}");
    assert(body@ =~= request_body(seconds));
    let length: usize = body.as_str().as_bytes().len();
    let length_text = text::dec_text(length as u64);
    let mut r = String::new();
    r.append("POST /playdead HTTP/1.1\r\nHost: ");
    r.append(host);
    r.append("\r\nContent-Type: application/json\r\nContent-Length: ");
    r.append(length_text.as_str());
    r.append("\r\nConnection: close\r\n\r\n");
    r.append(body.as_str());
    assert(r@ =~= request_text(host@, seconds));
    r
}

/// How reading the reply went.
pub enum PlayDeadEvent {
    /// Connecting took too long.
    ConnectTimeout,
    /// The reply took too long.
    ReplyTimeout,
    /// The connection failed, and why.
    Broken(String),
    /// The beginning of the reply.
    Reply(Vec<u8>),
}

/// Why the target did not play dead.
#[derive(Debug, Clone, PartialEq, Eq)]
pub enum PlayDeadError {
    ConnectTimeout,
    ReplyTimeout,
    /// The connection failed, and why.
    Broken(String),
    Refused,
}

impl PlayDeadError {
    /// The error in words.
    pub open spec fn text(self) -> Seq<char> {
        match self {
            PlayDeadError::ConnectTimeout => "connecting to the decommission target timed out"@,
            PlayDeadError::ReplyTimeout => "the decommission target did not reply"@,
            PlayDeadError::Broken(cause) => cause@,
            PlayDeadError::Refused => "decommission target refused"@,
        }
    }

    /// The error in words.
    pub fn message(&self) -> (s: &str)
        ensures
            s@ == self.text(),
    {
        match self {
            PlayDeadError::ConnectTimeout => "connecting to the decommission target timed out",
            PlayDeadError::ReplyTimeout => "the decommission target did not reply",
            PlayDeadError::Broken(cause) => cause.as_str(),
            PlayDeadError::Refused => "decommission target refused",
        }
    }
}

/// Whether a reply begins with the status line of a success.
pub open spec fn accepted(reply: Seq<u8>) -> bool {
    encode_utf8("HTTP/1.1 200"@).is_prefix_of(reply)
}

/// Whether the target plays dead now: only if its reply says so.
pub fn play_dead(event: PlayDeadEvent) -> (r: Result<(), PlayDeadError>)
    ensures
        r == match event {
            PlayDeadEvent::ConnectTimeout => Err::<(), PlayDeadError>(
                PlayDeadError::ConnectTimeout,
            ),
            PlayDeadEvent::ReplyTimeout => Err(PlayDeadError::ReplyTimeout),
            PlayDeadEvent::Broken(cause) => Err(PlayDeadError::Broken(cause)),
            PlayDeadEvent::Reply(reply) => if accepted(reply@) {
                Ok(())
            } else {
                Err(PlayDeadError::Refused)
            },
        },
{
    match event {
        PlayDeadEvent::ConnectTimeout => Err(PlayDeadError::ConnectTimeout),
        PlayDeadEvent::ReplyTimeout => Err(PlayDeadError::ReplyTimeout),
        PlayDeadEvent::Broken(cause) => Err(PlayDeadError::Broken(cause)),
        PlayDeadEvent::Reply(reply) => {
            let wanted = "HTTP/1.1 200".as_bytes();
            if reply.len() < wanted.len() {
                return Err(PlayDeadError::Refused);
            }
            let mut i: usize = 0;
            while i < wanted.len()
                invariant
                    i <= wanted@.len() <= reply@.len(),
                    wanted@ == encode_utf8("HTTP/1.1 200"@),
                    event == PlayDeadEvent::Reply(reply),
                    forall|j: int| 0 <= j < i ==> wanted@[j] == reply@[j],
                decreases wanted@.len() - i,
            {
                if reply[i] != wanted[i] {
                    return Err(PlayDeadError::Refused);
                }
                i = i + 1;
            }
            Ok(())
        },
    }
}

// ---------------------------------------------------------------------------
// One run at a time
// ---------------------------------------------------------------------------

/// The run that is in flight, if one is.
#[derive(Debug, Clone, Copy)]
pub struct InFlight {
    /// When the last run was started, in seconds since the Unix epoch, unless it
    /// was given up.
    pub since: Option<u64>,
    /// How many runs were started: the number of the last one.
    pub runs: u64,
}

impl InFlight {
    /// A run may be started: none is in flight. One is for as long as the target
    /// plays dead. (And there is a number left for it.)
    pub open spec fn idle(self, now: u64) -> bool {
        &&& self.since matches Some(s) ==> now - s >= PLAYDEAD_SECONDS
        &&& self.runs < u64::MAX
    }

    /// One more run, started now.
    pub open spec fn started(self, now: u64) -> InFlight {
        InFlight { since: Some(now), runs: (self.runs + 1) as u64 }
    }

    /// After a run came to nothing: it is no longer in flight. A newer one is.
    pub open spec fn without(self, run: u64) -> InFlight {
        if run == self.runs {
            InFlight { since: None, ..self }
        } else {
            self
        }
    }

    /// No run is in flight.
    pub fn new() -> (r: InFlight)
        ensures
            r == (InFlight { since: None, runs: 0 }),
    {
        InFlight { since: None, runs: 0 }
    }

    /// Starts a run, unless one is in flight, and gives it its number.
    pub fn start(&mut self, now: u64) -> (r: Option<u64>)
        ensures
            match r {
                Some(run) => {
                    &&& old(self).idle(now)
                    &&& *final(self) == old(self).started(now)
                    &&& run == final(self).runs
                },
                None => !old(self).idle(now) && *final(self) == *old(self),
            },
    {
        if self.runs == u64::MAX {
            return None;
        }
        match self.since {
            Some(s) => {
                if now < s || now - s < PLAYDEAD_SECONDS as u64 {
                    return None;
                }
            },
            None => {},
        }
        self.since = Some(now);
        self.runs = self.runs + 1;
        Some(self.runs)
    }

    /// Gives up a run that came to nothing. Only that one: a newer run stays in
    /// flight.
    pub fn give_up(&mut self, run: u64)
        ensures
            *final(self) == old(self).without(run),
    {
        if run == self.runs {
            self.since = None;
        }
    }
}

// ---------------------------------------------------------------------------
// The course of a run
// ---------------------------------------------------------------------------

/// Where a request to decommission the target has got to.
pub enum Decommission {
    /// A decision is to be asked for first.
    Ask { target: String, run: u64 },
    /// The target is to be taken offline.
    PlayDead { target: String, run: u64 },
    /// The reply is to be sent; `failed` is the run if it came to nothing.
    Finished { reply: Reply, failed: Option<u64> },
}

/// What has to be done for it.
pub enum DemoAction {
    /// Evaluate this, as for any other caller.
    Evaluate(EvaluateReq),
    /// Make a host play dead for so many seconds.
    PlayDead { host: String, seconds: u32 },
    Send(Reply),
}

/// How it went.
pub enum DemoEvent {
    /// The answer to that.
    Evaluated(Reply),
    /// Whether the target plays dead.
    Played(Result<(), PlayDeadError>),
}

/// What a [`Decommission`] is about.
pub enum DecommissionView {
    Ask { target: Seq<char>, run: u64 },
    PlayDead { target: Seq<char>, run: u64 },
    Finished { reply: http::ReplyView, failed: Option<u64> },
}

/// What a [`DemoAction`] says.
pub enum DemoActionView {
    Evaluate(evaluation::EvaluateReqView),
    PlayDead { host: Seq<char>, seconds: u32 },
    Send(http::ReplyView),
}

/// What a [`DemoEvent`] says.
pub enum DemoEventView {
    Evaluated(http::ReplyView),
    /// The error is given in words.
    Played(Result<(), Seq<char>>),
}

impl View for Decommission {
    type V = DecommissionView;

    open spec fn view(&self) -> DecommissionView {
        match *self {
            Decommission::Ask { target, run } => DecommissionView::Ask { target: target@, run },
            Decommission::PlayDead { target, run } => DecommissionView::PlayDead {
                target: target@,
                run,
            },
            Decommission::Finished { reply, failed } => DecommissionView::Finished {
                reply: reply@,
                failed,
            },
        }
    }
}

impl View for DemoAction {
    type V = DemoActionView;

    open spec fn view(&self) -> DemoActionView {
        match *self {
            DemoAction::Evaluate(req) => DemoActionView::Evaluate(req@),
            DemoAction::PlayDead { host, seconds } => DemoActionView::PlayDead {
                host: host@,
                seconds,
            },
            DemoAction::Send(reply) => DemoActionView::Send(reply@),
        }
    }
}

impl View for DemoEvent {
    type V = DemoEventView;

    open spec fn view(&self) -> DemoEventView {
        match *self {
            DemoEvent::Evaluated(reply) => DemoEventView::Evaluated(reply@),
            DemoEvent::Played(Ok(_)) => DemoEventView::Played(Ok(())),
            DemoEvent::Played(Err(e)) => DemoEventView::Played(Err(e.text())),
        }
    }
}

/// The reply carries an allow.
pub open spec fn says_allow(reply: http::ReplyView) -> bool {
    reply.status == 200 && reply.body.member("decision"@) == Some(json::Doc::String("allow"@))
}

/// Whether the reply carries an allow.
fn is_allow(reply: &Reply) -> (r: bool)
    ensures
        r == says_allow(reply@),
{
    if reply.status != 200 {
        return false;
    }
    match reply.body.get("decision") {
        Some(d) => match d.as_str() {
            Some(s) => text::str_eq(s, "allow"),
            None => false,
        },
        None => false,
    }
}

impl DecommissionView {
    /// How a request starts: not at all if no run could be started, else by
    /// asking for a decision or not.
    pub open spec fn begun(target: Seq<char>, run: Option<u64>, ask: bool) -> DecommissionView {
        match run {
            None => DecommissionView::Finished {
                reply: http::error_reply(409, "a decommission run is already in flight"@),
                failed: None,
            },
            Some(run) => if ask {
                DecommissionView::Ask { target, run }
            } else {
                DecommissionView::PlayDead { target, run }
            },
        }
    }

    /// What has to be done next.
    pub open spec fn action(self) -> DemoActionView {
        match self {
            DecommissionView::Ask { target, .. } => DemoActionView::Evaluate(
                evaluation::EvaluateReqView {
                    actor: Some("console"@),
                    action: Some("service.stop"@),
                    target: Some(target),
                    params: None,
                },
            ),
            DecommissionView::PlayDead { target, .. } => DemoActionView::PlayDead {
                host: target,
                seconds: PLAYDEAD_SECONDS,
            },
            DecommissionView::Finished { reply, .. } => DemoActionView::Send(reply),
        }
    }

    /// Where it gets to. A run that asked first goes on with an allow only;
    /// otherwise the caller gets the answer. A run comes to nothing unless the
    /// target plays dead.
    pub open spec fn next(self, event: DemoEventView) -> DecommissionView {
        match (self, event) {
            (DecommissionView::Finished { .. }, _) => self,
            (
                DecommissionView::Ask { target, run },
                DemoEventView::Evaluated(reply),
            ) => if says_allow(reply) {
                DecommissionView::PlayDead { target, run }
            } else {
                DecommissionView::Finished { reply, failed: Some(run) }
            },
            (
                DecommissionView::PlayDead { target, .. },
                DemoEventView::Played(Ok(_)),
            ) => DecommissionView::Finished {
                reply: http::ReplyView {
                    status: 200,
                    body: json::Doc::empty_object().with(
                        "target"@,
                        json::Doc::String(target),
                    ).with(
                        "seconds"@,
                        json::Doc::Number(text::int_text(PLAYDEAD_SECONDS as int)),
                    ),
                },
                failed: None,
            },
            (
                DecommissionView::PlayDead { run, .. },
                DemoEventView::Played(Err(msg)),
            ) => DecommissionView::Finished {
                reply: http::error_reply(502, msg),
                failed: Some(run),
            },
            (DecommissionView::Ask { run, .. }, _) => DecommissionView::Finished {
                reply: http::unavailable_reply(),
                failed: Some(run),
            },
            (DecommissionView::PlayDead { run, .. }, _) => DecommissionView::Finished {
                reply: http::unavailable_reply(),
                failed: Some(run),
            },
        }
    }

    /// The run that came to nothing, if it did.
    pub open spec fn came_to_nothing(self) -> Option<u64> {
        match self {
            DecommissionView::Finished { failed, .. } => failed,
            _ => None,
        }
    }

    /// Where it gets to over several events.
    pub open spec fn after(self, events: Seq<DemoEventView>) -> DecommissionView
        decreases events.len(),
    {
        if events.len() == 0 {
            self
        } else {
            self.after(events.drop_last()).next(events.last())
        }
    }
}

impl Decommission {
    /// Takes up a request; `run` is the number of the run if one could be
    /// started, `ask` whether a decision is to be asked for first.
    pub fn begin(target: String, run: Option<u64>, ask: bool) -> (r: Decommission)
        ensures
            r@ == DecommissionView::begun(target@, run, ask),
    {
        match run {
            None => Decommission::Finished {
                reply: err(409, "a decommission run is already in flight"),
                failed: None,
            },
            Some(run) => if ask {
                Decommission::Ask { target, run }
            } else {
                Decommission::PlayDead { target, run }
            },
        }
    }

    /// What has to be done next.
    pub fn action(&self) -> (r: DemoAction)
        ensures
            r@ == self@.action(),
    {
        match self {
            Decommission::Ask { target, .. } => DemoAction::Evaluate(
                EvaluateReq {
                    actor: Some("console".to_owned()),
                    action: Some("service.stop".to_owned()),
                    target: Some(target.clone()),
                    params: None,
                },
            ),
            Decommission::PlayDead { target, .. } => DemoAction::PlayDead {
                host: target.clone(),
                seconds: PLAYDEAD_SECONDS,
            },
            Decommission::Finished { reply, .. } => DemoAction::Send(reply.clone()),
        }
    }

    /// The run that came to nothing, if it did: the one to give up.
    pub fn came_to_nothing(&self) -> (r: Option<u64>)
        ensures
            r == self@.came_to_nothing(),
    {
        match self {
            Decommission::Finished { failed, .. } => *failed,
            _ => None,
        }
    }

    /// Goes on with how the last action went.
    pub fn step(self, event: DemoEvent) -> (r: Decommission)
        ensures
            r@ == self@.next(event@),
    {
        match (self, event) {
            (Decommission::Finished { reply, failed }, _) => Decommission::Finished {
                reply,
                failed,
            },
            (
                Decommission::Ask { target, run },
                DemoEvent::Evaluated(reply),
            ) => if is_allow(&reply) {
                Decommission::PlayDead { target, run }
            } else {
                Decommission::Finished { reply, failed: Some(run) }
            },
            (
                Decommission::PlayDead { target, .. },
                DemoEvent::Played(Ok(_)),
            ) => Decommission::Finished {
                reply: Reply {
                    status: 200,
                    body: Json::object().with("target", Json::String(target)).with(
                        "seconds",
                        Json::integer(PLAYDEAD_SECONDS as i64),
                    ),
                },
                failed: None,
            },
            (
                Decommission::PlayDead { run, .. },
                DemoEvent::Played(Err(e)),
            ) => Decommission::Finished { reply: err(502, e.message()), failed: Some(run) },
            (Decommission::Ask { run, .. }, _) => Decommission::Finished {
                reply: http::unavailable(),
                failed: Some(run),
            },
            (Decommission::PlayDead { run, .. }, _) => Decommission::Finished {
                reply: http::unavailable(),
                failed: Some(run),
            },
        }
    }
}

// ---------------------------------------------------------------------------
// Laws
// ---------------------------------------------------------------------------

/// A run that was told to ask first takes the target offline only on an allow.
pub proof fn law_an_asking_run_needs_an_allow(
    target: Seq<char>,
    run: u64,
    event: DemoEventView,
)
    requires
        DecommissionView::begun(target, Some(run), true).next(event) is PlayDead,
    ensures
        event matches DemoEventView::Evaluated(reply) && says_allow(reply),
{
}

/// An answer is an allow if and only if the decision is one.
pub proof fn law_an_answer_says_allow_if_the_decision_is_one(
    d: policy::DecisionView,
    entry: ledger::EntryView,
)
    ensures
        says_allow(evaluation::decision_reply(d, entry)) == (d.effect == Effect::Allow),
        !says_allow(http::unavailable_reply()),
{
    reveal_strlit("decision");
    reveal_strlit("reason");
    reveal_strlit("policy");
    reveal_strlit("entry");
    reveal_strlit("allow");
    reveal_strlit("refuse");
    assert("decision"@.len() == 8 && "reason"@.len() == 6 && "entry"@.len() == 5);
    assert("policy"@.len() == 6);
    assert("allow"@.len() != "refuse"@.len());
}

/// A run is given up if and only if it was started and the target does not play
/// dead: one that reached the target stays in flight, and one that did not frees
/// the place for another.
pub proof fn law_a_run_is_given_up_unless_the_target_plays_dead(
    target: Seq<char>,
    run: Option<u64>,
    ask: bool,
    events: Seq<DemoEventView>,
)
    requires
        DecommissionView::begun(target, run, ask).after(events) is Finished,
    ensures
        ({
            let start = DecommissionView::begun(target, run, ask);
            let played = exists|k: int| played_at(start, events, k);
            start.after(events).came_to_nothing() == if played {
                None
            } else {
                run
            }
        }),
    decreases events.len(),
{
    let start = DecommissionView::begun(target, run, ask);
    lemma_run_is_kept(target, run, ask, events);
    if events.len() > 0 {
        let n = events.len() - 1;
        let before = start.after(events.drop_last());
        assert(events.take(n) =~= events.drop_last());
        lemma_run_is_kept(target, run, ask, events.drop_last());
        if before is Finished {
            law_a_run_is_given_up_unless_the_target_plays_dead(
                target,
                run,
                ask,
                events.drop_last(),
            );
            assert forall|k: int| played_at(start, events, k) implies played_at(
                start,
                events.drop_last(),
                k,
            ) by {
                assert(events.drop_last().take(k) =~= events.take(k));
            }
            assert forall|k: int| played_at(start, events.drop_last(), k) implies played_at(
                start,
                events,
                k,
            ) by {
                assert(events.drop_last().take(k) =~= events.take(k));
            }
            if exists|k: int| played_at(start, events, k) {
                let k = choose|k: int| played_at(start, events, k);
                assert(played_at(start, events.drop_last(), k));
            }
            if exists|k: int| played_at(start, events.drop_last(), k) {
                let k = choose|k: int| played_at(start, events.drop_last(), k);
                assert(played_at(start, events, k));
            }
        } else {
            assert forall|k: int| played_at(start, events, k) implies k == n by {
                if k < n {
                    lemma_finished_stays(start, events, k + 1, n);
                    assert(events.take(k + 1).drop_last() =~= events.take(k));
                }
            }
            assert((exists|k: int| played_at(start, events, k)) == played_at(start, events, n));
        }
    }
}

/// Event `k` says that the target plays dead, when that was the question.
pub open spec fn played_at(start: DecommissionView, events: Seq<DemoEventView>, k: int) -> bool {
    &&& 0 <= k < events.len()
    &&& start.after(events.take(k)) is PlayDead
    &&& events[k] matches DemoEventView::Played(Ok(_))
}

/// What is finished stays as it is.
proof fn lemma_finished_stays(start: DecommissionView, events: Seq<DemoEventView>, k: int, n: int)
    requires
        0 <= k <= n <= events.len(),
        start.after(events.take(k)) is Finished,
    ensures
        start.after(events.take(n)) == start.after(events.take(k)),
    decreases n - k,
{
    if k < n {
        lemma_finished_stays(start, events, k, n - 1);
        assert(events.take(n).drop_last() =~= events.take(n - 1));
    }
}

/// A request keeps the run that it was started with.
proof fn lemma_run_is_kept(
    target: Seq<char>,
    run: Option<u64>,
    ask: bool,
    events: Seq<DemoEventView>,
)
    ensures
        match DecommissionView::begun(target, run, ask).after(events) {
            DecommissionView::Ask { run: r, .. } => run == Some(r),
            DecommissionView::PlayDead { run: r, .. } => run == Some(r),
            DecommissionView::Finished { failed, .. } => failed is Some ==> failed == run,
        },
    decreases events.len(),
{
    if events.len() > 0 {
        lemma_run_is_kept(target, run, ask, events.drop_last());
    }
}

/// What happens to the place of the run that is in flight.
pub enum FlightStep {
    /// A run is asked for.
    Start { now: u64 },
    /// A run is given up.
    GiveUp { run: u64 },
}

impl InFlight {
    /// After one step.
    pub open spec fn next(self, step: FlightStep) -> InFlight {
        match step {
            FlightStep::Start { now } => if self.idle(now) {
                self.started(now)
            } else {
                self
            },
            FlightStep::GiveUp { run } => self.without(run),
        }
    }

    /// After several steps.
    pub open spec fn after(self, steps: Seq<FlightStep>) -> InFlight
        decreases steps.len(),
    {
        if steps.len() == 0 {
            self
        } else {
            self.after(steps.drop_last()).next(steps.last())
        }
    }
}

/// Step `i` starts a run.
pub open spec fn starts_at(from: InFlight, steps: Seq<FlightStep>, i: int) -> bool {
    &&& 0 <= i < steps.len()
    &&& steps[i] matches FlightStep::Start { now } && from.after(steps.take(i)).idle(now)
}

/// The number of the run that step `i` starts.
pub open spec fn run_at(from: InFlight, steps: Seq<FlightStep>, i: int) -> u64 {
    from.after(steps.take(i + 1)).runs
}

/// The run that step `i` starts is given up before step `k`.
pub open spec fn given_up(from: InFlight, steps: Seq<FlightStep>, i: int, k: int) -> bool {
    exists|j: int|
        i < j < k && #[trigger] steps[j] == (FlightStep::GiveUp { run: run_at(from, steps, i) })
}

/// The clock does not go back from one start to a later one.
pub open spec fn in_order(steps: Seq<FlightStep>) -> bool {
    forall|i: int, j: int|
        0 <= i < j < steps.len() && (#[trigger] steps[i]) is Start && (#[trigger] steps[j]) is Start
            ==> steps[i]->now <= steps[j]->now
}

/// What the place tells of a run that was not given up: it is the last one and
/// has its time there, or its time is over.
proof fn lemma_flight(from: InFlight, steps: Seq<FlightStep>, i: int, k: int)
    requires
        in_order(steps),
        0 <= i < k <= steps.len(),
        starts_at(from, steps, i),
        !given_up(from, steps, i, k),
    ensures
        ({
            let place = from.after(steps.take(k));
            ||| place.runs == run_at(from, steps, i) && place.since == Some(steps[i]->now)
            ||| exists|j: int|
                i < j < k && (#[trigger] steps[j]) is Start && steps[j]->now - steps[i]->now
                    >= PLAYDEAD_SECONDS
        }),
    decreases k - i,
{
    assert(steps.take(k).drop_last() =~= steps.take(k - 1));
    if k == i + 1 {
        assert(steps.take(i + 1).last() == steps[i]);
    } else {
        assert(!given_up(from, steps, i, k - 1)) by {
            if given_up(from, steps, i, k - 1) {
                let j = choose|j: int|
                    i < j < k - 1 && #[trigger] steps[j] == (FlightStep::GiveUp {
                        run: run_at(from, steps, i),
                    });
                assert(i < j < k && steps[j] == (FlightStep::GiveUp {
                    run: run_at(from, steps, i),
                }));
            }
        }
        lemma_flight(from, steps, i, k - 1);
        let before = from.after(steps.take(k - 1));
        assert(steps.take(k).last() == steps[k - 1]);
        if before.runs == run_at(from, steps, i) && before.since == Some(steps[i]->now) {
            match steps[k - 1] {
                FlightStep::Start { now } => {},
                FlightStep::GiveUp { run } => {
                    assert(run != run_at(from, steps, i));
                },
            }
        } else {
            let j = choose|j: int|
                i < j < k - 1 && (#[trigger] steps[j]) is Start && steps[j]->now - steps[i]->now
                    >= PLAYDEAD_SECONDS;
            assert(i < j < k && steps[j] is Start);
        }
    }
}

/// No second run starts while one is in flight: whatever is started and given up
/// in whatever order, between two starts that succeed lie the 90 seconds of the
/// first, unless that very run was given up.
pub proof fn law_one_run_at_a_time(from: InFlight, steps: Seq<FlightStep>, i: int, k: int)
    requires
        in_order(steps),
        i < k,
        starts_at(from, steps, i),
        starts_at(from, steps, k),
    ensures
        steps[k]->now - steps[i]->now >= 90 || given_up(from, steps, i, k),
{
    if !given_up(from, steps, i, k) {
        lemma_flight(from, steps, i, k);
        let place = from.after(steps.take(k));
        if !(place.runs == run_at(from, steps, i) && place.since == Some(steps[i]->now)) {
            let j = choose|j: int|
                i < j < k && (#[trigger] steps[j]) is Start && steps[j]->now - steps[i]->now
                    >= PLAYDEAD_SECONDS;
            assert(steps[j]->now <= steps[k]->now);
        }
    }
}

/// A run that is over makes place for the next one.
pub proof fn law_the_next_run_may_start(place: InFlight, now: u64, later: u64)
    requires
        place.idle(now),
        later - now >= 90,
        place.runs + 1 < u64::MAX,
    ensures
        place.started(now).idle(later),
{
}

/// The request to play dead posts the seconds to `/playdead` at the host, and tells
/// the length of what it posts in bytes.
pub proof fn law_the_request_tells_host_and_seconds(host: Seq<char>, seconds: u32)
    ensures
        request_body(seconds) == "{\"seconds\":"@ + text::dec(seconds as nat) + "}"@,
        request_body(seconds).is_suffix_of(request_text(host, seconds)),
        ("POST /playdead HTTP/1.1\r\nHost: "@ + host).is_prefix_of(request_text(host, seconds)),
        request_text(host, seconds) == "POST /playdead HTTP/1.1\r\nHost: "@ + host
            + "\r\nContent-Type: application/json\r\nContent-Length: "@ + text::dec(
            encode_utf8("{\"seconds\":"@ + text::dec(seconds as nat) + "}"@).len(),
        ) + "\r\nConnection: close\r\n\r\n"@ + "{\"seconds\":"@ + text::dec(seconds as nat) + "}"@,
{
    let t = request_text(host, seconds);
    let body = request_body(seconds);
    let head = "POST /playdead HTTP/1.1\r\nHost: "@ + host;
    let rest = "\r\nContent-Type: application/json\r\nContent-Length: "@ + text::dec(
        encode_utf8(body).len(),
    ) + "\r\nConnection: close\r\n\r\n"@;
    assert(t =~= head + rest + body);
    assert(body =~= t.subrange(t.len() - body.len(), t.len() as int));
    assert(head =~= t.subrange(0, head.len() as int));
    assert(t =~= head + rest + "{\"seconds\":"@ + text::dec(seconds as nat) + "}"@);
    assert(t =~= "POST /playdead HTTP/1.1\r\nHost: "@ + host
        + "\r\nContent-Type: application/json\r\nContent-Length: "@ + text::dec(
        encode_utf8(body).len(),
    ) + "\r\nConnection: close\r\n\r\n"@ + "{\"seconds\":"@ + text::dec(seconds as nat) + "}"@);
}

/// A reply is a success by the bytes that it begins with, whatever follows them.
pub proof fn law_a_reply_is_judged_by_its_beginning(reply: Seq<u8>, more: Seq<u8>)
    ensures
        accepted(reply) <==> reply.len() >= encode_utf8("HTTP/1.1 200"@).len() && forall|i: int|
            0 <= i < encode_utf8("HTTP/1.1 200"@).len() ==> reply[i] == #[trigger] encode_utf8(
                "HTTP/1.1 200"@,
            )[i],
        accepted(reply) ==> accepted(reply + more),
        accepted(encode_utf8("HTTP/1.1 200"@) + more),
{
    let wanted = encode_utf8("HTTP/1.1 200"@);
    if reply.len() >= wanted.len() && forall|i: int|
        0 <= i < wanted.len() ==> reply[i] == #[trigger] wanted[i] {
        assert(wanted =~= reply.subrange(0, wanted.len() as int));
    }
    if accepted(reply) {
        assert(wanted =~= reply.subrange(0, wanted.len() as int));
        assert forall|i: int| 0 <= i < wanted.len() implies reply[i] == #[trigger] wanted[i] by {
            assert(reply.subrange(0, wanted.len() as int)[i] == reply[i]);
        }
        assert(wanted =~= (reply + more).subrange(0, wanted.len() as int));
    }
    assert(wanted =~= (wanted + more).subrange(0, wanted.len() as int));
}

/// Each way in which the target does not play dead is told in its own words.
pub proof fn law_errors_in_words(cause: String)
    ensures
        PlayDeadError::ConnectTimeout.text() == "connecting to the decommission target timed out"@,
        PlayDeadError::ReplyTimeout.text() == "the decommission target did not reply"@,
        PlayDeadError::Broken(cause).text() == cause@,
        PlayDeadError::Refused.text() == "decommission target refused"@,
{
}

/// A run may be started exactly if none was in the last 90 seconds that was not
/// given up, as long as there is a number for it. It has the next number and the
/// time of its start, and giving up makes place only for the run it names.
pub proof fn law_when_a_run_may_start(place: InFlight, now: u64, run: u64)
    ensures
        place.since is None && place.runs < u64::MAX ==> place.idle(now),
        place.since is Some && place.runs < u64::MAX ==> place.idle(now) == (now - place.since->0
            >= 90),
        place.idle(now) ==> place.runs < u64::MAX,
        place.idle(now) ==> place.started(now).runs == place.runs + 1,
        place.started(now).since == Some(now),
        place.without(run).runs == place.runs,
        run == place.runs ==> place.without(run).since is None,
        run != place.runs ==> place.without(run).since == place.since,
{
}

/// A request for which no run could be started is answered 409. Any other asks for
/// a decision first, or takes the target offline at once, as it was told.
pub proof fn law_how_a_request_starts(target: Seq<char>, run: u64, ask: bool)
    ensures
        DecommissionView::begun(target, None, ask).action() matches DemoActionView::Send(reply)
            && reply.status == 409 && reply.body.member("error"@) == Some(
            json::Doc::String("a decommission run is already in flight"@),
        ),
        DecommissionView::begun(target, None, ask).came_to_nothing() is None,
        ask ==> DecommissionView::begun(target, Some(run), ask) == (DecommissionView::Ask {
            target,
            run,
        }),
        !ask ==> DecommissionView::begun(target, Some(run), ask) == (DecommissionView::PlayDead {
            target,
            run,
        }),
{
}

/// What is asked is whether the console may stop the target, without params, and
/// the target is made to play dead for 90 seconds.
pub proof fn law_what_a_request_does(target: Seq<char>, run: u64)
    ensures
        (DecommissionView::Ask { target, run }).action() matches DemoActionView::Evaluate(req)
            && req.actor == Some("console"@) && req.action == Some("service.stop"@) && req.target
            == Some(target) && req.params is None,
        (DecommissionView::PlayDead { target, run }).action() matches DemoActionView::PlayDead {
            host,
            seconds,
        } && host == target && seconds == 90,
        (DecommissionView::Ask { target, run }).came_to_nothing() is None,
        (DecommissionView::PlayDead { target, run }).came_to_nothing() is None,
{
}

/// An allow takes the same target offline in the same run. Any other answer is
/// passed on as it is, and the run came to nothing.
pub proof fn law_what_an_answer_leads_to(target: Seq<char>, run: u64, reply: http::ReplyView)
    ensures
        ({
            let allowed = reply.status == 200 && reply.body.member("decision"@) == Some(
                json::Doc::String("allow"@),
            );
            let next = (DecommissionView::Ask { target, run }).next(
                DemoEventView::Evaluated(reply),
            );
            &&& allowed ==> next == (DecommissionView::PlayDead { target, run })
            &&& !allowed ==> next.action() == DemoActionView::Send(reply)
            &&& !allowed ==> next.came_to_nothing() == Some(run)
        }),
{
}

/// A target that plays dead is answered 200, with its name and for how long, and
/// the run stays in flight. One that does not is answered 502 with the reason, and
/// the run came to nothing.
pub proof fn law_what_playing_dead_leads_to(target: Seq<char>, run: u64, msg: Seq<char>)
    ensures
        ({
            let played = (DecommissionView::PlayDead { target, run }).next(
                DemoEventView::Played(Ok(())),
            );
            let failed = (DecommissionView::PlayDead { target, run }).next(
                DemoEventView::Played(Err(msg)),
            );
            &&& played.action() is Send
            &&& played.action()->Send_0.status == 200
            &&& played.action()->Send_0.body.member("target"@) == Some(json::Doc::String(target))
            &&& played.action()->Send_0.body.member("seconds"@) == Some(
                json::Doc::Number(text::int_text(90)),
            )
            &&& played.came_to_nothing() is None
            &&& failed.action() is Send
            &&& failed.action()->Send_0.status == 502
            &&& failed.action()->Send_0.body.member("error"@) == Some(json::Doc::String(msg))
            &&& failed.came_to_nothing() == Some(run)
        }),
{
    reveal_strlit("target");
    reveal_strlit("seconds");
    assert("target"@.len() != "seconds"@.len());
}

/// What does not answer what was asked for ends a request with 503, and its run
/// came to nothing. A request that has its reply keeps it.
pub proof fn law_what_does_not_answer_ends_a_request(v: DecommissionView, event: DemoEventView)
    ensures
        v is Finished ==> v.next(event) == v,
        v is Ask && !(event is Evaluated) ==> v.next(event).action() is Send && v.next(
            event,
        ).action()->Send_0.status == 503 && v.next(event).came_to_nothing() == Some(v->Ask_run),
        v is PlayDead && !(event is Played) ==> v.next(event).action() is Send && v.next(
            event,
        ).action()->Send_0.status == 503 && v.next(event).came_to_nothing() == Some(
            v->PlayDead_run,
        ),
{
}

/// A request only ever talks to the target that it was started with.
pub proof fn law_only_the_target_is_talked_to(
    target: Seq<char>,
    run: Option<u64>,
    ask: bool,
    events: Seq<DemoEventView>,
)
    ensures
        DecommissionView::begun(target, run, ask).after(events).action() matches
            DemoActionView::PlayDead { host, .. } ==> host == target,
        DecommissionView::begun(target, run, ask).after(events).action() matches
            DemoActionView::Evaluate(req) ==> req.target == Some(target),
    decreases events.len(),
{
    if events.len() > 0 {
        law_only_the_target_is_talked_to(target, run, ask, events.drop_last());
    }
}

/// Where a request stands, what it asks for and what it is told are what they
/// hold.
pub proof fn law_runs_are_their_fields(
    target: String,
    run: u64,
    reply: Reply,
    failed: Option<u64>,
    req: EvaluateReq,
    seconds: u32,
    error: PlayDeadError,
)
    ensures
        (Decommission::Ask { target, run })@ == (DecommissionView::Ask { target: target@, run }),
        (Decommission::PlayDead { target, run })@ == (DecommissionView::PlayDead {
            target: target@,
            run,
        }),
        (Decommission::Finished { reply, failed })@ == (DecommissionView::Finished {
            reply: reply@,
            failed,
        }),
        DemoAction::Evaluate(req)@ == DemoActionView::Evaluate(req@),
        (DemoAction::PlayDead { host: target, seconds })@ == (DemoActionView::PlayDead {
            host: target@,
            seconds,
        }),
        DemoAction::Send(reply)@ == DemoActionView::Send(reply@),
        DemoEvent::Evaluated(reply)@ == DemoEventView::Evaluated(reply@),
        DemoEvent::Played(Ok(()))@ == DemoEventView::Played(Ok(())),
        DemoEvent::Played(Err(error))@ == DemoEventView::Played(Err(error.text())),
{
}

} // verus!
