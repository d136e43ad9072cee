//! What follows from the outcome of one probe.
//!
//! A [`Watch`] says what has to be done next ([`Watch::action`]) and goes on
//! with how that went ([`Watch::step`]). A row of the model is only changed
//! under its lock, and an entry is only recorded once the row that it speaks of
//! has been stored: of several containers that see the same service come or go,
//! one records it.

use vstd::prelude::*;

use crate::ledger;
use crate::ledger::NewEntry;
use crate::probe;
use crate::probe::{flag, handle_failure, handle_success, refresh, Silence};
use crate::topology;
use crate::topology::TopoRow;

verus! {

/// What a row has to be stored for.
pub enum Follow {
    Nothing,
    /// The service is gone after so many failures.
    FindAllow(i32),
    /// The change is to be recorded.
    Record(NewEntry),
}

/// Where it has got to.
pub enum Watch {
    /// The row of the service is to be locked and read.
    Look { hostname: String, ok: bool },
    /// The locked row is to be stored. If that fails and `retry` is set, at
    /// least the answer of the service is to be noted.
    Store { row: TopoRow, then: Follow, retry: bool },
    /// The row is to be locked and read again, to note the answer alone.
    Refresh { hostname: String },
    /// An allow for the removal is to be looked for.
    FindAllow { hostname: String, failures: i32 },
    /// The row is to be locked and read again, to be marked.
    Claim { hostname: String, failures: i32, allow: Option<bool> },
    /// An entry is to be recorded.
    Record { entry: NewEntry },
    Done,
}

/// What has to be done.
pub enum WatchAction {
    /// Lock and read the row of a host.
    Lock(String),
    /// Store the row that is locked.
    Store(TopoRow),
    /// Look for an unspent allow for the removal of a host.
    FindAllow(String),
    Append(NewEntry),
    Nothing,
}

/// How it went.
pub enum WatchEvent {
    /// The row and the time, unless there is none or it could not be read.
    Locked(Option<(TopoRow, String)>),
    /// Whether the row was stored.
    Stored(bool),
    /// Whether there is an unspent allow, unless looking for one failed.
    Allowed(Option<bool>),
    /// Whether the entry was stored.
    Appended(bool),
}

/// What a [`Follow`] says.
pub enum FollowView {
    Nothing,
    FindAllow(int),
    Record(ledger::NewEntryView),
}

/// What a [`Watch`] is about.
pub enum WatchView {
    Look { hostname: Seq<char>, ok: bool },
    Store { row: topology::TopoRowView, then: FollowView, retry: bool },
    Refresh { hostname: Seq<char> },
    FindAllow { hostname: Seq<char>, failures: int },
    Claim { hostname: Seq<char>, failures: int, allow: Option<bool> },
    Record { entry: ledger::NewEntryView },
    Done,
}

/// What a [`WatchAction`] says.
pub enum WatchActionView {
    Lock(Seq<char>),
    Store(topology::TopoRowView),
    FindAllow(Seq<char>),
    Append(ledger::NewEntryView),
    Nothing,
}

/// What a [`WatchEvent`] says.
pub enum WatchEventView {
    Locked(Option<(topology::TopoRowView, Seq<char>)>),
    Stored(bool),
    Allowed(Option<bool>),
    Appended(bool),
}

impl View for Follow {
    type V = FollowView;

    open spec fn view(&self) -> FollowView {
        match *self {
            Follow::Nothing => FollowView::Nothing,
            Follow::FindAllow(n) => FollowView::FindAllow(n as int),
            Follow::Record(e) => FollowView::Record(e@),
        }
    }
}

impl View for Watch {
    type V = WatchView;

    open spec fn view(&self) -> WatchView {
        match *self {
            Watch::Look { hostname, ok } => WatchView::Look { hostname: hostname@, ok },
            Watch::Store { row, then, retry } => WatchView::Store {
                row: row@,
                then: then@,
                retry,
            },
            Watch::Refresh { hostname } => WatchView::Refresh { hostname: hostname@ },
            Watch::FindAllow { hostname, failures } => WatchView::FindAllow {
                hostname: hostname@,
                failures: failures as int,
            },
            Watch::Claim { hostname, failures, allow } => WatchView::Claim {
                hostname: hostname@,
                failures: failures as int,
                allow,
            },
            Watch::Record { entry } => WatchView::Record { entry: entry@ },
            Watch::Done => WatchView::Done,
        }
    }
}

impl View for WatchAction {
    type V = WatchActionView;

    open spec fn view(&self) -> WatchActionView {
        match *self {
            WatchAction::Lock(h) => WatchActionView::Lock(h@),
            WatchAction::Store(row) => WatchActionView::Store(row@),
            WatchAction::FindAllow(h) => WatchActionView::FindAllow(h@),
            WatchAction::Append(e) => WatchActionView::Append(e@),
            WatchAction::Nothing => WatchActionView::Nothing,
        }
    }
}

impl View for WatchEvent {
    type V = WatchEventView;

    open spec fn view(&self) -> WatchEventView {
        match *self {
            WatchEvent::Locked(Some(found)) => WatchEventView::Locked(Some((found.0@, found.1@))),
            WatchEvent::Locked(None) => WatchEventView::Locked(None),
            WatchEvent::Stored(ok) => WatchEventView::Stored(ok),
            WatchEvent::Allowed(found) => WatchEventView::Allowed(found),
            WatchEvent::Appended(ok) => WatchEventView::Appended(ok),
        }
    }
}

/// What an answer leads to, from the row of the service.
pub open spec fn on_answer(row: topology::TopoRowView, now: Seq<char>) -> WatchView {
    WatchView::Store {
        row: probe::answered(row, now),
        then: if probe::was_gone(row) {
            FollowView::Record(probe::reappear_entry(row.service.hostname))
        } else {
            FollowView::Nothing
        },
        retry: true,
    }
}

/// What a silence leads to, from the row of the service.
pub open spec fn on_silence(row: topology::TopoRowView, now: Seq<char>) -> WatchView {
    let after = probe::silent(row, now);
    if row.consecutive_failures == i32::MAX {
        WatchView::Done
    } else {
        WatchView::Store {
            row: after,
            then: if probe::gone(after) {
                FollowView::FindAllow(after.consecutive_failures)
            } else {
                FollowView::Nothing
            },
            retry: false,
        }
    }
}

/// What a removal that was looked up leads to, from the row of the service.
pub open spec fn on_verdict(
    row: topology::TopoRowView,
    failures: int,
    allow: Option<bool>,
    now: Seq<char>,
) -> WatchView {
    let audited = allow == Some(true);
    if row.status == topology::PRESENT@ {
        WatchView::Store {
            row: topology::claimed(row, audited, now),
            then: FollowView::Record(
                probe::removal_entry(row.service.hostname, failures, audited),
            ),
            retry: false,
        }
    } else {
        WatchView::Done
    }
}

impl WatchView {
    /// What has to be done next.
    pub open spec fn action(self) -> WatchActionView {
        match self {
            WatchView::Look { hostname, .. } => WatchActionView::Lock(hostname),
            WatchView::Store { row, .. } => WatchActionView::Store(row),
            WatchView::Refresh { hostname } => WatchActionView::Lock(hostname),
            WatchView::FindAllow { hostname, .. } => WatchActionView::FindAllow(hostname),
            WatchView::Claim { hostname, .. } => WatchActionView::Lock(hostname),
            WatchView::Record { entry } => WatchActionView::Append(entry),
            WatchView::Done => WatchActionView::Nothing,
        }
    }

    /// Where it gets to. Whatever goes wrong ends it: the next probe is due soon
    /// enough. Only a search for an allow that fails counts as one that found
    /// none, and an answer that could not be followed up is tried to be noted
    /// once more.
    pub open spec fn next(self, event: WatchEventView) -> WatchView {
        match (self, event) {
            (WatchView::Look { ok, .. }, WatchEventView::Locked(Some((row, now)))) => if ok {
                on_answer(row, now)
            } else {
                on_silence(row, now)
            },
            (
                WatchView::Look { hostname, ok: true },
                WatchEventView::Locked(None),
            ) => WatchView::Refresh { hostname },
            (
                WatchView::Store { row, retry: true, .. },
                WatchEventView::Stored(false),
            ) => WatchView::Refresh { hostname: row.service.hostname },
            (
                WatchView::Refresh { .. },
                WatchEventView::Locked(Some((row, now))),
            ) => WatchView::Store {
                row: probe::refreshed(row, now),
                then: FollowView::Nothing,
                retry: false,
            },
            (WatchView::Store { row, then, .. }, WatchEventView::Stored(true)) => match then {
                FollowView::Nothing => WatchView::Done,
                FollowView::FindAllow(failures) => WatchView::FindAllow {
                    hostname: row.service.hostname,
                    failures,
                },
                FollowView::Record(entry) => WatchView::Record { entry },
            },
            (
                WatchView::FindAllow { hostname, failures },
                WatchEventView::Allowed(allow),
            ) => WatchView::Claim { hostname, failures, allow },
            (
                WatchView::Claim { failures, allow, .. },
                WatchEventView::Locked(Some((row, now))),
            ) => on_verdict(row, failures, allow, now),
            _ => WatchView::Done,
        }
    }

    /// Where it gets to over several events.
    pub open spec fn after(self, events: Seq<WatchEventView>) -> WatchView
        decreases events.len(),
    {
        if events.len() == 0 {
            self
        } else {
            self.after(events.drop_last()).next(events.last())
        }
    }
}

impl Watch {
    /// Takes up the outcome of a probe, `ok` if the host answered.
    pub fn begin(hostname: String, ok: bool) -> (r: Watch)
        ensures
            r@ == (WatchView::Look { hostname: hostname@, ok }),
    {
        Watch::Look { hostname, ok }
    }

    /// What has to be done next.
    pub fn action(&self) -> (r: WatchAction)
        ensures
            r@ == self@.action(),
    {
        match self {
            Watch::Look { hostname, .. } => WatchAction::Lock(hostname.clone()),
            Watch::Store { row, .. } => WatchAction::Store(row.clone()),
            Watch::Refresh { hostname } => WatchAction::Lock(hostname.clone()),
            Watch::FindAllow { hostname, .. } => WatchAction::FindAllow(hostname.clone()),
            Watch::Claim { hostname, .. } => WatchAction::Lock(hostname.clone()),
            Watch::Record { entry } => WatchAction::Append(entry.clone()),
            Watch::Done => WatchAction::Nothing,
        }
    }

    /// Goes on with how the last action went.
    pub fn step(self, event: WatchEvent) -> (r: Watch)
        ensures
            r@ == self@.next(event@),
    {
        match (self, event) {
            (Watch::Look { ok, .. }, WatchEvent::Locked(Some(found))) => {
                let (read, now) = found;
                let mut row = read;
                if ok {
                    let then = match handle_success(&mut row, now.as_str()) {
                        Some(entry) => Follow::Record(entry),
                        None => Follow::Nothing,
                    };
                    Watch::Store { row, then, retry: true }
                } else {
                    match handle_failure(&mut row, now.as_str()) {
                        Silence::Overflow => Watch::Done,
                        Silence::Counted => Watch::Store {
                            row,
                            then: Follow::Nothing,
                            retry: false,
                        },
                        Silence::Gone(n) => Watch::Store {
                            row,
                            then: Follow::FindAllow(n),
                            retry: false,
                        },
                    }
                }
            },
            (Watch::Look { hostname, ok: true }, WatchEvent::Locked(None)) => Watch::Refresh {
                hostname,
            },
            (Watch::Store { row, retry: true, .. }, WatchEvent::Stored(false)) => Watch::Refresh {
                hostname: row.hostname,
            },
            (Watch::Refresh { .. }, WatchEvent::Locked(Some(found))) => {
                let (read, now) = found;
                let mut row = read;
                refresh(&mut row, now.as_str());
                Watch::Store { row, then: Follow::Nothing, retry: false }
            },
            (Watch::Store { row, then, .. }, WatchEvent::Stored(true)) => match then {
                Follow::Nothing => Watch::Done,
                Follow::FindAllow(failures) => Watch::FindAllow {
                    hostname: row.hostname,
                    failures,
                },
                Follow::Record(entry) => Watch::Record { entry },
            },
            (
                Watch::FindAllow { hostname, failures },
                WatchEvent::Allowed(allow),
            ) => Watch::Claim { hostname, failures, allow },
            (Watch::Claim { failures, allow, .. }, WatchEvent::Locked(Some(found))) => {
                let (read, now) = found;
                let mut row = read;
                match flag(&mut row, failures, allow, now.as_str()) {
                    Some(entry) => Watch::Store {
                        row,
                        then: Follow::Record(entry),
                        retry: false,
                    },
                    None => Watch::Done,
                }
            },
            _ => Watch::Done,
        }
    }
}

// ---------------------------------------------------------------------------
// Laws
// ---------------------------------------------------------------------------

/// The entry tells of just the change that the row shows: the return of its
/// service, or its removal, audited or not.
pub open spec fn tells_of(entry: ledger::NewEntryView, row: topology::TopoRowView) -> bool {
    let host = row.service.hostname;
    ||| row.status == topology::PRESENT@ && entry == probe::reappear_entry(host)
    ||| exists|failures: int, audited: bool|
        row.status == topology::removed_status(audited) && entry == #[trigger] probe::removal_entry(
            host,
            failures,
            audited,
        )
}

impl WatchView {
    /// What is to be recorded is what the row to store shows, and an allow is
    /// looked for only for a service that is gone.
    pub open spec fn consistent(self) -> bool {
        match self {
            WatchView::Store { row, then: FollowView::Record(entry), .. } => tells_of(entry, row),
            WatchView::Store { row, then: FollowView::FindAllow(failures), .. } => probe::gone(row)
                && failures == row.consecutive_failures,
            WatchView::FindAllow { failures, .. } => failures >= probe::FAILURE_LIMIT,
            WatchView::Claim { failures, .. } => failures >= probe::FAILURE_LIMIT,
            _ => true,
        }
    }
}

/// Whatever happens after a probe, the ledger is only told of a change that the
/// model shows, and no service is marked before its third failure.
pub proof fn law_what_is_recorded_is_what_is_stored(
    hostname: Seq<char>,
    ok: bool,
    events: Seq<WatchEventView>,
)
    ensures
        (WatchView::Look { hostname, ok }).after(events).consistent(),
    decreases events.len(),
{
    if events.len() > 0 {
        law_what_is_recorded_is_what_is_stored(hostname, ok, events.drop_last());
        let before = (WatchView::Look { hostname, ok }).after(events.drop_last());
        if let (
            WatchView::Claim { failures, allow, .. },
            WatchEventView::Locked(Some((row, now))),
        ) = (before, events.last()) {
            let audited = allow == Some(true);
            assert(tells_of(
                probe::removal_entry(row.service.hostname, failures, audited),
                topology::claimed(row, audited, now),
            ) || row.status != topology::PRESENT@);
        }
    }
}

/// An entry is handed over to be recorded only when the row that shows the
/// change has been stored.
pub proof fn law_no_record_without_a_stored_row(v: WatchView, event: WatchEventView)
    requires
        v.next(event) is Record,
    ensures
        v matches WatchView::Store { then: FollowView::Record(entry), .. } && v.next(event) == (
        WatchView::Record { entry }),
        event == WatchEventView::Stored(true),
{
}

/// An answer whose follow-up could not be stored is still noted if the database
/// is back by then, with the status of the service left for the next probe.
pub proof fn law_an_answer_is_noted_on_the_second_try(
    hostname: Seq<char>,
    first: topology::TopoRowView,
    row: topology::TopoRowView,
    now: Seq<char>,
    later: Seq<char>,
)
    ensures
        ({
            let look = WatchView::Look { hostname, ok: true };
            let unread = look.next(WatchEventView::Locked(None));
            let unstored = look.next(WatchEventView::Locked(Some((first, now)))).next(
                WatchEventView::Stored(false),
            );
            &&& unread.action() == WatchActionView::Lock(hostname)
            &&& unstored.action() == WatchActionView::Lock(first.service.hostname)
            &&& unread.next(WatchEventView::Locked(Some((row, later)))).action()
                == WatchActionView::Store(probe::refreshed(row, later))
            &&& unstored.next(WatchEventView::Locked(Some((row, later)))).action()
                == WatchActionView::Store(probe::refreshed(row, later))
        }),
{
}

/// A transition that another container has already made is left alone: nothing
/// is stored and nothing is recorded.
pub proof fn law_a_transition_is_recorded_once(
    v: WatchView,
    row: topology::TopoRowView,
    now: Seq<char>,
)
    requires
        v is Claim,
        row.status != topology::PRESENT@,
    ensures
        v.next(WatchEventView::Locked(Some((row, now)))) == WatchView::Done,
{
}

/// The third failure of a service that counts as present leads to its removal
/// being looked up, marked and recorded: as audited if and only if an allow was
/// found.
pub proof fn law_the_third_failure_is_followed_up(
    hostname: Seq<char>,
    row: topology::TopoRowView,
    now: Seq<char>,
    allow: Option<bool>,
    later: Seq<char>,
)
    requires
        row.status == topology::PRESENT@,
        2 <= row.consecutive_failures < i32::MAX,
    ensures
        ({
            let audited = allow == Some(true);
            let host = row.service.hostname;
            let counted = probe::silent(row, now);
            let store = (WatchView::Look { hostname, ok: false }).next(
                WatchEventView::Locked(Some((row, now))),
            );
            let find = store.next(WatchEventView::Stored(true));
            let claim = find.next(WatchEventView::Allowed(allow));
            let mark = claim.next(WatchEventView::Locked(Some((counted, later))));
            let record = mark.next(WatchEventView::Stored(true));
            &&& store.action() == WatchActionView::Store(counted)
            &&& find.action() == WatchActionView::FindAllow(host)
            &&& claim.action() == WatchActionView::Lock(host)
            &&& mark.action() == WatchActionView::Store(
                topology::claimed(counted, audited, later),
            )
            &&& record.action() == WatchActionView::Append(
                probe::removal_entry(host, row.consecutive_failures + 1, audited),
            )
        }),
{
}

// ---------------------------------------------------------------------------
// What a probe leads to, step by step
// ---------------------------------------------------------------------------

/// The outcome of a probe starts with the row of its host being locked.
pub proof fn law_a_probe_locks_the_row_of_its_host(hostname: Seq<char>, ok: bool)
    ensures
        (WatchView::Look { hostname, ok }).action() == WatchActionView::Lock(hostname),
{
}

/// An answer is stored with the row: the service is as it was listed, answered at
/// the time that was given and has no failures, and one that was gone is present
/// again. That return, and nothing else, is recorded once the row is stored.
pub proof fn law_what_an_answer_leads_to(
    hostname: Seq<char>,
    row: topology::TopoRowView,
    now: Seq<char>,
)
    ensures
        ({
            let store = (WatchView::Look { hostname, ok: true }).next(
                WatchEventView::Locked(Some((row, now))),
            );
            let stored = store.next(WatchEventView::Stored(true));
            let back = row.status == "missing-unaudited"@ || row.status == "removed-audited"@;
            &&& store.action() is Store
            &&& store.action()->Store_0.service == row.service
            &&& store.action()->Store_0.probe_ok
            &&& store.action()->Store_0.consecutive_failures == 0
            &&& store.action()->Store_0.last_probe == Some(now)
            &&& store.action()->Store_0.updated_at == now
            &&& store.action()->Store_0.status == if back {
                "present"@
            } else {
                row.status
            }
            &&& back ==> stored.action() is Append
            &&& back ==> stored.action()->Append_0.target == row.service.hostname
            &&& back ==> stored.action()->Append_0.kind == "system"@
            &&& back ==> stored.action()->Append_0.action == "probe.reappear"@
            &&& !back ==> stored.action() == WatchActionView::Nothing
        }),
{
}

/// A silence is stored with the row: the service is as it was listed, its status
/// too, and one failure more is counted. From the third one on, a service that is
/// present is looked up in the ledger once the row is stored, and nothing else
/// happens. A counter that is full is left alone.
pub proof fn law_what_a_silence_leads_to(
    hostname: Seq<char>,
    row: topology::TopoRowView,
    now: Seq<char>,
)
    ensures
        ({
            let store = (WatchView::Look { hostname, ok: false }).next(
                WatchEventView::Locked(Some((row, now))),
            );
            let stored = store.next(WatchEventView::Stored(true));
            let gone = row.consecutive_failures + 1 >= 3 && row.status == "present"@;
            &&& row.consecutive_failures == 2147483647 ==> store.action()
                == WatchActionView::Nothing
            &&& row.consecutive_failures != 2147483647 ==> {
                &&& store.action() is Store
                &&& store.action()->Store_0.service == row.service
                &&& !store.action()->Store_0.probe_ok
                &&& store.action()->Store_0.consecutive_failures == row.consecutive_failures + 1
                &&& store.action()->Store_0.last_probe == Some(now)
                &&& store.action()->Store_0.updated_at == now
                &&& store.action()->Store_0.status == row.status
                &&& gone ==> stored.action() == WatchActionView::FindAllow(row.service.hostname)
                &&& gone ==> stored == (WatchView::FindAllow {
                    hostname: row.service.hostname,
                    failures: row.consecutive_failures + 1,
                })
                &&& !gone ==> stored.action() == WatchActionView::Nothing
            }
        }),
{
}

/// What the ledger says of an allow is carried to the row, locked again, of the
/// same host. A row that is still present is marked, as audited exactly if an allow
/// was found, and that is recorded once it is stored; any other row is left alone.
pub proof fn law_what_a_verdict_leads_to(
    hostname: Seq<char>,
    failures: int,
    allow: Option<bool>,
    row: topology::TopoRowView,
    now: Seq<char>,
)
    ensures
        ({
            let claim = (WatchView::FindAllow { hostname, failures }).next(
                WatchEventView::Allowed(allow),
            );
            let mark = claim.next(WatchEventView::Locked(Some((row, now))));
            let record = mark.next(WatchEventView::Stored(true));
            &&& (WatchView::FindAllow { hostname, failures }).action()
                == WatchActionView::FindAllow(hostname)
            &&& claim.action() == WatchActionView::Lock(hostname)
            &&& row.status != "present"@ ==> mark.action() == WatchActionView::Nothing
            &&& row.status == "present"@ ==> {
                &&& mark.action() is Store
                &&& mark.action()->Store_0.service == row.service
                &&& mark.action()->Store_0.probe_ok == row.probe_ok
                &&& mark.action()->Store_0.consecutive_failures == row.consecutive_failures
                &&& mark.action()->Store_0.last_probe == row.last_probe
                &&& mark.action()->Store_0.updated_at == now
                &&& mark.action()->Store_0.status == if allow == Some(true) {
                    "removed-audited"@
                } else {
                    "missing-unaudited"@
                }
                &&& record.action() is Append
                &&& record.action()->Append_0 == probe::removal_entry(
                    row.service.hostname,
                    failures,
                    allow == Some(true),
                )
                &&& record.action()->Append_0.target == row.service.hostname
                &&& record.action()->Append_0.kind == if allow == Some(true) {
                    "audit"@
                } else {
                    "drift"@
                }
            }
        }),
{
}

/// A silence that cannot be read or stored is dropped, and so is everything after
/// it. An answer that cannot be is tried once more, for the same host.
pub proof fn law_what_cannot_be_stored_is_dropped(
    hostname: Seq<char>,
    row: topology::TopoRowView,
    now: Seq<char>,
    failures: int,
    allow: Option<bool>,
)
    ensures
        (WatchView::Look { hostname, ok: false }).next(WatchEventView::Locked(None)).action()
            == WatchActionView::Nothing,
        (WatchView::Look { hostname, ok: false }).next(
            WatchEventView::Locked(Some((row, now))),
        ).next(WatchEventView::Stored(false)).action() == WatchActionView::Nothing,
        (WatchView::Claim { hostname, failures, allow }).next(
            WatchEventView::Locked(None),
        ).action() == WatchActionView::Nothing,
        (WatchView::Claim { hostname, failures, allow }).next(
            WatchEventView::Locked(Some((row, now))),
        ).next(WatchEventView::Stored(false)).action() == WatchActionView::Nothing,
        (WatchView::Look { hostname, ok: true }).next(WatchEventView::Locked(None)).action()
            == WatchActionView::Lock(hostname),
        (WatchView::Look { hostname, ok: true }).next(
            WatchEventView::Locked(Some((row, now))),
        ).next(WatchEventView::Stored(false)).action() == WatchActionView::Lock(
            row.service.hostname,
        ),
{
}

/// On the second try an answer is noted with the row, and its status is left as it
/// is. There is no third try, and nothing is recorded.
pub proof fn law_what_a_second_try_leads_to(
    hostname: Seq<char>,
    row: topology::TopoRowView,
    now: Seq<char>,
    ok: bool,
)
    ensures
        ({
            let again = WatchView::Refresh { hostname };
            let store = again.next(WatchEventView::Locked(Some((row, now))));
            &&& again.action() == WatchActionView::Lock(hostname)
            &&& again.next(WatchEventView::Locked(None)).action() == WatchActionView::Nothing
            &&& store.action() is Store
            &&& store.action()->Store_0.service == row.service
            &&& store.action()->Store_0.probe_ok
            &&& store.action()->Store_0.consecutive_failures == 0
            &&& store.action()->Store_0.last_probe == Some(now)
            &&& store.action()->Store_0.updated_at == now
            &&& store.action()->Store_0.status == row.status
            &&& store.next(WatchEventView::Stored(ok)).action() == WatchActionView::Nothing
        }),
{
}

/// When an entry was handed over, there is nothing left to do, and nothing ever
/// comes up again.
pub proof fn law_a_record_is_the_end(
    entry: ledger::NewEntryView,
    event: WatchEventView,
    later: WatchEventView,
)
    ensures
        (WatchView::Record { entry }).action() == WatchActionView::Append(entry),
        (WatchView::Record { entry }).next(event).action() == WatchActionView::Nothing,
        WatchView::Done.action() == WatchActionView::Nothing,
        WatchView::Done.next(event).action() == WatchActionView::Nothing,
        (WatchView::Record { entry }).next(event).next(later).action() == WatchActionView::Nothing,
{
}

/// Whatever rows are read, what is recorded of a probe speaks of a service whose
/// row was read, under its own name: the entry names the host of the row that was
/// stored before it.
pub proof fn law_an_entry_names_the_host_of_its_row(
    hostname: Seq<char>,
    ok: bool,
    events: Seq<WatchEventView>,
)
    ensures
        (WatchView::Look { hostname, ok }).after(events) matches WatchView::Store {
            row,
            then: FollowView::Record(entry),
            ..
        } ==> entry.target == row.service.hostname && !entry.authenticated && (entry.kind
            == "system"@ && row.status == "present"@ || entry.kind == "audit"@ && row.status
            == "removed-audited"@ || entry.kind == "drift"@ && row.status == "missing-unaudited"@),
{
    law_what_is_recorded_is_what_is_stored(hostname, ok, events);
}

/// Where a watch stands, what it asks for and what it is told are what they hold.
pub proof fn law_watches_are_their_fields(
    hostname: String,
    ok: bool,
    row: TopoRow,
    now: String,
    then: Follow,
    retry: bool,
    failures: i32,
    allow: Option<bool>,
    entry: NewEntry,
)
    ensures
        (Watch::Look { hostname, ok })@ == (WatchView::Look { hostname: hostname@, ok }),
        (Watch::Store { row, then, retry })@ == (WatchView::Store {
            row: row@,
            then: then@,
            retry,
        }),
        (Watch::Refresh { hostname })@ == (WatchView::Refresh { hostname: hostname@ }),
        (Watch::FindAllow { hostname, failures })@ == (WatchView::FindAllow {
            hostname: hostname@,
            failures: failures as int,
        }),
        (Watch::Claim { hostname, failures, allow })@ == (WatchView::Claim {
            hostname: hostname@,
            failures: failures as int,
            allow,
        }),
        (Watch::Record { entry })@ == (WatchView::Record { entry: entry@ }),
        Watch::Done@ == WatchView::Done,
        Follow::Nothing@ == FollowView::Nothing,
        Follow::FindAllow(failures)@ == FollowView::FindAllow(failures as int),
        Follow::Record(entry)@ == FollowView::Record(entry@),
        WatchAction::Lock(hostname)@ == WatchActionView::Lock(hostname@),
        WatchAction::Store(row)@ == WatchActionView::Store(row@),
        WatchAction::FindAllow(hostname)@ == WatchActionView::FindAllow(hostname@),
        WatchAction::Append(entry)@ == WatchActionView::Append(entry@),
        WatchAction::Nothing@ == WatchActionView::Nothing,
        WatchEvent::Locked(Some((row, now)))@ == WatchEventView::Locked(Some((row@, now@))),
        WatchEvent::Locked(None)@ == WatchEventView::Locked(None),
        WatchEvent::Stored(ok)@ == WatchEventView::Stored(ok),
        WatchEvent::Allowed(allow)@ == WatchEventView::Allowed(allow),
        WatchEvent::Appended(ok)@ == WatchEventView::Appended(ok),
{
}

} // verus!
