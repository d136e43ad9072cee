//! What a sync makes of the whole topology table.
//!
//! The table is taken as a map from hostnames to rows, and a sync as a course of
//! events in which it is the only one to write to it.

use vstd::prelude::*;

use crate::lists;
use crate::sync;
use crate::topology;

verus! {

/// The row of a host, if the table has one.
pub open spec fn row_of(
    table: Map<Seq<char>, topology::TopoRowView>,
    host: Seq<char>,
) -> Option<topology::TopoRowView> {
    if table.contains_key(host) {
        Some(table[host])
    } else {
        None
    }
}

/// The table after an action of a sync was carried out: storing a service and
/// marking a host each write one row, anything else writes none.
pub open spec fn written(
    table: Map<Seq<char>, topology::TopoRowView>,
    action: sync::SyncActionView,
    now: Seq<char>,
) -> Map<Seq<char>, topology::TopoRowView> {
    match action {
        sync::SyncActionView::Upsert(service) => table.insert(
            service.hostname,
            topology::restored(row_of(table, service.hostname), service, now),
        ),
        sync::SyncActionView::Mark { hostname, audited } => if table.contains_key(hostname) {
            table.insert(hostname, topology::claimed(table[hostname], audited, now))
        } else {
            table
        },
        _ => table,
    }
}

/// What the events say, without their times.
pub open spec fn said(events: Seq<(sync::SyncEventView, Seq<char>)>) -> Seq<sync::SyncEventView> {
    Seq::new(events.len(), |i: int| events[i].0)
}

/// The table after some events, each with its time: an action was carried out if
/// the event says that it was stored.
pub open spec fn table_after(
    start: sync::SyncView,
    table: Map<Seq<char>, topology::TopoRowView>,
    events: Seq<(sync::SyncEventView, Seq<char>)>,
) -> Map<Seq<char>, topology::TopoRowView>
    decreases events.len(),
{
    if events.len() == 0 {
        table
    } else {
        let before = table_after(start, table, events.drop_last());
        let state = start.after(said(events.drop_last()));
        if events.last().0 == sync::SyncEventView::Stored(true) {
            written(before, state.action(), events.last().1)
        } else {
            before
        }
    }
}

/// The last of the first `n` services with a hostname.
pub open spec fn last_listed(
    services: Seq<topology::ServiceView>,
    n: nat,
    host: Seq<char>,
) -> topology::ServiceView
    decreases n,
{
    if n == 0 || services[n - 1].hostname == host {
        services[n - 1]
    } else {
        last_listed(services, (n - 1) as nat, host)
    }
}

/// The removal of a host has been judged.
pub open spec fn judged_gone(
    plan: sync::PlanView,
    verdicts: Seq<bool>,
    host: Seq<char>,
    j: int,
) -> bool {
    0 <= j < verdicts.len() && plan.gone[j] == host
}

/// The row of a host is as the sync leaves it once it has stored the first `n`
/// services and marked the hosts that it has verdicts for: restored if the
/// snapshot lists the host, marked if the host is gone, untouched otherwise.
pub open spec fn settled(
    before: Map<Seq<char>, topology::TopoRowView>,
    after: Map<Seq<char>, topology::TopoRowView>,
    plan: sync::PlanView,
    n: nat,
    verdicts: Seq<bool>,
    host: Seq<char>,
) -> bool {
    if sync::listed(plan.services.take(n as int), host) {
        exists|now: Seq<char>|
            row_of(after, host) == Some(
                #[trigger] topology::restored(
                    row_of(before, host),
                    last_listed(plan.services, n, host),
                    now,
                ),
            )
    } else if before.contains_key(host) && exists|j: int| judged_gone(plan, verdicts, host, j) {
        exists|j: int, now: Seq<char>|
            judged_gone(plan, verdicts, host, j) && row_of(after, host) == Some(
                #[trigger] topology::claimed(before[host], verdicts[j], now),
            )
    } else {
        row_of(after, host) == row_of(before, host)
    }
}

/// The rows of a list are those of the table, each once.
pub open spec fn lists_table(
    rows: Seq<topology::TopoRowView>,
    table: Map<Seq<char>, topology::TopoRowView>,
) -> bool {
    &&& forall|i: int|
        0 <= i < rows.len() ==> row_of(table, (#[trigger] rows[i]).service.hostname) == Some(
            rows[i],
        )
    &&& forall|host: Seq<char>| #[trigger]
        table.contains_key(host) ==> sync::modelled(rows, host)
    &&& forall|i: int, j: int|
        0 <= i < j < rows.len() ==> (#[trigger] rows[i]).service.hostname != (
        #[trigger] rows[j]).service.hostname
}

/// No host is gone twice, and none that is gone is listed.
pub open spec fn sound(plan: sync::PlanView) -> bool {
    &&& forall|i: int, j: int|
        0 <= i < plan.gone.len() && 0 <= j < plan.gone.len() && plan.gone[i] == plan.gone[j] ==> i
            == j
    &&& forall|i: int| 0 <= i < plan.gone.len() ==> !sync::listed(plan.services, plan.gone[i])
}

/// One of the first `n` rows is of a host and is missing from the snapshot.
spec fn from_missing(
    services: Seq<topology::ServiceView>,
    rows: Seq<topology::TopoRowView>,
    n: nat,
    host: Seq<char>,
) -> bool {
    exists|i: int|
        0 <= i < n && sync::missing(services, #[trigger] rows[i]) && rows[i].service.hostname
            == host
}

/// The hosts that are gone come from different rows.
proof fn lemma_gone_rows(
    services: Seq<topology::ServiceView>,
    rows: Seq<topology::TopoRowView>,
    n: nat,
)
    requires
        n <= rows.len(),
        forall|i: int, j: int|
            0 <= i < j < rows.len() ==> (#[trigger] rows[i]).service.hostname != (
            #[trigger] rows[j]).service.hostname,
    ensures
        forall|k: int|
            0 <= k < sync::gone_hosts(services, rows, n).len() ==> from_missing(
                services,
                rows,
                n,
                #[trigger] sync::gone_hosts(services, rows, n)[k],
            ),
        forall|k: int, l: int|
            0 <= k < sync::gone_hosts(services, rows, n).len() && 0 <= l < sync::gone_hosts(
                services,
                rows,
                n,
            ).len() && #[trigger] sync::gone_hosts(services, rows, n)[k]
                == #[trigger] sync::gone_hosts(services, rows, n)[l] ==> k == l,
    decreases n,
{
    if n > 0 {
        let m = (n - 1) as nat;
        lemma_gone_rows(services, rows, m);
        let before = sync::gone_hosts(services, rows, m);
        let gone = sync::gone_hosts(services, rows, n);
        let last = rows[m as int];
        assert forall|k: int| 0 <= k < gone.len() implies from_missing(
            services,
            rows,
            n,
            #[trigger] gone[k],
        ) by {
            if k < before.len() {
                assert(from_missing(services, rows, m, before[k]));
                let i = choose|i: int|
                    0 <= i < m && sync::missing(services, #[trigger] rows[i])
                        && rows[i].service.hostname == before[k];
                assert(sync::missing(services, rows[i]));
            } else {
                assert(sync::missing(services, rows[m as int]));
            }
        }
        assert(!from_missing(services, rows, m, last.service.hostname)) by {
            if from_missing(services, rows, m, last.service.hostname) {
                let i = choose|i: int|
                    0 <= i < m && sync::missing(services, #[trigger] rows[i])
                        && rows[i].service.hostname == last.service.hostname;
                assert(rows[i].service.hostname != rows[m as int].service.hostname);
            }
        }
        assert forall|k: int, l: int|
            0 <= k < gone.len() && 0 <= l < gone.len() && #[trigger] gone[k]
                == #[trigger] gone[l] implies k == l by {
            if k < before.len() {
                assert(gone[k] == before[k] && from_missing(services, rows, m, before[k]));
            }
            if l < before.len() {
                assert(gone[l] == before[l] && from_missing(services, rows, m, before[l]));
            }
        }
    }
}

/// A plan that was made from a table is sound.
proof fn lemma_planned_is_sound(
    services: Seq<topology::ServiceView>,
    rows: Seq<topology::TopoRowView>,
    table: Map<Seq<char>, topology::TopoRowView>,
)
    requires
        lists_table(rows, table),
    ensures
        sound(sync::planned(services, rows)),
{
    lemma_gone_rows(services, rows, rows.len());
    let plan = sync::planned(services, rows);
    assert forall|k: int| 0 <= k < plan.gone.len() implies !sync::listed(
        services,
        plan.gone[k],
    ) by {
        assert(from_missing(services, rows, rows.len(), plan.gone[k]));
    }
}

/// How much of a plan has been carried out, in a state that follows it.
pub open spec fn follows(v: sync::SyncView, plan: sync::PlanView) -> bool {
    match v {
        sync::SyncView::Upsert { plan: p, .. } => p == plan,
        sync::SyncView::Judge { plan: p, .. } => p == plan,
        sync::SyncView::Mark { plan: p, .. } => p == plan,
        sync::SyncView::Record { plan: p, .. } => p == plan,
        sync::SyncView::Summarize { plan: p, .. } => p == plan,
        sync::SyncView::Finished { .. } => true,
        _ => false,
    }
}

/// How many services have been stored.
pub open spec fn stored_so_far(v: sync::SyncView, plan: sync::PlanView) -> nat {
    match v {
        sync::SyncView::Upsert { next, .. } => next,
        _ => plan.services.len(),
    }
}

/// The verdicts that hosts have been marked by.
pub open spec fn marked_so_far(v: sync::SyncView) -> Seq<bool> {
    match v {
        sync::SyncView::Judge { verdicts, .. } => verdicts,
        sync::SyncView::Mark { verdicts, .. } => verdicts,
        sync::SyncView::Record { verdicts, audited, .. } => verdicts.push(audited),
        sync::SyncView::Summarize { verdicts, .. } => verdicts,
        _ => Seq::empty(),
    }
}

/// A sync that has its plan keeps to it.
proof fn lemma_follows(plan: sync::PlanView, events: Seq<sync::SyncEventView>)
    ensures
        follows(sync::SyncView::storing(plan, 0).after(events), plan),
        sync::SyncView::storing(plan, 0).after(events).under_way(),
    decreases events.len(),
{
    sync::lemma_remaining(sync::SyncView::storing(plan, 0), events);
    if events.len() > 0 {
        lemma_follows(plan, events.drop_last());
    }
}

/// One more service of a snapshot.
proof fn lemma_listed_step(services: Seq<topology::ServiceView>, n: nat, host: Seq<char>)
    requires
        n < services.len(),
    ensures
        sync::listed(services.take((n + 1) as int), host) == (sync::listed(services.take(n as int), host)
            || services[n as int].hostname == host),
{
    let shorter = services.take(n as int);
    let longer = services.take((n + 1) as int);
    if sync::listed(shorter, host) {
        let i = choose|i: int| 0 <= i < shorter.len() && (#[trigger] shorter[i]).hostname == host;
        assert(longer[i].hostname == host);
    }
    if services[n as int].hostname == host {
        assert(longer[n as int].hostname == host);
    }
    if sync::listed(longer, host) {
        let i = choose|i: int| 0 <= i < longer.len() && (#[trigger] longer[i]).hostname == host;
        if i < n {
            assert(shorter[i].hostname == host);
        }
    }
}

/// Where the table has got to when a sync has not failed.
proof fn lemma_settled(
    plan: sync::PlanView,
    table: Map<Seq<char>, topology::TopoRowView>,
    events: Seq<(sync::SyncEventView, Seq<char>)>,
    host: Seq<char>,
)
    requires
        sound(plan),
    ensures
        ({
            let state = sync::SyncView::storing(plan, 0).after(said(events));
            !(state is Finished) ==> settled(
                table,
                table_after(sync::SyncView::storing(plan, 0), table, events),
                plan,
                stored_so_far(state, plan),
                marked_so_far(state),
                host,
            )
        }),
    decreases events.len(),
{
    let start = sync::SyncView::storing(plan, 0);
    let state = start.after(said(events));
    if events.len() == 0 {
        assert(said(events) =~= Seq::<sync::SyncEventView>::empty());
        assert(plan.services.take(0) =~= Seq::<topology::ServiceView>::empty());
        if plan.services.len() == 0 {
            assert(plan.services.take(plan.services.len() as int) =~= plan.services.take(0));
        }
    } else {
        let shorter = events.drop_last();
        lemma_settled(plan, table, shorter, host);
        lemma_follows(plan, said(shorter));
        assert(said(events).drop_last() =~= said(shorter));
        let prior = start.after(said(shorter));
        let t = table_after(start, table, shorter);
        let after = table_after(start, table, events);
        let now = events.last().1;
        assert(state == prior.next(events.last().0));
        if !(state is Finished) {
            match prior {
                sync::SyncView::Upsert { next, .. } => {
                    lemma_upsert_settles(plan, table, t, next, now, host);
                    assert(stored_so_far(state, plan) == next + 1);
                    assert(marked_so_far(state) =~= Seq::<bool>::empty());
                },
                sync::SyncView::Mark { verdicts, audited, .. } => {
                    lemma_mark_settles(plan, table, t, verdicts, audited, now, host);
                },
                _ => {
                    assert(after == t);
                },
            }
        }
    }
}

/// Storing the next service settles one row more.
proof fn lemma_upsert_settles(
    plan: sync::PlanView,
    table: Map<Seq<char>, topology::TopoRowView>,
    t: Map<Seq<char>, topology::TopoRowView>,
    next: nat,
    now: Seq<char>,
    host: Seq<char>,
)
    requires
        next < plan.services.len(),
        settled(table, t, plan, next, Seq::empty(), host),
    ensures
        settled(
            table,
            written(t, sync::SyncActionView::Upsert(plan.services[next as int]), now),
            plan,
            next + 1,
            Seq::empty(),
            host,
        ),
{
    let service = plan.services[next as int];
    let after = written(t, sync::SyncActionView::Upsert(service), now);
    lemma_listed_step(plan.services, next, host);
    if service.hostname == host {
        assert(topology::restored(row_of(t, host), service, now) == topology::restored(
            row_of(table, host),
            service,
            now,
        ));
        assert(row_of(after, host) == Some(
            topology::restored(
                row_of(table, host),
                last_listed(plan.services, next + 1, host),
                now,
            ),
        ));
    } else {
        assert(row_of(after, host) == row_of(t, host));
        assert(last_listed(plan.services, next + 1, host) == last_listed(
            plan.services,
            next,
            host,
        ));
    }
}

/// Marking the next host settles one row more.
proof fn lemma_mark_settles(
    plan: sync::PlanView,
    table: Map<Seq<char>, topology::TopoRowView>,
    t: Map<Seq<char>, topology::TopoRowView>,
    verdicts: Seq<bool>,
    audited: bool,
    now: Seq<char>,
    host: Seq<char>,
)
    requires
        sound(plan),
        verdicts.len() < plan.gone.len(),
        settled(table, t, plan, plan.services.len(), verdicts, host),
    ensures
        settled(
            table,
            written(
                t,
                sync::SyncActionView::Mark {
                    hostname: plan.gone[verdicts.len() as int],
                    audited,
                },
                now,
            ),
            plan,
            plan.services.len(),
            verdicts.push(audited),
            host,
        ),
{
    let m = verdicts.len() as int;
    let gone = plan.gone[m];
    let longer = verdicts.push(audited);
    let after = written(t, sync::SyncActionView::Mark { hostname: gone, audited }, now);
    assert(plan.services.take(plan.services.len() as int) =~= plan.services);
    if host == gone {
        assert(!sync::listed(plan.services, host));
        assert forall|j: int| !judged_gone(plan, verdicts, host, j) by {
            if judged_gone(plan, verdicts, host, j) {
                assert(plan.gone[j] == plan.gone[m]);
            }
        }
        assert(row_of(t, host) == row_of(table, host));
        assert(judged_gone(plan, longer, host, m));
        if table.contains_key(host) {
            assert(row_of(after, host) == Some(
                topology::claimed(table[host], longer[m], now),
            ));
        }
    } else {
        assert(row_of(after, host) == row_of(t, host));
        assert forall|j: int|
            judged_gone(plan, longer, host, j) == judged_gone(plan, verdicts, host, j) by {}
        if exists|j: int| judged_gone(plan, longer, host, j) {
            let j = choose|j: int| judged_gone(plan, longer, host, j);
            assert(judged_gone(plan, verdicts, host, j));
            if table.contains_key(host) && !sync::listed(plan.services, host) {
                let (k, at) = choose|k: int, at: Seq<char>|
                    judged_gone(plan, verdicts, host, k) && row_of(t, host) == Some(
                        #[trigger] topology::claimed(table[host], verdicts[k], at),
                    );
                assert(judged_gone(plan, longer, host, k));
                assert(longer[k] == verdicts[k]);
                assert(row_of(after, host) == Some(
                    topology::claimed(table[host], longer[k], at),
                ));
            }
        }
        if exists|j: int| judged_gone(plan, verdicts, host, j) {
            let j = choose|j: int| judged_gone(plan, verdicts, host, j);
            assert(judged_gone(plan, longer, host, j));
        }
    }
}

// ---------------------------------------------------------------------------
// Laws
// ---------------------------------------------------------------------------

/// A sync writes nothing before it has its plan.
pub proof fn law_nothing_is_written_before_the_plan(
    v: sync::SyncView,
    table: Map<Seq<char>, topology::TopoRowView>,
    now: Seq<char>,
)
    requires
        v is Body || v is Connect || v is Topology,
    ensures
        written(table, v.action(), now) == table,
{
}

/// However a sync ends, it has written no row but those of services that the
/// snapshot lists and of hosts that are gone.
pub proof fn law_a_sync_leaves_other_rows_alone(
    plan: sync::PlanView,
    table: Map<Seq<char>, topology::TopoRowView>,
    events: Seq<(sync::SyncEventView, Seq<char>)>,
    host: Seq<char>,
)
    requires
        !sync::listed(plan.services, host),
        !plan.gone.contains(host),
    ensures
        row_of(table_after(sync::SyncView::storing(plan, 0), table, events), host) == row_of(
            table,
            host,
        ),
    decreases events.len(),
{
    if events.len() > 0 {
        let shorter = events.drop_last();
        law_a_sync_leaves_other_rows_alone(plan, table, shorter, host);
        lemma_follows(plan, said(shorter));
        match sync::SyncView::storing(plan, 0).after(said(shorter)) {
            sync::SyncView::Upsert { next, .. } => {
                assert(plan.services[next as int].hostname != host);
            },
            sync::SyncView::Mark { verdicts, .. } => {
                assert(plan.gone[verdicts.len() as int] != host);
            },
            _ => {},
        }
    }
}

/// A sync that gets as far as its summary has settled the whole table: a service
/// that the snapshot lists is present as the snapshot has it, a host that is gone
/// is marked by its verdict, and every other row is as it was.
pub proof fn law_a_sync_settles_the_whole_table(
    services: Seq<topology::ServiceView>,
    rows: Seq<topology::TopoRowView>,
    table: Map<Seq<char>, topology::TopoRowView>,
    events: Seq<(sync::SyncEventView, Seq<char>)>,
    host: Seq<char>,
)
    requires
        lists_table(rows, table),
        sync::SyncView::storing(sync::planned(services, rows), 0).after(
            said(events),
        ) is Summarize,
    ensures
        ({
            let plan = sync::planned(services, rows);
            let start = sync::SyncView::storing(plan, 0);
            let verdicts = start.after(said(events))->Summarize_verdicts;
            &&& verdicts.len() == plan.gone.len()
            &&& settled(
                table,
                table_after(start, table, events),
                plan,
                services.len(),
                verdicts,
                host,
            )
        }),
{
    let plan = sync::planned(services, rows);
    lemma_planned_is_sound(services, rows, table);
    lemma_settled(plan, table, events, host);
    lemma_follows(plan, said(events));
}

/// The same snapshot sent again finds nothing gone and nothing new: once a sync
/// has settled the table, every removal has been told, and is not told twice.
pub proof fn law_the_same_snapshot_again_flags_nothing(
    services: Seq<topology::ServiceView>,
    rows: Seq<topology::TopoRowView>,
    table: Map<Seq<char>, topology::TopoRowView>,
    events: Seq<(sync::SyncEventView, Seq<char>)>,
    again: Seq<topology::TopoRowView>,
)
    requires
        lists_table(rows, table),
        sync::SyncView::storing(sync::planned(services, rows), 0).after(
            said(events),
        ) is Summarize,
        lists_table(
            again,
            table_after(
                sync::SyncView::storing(sync::planned(services, rows), 0),
                table,
                events,
            ),
        ),
    ensures
        sync::planned(services, again).gone.len() == 0,
        sync::planned(services, again).added.len() == 0,
        sync::planned(services, again).updated == sync::hosts(services),
{
    let plan = sync::planned(services, rows);
    let start = sync::SyncView::storing(plan, 0);
    let verdicts = start.after(said(events))->Summarize_verdicts;
    let after = table_after(start, table, events);
    let second = sync::planned(services, again);
    assert(services.take(services.len() as int) =~= services);

    if second.gone.len() > 0 {
        let host = second.gone[0];
        assert(second.gone.contains(host));
        sync::law_gone_is_counted_on_but_not_listed(services, again, host);
        let i = choose|i: int|
            0 <= i < again.len() && sync::missing(services, #[trigger] again[i])
                && again[i].service.hostname == host;
        law_a_sync_settles_the_whole_table(services, rows, table, events, host);
        assert(row_of(after, host) == Some(again[i]));
        if table.contains_key(host) && exists|j: int| judged_gone(plan, verdicts, host, j) {
            let (j, now) = choose|j: int, now: Seq<char>|
                judged_gone(plan, verdicts, host, j) && row_of(after, host) == Some(
                    #[trigger] topology::claimed(table[host], verdicts[j], now),
                );
            topology::law_a_removal_is_claimed_once(table[host], verdicts[j], now, true, now);
        } else {
            assert(row_of(table, host) == Some(again[i]));
            assert(sync::modelled(rows, host));
            let k = choose|k: int|
                0 <= k < rows.len() && (#[trigger] rows[k]).service.hostname == host;
            assert(sync::missing(services, rows[k]));
            sync::law_gone_is_counted_on_but_not_listed(services, rows, host);
            let j = choose|j: int| 0 <= j < plan.gone.len() && plan.gone[j] == host;
            assert(judged_gone(plan, verdicts, host, j));
        }
    }
    let names = sync::hosts(services);
    assert forall|i: int| 0 <= i < names.len() implies sync::modelled(
        again,
        #[trigger] names[i],
    ) by {
        let host = services[i].hostname;
        assert(sync::listed(services, host));
        law_a_sync_settles_the_whole_table(services, rows, table, events, host);
        assert(after.contains_key(host));
    }
    lists::lemma_filter_keeps_all(names, |h: Seq<char>| sync::modelled(again, h));
    lists::lemma_filter_keeps_none(names, |h: Seq<char>| !sync::modelled(again, h));
}

// ---------------------------------------------------------------------------
// What stands in a settled table, column by column
// ---------------------------------------------------------------------------

/// Storing a service writes the row of its host and no other: every column of the
/// service is as listed, it is present, and no failure counts.
pub proof fn law_storing_writes_one_row(
    table: Map<Seq<char>, topology::TopoRowView>,
    service: topology::ServiceView,
    now: Seq<char>,
    other: Seq<char>,
)
    ensures
        ({
            let after = written(table, sync::SyncActionView::Upsert(service), now);
            &&& after.contains_key(service.hostname)
            &&& after[service.hostname].service == service
            &&& after[service.hostname].status == "present"@
            &&& after[service.hostname].consecutive_failures == 0
            &&& after[service.hostname].updated_at == now
            &&& table.contains_key(service.hostname) ==> after[service.hostname].probe_ok
                == table[service.hostname].probe_ok
            &&& table.contains_key(service.hostname) ==> after[service.hostname].last_probe
                == table[service.hostname].last_probe
            &&& other != service.hostname ==> after.contains_key(other) == table.contains_key(other)
            &&& other != service.hostname && table.contains_key(other) ==> after[other]
                == table[other]
        }),
{
}

/// Marking a host writes its row and no other, and only the status and the time of
/// a row that is present.
pub proof fn law_marking_writes_one_row(
    table: Map<Seq<char>, topology::TopoRowView>,
    hostname: Seq<char>,
    audited: bool,
    now: Seq<char>,
    other: Seq<char>,
)
    ensures
        ({
            let after = written(table, sync::SyncActionView::Mark { hostname, audited }, now);
            &&& after.contains_key(other) == table.contains_key(other)
            &&& other != hostname && table.contains_key(other) ==> after[other] == table[other]
            &&& table.contains_key(hostname) ==> after[hostname].service == table[hostname].service
            &&& table.contains_key(hostname) && table[hostname].status != "present"@
                ==> after[hostname] == table[hostname]
            &&& table.contains_key(hostname) && table[hostname].status == "present"@
                ==> after[hostname].status == if audited {
                "removed-audited"@
            } else {
                "missing-unaudited"@
            }
        }),
{
}

/// The last listing of a host is found at its place.
proof fn lemma_last_listed(
    services: Seq<topology::ServiceView>,
    n: nat,
    host: Seq<char>,
    k: int,
)
    requires
        0 <= k < n <= services.len(),
        services[k].hostname == host,
        forall|j: int| k < j < n ==> (#[trigger] services[j]).hostname != host,
    ensures
        last_listed(services, n, host) == services[k],
    decreases n,
{
    if k < n - 1 {
        assert(services[n - 1].hostname != host);
        lemma_last_listed(services, (n - 1) as nat, host, k);
    }
}

/// After a settled sync the row of a host that the snapshot lists has the service
/// of its last listing, every column of it, and is present without failures. What
/// the last probe found is as it was.
pub proof fn law_a_listed_host_is_stored_as_last_listed(
    services: Seq<topology::ServiceView>,
    rows: Seq<topology::TopoRowView>,
    table: Map<Seq<char>, topology::TopoRowView>,
    events: Seq<(sync::SyncEventView, Seq<char>)>,
    k: int,
)
    requires
        lists_table(rows, table),
        sync::SyncView::storing(sync::planned(services, rows), 0).after(
            said(events),
        ) is Summarize,
        0 <= k < services.len(),
        forall|j: int|
            k < j < services.len() ==> (#[trigger] services[j]).hostname != services[k].hostname,
    ensures
        ({
            let host = services[k].hostname;
            let after = table_after(
                sync::SyncView::storing(sync::planned(services, rows), 0),
                table,
                events,
            );
            &&& after.contains_key(host)
            &&& after[host].service == services[k]
            &&& after[host].service.service_type == services[k].service_type
            &&& after[host].service.stateful == services[k].stateful
            &&& after[host].service.probe_method == services[k].probe_method
            &&& after[host].service.tcp_port == services[k].tcp_port
            &&& after[host].status == "present"@
            &&& after[host].consecutive_failures == 0
            &&& table.contains_key(host) ==> after[host].probe_ok == table[host].probe_ok
            &&& table.contains_key(host) ==> after[host].last_probe == table[host].last_probe
        }),
{
    let host = services[k].hostname;
    law_a_sync_settles_the_whole_table(services, rows, table, events, host);
    lemma_last_listed(services, services.len(), host, k);
    assert(services.take(services.len() as int) =~= services);
    assert(sync::listed(services, host));
}

/// After a settled sync the row of a host that counted as present and that the
/// snapshot does not list is marked, as audited exactly if its verdict says so, and
/// its other columns are as they were.
pub proof fn law_a_missing_host_is_marked_by_its_verdict(
    services: Seq<topology::ServiceView>,
    rows: Seq<topology::TopoRowView>,
    table: Map<Seq<char>, topology::TopoRowView>,
    events: Seq<(sync::SyncEventView, Seq<char>)>,
    host: Seq<char>,
)
    requires
        lists_table(rows, table),
        sync::SyncView::storing(sync::planned(services, rows), 0).after(
            said(events),
        ) is Summarize,
        table.contains_key(host),
        table[host].status == "present"@,
        forall|j: int| 0 <= j < services.len() ==> (#[trigger] services[j]).hostname != host,
    ensures
        ({
            let start = sync::SyncView::storing(sync::planned(services, rows), 0);
            let verdicts = start.after(said(events))->Summarize_verdicts;
            let after = table_after(start, table, events);
            &&& after.contains_key(host)
            &&& after[host].service == table[host].service
            &&& after[host].probe_ok == table[host].probe_ok
            &&& after[host].consecutive_failures == table[host].consecutive_failures
            &&& after[host].last_probe == table[host].last_probe
            &&& exists|j: int| #[trigger]
                judged_gone(sync::planned(services, rows), verdicts, host, j)
                    && after[host].status == if verdicts[j] {
                    "removed-audited"@
                } else {
                    "missing-unaudited"@
                }
        }),
{
    let plan = sync::planned(services, rows);
    let start = sync::SyncView::storing(plan, 0);
    let verdicts = start.after(said(events))->Summarize_verdicts;
    let after = table_after(start, table, events);
    law_a_sync_settles_the_whole_table(services, rows, table, events, host);
    assert(services.take(services.len() as int) =~= services);
    assert(!sync::listed(services, host));
    assert(sync::modelled(rows, host));
    let i = choose|i: int| 0 <= i < rows.len() && (#[trigger] rows[i]).service.hostname == host;
    assert(row_of(table, rows[i].service.hostname) == Some(rows[i]));
    sync::law_which_hosts_are_gone(services, rows, host);
    let k = choose|k: int|
        0 <= k < sync::planned(services, rows).gone.len() && #[trigger] sync::planned(
            services,
            rows,
        ).gone[k] == host;
    assert(judged_gone(plan, verdicts, host, k));
    let (j, now) = choose|j: int, now: Seq<char>|
        judged_gone(plan, verdicts, host, j) && row_of(after, host) == Some(
            #[trigger] topology::claimed(table[host], verdicts[j], now),
        );
    assert(judged_gone(plan, verdicts, host, j));
}

/// After a settled sync the row of a host that the snapshot does not list and that
/// did not count as present is as it was, and a host without a row still has none.
pub proof fn law_a_host_that_was_gone_before_is_left_alone(
    services: Seq<topology::ServiceView>,
    rows: Seq<topology::TopoRowView>,
    table: Map<Seq<char>, topology::TopoRowView>,
    events: Seq<(sync::SyncEventView, Seq<char>)>,
    host: Seq<char>,
)
    requires
        lists_table(rows, table),
        forall|j: int| 0 <= j < services.len() ==> (#[trigger] services[j]).hostname != host,
        table.contains_key(host) ==> table[host].status != "present"@,
    ensures
        ({
            let after = table_after(
                sync::SyncView::storing(sync::planned(services, rows), 0),
                table,
                events,
            );
            &&& after.contains_key(host) == table.contains_key(host)
            &&& table.contains_key(host) ==> after[host] == table[host]
        }),
{
    let plan = sync::planned(services, rows);
    sync::law_which_hosts_are_gone(services, rows, host);
    if plan.gone.contains(host) {
        let k = choose|k: int| 0 <= k < plan.gone.len() && plan.gone[k] == host;
        assert(sync::planned(services, rows).gone[k] == host);
        let i = choose|i: int|
            0 <= i < rows.len() && (#[trigger] rows[i]).service.hostname == host && rows[i].status
                == "present"@;
        assert(row_of(table, rows[i].service.hostname) == Some(rows[i]));
    }
    assert(!sync::listed(plan.services, host));
    law_a_sync_leaves_other_rows_alone(plan, table, events, host);
    let after = table_after(sync::SyncView::storing(plan, 0), table, events);
    assert(row_of(after, host) == row_of(table, host));
}

/// The table after some events and some more.
proof fn lemma_table_after_concat(
    start: sync::SyncView,
    table: Map<Seq<char>, topology::TopoRowView>,
    a: Seq<(sync::SyncEventView, Seq<char>)>,
    b: Seq<(sync::SyncEventView, Seq<char>)>,
)
    ensures
        start.after(said(a + b)) == start.after(said(a)).after(said(b)),
        table_after(start, table, a + b) == table_after(
            start.after(said(a)),
            table_after(start, table, a),
            b,
        ),
    decreases b.len(),
{
    if b.len() == 0 {
        assert(a + b =~= a);
        assert(said(b) =~= Seq::<sync::SyncEventView>::empty());
    } else {
        lemma_table_after_concat(start, table, a, b.drop_last());
        assert((a + b).drop_last() =~= a + b.drop_last());
        assert(said(b).drop_last() =~= said(b.drop_last()));
        assert(said(a + b).drop_last() =~= said(a + b.drop_last()));
        assert((a + b).last() == b.last());
        assert(said(a + b).last() == b.last().0);
        assert(said(b).last() == b.last().0);
    }
}

/// From its first event to its summary, a sync leaves the row of each host that the
/// snapshot of its body lists with the service of the last listing, present and
/// without failures.
pub proof fn law_a_whole_sync_stores_what_its_body_lists(
    table: Map<Seq<char>, topology::TopoRowView>,
    events: Seq<(sync::SyncEventView, Seq<char>)>,
    services: Seq<topology::ServiceView>,
    rows: Seq<topology::TopoRowView>,
    k: int,
)
    requires
        sync::SyncView::begun(true).after(said(events)) is Summarize,
        events[0].0 == sync::SyncEventView::Body(Some(services)),
        events[2].0 == sync::SyncEventView::Topology(Some(rows)),
        lists_table(rows, table),
        0 <= k < services.len(),
        forall|j: int|
            k < j < services.len() ==> (#[trigger] services[j]).hostname != services[k].hostname,
    ensures
        ({
            let after = table_after(sync::SyncView::begun(true), table, events);
            &&& after.contains_key(services[k].hostname)
            &&& after[services[k].hostname].service == services[k]
            &&& after[services[k].hostname].status == "present"@
            &&& after[services[k].hostname].consecutive_failures == 0
        }),
{
    let begun = sync::SyncView::begun(true);
    sync::law_a_summary_is_that_of_its_course(true, said(events));
    assert(said(events)[0] == events[0].0);
    assert(said(events)[1] == events[1].0);
    assert(said(events)[2] == events[2].0);
    let front = events.take(3);
    let rest = events.skip(3);
    assert(front + rest =~= events);
    lemma_table_after_concat(begun, table, front, rest);
    assert(front.drop_last() =~= events.take(2));
    assert(events.take(2).drop_last() =~= events.take(1));
    assert(events.take(1).drop_last() =~= events.take(0));
    assert(said(events.take(0)) =~= Seq::<sync::SyncEventView>::empty());
    assert(said(events.take(1)).drop_last() =~= said(events.take(0)));
    assert(said(events.take(2)).drop_last() =~= said(events.take(1)));
    assert(said(front).drop_last() =~= said(events.take(2)));
    assert(begun.after(said(events.take(0))) == begun);
    assert(begun.after(said(events.take(1))) == sync::SyncView::Connect { services });
    assert(begun.after(said(events.take(2))) == sync::SyncView::Topology { services });
    assert(begun.after(said(front)) == sync::SyncView::storing(sync::planned(services, rows), 0));
    assert(table_after(begun, table, events.take(0)) == table);
    assert(table_after(begun, table, events.take(1)) == table);
    assert(table_after(begun, table, events.take(2)) == table);
    assert(table_after(begun, table, front) == table);
    law_a_listed_host_is_stored_as_last_listed(services, rows, table, rest, k);
}

} // verus!
