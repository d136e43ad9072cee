//! The topology model: services, snapshots, stored rows.

use vstd::prelude::*;
use vstd::string::*;

use crate::policy;
use crate::policy::TopoView;
use crate::state::GATE;
use crate::text;

verus! {

/// A service that the model counts on.
pub const PRESENT: &'static str = "present";

/// A service whose removal was authorized.
pub const REMOVED_AUDITED: &'static str = "removed-audited";

/// A service that is gone without an authorization.
pub const MISSING_UNAUDITED: &'static str = "missing-unaudited";

/// One service of a snapshot or of the seed.
#[derive(Debug)]
pub struct SeedService {
    pub hostname: String,
    pub service_type: String,
    pub stateful: bool,
    pub probe_method: String,
    pub tcp_port: Option<i32>,
}

/// A topology snapshot.
#[derive(Debug)]
pub struct Snapshot {
    pub services: Vec<SeedService>,
}

/// One stored row of the model.
#[derive(Debug)]
pub struct TopoRow {
    pub hostname: String,
    pub service_type: String,
    pub stateful: bool,
    pub probe_method: String,
    pub tcp_port: Option<i32>,
    pub status: String,
    pub probe_ok: bool,
    pub consecutive_failures: i32,
    pub last_probe: Option<String>,
    pub updated_at: String,
}

/// What a [`SeedService`] says.
#[verifier::ext_equal]
pub struct ServiceView {
    pub hostname: Seq<char>,
    pub service_type: Seq<char>,
    pub stateful: bool,
    pub probe_method: Seq<char>,
    pub tcp_port: Option<i32>,
}

impl View for SeedService {
    type V = ServiceView;

    open spec fn view(&self) -> ServiceView {
        ServiceView {
            hostname: self.hostname@,
            service_type: self.service_type@,
            stateful: self.stateful,
            probe_method: self.probe_method@,
            tcp_port: self.tcp_port,
        }
    }
}

impl Clone for SeedService {
    /// A copy that says the same.
    fn clone(&self) -> (r: SeedService)
        ensures
            r@ == self@,
    {
        SeedService {
            hostname: self.hostname.clone(),
            service_type: self.service_type.clone(),
            stateful: self.stateful,
            probe_method: self.probe_method.clone(),
            tcp_port: self.tcp_port,
        }
    }
}

/// What a [`TopoRow`] says.
#[verifier::ext_equal]
pub struct TopoRowView {
    pub service: ServiceView,
    pub status: Seq<char>,
    pub probe_ok: bool,
    pub consecutive_failures: int,
    pub last_probe: Option<Seq<char>>,
    pub updated_at: Seq<char>,
}

impl View for TopoRow {
    type V = TopoRowView;

    open spec fn view(&self) -> TopoRowView {
        TopoRowView {
            service: ServiceView {
                hostname: self.hostname@,
                service_type: self.service_type@,
                stateful: self.stateful,
                probe_method: self.probe_method@,
                tcp_port: self.tcp_port,
            },
            status: self.status@,
            probe_ok: self.probe_ok,
            consecutive_failures: self.consecutive_failures as int,
            last_probe: match self.last_probe {
                Some(t) => Some(t@),
                None => None,
            },
            updated_at: self.updated_at@,
        }
    }
}

impl Clone for TopoRow {
    /// A copy that says the same.
    fn clone(&self) -> (r: TopoRow)
        ensures
            r@ == self@,
    {
        TopoRow {
            hostname: self.hostname.clone(),
            service_type: self.service_type.clone(),
            stateful: self.stateful,
            probe_method: self.probe_method.clone(),
            tcp_port: self.tcp_port,
            status: self.status.clone(),
            probe_ok: self.probe_ok,
            consecutive_failures: self.consecutive_failures,
            last_probe: match &self.last_probe {
                Some(t) => Some(t.clone()),
                None => None,
            },
            updated_at: self.updated_at.clone(),
        }
    }
}

/// What the services of a list say.
pub open spec fn service_views(services: Seq<SeedService>) -> Seq<ServiceView> {
    Seq::new(services.len(), |i: int| services[i]@)
}

/// What the rows of a list say.
pub open spec fn row_views(rows: Seq<TopoRow>) -> Seq<TopoRowView> {
    Seq::new(rows.len(), |i: int| rows[i]@)
}

/// The probe method of a service that names none.
pub fn default_probe_method() -> (s: String)
    ensures
        s@ == "none"@,
{
    "none".to_owned()
}

// ---------------------------------------------------------------------------
// Validation
// ---------------------------------------------------------------------------

/// What is wrong with a service, if anything is.
pub open spec fn service_error(s: ServiceView) -> Option<Seq<char>> {
    if text::blank(s.hostname) {
        Some("hostname must not be empty"@)
    } else if s.probe_method == "none"@ || s.probe_method == "dns"@ {
        None
    } else if s.probe_method == "tcp"@ {
        if s.tcp_port matches Some(p) && 1 <= p <= 65535 {
            None
        } else {
            Some("service '"@ + s.hostname + "': probe_method tcp requires tcp_port 1-65535"@)
        }
    } else {
        Some("service '"@ + s.hostname + "': unknown probe_method '"@ + s.probe_method + "'"@)
    }
}

/// Checks one service of a snapshot; the error is what to tell the caller.
pub fn validate_service(s: &SeedService) -> (r: Result<(), String>)
    ensures
        match r {
            Ok(_) => service_error(s@) is None,
            Err(msg) => service_error(s@) == Some(msg@),
        },
{
    if text::is_blank(s.hostname.as_str()) {
        return Err("hostname must not be empty".to_owned());
    }
    let method = s.probe_method.as_str();
    if text::str_eq(method, "none") || text::str_eq(method, "dns") {
        return Ok(());
    }
    let mut msg = String::new();
    msg.append("service '");
    msg.append(s.hostname.as_str());
    if text::str_eq(method, "tcp") {
        match s.tcp_port {
            Some(p) => {
                if 1 <= p && p <= 65535 {
                    return Ok(());
                }
            },
            None => {},
        }
        msg.append("': probe_method tcp requires tcp_port 1-65535");
        assert(msg@ =~= service_error(s@)->0);
        return Err(msg);
    }
    msg.append("': unknown probe_method '");
    msg.append(method);
    msg.append("'");
    assert(msg@ =~= service_error(s@)->0);
    Err(msg)
}

/// What is wrong with the first faulty one of some services, if one is.
pub open spec fn first_service_error(services: Seq<ServiceView>) -> Option<Seq<char>>
    decreases services.len(),
{
    if services.len() == 0 {
        None
    } else if service_error(services[0]) is Some {
        service_error(services[0])
    } else {
        first_service_error(services.drop_first())
    }
}

/// Checks every service of a snapshot, up to the first faulty one.
pub fn validate_snapshot(snap: &Snapshot) -> (r: Result<(), String>)
    ensures
        match r {
            Ok(_) => first_service_error(service_views(snap.services@)) is None,
            Err(msg) => first_service_error(service_views(snap.services@)) == Some(msg@),
        },
{
    let ghost all = service_views(snap.services@);
    let mut i: usize = 0;
    assert(all.skip(0) =~= all);
    while i < snap.services.len()
        invariant
            i <= snap.services@.len(),
            all == service_views(snap.services@),
            first_service_error(all) == first_service_error(all.skip(i as int)),
        decreases snap.services@.len() - i,
    {
        assert(all.skip(i as int)[0] == snap.services@[i as int]@);
        assert(all.skip(i as int).drop_first() =~= all.skip(i + 1));
        match validate_service(&snap.services[i]) {
            Ok(_) => {},
            Err(msg) => {
                return Err(msg);
            },
        }
        i = i + 1;
    }
    Ok(())
}

/// A snapshot is accepted if and only if every one of its services is usable.
pub proof fn law_a_snapshot_is_as_good_as_its_services(services: Seq<ServiceView>)
    ensures
        first_service_error(services) is None <==> forall|i: int|
            0 <= i < services.len() ==> service_error(#[trigger] services[i]) is None,
    decreases services.len(),
{
    if services.len() > 0 {
        let rest = services.drop_first();
        law_a_snapshot_is_as_good_as_its_services(rest);
        if service_error(services[0]) is None && first_service_error(rest) is None {
            assert forall|i: int| 0 <= i < services.len() implies service_error(
                #[trigger] services[i],
            ) is None by {
                if i > 0 {
                    assert(rest[i - 1] == services[i]);
                }
            }
        }
        if forall|i: int|
            0 <= i < services.len() ==> service_error(#[trigger] services[i]) is None {
            assert forall|i: int| 0 <= i < rest.len() implies service_error(
                #[trigger] rest[i],
            ) is None by {
                assert(rest[i] == services[i + 1]);
            }
        }
    }
}

// ---------------------------------------------------------------------------
// Rows
// ---------------------------------------------------------------------------

/// What the row of a service becomes when the seed or a snapshot lists it. Both
/// are authoritative: whatever the row said before, the service is present. What
/// the last probe found stays on record.
pub open spec fn restored(
    row: Option<TopoRowView>,
    service: ServiceView,
    now: Seq<char>,
) -> TopoRowView {
    TopoRowView {
        service,
        status: PRESENT@,
        probe_ok: match row {
            Some(r) => r.probe_ok,
            None => false,
        },
        consecutive_failures: 0,
        last_probe: match row {
            Some(r) => r.last_probe,
            None => None,
        },
        updated_at: now,
    }
}

/// The row to store for a service that the seed or a snapshot lists, from the
/// row that the model has for it so far.
pub fn upsert(row: Option<TopoRow>, service: &SeedService, now: &str) -> (r: TopoRow)
    ensures
        r@ == restored(
            match row {
                Some(r) => Some(r@),
                None => None,
            },
            service@,
            now@,
        ),
        r.hostname@ == service.hostname@,
        r.service_type@ == service.service_type@,
        r.stateful == service.stateful,
        r.probe_method@ == service.probe_method@,
        r.tcp_port == service.tcp_port,
        r.status@ == "present"@,
        r.consecutive_failures == 0,
        r.updated_at@ == now@,
        row matches Some(before) ==> r.probe_ok == before.probe_ok,
        row is None ==> !r.probe_ok && r.last_probe is None,
{
    let (probe_ok, last_probe): (bool, Option<String>) = match row {
        Some(r) => (r.probe_ok, r.last_probe),
        None => (false, None),
    };
    TopoRow {
        hostname: service.hostname.clone(),
        service_type: service.service_type.clone(),
        stateful: service.stateful,
        probe_method: service.probe_method.clone(),
        tcp_port: service.tcp_port,
        status: PRESENT.to_owned(),
        probe_ok,
        consecutive_failures: 0,
        last_probe,
        updated_at: now.to_owned(),
    }
}

/// The status of a service that is gone.
pub open spec fn removed_status(audited: bool) -> Seq<char> {
    if audited {
        REMOVED_AUDITED@
    } else {
        MISSING_UNAUDITED@
    }
}

/// The status of a service that is gone.
pub fn removal_status(audited: bool) -> (s: &'static str)
    ensures
        s@ == removed_status(audited),
{
    if audited {
        REMOVED_AUDITED
    } else {
        MISSING_UNAUDITED
    }
}

/// What a row becomes when its service is marked as gone: nothing else than it
/// is, unless it still counts as present.
pub open spec fn claimed(row: TopoRowView, audited: bool, now: Seq<char>) -> TopoRowView {
    if row.status == PRESENT@ {
        TopoRowView { status: removed_status(audited), updated_at: now, ..row }
    } else {
        row
    }
}

/// Marks a service as gone, and tells whether that was still to be done. Of
/// several containers that come to it, only the first claims the transition.
pub fn claim(row: &mut TopoRow, audited: bool, now: &str) -> (r: bool)
    ensures
        r == (old(row)@.status == PRESENT@),
        final(row)@ == claimed(old(row)@, audited, now@),
        r == (old(row).status@ == "present"@),
        r && audited ==> final(row).status@ == "removed-audited"@,
        r && !audited ==> final(row).status@ == "missing-unaudited"@,
        r ==> final(row).updated_at@ == now@,
        final(row).hostname@ == old(row).hostname@,
        final(row).service_type@ == old(row).service_type@,
        final(row).stateful == old(row).stateful,
        final(row).probe_method@ == old(row).probe_method@,
        final(row).tcp_port == old(row).tcp_port,
        final(row).probe_ok == old(row).probe_ok,
        final(row).consecutive_failures == old(row).consecutive_failures,
{
    if text::str_eq(row.status.as_str(), PRESENT) {
        row.status = removal_status(audited).to_owned();
        row.updated_at = now.to_owned();
        true
    } else {
        false
    }
}

/// A removal is claimed once: a row that was marked as gone is not claimed
/// again, and stays as it is.
pub proof fn law_a_removal_is_claimed_once(
    row: TopoRowView,
    audited: bool,
    now: Seq<char>,
    again: bool,
    later: Seq<char>,
)
    ensures
        claimed(row, audited, now).status != PRESENT@,
        claimed(claimed(row, audited, now), again, later) == claimed(row, audited, now),
{
    lemma_statuses_differ();
}

/// The three statuses are different texts.
pub proof fn lemma_statuses_differ()
    ensures
        PRESENT@ != REMOVED_AUDITED@,
        PRESENT@ != MISSING_UNAUDITED@,
        REMOVED_AUDITED@ != MISSING_UNAUDITED@,
{
    reveal_strlit("present");
    reveal_strlit("removed-audited");
    reveal_strlit("missing-unaudited");
    assert(PRESENT@.len() == 7);
    assert(REMOVED_AUDITED@.len() == 15);
    assert(MISSING_UNAUDITED@.len() == 17);
}

/// The minimal view that the policy engine needs. Every row counts as in the
/// model, whatever its status: it is still known that the service exists.
pub fn views(rows: &[TopoRow]) -> (r: Vec<TopoView>)
    ensures
        r@.len() == rows@.len(),
        forall|i: int|
            0 <= i < rows@.len() ==> (#[trigger] r@[i]).hostname@ == rows@[i].hostname@
                && r@[i].stateful == rows@[i].stateful,
{
    let mut r: Vec<TopoView> = Vec::new();
    let mut i: usize = 0;
    while i < rows.len()
        invariant
            i <= rows@.len(),
            r@.len() == i,
            forall|k: int|
                0 <= k < i ==> (#[trigger] r@[k]).hostname@ == rows@[k].hostname@ && r@[k].stateful
                    == rows@[k].stateful,
        decreases rows@.len() - i,
    {
        r.push(TopoView { hostname: rows[i].hostname.clone(), stateful: rows[i].stateful });
        i = i + 1;
    }
    r
}

// ---------------------------------------------------------------------------
// Seed
// ---------------------------------------------------------------------------

/// One service of the seed.
pub open spec fn seeded(
    hostname: Seq<char>,
    service_type: Seq<char>,
    stateful: bool,
    tcp_port: Option<i32>,
) -> ServiceView {
    ServiceView {
        hostname,
        service_type,
        stateful,
        probe_method: if tcp_port is Some {
            "tcp"@
        } else {
            "none"@
        },
        tcp_port,
    }
}

/// The services of the project: those with a private endpoint are probed at
/// their port, this one and those without an endpoint are not.
pub open spec fn seed_services() -> Seq<ServiceView> {
    seq![
        seeded(GATE@, "rust@1"@, false, None),
        seeded("console"@, "static"@, false, Some(80)),
        seeded("oldworker"@, "nodejs@22"@, false, Some(3000)),
        seeded("db"@, "postgresql:single@17"@, true, Some(5432)),
        seeded("cache"@, "valkey:ha@7.2"@, true, Some(6379)),
        seeded("storage"@, "object-storage"@, true, None),
        seeded("zcp"@, "zcp@1"@, false, None),
    ]
}

/// One service of the seed.
fn seed_service(hostname: &str, service_type: &str, stateful: bool, tcp_port: Option<i32>) -> (s:
    SeedService)
    ensures
        s@ == seeded(hostname@, service_type@, stateful, tcp_port),
{
    SeedService {
        hostname: hostname.to_owned(),
        service_type: service_type.to_owned(),
        stateful,
        probe_method: if tcp_port.is_some() {
            "tcp".to_owned()
        } else {
            default_probe_method()
        },
        tcp_port,
    }
}

/// The services that an empty model starts with.
pub fn seed() -> (services: Vec<SeedService>)
    ensures
        service_views(services@) == seed_services(),
{
    let mut services: Vec<SeedService> = Vec::new();
    services.push(seed_service(GATE, "rust@1", false, None));
    services.push(seed_service("console", "static", false, Some(80)));
    services.push(seed_service("oldworker", "nodejs@22", false, Some(3000)));
    services.push(seed_service("db", "postgresql:single@17", true, Some(5432)));
    services.push(seed_service("cache", "valkey:ha@7.2", true, Some(6379)));
    services.push(seed_service("storage", "object-storage", true, None));
    services.push(seed_service("zcp", "zcp@1", false, None));
    assert(service_views(services@) =~= seed_services());
    services
}

/// Every service of the seed is one that a snapshot could hold too.
pub proof fn law_the_seed_is_valid(i: int)
    requires
        0 <= i < seed_services().len(),
    ensures
        service_error(seed_services()[i]) is None,
{
    reveal_strlit("gate");
    reveal_strlit("console");
    reveal_strlit("oldworker");
    reveal_strlit("db");
    reveal_strlit("cache");
    reveal_strlit("storage");
    reveal_strlit("zcp");
    let host = seed_services()[i].hostname;
    assert(!text::is_white_space(host[0]));
}

/// A service is known to the policy engine as long as the model has a row for
/// it, present or removed.
pub proof fn law_a_row_is_known_whatever_its_status(
    rows: Seq<TopoRow>,
    topo: Seq<TopoView>,
    hostname: Seq<char>,
)
    requires
        topo.len() == rows.len(),
        forall|i: int|
            0 <= i < rows.len() ==> (#[trigger] topo[i]).hostname@ == rows[i].hostname@,
    ensures
        policy::known(topo, hostname) == exists|i: int|
            0 <= i < rows.len() && (#[trigger] rows[i]).hostname@ == hostname,
{
    if policy::known(topo, hostname) {
        let i = choose|i: int| 0 <= i < topo.len() && (#[trigger] topo[i]).hostname@ == hostname;
        assert(rows[i].hostname@ == hostname);
    }
    if exists|i: int| 0 <= i < rows.len() && (#[trigger] rows[i]).hostname@ == hostname {
        let i = choose|i: int| 0 <= i < rows.len() && (#[trigger] rows[i]).hostname@ == hostname;
        assert(topo[i].hostname@ == hostname);
    }
}

// ---------------------------------------------------------------------------
// What becomes of a row, column by column
// ---------------------------------------------------------------------------

/// The columns of a service and of a row are what they hold, each in its place.
pub proof fn law_rows_are_their_columns(s: SeedService, r: TopoRow)
    ensures
        s@.hostname == s.hostname@ && s@.service_type == s.service_type@,
        s@.stateful == s.stateful && s@.probe_method == s.probe_method@,
        s@.tcp_port == s.tcp_port,
        r@.service.hostname == r.hostname@ && r@.service.service_type == r.service_type@,
        r@.service.stateful == r.stateful && r@.service.probe_method == r.probe_method@,
        r@.service.tcp_port == r.tcp_port,
        r@.status == r.status@ && r@.probe_ok == r.probe_ok,
        r@.consecutive_failures == r.consecutive_failures,
        r.last_probe is Some ==> r@.last_probe == Some((r.last_probe->0)@),
        r.last_probe is None ==> r@.last_probe is None,
        r@.updated_at == r.updated_at@,
{
}

/// A list says what its services say, one by one, and so does a table.
pub proof fn law_lists_are_read_one_by_one(services: Seq<SeedService>, rows: Seq<TopoRow>, i: int)
    ensures
        service_views(services).len() == services.len(),
        0 <= i < services.len() ==> service_views(services)[i] == services[i]@,
        row_views(rows).len() == rows.len(),
        0 <= i < rows.len() ==> row_views(rows)[i] == rows[i]@,
{
}

/// The row of a listed service is that of the service as listed: every column of
/// the service is the listed one, whatever the row said before. The service is
/// present and has not failed a probe since, and what the last probe found stays.
pub proof fn law_a_listed_service_is_stored_as_listed(
    row: Option<TopoRowView>,
    service: ServiceView,
    now: Seq<char>,
)
    ensures
        restored(row, service, now).service == service,
        restored(row, service, now).service.hostname == service.hostname,
        restored(row, service, now).service.service_type == service.service_type,
        restored(row, service, now).service.stateful == service.stateful,
        restored(row, service, now).service.probe_method == service.probe_method,
        restored(row, service, now).service.tcp_port == service.tcp_port,
        restored(row, service, now).status == "present"@,
        restored(row, service, now).consecutive_failures == 0,
        restored(row, service, now).updated_at == now,
        row matches Some(r) ==> restored(row, service, now).probe_ok == r.probe_ok,
        row matches Some(r) ==> restored(row, service, now).last_probe == r.last_probe,
        row is None ==> !restored(row, service, now).probe_ok,
        row is None ==> restored(row, service, now).last_probe is None,
{
}

/// Of two listings of a service the later one counts, as if the earlier one had
/// not been: nothing of it stays.
pub proof fn law_the_later_listing_counts(
    row: Option<TopoRowView>,
    first: ServiceView,
    then: Seq<char>,
    second: ServiceView,
    now: Seq<char>,
)
    ensures
        restored(Some(restored(row, first, then)), second, now) == restored(row, second, now),
{
}

/// Listing undoes a removal: a service that is marked as gone and listed again is
/// stored as if it had never been marked.
pub proof fn law_listing_undoes_a_removal(
    row: TopoRowView,
    audited: bool,
    then: Seq<char>,
    service: ServiceView,
    now: Seq<char>,
)
    ensures
        restored(Some(claimed(row, audited, then)), service, now) == restored(
            Some(row),
            service,
            now,
        ),
{
}

/// Marking a present service as gone changes its status and the time of the row,
/// and nothing else. A service that is not present is not touched.
pub proof fn law_a_gone_service_keeps_its_columns(row: TopoRowView, audited: bool, now: Seq<char>)
    ensures
        claimed(row, audited, now).service == row.service,
        claimed(row, audited, now).probe_ok == row.probe_ok,
        claimed(row, audited, now).consecutive_failures == row.consecutive_failures,
        claimed(row, audited, now).last_probe == row.last_probe,
        row.status == "present"@ && audited ==> claimed(row, audited, now).status
            == "removed-audited"@,
        row.status == "present"@ && !audited ==> claimed(row, audited, now).status
            == "missing-unaudited"@,
        row.status == "present"@ ==> claimed(row, audited, now).updated_at == now,
        row.status != "present"@ ==> claimed(row, audited, now) == row,
{
}

/// The status of a gone service tells whether its removal was authorized.
pub proof fn law_the_status_tells_whether_a_removal_was_authorized(audited: bool)
    ensures
        removed_status(audited) == "removed-audited"@ <==> audited,
        removed_status(audited) == "missing-unaudited"@ <==> !audited,
{
    lemma_statuses_differ();
}

/// A service is usable exactly if it has a name that shows and is not probed, or
/// is looked up by name, or is probed at a port that there is.
pub proof fn law_usable_services(s: ServiceView)
    ensures
        service_error(s) is None <==> {
            &&& exists|i: int| 0 <= i < s.hostname.len() && !text::is_white_space(
                #[trigger] s.hostname[i],
            )
            &&& {
                ||| s.probe_method == "none"@
                ||| s.probe_method == "dns"@
                ||| s.probe_method == "tcp"@ && s.tcp_port is Some && 1 <= s.tcp_port->0 <= 65535
            }
        },
{
    reveal_strlit("none");
    reveal_strlit("dns");
    reveal_strlit("tcp");
    assert("none"@.len() != "tcp"@.len());
    assert("dns"@[0] != "tcp"@[0]);
}

/// What is said of a service that is not usable names the first thing that is
/// wrong with it, and the service where it has a name.
pub proof fn law_what_is_said_of_a_faulty_service(s: ServiceView)
    ensures
        (forall|i: int|
            0 <= i < s.hostname.len() ==> text::is_white_space(#[trigger] s.hostname[i]))
            ==> service_error(s) == Some("hostname must not be empty"@),
        service_error(s) is Some && s.probe_method == "tcp"@ && (exists|i: int|
            0 <= i < s.hostname.len() && !text::is_white_space(#[trigger] s.hostname[i]))
            ==> service_error(s) == Some(
            "service '"@ + s.hostname + "': probe_method tcp requires tcp_port 1-65535"@,
        ),
        service_error(s) is Some && s.probe_method != "tcp"@ && (exists|i: int|
            0 <= i < s.hostname.len() && !text::is_white_space(#[trigger] s.hostname[i]))
            ==> service_error(s) == Some(
            "service '"@ + s.hostname + "': unknown probe_method '"@ + s.probe_method + "'"@,
        ),
{
}

/// What is said of a snapshot is what is said of its first faulty service.
pub proof fn law_a_snapshot_is_refused_for_its_first_faulty_service(
    services: Seq<ServiceView>,
    i: int,
)
    requires
        0 <= i < services.len(),
        service_error(services[i]) is Some,
        forall|j: int| 0 <= j < i ==> service_error(#[trigger] services[j]) is None,
    ensures
        first_service_error(services) == service_error(services[i]),
    decreases services.len(),
{
    if i > 0 {
        let rest = services.drop_first();
        assert(service_error(services[0]) is None);
        assert forall|j: int| 0 <= j < i - 1 implies service_error(
            #[trigger] rest[j],
        ) is None by {
            assert(rest[j] == services[j + 1]);
        }
        law_a_snapshot_is_refused_for_its_first_faulty_service(rest, i - 1);
    }
}

/// A service of the seed is probed over TCP exactly if it has a port, and is not
/// probed otherwise.
pub proof fn law_a_seeded_service_is_probed_at_its_port(
    hostname: Seq<char>,
    service_type: Seq<char>,
    stateful: bool,
    tcp_port: Option<i32>,
)
    ensures
        ({
            let s = seeded(hostname, service_type, stateful, tcp_port);
            &&& s.hostname == hostname
            &&& s.service_type == service_type
            &&& s.stateful == stateful
            &&& s.tcp_port == tcp_port
            &&& tcp_port is Some ==> s.probe_method == "tcp"@
            &&& tcp_port is None ==> s.probe_method == "none"@
        }),
{
}

/// The seed lists seven services under seven names, each of its type: the three
/// that keep data are the database, the cache and the storage, and no other does.
pub proof fn law_the_seed_keeps_data_in_three_services(i: int)
    requires
        0 <= i < seed_services().len(),
    ensures
        seed_services().len() == 7,
        seed_services()[i].stateful <==> {
            ||| seed_services()[i].hostname == "db"@
            ||| seed_services()[i].hostname == "cache"@
            ||| seed_services()[i].hostname == "storage"@
        },
        seed_services()[i].hostname == "console"@ ==> seed_services()[i].tcp_port == Some(80i32),
        seed_services()[i].hostname == "oldworker"@ ==> seed_services()[i].tcp_port == Some(
            3000i32,
        ),
        seed_services()[i].hostname == "db"@ ==> seed_services()[i].tcp_port == Some(5432i32),
        seed_services()[i].hostname == "cache"@ ==> seed_services()[i].tcp_port == Some(6379i32),
        seed_services()[i].hostname == "storage"@ || seed_services()[i].hostname == "zcp"@
            || seed_services()[i].hostname == "gate"@ ==> seed_services()[i].tcp_port is None,
        seed_services()[i].hostname == "gate"@ ==> seed_services()[i].service_type == "rust@1"@,
        seed_services()[i].hostname == "console"@ ==> seed_services()[i].service_type == "static"@,
        seed_services()[i].hostname == "oldworker"@ ==> seed_services()[i].service_type
            == "nodejs@22"@,
        seed_services()[i].hostname == "db"@ ==> seed_services()[i].service_type
            == "postgresql:single@17"@,
        seed_services()[i].hostname == "cache"@ ==> seed_services()[i].service_type
            == "valkey:ha@7.2"@,
        seed_services()[i].hostname == "storage"@ ==> seed_services()[i].service_type
            == "object-storage"@,
        seed_services()[i].hostname == "zcp"@ ==> seed_services()[i].service_type == "zcp@1"@,
        seed_services()[i].probe_method == "tcp"@ <==> seed_services()[i].tcp_port is Some,
        seed_services()[i].probe_method == "none"@ <==> seed_services()[i].tcp_port is None,
        forall|j: int|
            0 <= j < seed_services().len() && (#[trigger] seed_services()[j]).hostname
                == seed_services()[i].hostname ==> j == i,
{
    reveal_strlit("gate");
    reveal_strlit("console");
    reveal_strlit("oldworker");
    reveal_strlit("db");
    reveal_strlit("cache");
    reveal_strlit("storage");
    reveal_strlit("zcp");
    reveal_strlit("tcp");
    reveal_strlit("none");
    assert("tcp"@.len() != "none"@.len());
    assert("gate"@.len() == 4 && "console"@.len() == 7 && "oldworker"@.len() == 9);
    assert("db"@.len() == 2 && "cache"@.len() == 5 && "storage"@.len() == 7 && "zcp"@.len() == 3);
    assert("console"@[0] != "storage"@[0]);
}

/// The services that the seed names.
pub proof fn law_the_seed_names_every_service_of_the_project(host: Seq<char>)
    ensures
        (exists|i: int|
            0 <= i < seed_services().len() && (#[trigger] seed_services()[i]).hostname == host)
            <==> {
            ||| host == "gate"@
            ||| host == "console"@
            ||| host == "oldworker"@
            ||| host == "db"@
            ||| host == "cache"@
            ||| host == "storage"@
            ||| host == "zcp"@
        },
{
    assert(seed_services()[0].hostname == "gate"@);
    assert(seed_services()[1].hostname == "console"@);
    assert(seed_services()[2].hostname == "oldworker"@);
    assert(seed_services()[3].hostname == "db"@);
    assert(seed_services()[4].hostname == "cache"@);
    assert(seed_services()[5].hostname == "storage"@);
    assert(seed_services()[6].hostname == "zcp"@);
}

} // verus!
