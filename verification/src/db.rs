//! Starting up: what the database is seeded with, and how long to wait before
//! the next try.

use vstd::prelude::*;
use vstd::string::*;

use crate::policy;
use crate::policy::{policies, PolicyRow};
use crate::text;
use crate::topology;
use crate::topology::{seed, upsert, TopoRow};

verus! {

/// One fixed key serializes ledger appends and migrations across all containers
/// of the service.
pub const ADVISORY_LOCK_KEY: i64 = 0x6573_636c_7573;

/// Seconds before the second try of something that failed at startup.
pub const FIRST_DELAY: u64 = 2;

/// Seconds between two tries at most.
pub const LONGEST_DELAY: u64 = 30;

/// The wait after the next failure: twice as long, up to the longest.
pub open spec fn doubled(delay: int) -> int {
    if 2 * delay <= LONGEST_DELAY {
        2 * delay
    } else {
        LONGEST_DELAY as int
    }
}

/// The wait after the `n`-th failure.
pub open spec fn delay_after(n: nat) -> int
    decreases n,
{
    if n == 0 {
        FIRST_DELAY as int
    } else {
        doubled(delay_after((n - 1) as nat))
    }
}

/// The wait after the next failure: twice as long, up to the longest.
pub fn next_delay(delay: u64) -> (r: u64)
    requires
        2 * delay <= u64::MAX,
    ensures
        r == doubled(delay as int),
        delay <= 15 ==> r == 2 * delay,
        delay > 15 ==> r == 30,
{
    let twice: u64 = delay * 2;
    if twice <= LONGEST_DELAY {
        twice
    } else {
        LONGEST_DELAY
    }
}

/// The waits are 2, 4, 8 and 16 seconds and then 30 for good.
pub proof fn law_the_waits_double_up_to_thirty_seconds(n: nat)
    ensures
        delay_after(0) == 2,
        delay_after(1) == 4,
        delay_after(2) == 8,
        delay_after(3) == 16,
        n >= 4 ==> delay_after(n) == 30,
        2 <= delay_after(n) <= 30,
    decreases n,
{
    reveal_with_fuel(delay_after, 5);
    if n > 4 {
        law_the_waits_double_up_to_thirty_seconds((n - 1) as nat);
    }
}

/// The rows that a model with `count` rows is seeded with: those of the seed if
/// it is empty, none otherwise.
pub open spec fn seeding(count: int, now: Seq<char>) -> Seq<topology::TopoRowView> {
    if count == 0 {
        Seq::new(
            topology::seed_services().len(),
            |i: int| topology::restored(None, topology::seed_services()[i], now),
        )
    } else {
        Seq::empty()
    }
}

/// The rows to seed the model with, from how many it has.
pub fn rows_to_seed(count: i64, now: &str) -> (rows: Vec<TopoRow>)
    ensures
        topology::row_views(rows@) == seeding(count as int, now@),
        count != 0 ==> rows@.len() == 0,
        count == 0 ==> rows@.len() == 7,
{
    let mut rows: Vec<TopoRow> = Vec::new();
    if count == 0 {
        let services = seed();
        let mut i: usize = 0;
        while i < services.len()
            invariant
                i <= services@.len(),
                rows@.len() == i,
                topology::service_views(services@) == topology::seed_services(),
                forall|k: int|
                    0 <= k < i ==> (#[trigger] rows@[k])@ == topology::restored(
                        None,
                        topology::seed_services()[k],
                        now@,
                    ),
            decreases services@.len() - i,
        {
            assert(topology::seed_services()[i as int] == services@[i as int]@) by {
                assert(topology::service_views(services@)[i as int] == services@[i as int]@);
            }
            rows.push(upsert(None, &services[i], now));
            i = i + 1;
        }
        assert(topology::service_views(services@).len() == services@.len());
    }
    assert(topology::row_views(rows@) =~= seeding(count as int, now@));
    rows
}

/// Those of the first `n` rows of the policy table whose policies are not stored
/// yet.
pub open spec fn unstored(stored: Set<Seq<char>>, n: nat) -> Seq<policy::PolicyRowView>
    decreases n,
{
    if n == 0 || n > policy::policy_table().len() {
        Seq::empty()
    } else {
        let before = unstored(stored, (n - 1) as nat);
        let row = policy::policy_table()[n - 1];
        if stored.contains(row.id) {
            before
        } else {
            before.push(row)
        }
    }
}

/// Whether a policy is among those that are stored.
fn is_stored(stored: &Vec<String>, id: &str) -> (r: bool)
    ensures
        r == Seq::new(stored@.len(), |i: int| stored@[i]@).contains(id@),
{
    let ghost ids = Seq::new(stored@.len(), |i: int| stored@[i]@);
    let mut i: usize = 0;
    while i < stored.len()
        invariant
            i <= stored@.len(),
            ids == Seq::new(stored@.len(), |i: int| stored@[i]@),
            forall|j: int| 0 <= j < i ==> #[trigger] ids[j] != id@,
        decreases stored@.len() - i,
    {
        if text::str_eq(stored[i].as_str(), id) {
            assert(ids[i as int] == id@);
            return true;
        }
        i = i + 1;
    }
    false
}

/// The rows to store in the policy table, each switched on, from the ids that it
/// has: those that are missing. What is stored already stays as it is.
pub fn policies_to_seed(stored: &Vec<String>) -> (rows: Vec<PolicyRow>)
    ensures
        Seq::new(rows@.len(), |i: int| rows@[i]@) == unstored(
            Seq::new(stored@.len(), |i: int| stored@[i]@).to_set(),
            policy::policy_table().len(),
        ),
{
    let ghost ids = Seq::new(stored@.len(), |i: int| stored@[i]@).to_set();
    let table = policies();
    let ghost views = Seq::new(table@.len(), |i: int| table@[i]@);
    let mut rows: Vec<PolicyRow> = Vec::new();
    let mut i: usize = 0;
    assert(Seq::new(rows@.len(), |i: int| rows@[i]@) =~= unstored(ids, 0));
    while i < table.len()
        invariant
            i <= table@.len(),
            ids == Seq::new(stored@.len(), |i: int| stored@[i]@).to_set(),
            views == Seq::new(table@.len(), |i: int| table@[i]@),
            views == policy::policy_table(),
            Seq::new(rows@.len(), |i: int| rows@[i]@) == unstored(ids, i as nat),
        decreases table@.len() - i,
    {
        let ghost before = Seq::new(rows@.len(), |i: int| rows@[i]@);
        let row = &table[i];
        assert(views[i as int] == row@);
        if !is_stored(stored, row.id) {
            rows.push(
                PolicyRow {
                    id: row.id,
                    ord: row.ord,
                    effect: row.effect,
                    description: row.description.clone(),
                },
            );
            assert(Seq::new(rows@.len(), |i: int| rows@[i]@) =~= before.push(row@));
        }
        i = i + 1;
    }
    assert(views.len() == table@.len());
    rows
}

// ---------------------------------------------------------------------------
// Laws
// ---------------------------------------------------------------------------

/// A policy as it is stored, with its switch.
pub struct StoredPolicy {
    pub row: policy::PolicyRowView,
    pub enabled: bool,
}

/// The tables that starting up fills: policies and services, by id and hostname.
#[verifier::ext_equal]
pub struct Tables {
    pub policies: Map<Seq<char>, StoredPolicy>,
    pub topology: Map<Seq<char>, topology::TopoRowView>,
}

/// The policies after some rows were stored, each switched on.
pub open spec fn with_policies(
    stored: Map<Seq<char>, StoredPolicy>,
    rows: Seq<policy::PolicyRowView>,
) -> Map<Seq<char>, StoredPolicy>
    decreases rows.len(),
{
    if rows.len() == 0 {
        stored
    } else {
        with_policies(stored, rows.drop_last()).insert(
            rows.last().id,
            StoredPolicy { row: rows.last(), enabled: true },
        )
    }
}

/// The services after some rows were stored.
pub open spec fn with_services(
    stored: Map<Seq<char>, topology::TopoRowView>,
    rows: Seq<topology::TopoRowView>,
) -> Map<Seq<char>, topology::TopoRowView>
    decreases rows.len(),
{
    if rows.len() == 0 {
        stored
    } else {
        with_services(stored, rows.drop_last()).insert(rows.last().service.hostname, rows.last())
    }
}

/// The tables after starting up.
pub open spec fn initialized(t: Tables, now: Seq<char>) -> Tables {
    Tables {
        policies: with_policies(
            t.policies,
            unstored(t.policies.dom(), policy::policy_table().len()),
        ),
        topology: with_services(t.topology, seeding(t.topology.dom().len() as int, now)),
    }
}

/// Storing the missing ones of the first `n` policies adds just those.
proof fn lemma_policies(stored: Map<Seq<char>, StoredPolicy>, n: nat)
    requires
        n <= policy::policy_table().len(),
    ensures
        ({
            let after = with_policies(stored, unstored(stored.dom(), n));
            &&& forall|id: Seq<char>|
                stored.contains_key(id) ==> #[trigger] after.contains_key(id) && after[id]
                    == stored[id]
            &&& forall|i: int|
                0 <= i < n ==> after.contains_key((#[trigger] policy::policy_table()[i]).id)
            &&& forall|id: Seq<char>|
                #[trigger] after.contains_key(id) && !stored.contains_key(id) ==> after[id].enabled
                    && after[id].row.id == id && exists|i: int|
                    0 <= i < n && after[id].row == #[trigger] policy::policy_table()[i]
        }),
    decreases n,
{
    if n > 0 {
        let m = (n - 1) as nat;
        lemma_policies(stored, m);
        let row = policy::policy_table()[m as int];
        let rows = unstored(stored.dom(), n);
        let before = with_policies(stored, unstored(stored.dom(), m));
        let after = with_policies(stored, rows);
        if !stored.contains_key(row.id) {
            assert(rows.drop_last() =~= unstored(stored.dom(), m));
            assert(after == before.insert(row.id, StoredPolicy { row, enabled: true }));
            assert forall|id: Seq<char>|
                #[trigger] after.contains_key(id) && !stored.contains_key(
                    id,
                ) implies after[id].enabled && after[id].row.id == id && exists|i: int|
                0 <= i < n && after[id].row == #[trigger] policy::policy_table()[i] by {
                if id == row.id {
                    assert(after[id].row == policy::policy_table()[m as int]);
                } else {
                    assert(before.contains_key(id));
                    let i = choose|i: int|
                        0 <= i < m && before[id].row == #[trigger] policy::policy_table()[i];
                    assert(after[id].row == policy::policy_table()[i]);
                }
            }
            assert forall|id: Seq<char>| stored.contains_key(id) implies #[trigger] after.contains_key(
                id,
            ) && after[id] == stored[id] by {
                assert(before.contains_key(id));
            }
        } else {
            assert(rows == unstored(stored.dom(), m));
            assert(before.contains_key(row.id));
        }
    }
}

/// After starting up, every policy is stored. One that was stored before is as it
/// was, its switch included; one that was not is switched on, as the policy table
/// has it, in the order of the engine. Nothing else was added.
pub proof fn law_starting_up_stores_what_is_missing(t: Tables, now: Seq<char>)
    ensures
        ({
            let after = initialized(t, now).policies;
            &&& forall|id: Seq<char>|
                t.policies.contains_key(id) ==> #[trigger] after.contains_key(id) && after[id]
                    == t.policies[id]
            &&& forall|i: int|
                0 <= i < policy::policy_table().len() ==> after.contains_key(
                    (#[trigger] policy::policy_table()[i]).id,
                )
            &&& forall|id: Seq<char>|
                #[trigger] after.contains_key(id) && !t.policies.contains_key(id)
                    ==> after[id].enabled && after[id].row.id == id && exists|i: int|
                    0 <= i < policy::policy_table().len() && after[id].row
                        == #[trigger] policy::policy_table()[i] && after[id].row.ord == i
        }),
{
    lemma_policies(t.policies, policy::policy_table().len());
    let after = initialized(t, now).policies;
    assert forall|id: Seq<char>|
        #[trigger] after.contains_key(id) && !t.policies.contains_key(
            id,
        ) implies after[id].enabled && after[id].row.id == id && exists|i: int|
        0 <= i < policy::policy_table().len() && after[id].row
            == #[trigger] policy::policy_table()[i] && after[id].row.ord == i by {
        let i = choose|i: int|
            0 <= i < policy::policy_table().len() && after[id].row
                == #[trigger] policy::policy_table()[i];
        policy::law_the_table_is_in_engine_order(i);
    }
}

/// Nothing is missing where all of the first `n` policies are stored.
proof fn lemma_nothing_unstored(stored: Set<Seq<char>>, n: nat)
    requires
        n <= policy::policy_table().len(),
        forall|i: int| 0 <= i < n ==> stored.contains((#[trigger] policy::policy_table()[i]).id),
    ensures
        unstored(stored, n).len() == 0,
    decreases n,
{
    if n > 0 {
        lemma_nothing_unstored(stored, (n - 1) as nat);
        assert(stored.contains(policy::policy_table()[n - 1].id));
    }
}

/// Starting again changes nothing, whatever an operator has switched off and
/// whatever has become of the services since: once every policy is stored and the
/// model has a row, both tables stay as they are.
pub proof fn law_starting_again_changes_nothing(t: Tables, now: Seq<char>)
    requires
        forall|i: int|
            0 <= i < policy::policy_table().len() ==> t.policies.contains_key(
                (#[trigger] policy::policy_table()[i]).id,
            ),
        t.topology.dom().len() > 0,
    ensures
        initialized(t, now) == t,
{
    lemma_nothing_unstored(t.policies.dom(), policy::policy_table().len());
}

/// Storing rows leaves a model with rows.
proof fn lemma_services_grow(
    stored: Map<Seq<char>, topology::TopoRowView>,
    rows: Seq<topology::TopoRowView>,
)
    requires
        stored.dom().finite(),
    ensures
        with_services(stored, rows).dom().finite(),
        rows.len() > 0 ==> with_services(stored, rows).dom().len() > 0,
    decreases rows.len(),
{
    if rows.len() > 0 {
        lemma_services_grow(stored, rows.drop_last());
        assert(with_services(stored, rows).dom().contains(rows.last().service.hostname));
    }
}

/// Starting up twice is starting up once.
pub proof fn law_starting_up_is_idempotent(t: Tables, now: Seq<char>, later: Seq<char>)
    requires
        t.topology.dom().finite(),
    ensures
        initialized(initialized(t, now), later) == initialized(t, now),
{
    law_starting_up_stores_what_is_missing(t, now);
    lemma_services_grow(t.topology, seeding(t.topology.dom().len() as int, now));
    law_starting_again_changes_nothing(initialized(t, now), later);
}

/// A wait is doubled, up to thirty seconds.
pub proof fn law_a_wait_is_doubled_up_to_thirty_seconds(delay: int)
    ensures
        delay <= 15 ==> doubled(delay) == 2 * delay,
        delay > 15 ==> doubled(delay) == 30,
{
}

/// The key that serializes appends is six letters, each a byte of it.
pub proof fn law_the_key_of_the_lock()
    ensures
        ADVISORY_LOCK_KEY == ((((('e' as int * 256 + 's' as int) * 256 + 'c' as int) * 256
            + 'l' as int) * 256 + 'u' as int) * 256 + 's' as int),
{
}

/// An empty model is seeded with a row for each service of the seed, in its order:
/// the service as the seed has it, present and not yet probed. A model that has a
/// row is not seeded.
pub proof fn law_an_empty_model_is_seeded(count: int, now: Seq<char>, i: int)
    ensures
        count != 0 ==> seeding(count, now).len() == 0,
        count == 0 ==> seeding(count, now).len() == topology::seed_services().len(),
        count == 0 && 0 <= i < topology::seed_services().len() ==> {
            let row = seeding(count, now)[i];
            &&& row.service == topology::seed_services()[i]
            &&& row.status == "present"@
            &&& !row.probe_ok
            &&& row.consecutive_failures == 0
            &&& row.last_probe is None
            &&& row.updated_at == now
        },
{
}

/// Where a row of the policy table that is not stored stands among those of the
/// first `n`.
proof fn lemma_unstored_has(stored: Set<Seq<char>>, i: int, n: nat) -> (k: int)
    requires
        0 <= i < n <= policy::policy_table().len(),
        !stored.contains(policy::policy_table()[i].id),
    ensures
        0 <= k < unstored(stored, n).len(),
        unstored(stored, n)[k] == policy::policy_table()[i],
    decreases n,
{
    if i == n - 1 {
        unstored(stored, n).len() - 1
    } else {
        lemma_unstored_has(stored, i, (n - 1) as nat)
    }
}

/// Which row of the first `n` of the policy table an unstored one is.
proof fn lemma_unstored_is(stored: Set<Seq<char>>, k: int, n: nat) -> (i: int)
    requires
        n <= policy::policy_table().len(),
        0 <= k < unstored(stored, n).len(),
    ensures
        0 <= i < n,
        unstored(stored, n)[k] == policy::policy_table()[i],
        !stored.contains(policy::policy_table()[i].id),
    decreases n,
{
    if k < unstored(stored, (n - 1) as nat).len() {
        lemma_unstored_is(stored, k, (n - 1) as nat)
    } else {
        n - 1
    }
}

/// Every policy that is not stored is to be stored, as the table has it.
pub proof fn law_every_missing_policy_is_stored(stored: Set<Seq<char>>, i: int)
    requires
        0 <= i < policy::policy_table().len(),
        !stored.contains(policy::policy_table()[i].id),
    ensures
        exists|k: int|
            0 <= k < unstored(stored, policy::policy_table().len()).len() && #[trigger] unstored(
                stored,
                policy::policy_table().len(),
            )[k] == policy::policy_table()[i],
{
    let k = lemma_unstored_has(stored, i, policy::policy_table().len());
}

/// Nothing else is: each row to store is one of the table, and its policy is not
/// stored.
pub proof fn law_only_missing_policies_are_stored(stored: Set<Seq<char>>, k: int)
    requires
        0 <= k < unstored(stored, policy::policy_table().len()).len(),
    ensures
        !stored.contains(unstored(stored, policy::policy_table().len())[k].id),
        exists|i: int|
            0 <= i < policy::policy_table().len() && #[trigger] policy::policy_table()[i]
                == unstored(stored, policy::policy_table().len())[k],
{
    let i = lemma_unstored_is(stored, k, policy::policy_table().len());
    assert(policy::policy_table()[i] == unstored(stored, policy::policy_table().len())[k]);
}

/// The rows to store stand in the order of the table, each once.
pub proof fn law_missing_policies_stand_in_their_order(stored: Set<Seq<char>>, n: nat)
    requires
        n <= policy::policy_table().len(),
    ensures
        forall|k: int, l: int|
            0 <= k < l < unstored(stored, n).len() ==> (#[trigger] unstored(stored, n)[k]).ord < (
            #[trigger] unstored(stored, n)[l]).ord,
        forall|k: int|
            0 <= k < unstored(stored, n).len() ==> (#[trigger] unstored(stored, n)[k]).ord < n,
    decreases n,
{
    if n > 0 {
        law_missing_policies_stand_in_their_order(stored, (n - 1) as nat);
        policy::law_the_table_is_in_engine_order(n - 1);
        let before = unstored(stored, (n - 1) as nat);
        let after = unstored(stored, n);
        assert forall|k: int| 0 <= k < after.len() implies (#[trigger] after[k]).ord < n && (k
            < before.len() ==> after[k] == before[k]) by {
            if k < before.len() {
                assert(after[k] == before[k]);
            }
        }
        assert forall|k: int, l: int| 0 <= k < l < after.len() implies (#[trigger] after[k]).ord < (
        #[trigger] after[l]).ord by {
            assert(before[k].ord < n - 1);
            if l < before.len() {
                assert(before[k].ord < before[l].ord);
            }
        }
    }
}

} // verus!
