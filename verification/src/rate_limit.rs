//! 30 requests per minute and client address. The count is shared across
//! containers through the cache; if the cache cannot be reached, an in-process
//! count takes over.

use vstd::prelude::*;
use vstd::string::*;

use crate::text;

verus! {

/// How many requests a client may make in a minute.
pub const LIMIT: i64 = 30;

/// Seconds that the cache keeps a count.
pub const KEEP_SECS: i64 = 120;

/// How many clients the in-process count may hold before it is swept.
pub const SWEEP_ABOVE: usize = 4096;

// ---------------------------------------------------------------------------
// The shared count
// ---------------------------------------------------------------------------

/// The minute that a request counts in.
pub fn minute_of(unix_secs: u64) -> (r: u64)
    ensures
        r == unix_secs / 60,
{
    unix_secs / 60
}

/// The key of a count in the cache: `rl:{ip}:{minute}`.
pub fn cache_key(ip: &str, minute: u64) -> (key: String)
    ensures
        key@ == "rl:"@ + ip@ + ":"@ + text::dec(minute as nat),
{
    let mut key = String::new();
    key.append("rl:");
    key.append(ip);
    key.append(":");
    let digits = text::dec_text(minute);
    key.append(digits.as_str());
    assert(key@ =~= "rl:"@ + ip@ + ":"@ + text::dec(minute as nat));
    key
}

/// How long the cache is to keep a count from here on, in seconds: the first
/// request of a minute sets it.
pub fn expiry(count: i64) -> (r: Option<i64>)
    ensures
        r == if count == 1 {
            Some(KEEP_SECS)
        } else {
            None::<i64>
        },
        count == 1 ==> r == Some(120i64),
{
    if count == 1 {
        Some(KEEP_SECS)
    } else {
        None
    }
}

/// One client in one minute has one key, which no other client and no other
/// minute shares.
pub proof fn law_counts_are_kept_apart(a: Seq<char>, m: nat, b: Seq<char>, n: nat)
    requires
        "rl:"@ + a + ":"@ + text::dec(m) == "rl:"@ + b + ":"@ + text::dec(n),
    ensures
        a == b,
        m == n,
{
    reveal_strlit("rl:");
    reveal_strlit(":");
    text::lemma_dec_digits(m);
    text::lemma_dec_digits(n);
    let x = "rl:"@ + a + ":"@ + text::dec(m);
    let y = "rl:"@ + b + ":"@ + text::dec(n);
    let p = x.len() - text::dec(m).len() - 1;
    let q = y.len() - text::dec(n).len() - 1;
    assert(x[p] == ':');
    assert(y[q] == ':');
    if p < q {
        assert(x[q] == text::dec(m)[q - p - 1]);
        assert(text::dec(m)[q - p - 1] as int <= 57);
    } else if q < p {
        assert(y[p] == text::dec(n)[p - q - 1]);
        assert(text::dec(n)[p - q - 1] as int <= 57);
    }
    assert(p == q);
    assert(a =~= x.subrange(3, p));
    assert(b =~= y.subrange(3, q));
    assert(text::dec(m) =~= x.skip(p + 1));
    assert(text::dec(n) =~= y.skip(q + 1));
    text::lemma_dec_injective(m, n);
}

// ---------------------------------------------------------------------------
// The in-process count
// ---------------------------------------------------------------------------

/// What one client has done in one minute.
struct Slot {
    ip: String,
    minute: u64,
    hits: u32,
}

/// The in-process count: for each client, the minute it was last seen in and its
/// requests in that minute.
pub struct MemLimiter {
    slots: Vec<Slot>,
}

/// No two slots are of the same client.
spec fn distinct(slots: Seq<Slot>) -> bool {
    forall|i: int, j: int|
        0 <= i < slots.len() && 0 <= j < slots.len() && (#[trigger] slots[i]).ip@ == (
        #[trigger] slots[j]).ip@ ==> i == j
}

/// Slot `i` is the one of `ip`.
spec fn at(slots: Seq<Slot>, i: int, ip: Seq<char>) -> bool {
    0 <= i < slots.len() && slots[i].ip@ == ip
}

/// What the slots hold, by client.
spec fn slot_map(slots: Seq<Slot>) -> Map<Seq<char>, (u64, u32)> {
    Map::new(
        |ip: Seq<char>| exists|i: int| at(slots, i, ip),
        |ip: Seq<char>|
            {
                let i = choose|i: int| at(slots, i, ip);
                (slots[i].minute, slots[i].hits)
            },
    )
}

impl View for MemLimiter {
    type V = Map<Seq<char>, (u64, u32)>;

    closed spec fn view(&self) -> Map<Seq<char>, (u64, u32)> {
        slot_map(self.slots@)
    }
}

/// The requests of a client in a minute.
pub open spec fn hits_of(m: Map<Seq<char>, (u64, u32)>, ip: Seq<char>, minute: u64) -> u32 {
    if m.contains_key(ip) && m[ip].0 == minute {
        m[ip].1
    } else {
        0
    }
}

/// The count without what earlier minutes left behind, once it has grown too
/// large.
pub open spec fn swept(
    m: Map<Seq<char>, (u64, u32)>,
    minute: u64,
) -> Map<Seq<char>, (u64, u32)> {
    if m.dom().len() > SWEEP_ABOVE {
        Map::new(|ip: Seq<char>| m.contains_key(ip) && m[ip].0 == minute, |ip: Seq<char>| m[ip])
    } else {
        m
    }
}

/// The count after one more request.
pub open spec fn counted(
    m: Map<Seq<char>, (u64, u32)>,
    ip: Seq<char>,
    minute: u64,
) -> Map<Seq<char>, (u64, u32)> {
    swept(m, minute).insert(ip, (minute, (hits_of(m, ip, minute) + 1) as u32))
}

/// The slots of different clients are found by their clients.
proof fn lemma_slot(slots: Seq<Slot>, i: int)
    requires
        distinct(slots),
        0 <= i < slots.len(),
    ensures
        slot_map(slots).contains_key(slots[i].ip@),
        slot_map(slots)[slots[i].ip@] == (slots[i].minute, slots[i].hits),
{
    let ip = slots[i].ip@;
    assert(at(slots, i, ip));
    let j = choose|j: int| at(slots, j, ip);
    assert(slots[j].ip@ == slots[i].ip@);
}

/// There are as many clients as slots.
proof fn lemma_slot_count(slots: Seq<Slot>)
    requires
        distinct(slots),
    ensures
        slot_map(slots).dom().finite(),
        slot_map(slots).dom().len() == slots.len(),
    decreases slots.len(),
{
    let dom = slot_map(slots).dom();
    if slots.len() == 0 {
        assert(dom =~= Set::<Seq<char>>::empty()) by {
            assert forall|ip: Seq<char>| !dom.contains(ip) by {
                if dom.contains(ip) {
                    let i = choose|i: int| at(slots, i, ip);
                    assert(at(slots, i, ip));
                }
            }
        }
    } else {
        let shorter = slots.drop_last();
        let last = slots.last().ip@;
        assert forall|i: int, j: int|
            0 <= i < shorter.len() && 0 <= j < shorter.len() && (#[trigger] shorter[i]).ip@ == (
            #[trigger] shorter[j]).ip@ implies i == j by {
            assert(slots[i].ip@ == slots[j].ip@);
        }
        lemma_slot_count(shorter);
        let before = slot_map(shorter).dom();
        assert forall|ip: Seq<char>| dom.contains(ip) == before.insert(last).contains(ip) by {
            if dom.contains(ip) {
                let i = choose|i: int| at(slots, i, ip);
                assert(at(slots, i, ip));
                if i < shorter.len() {
                    assert(at(shorter, i, ip));
                }
            }
            if before.contains(ip) {
                let i = choose|i: int| at(shorter, i, ip);
                assert(at(slots, i, ip));
            }
            if ip == last {
                assert(at(slots, slots.len() - 1, ip));
            }
        }
        assert(dom =~= before.insert(last));
        if before.contains(last) {
            let i = choose|i: int| at(shorter, i, last);
            assert(slots[i].ip@ == slots[slots.len() - 1].ip@);
        }
    }
}

/// Where the slot of a client is.
fn find(slots: &Vec<Slot>, ip: &str) -> (r: Option<usize>)
    ensures
        match r {
            Some(i) => at(slots@, i as int, ip@),
            None => forall|i: int| !at(slots@, i, ip@),
        },
{
    let mut i: usize = 0;
    while i < slots.len()
        invariant
            i <= slots@.len(),
            forall|j: int| 0 <= j < i ==> !at(slots@, j, ip@),
        decreases slots@.len() - i,
    {
        if text::str_eq(slots[i].ip.as_str(), ip) {
            return Some(i);
        }
        i = i + 1;
    }
    None
}

/// The slots of one minute.
fn sweep(slots: &Vec<Slot>, minute: u64) -> (r: Vec<Slot>)
    requires
        distinct(slots@),
    ensures
        distinct(r@),
        forall|ip: Seq<char>|
            #![trigger slot_map(r@).dom().contains(ip)]
            slot_map(r@).dom().contains(ip) == (slot_map(slots@).contains_key(ip) && slot_map(
                slots@,
            )[ip].0 == minute),
        forall|ip: Seq<char>|
            slot_map(r@).contains_key(ip) ==> #[trigger] slot_map(r@)[ip] == slot_map(slots@)[ip],
{
    let mut r: Vec<Slot> = Vec::new();
    let ghost mut origin: Seq<int> = Seq::empty();
    let mut i: usize = 0;
    while i < slots.len()
        invariant
            i <= slots@.len(),
            distinct(slots@),
            origin.len() == r@.len(),
            forall|k: int|
                0 <= k < r@.len() ==> {
                    &&& 0 <= #[trigger] origin[k] < i
                    &&& r@[k].ip@ == slots@[origin[k]].ip@
                    &&& r@[k].minute == slots@[origin[k]].minute
                    &&& r@[k].hits == slots@[origin[k]].hits
                    &&& r@[k].minute == minute
                },
            forall|k: int, l: int|
                0 <= k < l < origin.len() ==> #[trigger] origin[k] < #[trigger] origin[l],
            forall|j: int|
                0 <= j < i && (#[trigger] slots@[j]).minute == minute ==> exists|k: int|
                    0 <= k < origin.len() && #[trigger] origin[k] == j,
        decreases slots@.len() - i,
    {
        if slots[i].minute == minute {
            let ghost before = origin;
            r.push(Slot { ip: slots[i].ip.clone(), minute, hits: slots[i].hits });
            proof {
                origin = origin.push(i as int);
                assert(origin[before.len() as int] == i);
                assert forall|j: int|
                    0 <= j < i + 1 && (#[trigger] slots@[j]).minute == minute implies exists|k: int|
                    0 <= k < origin.len() && #[trigger] origin[k] == j by {
                    if j < i {
                        let k = choose|k: int| 0 <= k < before.len() && #[trigger] before[k] == j;
                        assert(origin[k] == j);
                    }
                }
            }
        }
        i = i + 1;
    }
    proof {
        assert forall|k: int, l: int|
            0 <= k < r@.len() && 0 <= l < r@.len() && (#[trigger] r@[k]).ip@ == (
            #[trigger] r@[l]).ip@ implies k == l by {
            assert(slots@[origin[k]].ip@ == slots@[origin[l]].ip@);
        }
        let a = slot_map(slots@);
        let b = slot_map(r@);
        assert forall|ip: Seq<char>| #![trigger b.dom().contains(ip)]
            b.dom().contains(ip) == (a.contains_key(ip) && a[ip].0 == minute) by {
            if b.dom().contains(ip) {
                let k = choose|k: int| at(r@, k, ip);
                lemma_slot(slots@, origin[k]);
            }
            if a.contains_key(ip) && a[ip].0 == minute {
                let j = choose|j: int| at(slots@, j, ip);
                lemma_slot(slots@, j);
                let k = choose|k: int| 0 <= k < origin.len() && #[trigger] origin[k] == j;
                assert(at(r@, k, ip));
            }
        }
        assert forall|ip: Seq<char>| b.contains_key(ip) implies #[trigger] b[ip] == a[ip] by {
            let k = choose|k: int| at(r@, k, ip);
            lemma_slot(r@, k);
            lemma_slot(slots@, origin[k]);
        }
    }
    r
}

/// Sets the slot of a client.
fn store(slots: &mut Vec<Slot>, ip: &str, minute: u64, hits: u32)
    requires
        distinct(old(slots)@),
    ensures
        distinct(final(slots)@),
        slot_map(final(slots)@) == slot_map(old(slots)@).insert(ip@, (minute, hits)),
{
    let ghost before = slots@;
    let ghost mut place: int = slots@.len() as int;
    let slot = Slot { ip: ip.to_owned(), minute, hits };
    match find(slots, ip) {
        Some(i) => {
            proof {
                place = i as int;
            }
            slots.set(i, slot);
        },
        None => {
            slots.push(slot);
        },
    }
    proof {
        let after = slots@;
        assert(after[place].ip@ == ip@);
        assert forall|i: int| 0 <= i < after.len() && i != place implies #[trigger] after[i]
            == before[i] && after[i].ip@ != ip@ by {
            if place < before.len() {
                assert(before[place].ip@ == ip@);
            } else {
                assert(!at(before, i, ip@));
            }
            assert(after[i] == before[i]);
        }
        assert forall|i: int, j: int|
            0 <= i < after.len() && 0 <= j < after.len() && (#[trigger] after[i]).ip@ == (
            #[trigger] after[j]).ip@ implies i == j by {
            if i != place && j != place {
                assert(before[i].ip@ == before[j].ip@);
            }
        }
        let a = slot_map(before).insert(ip@, (minute, hits));
        let b = slot_map(after);
        lemma_slot(after, place);
        assert forall|k: Seq<char>|
            #![trigger a.dom().contains(k)]
            #![trigger b.dom().contains(k)]
            a.dom().contains(k) == b.dom().contains(k) && (a.dom().contains(k) ==> a[k] == b[k]) by {
            if k != ip@ {
                if a.dom().contains(k) {
                    let i = choose|i: int| at(before, i, k);
                    assert(at(before, i, k));
                    assert(after[i] == before[i]);
                    assert(at(after, i, k));
                    lemma_slot(before, i);
                    lemma_slot(after, i);
                }
                if b.dom().contains(k) {
                    let i = choose|i: int| at(after, i, k);
                    assert(at(after, i, k));
                    assert(after[i] == before[i]);
                    assert(at(before, i, k));
                }
            }
        }
        assert(a =~= b);
    }
}

impl MemLimiter {
    /// No two slots are of the same client.
    #[verifier::type_invariant]
    closed spec fn inv(self) -> bool {
        distinct(self.slots@)
    }

    /// Nothing counted yet.
    pub fn new() -> (r: MemLimiter)
        ensures
            r@ == Map::<Seq<char>, (u64, u32)>::empty(),
    {
        let r = MemLimiter { slots: Vec::new() };
        proof {
            let m = slot_map(r.slots@);
            assert forall|ip: Seq<char>| !m.dom().contains(ip) by {
                if m.dom().contains(ip) {
                    let i = choose|i: int| at(r.slots@, i, ip);
                    assert(at(r.slots@, i, ip));
                }
            }
            assert(m =~= Map::<Seq<char>, (u64, u32)>::empty());
        }
        r
    }

    /// The requests of a client in a minute.
    pub fn hits(&self, ip: &str, minute: u64) -> (r: u32)
        ensures
            r == hits_of(self@, ip@, minute),
            !self@.contains_key(ip@) ==> r == 0,
            self@.contains_key(ip@) && self@[ip@].0 == minute ==> r == self@[ip@].1,
            self@.contains_key(ip@) && self@[ip@].0 != minute ==> r == 0,
    {
        proof {
            use_type_invariant(self);
        }
        match find(&self.slots, ip) {
            Some(i) => {
                proof {
                    lemma_slot(self.slots@, i as int);
                }
                if self.slots[i].minute == minute {
                    self.slots[i].hits
                } else {
                    0
                }
            },
            None => {
                proof {
                    if self@.contains_key(ip@) {
                        let i = choose|i: int| at(self.slots@, i, ip@);
                        assert(at(self.slots@, i, ip@));
                    }
                }
                0
            },
        }
    }

    /// Counts a request; `true` if the client may make it.
    pub fn count(&mut self, ip: &str, minute: u64) -> (r: bool)
        requires
            hits_of(old(self)@, ip@, minute) < u32::MAX,
        ensures
            final(self)@ == counted(old(self)@, ip@, minute),
            r == (hits_of(old(self)@, ip@, minute) + 1 <= LIMIT),
            r == (hits_of(old(self)@, ip@, minute) < 30),
            final(self)@.contains_key(ip@),
            final(self)@[ip@].0 == minute,
            final(self)@[ip@].1 == hits_of(old(self)@, ip@, minute) + 1,
    {
        proof {
            use_type_invariant(&*self);
        }
        let ghost before = self@;
        let hits: u32 = self.hits(ip, minute) + 1;
        let mut slots: Vec<Slot> = Vec::new();
        std::mem::swap(&mut slots, &mut self.slots);
        proof {
            lemma_slot_count(slots@);
        }
        if slots.len() > SWEEP_ABOVE {
            let kept = sweep(&slots, minute);
            assert(slot_map(kept@) =~= swept(before, minute));
            slots = kept;
        }
        assert(slot_map(slots@) == swept(before, minute));
        store(&mut slots, ip, minute, hits);
        self.slots = slots;
        (hits as i64) <= LIMIT
    }
}

// ---------------------------------------------------------------------------
// The limit
// ---------------------------------------------------------------------------

/// Whether a client may make a request; `true` if so. `cached` is the count that
/// the cache gave for the client and the minute, this request included. Without
/// one, the request counts in the process.
pub fn check(cached: Option<i64>, limiter: &mut MemLimiter, ip: &str, minute: u64) -> (r: bool)
    requires
        cached is None ==> hits_of(old(limiter)@, ip@, minute) < u32::MAX,
    ensures
        match cached {
            Some(count) => r == (count <= LIMIT) && final(limiter)@ == old(limiter)@,
            None => {
                &&& r == (hits_of(old(limiter)@, ip@, minute) + 1 <= LIMIT)
                &&& final(limiter)@ == counted(old(limiter)@, ip@, minute)
            },
        },
        cached matches Some(count) ==> r == (count <= 30),
        cached is None ==> r == (hits_of(old(limiter)@, ip@, minute) < 30),
{
    match cached {
        Some(count) => count <= LIMIT,
        None => limiter.count(ip, minute),
    }
}

// ---------------------------------------------------------------------------
// Laws
// ---------------------------------------------------------------------------

/// A request counts for its client and for no other: sweeping loses nothing of
/// the current minute.
pub proof fn law_a_request_counts_for_its_client(
    m: Map<Seq<char>, (u64, u32)>,
    ip: Seq<char>,
    minute: u64,
    other: Seq<char>,
)
    requires
        hits_of(m, ip, minute) < u32::MAX,
    ensures
        hits_of(counted(m, ip, minute), ip, minute) == hits_of(m, ip, minute) + 1,
        other != ip ==> hits_of(counted(m, ip, minute), other, minute) == hits_of(
            m,
            other,
            minute,
        ),
{
}

/// A minute does not count for another: when a new one begins, every client
/// starts afresh.
pub proof fn law_a_new_minute_starts_afresh(
    m: Map<Seq<char>, (u64, u32)>,
    ip: Seq<char>,
    minute: u64,
    next: u64,
)
    requires
        minute != next,
    ensures
        hits_of(counted(m, ip, minute), ip, next) == 0,
{
}

/// The count after some requests in one minute, by the addresses they came from.
pub open spec fn counted_all(
    m: Map<Seq<char>, (u64, u32)>,
    ips: Seq<Seq<char>>,
    minute: u64,
) -> Map<Seq<char>, (u64, u32)>
    decreases ips.len(),
{
    if ips.len() == 0 {
        m
    } else {
        counted(counted_all(m, ips.drop_last(), minute), ips.last(), minute)
    }
}

/// How many of some requests came from a client.
pub open spec fn requests_of(ips: Seq<Seq<char>>, ip: Seq<char>) -> nat
    decreases ips.len(),
{
    if ips.len() == 0 {
        0
    } else {
        requests_of(ips.drop_last(), ip) + if ips.last() == ip {
            1nat
        } else {
            0nat
        }
    }
}

/// A client has as many requests against it as it made in the minute, whoever
/// else made some in between. So from a fresh start its first 30 requests of a
/// minute are allowed, and no further one is.
pub proof fn law_thirty_requests_a_minute(
    m: Map<Seq<char>, (u64, u32)>,
    ips: Seq<Seq<char>>,
    ip: Seq<char>,
    minute: u64,
)
    requires
        hits_of(m, ip, minute) == 0,
        ips.len() < u32::MAX,
    ensures
        hits_of(counted_all(m, ips, minute), ip, minute) == requests_of(ips, ip),
        (hits_of(counted_all(m, ips, minute), ip, minute) + 1 <= LIMIT) == (requests_of(ips, ip)
            < 30),
    decreases ips.len(),
{
    lemma_requests_bound(ips, ip);
    if ips.len() > 0 {
        let before = counted_all(m, ips.drop_last(), minute);
        law_thirty_requests_a_minute(m, ips.drop_last(), ip, minute);
        if ips.last() == ip {
            law_a_request_counts_for_its_client(before, ip, minute, ip);
        }
    }
}

/// No more requests came from a client than came at all.
proof fn lemma_requests_bound(ips: Seq<Seq<char>>, ip: Seq<char>)
    ensures
        requests_of(ips, ip) <= ips.len(),
    decreases ips.len(),
{
    if ips.len() > 0 {
        lemma_requests_bound(ips.drop_last(), ip);
    }
}

/// The requests of a client in a minute are those of its slot, if that is of the
/// minute, and none otherwise.
pub proof fn law_what_counts_for_a_client(
    m: Map<Seq<char>, (u64, u32)>,
    ip: Seq<char>,
    minute: u64,
)
    ensures
        m.contains_key(ip) && m[ip].0 == minute ==> hits_of(m, ip, minute) == m[ip].1,
        m.contains_key(ip) && m[ip].0 != minute ==> hits_of(m, ip, minute) == 0,
        !m.contains_key(ip) ==> hits_of(m, ip, minute) == 0,
{
}

/// A request leaves its client with one request more in its minute. A count of up
/// to 4096 clients keeps every other client as it was; a larger one keeps those of
/// the minute as they were, and drops the rest.
pub proof fn law_a_request_leaves_the_others_alone(
    m: Map<Seq<char>, (u64, u32)>,
    ip: Seq<char>,
    minute: u64,
    other: Seq<char>,
)
    requires
        hits_of(m, ip, minute) < u32::MAX,
    ensures
        counted(m, ip, minute).contains_key(ip),
        counted(m, ip, minute)[ip].0 == minute,
        counted(m, ip, minute)[ip].1 == hits_of(m, ip, minute) + 1,
        other != ip && m.dom().len() <= 4096 ==> counted(m, ip, minute).contains_key(other)
            == m.contains_key(other),
        other != ip && m.dom().len() > 4096 ==> counted(m, ip, minute).contains_key(other) == (
        m.contains_key(other) && m[other].0 == minute),
        other != ip && counted(m, ip, minute).contains_key(other) ==> counted(m, ip, minute)[other]
            == m[other],
{
}

/// Requests of different clients in a minute count alike in either order.
pub proof fn law_the_order_of_clients_does_not_matter(
    m: Map<Seq<char>, (u64, u32)>,
    a: Seq<char>,
    b: Seq<char>,
    minute: u64,
    ip: Seq<char>,
)
    requires
        hits_of(m, a, minute) < u32::MAX,
        hits_of(m, b, minute) < u32::MAX,
        a != b,
    ensures
        hits_of(counted(counted(m, a, minute), b, minute), ip, minute) == hits_of(
            counted(counted(m, b, minute), a, minute),
            ip,
            minute,
        ),
{
    law_a_request_counts_for_its_client(m, a, minute, ip);
    law_a_request_counts_for_its_client(m, b, minute, ip);
    law_a_request_counts_for_its_client(m, a, minute, b);
    law_a_request_counts_for_its_client(m, b, minute, a);
    law_a_request_counts_for_its_client(counted(m, a, minute), b, minute, ip);
    law_a_request_counts_for_its_client(counted(m, b, minute), a, minute, ip);
}

} // verus!
