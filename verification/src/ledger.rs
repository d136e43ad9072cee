//! Tamper-evident ledger: canonical text, HMAC-SHA256 chain, authorizations.
//!
//! Every entry is signed over a canonical text of its fields and of the
//! signature of the entry before it, so that the ledger is a chain from
//! [`GENESIS`] to its newest entry.

use vstd::prelude::*;
use vstd::string::*;
use vstd::utf8::*;

pub use crate::clock::{now_micros, ts_string, Timestamp};
use crate::json;
pub use crate::json::{normalize_params, Json};
use crate::lists;
use crate::text;

verus! {

/// What the first entry carries in place of a previous signature.
pub const GENESIS: &'static str = "genesis";

// ---------------------------------------------------------------------------
// Framing
// ---------------------------------------------------------------------------

/// The number of UTF-8 bytes of a text.
pub open spec fn byte_len(s: Seq<char>) -> nat {
    encode_utf8(s).len()
}

/// One framed field: `<byte-length>:<text>|`.
pub open spec fn field(s: Seq<char>) -> Seq<char> {
    text::dec(byte_len(s)) + seq![':'] + s + seq!['|']
}

/// Framed fields, one after the other.
pub open spec fn frame(fields: Seq<Seq<char>>) -> Seq<char>
    decreases fields.len(),
{
    if fields.len() == 0 {
        Seq::empty()
    } else {
        field(fields[0]) + frame(fields.drop_first())
    }
}

/// Appends one field as `<byte-length>:<text>|`.
///
/// The length prefix is what makes the concatenation injective: in a plain
/// `a|b|c` join, a `|` planted in one field moves the border to the next.
pub fn push_field(out: &mut String, s: &str)
    ensures
        final(out)@ == old(out)@ + field(s@),
{
    proof {
        reveal_strlit(":");
        reveal_strlit("|");
    }
    let ghost before = out@;
    let length: usize = s.as_bytes().len();
    let prefix = text::dec_text(length as u64);
    out.append(prefix.as_str());
    out.append(":");
    out.append(s);
    out.append("|");
    assert(out@ =~= before + field(s@));
}

/// One more field at the end.
proof fn lemma_frame_push(fields: Seq<Seq<char>>, f: Seq<char>)
    ensures
        frame(fields.push(f)) == frame(fields) + field(f),
    decreases fields.len(),
{
    if fields.len() == 0 {
        reveal_with_fuel(frame, 2);
        assert(fields.push(f).drop_first() =~= Seq::<Seq<char>>::empty());
        assert(frame(fields.push(f)) =~= field(f));
        assert(frame(fields) + field(f) =~= field(f));
    } else {
        lemma_frame_push(fields.drop_first(), f);
        assert(fields.push(f).drop_first() =~= fields.drop_first().push(f));
        assert(frame(fields.push(f)) =~= frame(fields) + field(f));
    }
}

/// A longer text has more bytes.
proof fn lemma_byte_len_grows(s: Seq<char>, n: int)
    requires
        0 <= n < s.len(),
    ensures
        byte_len(s.take(n)) < byte_len(s),
    decreases s.len(),
{
    char_is_scalar(s[0]);
    if n == 0 {
        assert(encode_utf8(s.take(0)).len() == 0);
    } else {
        lemma_byte_len_grows(s.drop_first(), n - 1);
        assert(s.take(n).drop_first() =~= s.drop_first().take(n - 1));
    }
}

/// A framed field can be read back off the front of a text.
proof fn lemma_field_unframes(a: Seq<char>, x: Seq<char>, b: Seq<char>, y: Seq<char>)
    requires
        field(a) + x == field(b) + y,
    ensures
        a == b,
        x == y,
{
    let p = text::dec(byte_len(a));
    let q = text::dec(byte_len(b));
    let whole = field(a) + x;
    text::lemma_dec_digits(byte_len(a));
    text::lemma_dec_digits(byte_len(b));
    assert(whole[p.len() as int] == ':');
    assert(whole[q.len() as int] == ':') by {
        assert((field(b) + y)[q.len() as int] == ':');
    }
    assert(p.len() == q.len()) by {
        if p.len() < q.len() {
            assert((field(b) + y)[p.len() as int] == q[p.len() as int]);
            assert(q[p.len() as int] as int <= 57);
        } else if q.len() < p.len() {
            assert((field(a) + x)[q.len() as int] == p[q.len() as int]);
            assert(p[q.len() as int] as int <= 57);
        }
    }
    assert(p =~= whole.take(p.len() as int));
    assert(q =~= whole.take(q.len() as int)) by {
        assert(q =~= (field(b) + y).take(q.len() as int));
    }
    text::lemma_dec_injective(byte_len(a), byte_len(b));
    let n = p.len() + 1;
    let tail = whole.skip(n as int);
    assert(a =~= tail.take(a.len() as int));
    assert(b =~= tail.take(b.len() as int)) by {
        assert(b =~= (field(b) + y).skip(n as int).take(b.len() as int));
    }
    if a.len() < b.len() {
        lemma_byte_len_grows(b, a.len() as int);
        assert(b.take(a.len() as int) =~= a);
    } else if b.len() < a.len() {
        lemma_byte_len_grows(a, b.len() as int);
        assert(a.take(b.len() as int) =~= b);
    }
    assert(x =~= whole.skip(field(a).len() as int));
    assert(y =~= whole.skip(field(b).len() as int)) by {
        assert(y =~= (field(b) + y).skip(field(b).len() as int));
    }
}

/// Framing is injective: the fields can be told from the framed text, whatever
/// characters they hold.
pub proof fn law_framing_is_injective(a: Seq<Seq<char>>, b: Seq<Seq<char>>)
    requires
        frame(a) == frame(b),
    ensures
        a == b,
    decreases a.len(),
{
    if a.len() == 0 {
        if b.len() > 0 {
            assert(frame(b).len() >= field(b[0]).len());
        }
        assert(a =~= b);
    } else if b.len() == 0 {
        assert(frame(a).len() >= field(a[0]).len());
    } else {
        lemma_field_unframes(a[0], frame(a.drop_first()), b[0], frame(b.drop_first()));
        law_framing_is_injective(a.drop_first(), b.drop_first());
        assert(a =~= seq![a[0]] + a.drop_first());
        assert(b =~= seq![b[0]] + b.drop_first());
    }
}

// ---------------------------------------------------------------------------
// Entries
// ---------------------------------------------------------------------------

/// One entry of the ledger.
#[derive(Debug)]
pub struct Entry {
    pub id: i64,
    /// RFC 3339 in UTC with microseconds: the exact text that entered the
    /// canonical form.
    pub ts: String,
    pub kind: String,
    pub actor: String,
    pub action: String,
    pub target: String,
    pub decision: String,
    pub reason: String,
    pub policy: String,
    pub params: Json,
    pub authenticated: bool,
    pub prev_hmac: String,
    pub hmac: String,
}

/// What is to be recorded, before it has a place in the chain.
#[derive(Debug)]
pub struct NewEntry {
    pub kind: String,
    pub actor: String,
    pub action: String,
    pub target: String,
    pub decision: String,
    pub reason: String,
    pub policy: String,
    pub params: Json,
    pub authenticated: bool,
}

/// The newest entry of the ledger, as far as the next one depends on it.
#[derive(Debug, Clone)]
pub struct Head {
    pub id: i64,
    pub hmac: String,
}

/// What an [`Entry`] says.
#[verifier::ext_equal]
pub struct EntryView {
    pub id: int,
    pub ts: Seq<char>,
    pub kind: Seq<char>,
    pub actor: Seq<char>,
    pub action: Seq<char>,
    pub target: Seq<char>,
    pub decision: Seq<char>,
    pub reason: Seq<char>,
    pub policy: Seq<char>,
    pub params: json::Doc,
    pub authenticated: bool,
    pub prev_hmac: Seq<char>,
    pub hmac: Seq<char>,
}

/// What a [`NewEntry`] says.
#[verifier::ext_equal]
pub struct NewEntryView {
    pub kind: Seq<char>,
    pub actor: Seq<char>,
    pub action: Seq<char>,
    pub target: Seq<char>,
    pub decision: Seq<char>,
    pub reason: Seq<char>,
    pub policy: Seq<char>,
    pub params: json::Doc,
    pub authenticated: bool,
}

/// What a [`Head`] says.
#[verifier::ext_equal]
pub struct HeadView {
    pub id: int,
    pub hmac: Seq<char>,
}

impl View for Entry {
    type V = EntryView;

    open spec fn view(&self) -> EntryView {
        EntryView {
            id: self.id as int,
            ts: self.ts@,
            kind: self.kind@,
            actor: self.actor@,
            action: self.action@,
            target: self.target@,
            decision: self.decision@,
            reason: self.reason@,
            policy: self.policy@,
            params: self.params@,
            authenticated: self.authenticated,
            prev_hmac: self.prev_hmac@,
            hmac: self.hmac@,
        }
    }
}

impl Clone for Entry {
    /// A copy that says the same.
    fn clone(&self) -> (r: Entry)
        ensures
            r@ == self@,
    {
        Entry {
            id: self.id,
            ts: self.ts.clone(),
            kind: self.kind.clone(),
            actor: self.actor.clone(),
            action: self.action.clone(),
            target: self.target.clone(),
            decision: self.decision.clone(),
            reason: self.reason.clone(),
            policy: self.policy.clone(),
            params: self.params.clone(),
            authenticated: self.authenticated,
            prev_hmac: self.prev_hmac.clone(),
            hmac: self.hmac.clone(),
        }
    }
}

impl View for NewEntry {
    type V = NewEntryView;

    open spec fn view(&self) -> NewEntryView {
        NewEntryView {
            kind: self.kind@,
            actor: self.actor@,
            action: self.action@,
            target: self.target@,
            decision: self.decision@,
            reason: self.reason@,
            policy: self.policy@,
            params: self.params@,
            authenticated: self.authenticated,
        }
    }
}

impl Clone for NewEntry {
    /// A copy that says the same.
    fn clone(&self) -> (r: NewEntry)
        ensures
            r@ == self@,
    {
        NewEntry {
            kind: self.kind.clone(),
            actor: self.actor.clone(),
            action: self.action.clone(),
            target: self.target.clone(),
            decision: self.decision.clone(),
            reason: self.reason.clone(),
            policy: self.policy.clone(),
            params: self.params.clone(),
            authenticated: self.authenticated,
        }
    }
}

impl View for Head {
    type V = HeadView;

    open spec fn view(&self) -> HeadView {
        HeadView { id: self.id as int, hmac: self.hmac@ }
    }
}

/// The text of a flag.
pub open spec fn flag_text(b: bool) -> Seq<char> {
    if b {
        "1"@
    } else {
        "0"@
    }
}

/// The fields that the signature of an entry covers, in their order: all but
/// the signature itself.
pub open spec fn signed_fields(e: EntryView) -> Seq<Seq<char>> {
    seq![
        text::int_text(e.id),
        e.ts,
        e.kind,
        e.actor,
        e.action,
        e.target,
        e.decision,
        e.reason,
        e.policy,
        json::compact_json(e.params),
        flag_text(e.authenticated),
        e.prev_hmac,
    ]
}

/// The text that the signature of an entry is computed over.
pub open spec fn canonical(e: EntryView) -> Seq<char> {
    frame(signed_fields(e))
}

/// An unsigned entry of the given fields.
pub open spec fn unsigned(
    id: int,
    ts: Seq<char>,
    new: NewEntryView,
    prev_hmac: Seq<char>,
) -> EntryView {
    EntryView {
        id,
        ts,
        kind: new.kind,
        actor: new.actor,
        action: new.action,
        target: new.target,
        decision: new.decision,
        reason: new.reason,
        policy: new.policy,
        params: new.params,
        authenticated: new.authenticated,
        prev_hmac,
        hmac: Seq::empty(),
    }
}

/// The canonical text of the given fields, `params_json` being the params as they
/// are printed: each field framed, in this order.
pub fn canonical_text(
    id: i64,
    ts: &str,
    kind: &str,
    actor: &str,
    action: &str,
    target: &str,
    decision: &str,
    reason: &str,
    policy: &str,
    params_json: &str,
    authenticated: bool,
    prev_hmac: &str,
) -> (out: String)
    ensures
        out@ == frame(
            seq![
                text::int_text(id as int),
                ts@,
                kind@,
                actor@,
                action@,
                target@,
                decision@,
                reason@,
                policy@,
                params_json@,
                flag_text(authenticated),
                prev_hmac@,
            ],
        ),
{
    let id_text = text::i64_text(id);
    let flag: &str = if authenticated {
        "1"
    } else {
        "0"
    };
    let mut out = String::new();
    push_field(&mut out, id_text.as_str());
    push_field(&mut out, ts);
    push_field(&mut out, kind);
    push_field(&mut out, actor);
    push_field(&mut out, action);
    push_field(&mut out, target);
    push_field(&mut out, decision);
    push_field(&mut out, reason);
    push_field(&mut out, policy);
    push_field(&mut out, params_json);
    push_field(&mut out, flag);
    push_field(&mut out, prev_hmac);
    proof {
        let f0 = Seq::<Seq<char>>::empty();
        let f1 = f0.push(id_text@);
        let f2 = f1.push(ts@);
        let f3 = f2.push(kind@);
        let f4 = f3.push(actor@);
        let f5 = f4.push(action@);
        let f6 = f5.push(target@);
        let f7 = f6.push(decision@);
        let f8 = f7.push(reason@);
        let f9 = f8.push(policy@);
        let f10 = f9.push(params_json@);
        let f11 = f10.push(flag@);
        lemma_frame_push(f0, id_text@);
        lemma_frame_push(f1, ts@);
        lemma_frame_push(f2, kind@);
        lemma_frame_push(f3, actor@);
        lemma_frame_push(f4, action@);
        lemma_frame_push(f5, target@);
        lemma_frame_push(f6, decision@);
        lemma_frame_push(f7, reason@);
        lemma_frame_push(f8, policy@);
        lemma_frame_push(f9, params_json@);
        lemma_frame_push(f10, flag@);
        lemma_frame_push(f11, prev_hmac@);
        assert(frame(f0) =~= Seq::<char>::empty());
        assert(f11.push(prev_hmac@) =~= seq![
            text::int_text(id as int),
            ts@,
            kind@,
            actor@,
            action@,
            target@,
            decision@,
            reason@,
            policy@,
            params_json@,
            flag_text(authenticated),
            prev_hmac@,
        ]);
    }
    out
}

/// The canonical text of the given fields.
pub fn canonical_string(
    id: i64,
    ts: &str,
    kind: &str,
    actor: &str,
    action: &str,
    target: &str,
    decision: &str,
    reason: &str,
    policy: &str,
    params: &Json,
    authenticated: bool,
    prev_hmac: &str,
) -> (out: String)
    ensures
        out@ == canonical(
            (EntryView {
                id: id as int,
                ts: ts@,
                kind: kind@,
                actor: actor@,
                action: action@,
                target: target@,
                decision: decision@,
                reason: reason@,
                policy: policy@,
                params: params@,
                authenticated,
                prev_hmac: prev_hmac@,
                hmac: Seq::empty(),
            }),
        ),
        params@.printable(),
{
    let params_json = params.to_text();
    canonical_text(
        id,
        ts,
        kind,
        actor,
        action,
        target,
        decision,
        reason,
        policy,
        params_json.as_str(),
        authenticated,
        prev_hmac,
    )
}

/// The canonical text of an entry.
pub fn entry_canonical(e: &Entry) -> (out: String)
    ensures
        out@ == canonical(e@),
        e@.params.printable(),
{
    let out = canonical_string(
        e.id,
        e.ts.as_str(),
        e.kind.as_str(),
        e.actor.as_str(),
        e.action.as_str(),
        e.target.as_str(),
        e.decision.as_str(),
        e.reason.as_str(),
        e.policy.as_str(),
        &e.params,
        e.authenticated,
        e.prev_hmac.as_str(),
    );
    out
}

/// The canonical text determines every field that it covers, whatever
/// characters the fields hold. No planted delimiter can make one entry read as
/// another.
pub proof fn law_canonical_text_is_injective(a: EntryView, b: EntryView)
    requires
        canonical(a) == canonical(b),
        a.params.holdable(),
        b.params.printable(),
    ensures
        a.id == b.id,
        a.ts == b.ts,
        a.kind == b.kind,
        a.actor == b.actor,
        a.action == b.action,
        a.target == b.target,
        a.decision == b.decision,
        a.reason == b.reason,
        a.policy == b.policy,
        a.params == b.params,
        a.authenticated == b.authenticated,
        a.prev_hmac == b.prev_hmac,
{
    law_framing_is_injective(signed_fields(a), signed_fields(b));
    let x = signed_fields(a);
    let y = signed_fields(b);
    assert(x[0] == y[0] && x[1] == y[1] && x[2] == y[2] && x[3] == y[3]);
    assert(x[4] == y[4] && x[5] == y[5] && x[6] == y[6] && x[7] == y[7]);
    assert(x[8] == y[8] && x[9] == y[9] && x[10] == y[10] && x[11] == y[11]);
    text::lemma_int_text_injective(a.id, b.id);
    reveal_strlit("0");
    reveal_strlit("1");
    if a.authenticated != b.authenticated {
        assert("0"@[0] == "1"@[0]);
    }
}

// ---------------------------------------------------------------------------
// Signatures
// ---------------------------------------------------------------------------

/// The HMAC-SHA256 of a message under a key (RFC 2104 with SHA-256), as the
/// crates `hmac` and `sha2` compute it.
pub uninterp spec fn hmac_sha256(key: Seq<u8>, msg: Seq<u8>) -> Seq<u8>;

/// The lower-case hexadecimal digit of a number below 16.
pub open spec fn hex_digit(n: int) -> char {
    if n < 10 {
        (48 + n) as char
    } else {
        (87 + n) as char
    }
}

/// Two lower-case hexadecimal digits for each byte, the high one first.
pub open spec fn hex_text(bytes: Seq<u8>) -> Seq<char> {
    Seq::new(
        2 * bytes.len(),
        |i: int|
            if i % 2 == 0 {
                hex_digit(bytes[i / 2] as int / 16)
            } else {
                hex_digit(bytes[i / 2] as int % 16)
            },
    )
}

/// `Hmac::<Sha256>`: `new_from_slice`, which takes keys of any length, one
/// `update` with the whole message, and `finalize`. The result is the 32 bytes
/// of the HMAC of the message under the key.
#[verifier::external_body]
fn mac_bytes(key: &[u8], msg: &[u8]) -> (mac: Vec<u8>)
    ensures
        mac@ == hmac_sha256(key@, msg@),
        mac@.len() == 32,
{
    let mut mac = <hmac::Hmac<sha2::Sha256> as hmac::Mac>::new_from_slice(key)
        .expect("HMAC accepts keys of any length");
    hmac::Mac::update(&mut mac, msg);
    hmac::Mac::finalize(mac).into_bytes().to_vec()
}

/// `hex::encode`: the lower-case hexadecimal text of some bytes.
#[verifier::external_body]
fn hex_encode(bytes: &Vec<u8>) -> (s: String)
    ensures
        s@ == hex_text(bytes@),
{
    hex::encode(bytes)
}

/// Different bytes have different hexadecimal texts.
proof fn lemma_hex_injective(a: Seq<u8>, b: Seq<u8>)
    requires
        hex_text(a) == hex_text(b),
    ensures
        a == b,
{
    assert(hex_text(a).len() == 2 * a.len() && hex_text(b).len() == 2 * b.len());
    assert forall|i: int| 0 <= i < a.len() implies a[i] == b[i] by {
        assert(hex_text(a)[2 * i] == hex_digit(a[i] as int / 16));
        assert(hex_text(b)[2 * i] == hex_digit(b[i] as int / 16));
        assert(hex_text(a)[2 * i + 1] == hex_digit(a[i] as int % 16));
        assert(hex_text(b)[2 * i + 1] == hex_digit(b[i] as int % 16));
        lemma_hex_digit_injective(a[i] as int / 16, b[i] as int / 16);
        lemma_hex_digit_injective(a[i] as int % 16, b[i] as int % 16);
    }
    assert(a =~= b);
}

/// Different digits have different characters.
proof fn lemma_hex_digit_injective(m: int, n: int)
    requires
        0 <= m < 16,
        0 <= n < 16,
        hex_digit(m) == hex_digit(n),
    ensures
        m == n,
{
    assert(hex_digit(m) as int == if m < 10 {
        48 + m
    } else {
        87 + m
    });
    assert(hex_digit(n) as int == if n < 10 {
        48 + n
    } else {
        87 + n
    });
}

/// The signature of a text: its HMAC under the key, in hexadecimal.
pub open spec fn hmac_hex_text(key: Seq<u8>, msg: Seq<char>) -> Seq<char> {
    hex_text(hmac_sha256(key, encode_utf8(msg)))
}

/// The signature that an entry should carry.
pub open spec fn signature(key: Seq<u8>, e: EntryView) -> Seq<char> {
    hmac_hex_text(key, canonical(e))
}

/// Signs a text.
pub fn hmac_hex(key: &[u8], msg: &str) -> (s: String)
    ensures
        s@ == hmac_hex_text(key@, msg@),
        s@.len() == 64,
{
    let mac = mac_bytes(key, msg.as_bytes());
    hex_encode(&mac)
}

// ---------------------------------------------------------------------------
// The chain
// ---------------------------------------------------------------------------

/// The outcome of checking the chain.
#[derive(Debug)]
pub struct VerifyReport {
    pub valid: bool,
    pub checked: usize,
    pub head_hmac: Option<String>,
    pub broken_at: Option<i64>,
}

/// What the entries of a list say.
pub open spec fn entry_views(entries: Seq<Entry>) -> Seq<EntryView> {
    Seq::new(entries.len(), |i: int| entries[i]@)
}

/// The signature that entry `i` has to be linked to.
pub open spec fn link(chain: Seq<EntryView>, i: int) -> Seq<char> {
    if i == 0 {
        GENESIS@
    } else {
        chain[i - 1].hmac
    }
}

/// Entry `i` is linked to the one before it and carries its own signature.
pub open spec fn intact(key: Seq<u8>, chain: Seq<EntryView>, i: int) -> bool {
    &&& chain[i].prev_hmac == link(chain, i)
    &&& chain[i].hmac == signature(key, chain[i])
}

/// Every entry of the chain is intact.
pub open spec fn chain_valid(key: Seq<u8>, chain: Seq<EntryView>) -> bool {
    forall|i: int| 0 <= i < chain.len() ==> #[trigger] intact(key, chain, i)
}

/// Entry `i` is the first that is not intact.
pub open spec fn first_broken(key: Seq<u8>, chain: Seq<EntryView>, i: int) -> bool {
    &&& 0 <= i < chain.len()
    &&& !intact(key, chain, i)
    &&& forall|j: int| 0 <= j < i ==> #[trigger] intact(key, chain, j)
}

/// The params of every entry can be told by their text.
pub open spec fn chain_printable(chain: Seq<EntryView>) -> bool {
    forall|i: int| 0 <= i < chain.len() ==> (#[trigger] chain[i]).params.printable()
}

/// Recomputes the whole chain. `entries` are in the order of their ids.
pub fn verify_chain(key: &[u8], entries: &[Entry]) -> (report: VerifyReport)
    ensures
        report.valid == chain_valid(key@, entry_views(entries@)),
        report.checked == entries@.len(),
        match report.head_hmac {
            Some(h) => entries@.len() > 0 && h@ == entries@.last().hmac@,
            None => entries@.len() == 0,
        },
        match report.broken_at {
            Some(id) => exists|i: int|
                #[trigger] first_broken(key@, entry_views(entries@), i) && id == entries@[i].id,
            None => report.valid,
        },
        report.valid ==> report.broken_at is None,
        report.valid ==> chain_printable(entry_views(entries@)),
{
    let ghost chain = entry_views(entries@);
    let head_hmac: Option<String> = if entries.len() == 0 {
        None
    } else {
        Some(entries[entries.len() - 1].hmac.clone())
    };
    let mut prev: String = GENESIS.to_owned();
    let mut i: usize = 0;
    while i < entries.len()
        invariant
            i <= entries@.len(),
            chain == entry_views(entries@),
            prev@ == link(chain, i as int),
            forall|j: int| 0 <= j < i ==> #[trigger] intact(key@, chain, j),
            forall|j: int| 0 <= j < i ==> (#[trigger] chain[j]).params.printable(),
            match head_hmac {
                Some(h) => entries@.len() > 0 && h@ == entries@.last().hmac@,
                None => entries@.len() == 0,
            },
        decreases entries@.len() - i,
    {
        let e = &entries[i];
        let linked = e.prev_hmac == prev;
        let signed_text = entry_canonical(e);
        let recomputed = hmac_hex(key, signed_text.as_str());
        if !linked || recomputed != e.hmac {
            assert(first_broken(key@, chain, i as int));
            return VerifyReport {
                valid: false,
                checked: entries.len(),
                head_hmac,
                broken_at: Some(e.id),
            };
        }
        assert(intact(key@, chain, i as int));
        prev = e.hmac.clone();
        i = i + 1;
    }
    VerifyReport { valid: true, checked: entries.len(), head_hmac, broken_at: None }
}

/// The newest entry of a chain, none of the empty one.
pub open spec fn head_of(chain: Seq<EntryView>) -> Option<HeadView> {
    if chain.len() == 0 {
        None
    } else {
        Some(HeadView { id: chain.last().id, hmac: chain.last().hmac })
    }
}

/// The entry that follows `head`: numbered one higher, linked to it, with its
/// params normalized, and signed.
pub open spec fn appended(
    head: Option<HeadView>,
    key: Seq<u8>,
    ts: Seq<char>,
    new: NewEntryView,
) -> EntryView {
    let (prev_id, prev_hmac) = match head {
        Some(h) => (h.id, h.hmac),
        None => (0, GENESIS@),
    };
    let u = unsigned(
        prev_id + 1,
        ts,
        NewEntryView { params: json::normalized(new.params), ..new },
        prev_hmac,
    );
    EntryView { hmac: signature(key, u), ..u }
}

/// The entry to append to a ledger whose newest entry is `head`.
///
/// The caller holds the ledger's lock from reading the head to storing the
/// entry, so that no two entries follow the same head.
pub fn append(head: Option<Head>, key: &[u8], ts: &Timestamp, new: NewEntry) -> (e: Entry)
    requires
        head matches Some(h) ==> h.id < i64::MAX,
        ts.valid(),
    ensures
        e@ == appended(
            match head {
                Some(h) => Some(h@),
                None => None,
            },
            key@,
            ts.text(),
            new@,
        ),
        e@.params.printable(),
        e.id == match head {
            Some(h) => h.id + 1,
            None => 1,
        },
        e.kind@ == new.kind@,
        e.actor@ == new.actor@,
        e.action@ == new.action@,
        e.target@ == new.target@,
        e.decision@ == new.decision@,
        e.reason@ == new.reason@,
        e.policy@ == new.policy@,
        e.params@ == json::normalized(new.params@),
        e.authenticated == new.authenticated,
        e.prev_hmac@ == match head {
            Some(h) => h.hmac@,
            None => "genesis"@,
        },
{
    let (prev_id, prev_hmac): (i64, String) = match head {
        Some(h) => (h.id, h.hmac),
        None => (0, GENESIS.to_owned()),
    };
    let id: i64 = prev_id + 1;
    let ts = ts_string(ts);
    let params = normalize_params(&new.params);
    let signed_text = canonical_string(
        id,
        ts.as_str(),
        new.kind.as_str(),
        new.actor.as_str(),
        new.action.as_str(),
        new.target.as_str(),
        new.decision.as_str(),
        new.reason.as_str(),
        new.policy.as_str(),
        &params,
        new.authenticated,
        prev_hmac.as_str(),
    );
    let hmac = hmac_hex(key, signed_text.as_str());
    Entry {
        id,
        ts,
        kind: new.kind,
        actor: new.actor,
        action: new.action,
        target: new.target,
        decision: new.decision,
        reason: new.reason,
        policy: new.policy,
        params,
        authenticated: new.authenticated,
        prev_hmac,
        hmac,
    }
}

/// Appending to a valid chain gives a valid chain, one entry longer, with every
/// earlier entry as it was and the new one numbered one higher.
pub proof fn law_append_extends_a_valid_chain(
    key: Seq<u8>,
    chain: Seq<EntryView>,
    ts: Seq<char>,
    new: NewEntryView,
)
    requires
        chain_valid(key, chain),
    ensures
        chain_valid(key, chain.push(appended(head_of(chain), key, ts, new))),
        chain.len() > 0 ==> appended(head_of(chain), key, ts, new).id == chain.last().id + 1,
        chain.len() == 0 ==> appended(head_of(chain), key, ts, new).id == 1,
{
    let e = appended(head_of(chain), key, ts, new);
    let longer = chain.push(e);
    assert forall|i: int| 0 <= i < longer.len() implies #[trigger] intact(key, longer, i) by {
        if i < chain.len() {
            assert(intact(key, chain, i));
            assert(link(longer, i) == link(chain, i));
        } else {
            assert(link(longer, i) == link(chain, i));
            assert(signed_fields(e) =~= signed_fields(EntryView { hmac: Seq::empty(), ..e }));
        }
    }
}

/// A chain to which entries were appended one after the other, each with the
/// text of its time.
pub open spec fn extended(
    key: Seq<u8>,
    chain: Seq<EntryView>,
    news: Seq<(Seq<char>, NewEntryView)>,
) -> Seq<EntryView>
    decreases news.len(),
{
    if news.len() == 0 {
        chain
    } else {
        let before = extended(key, chain, news.drop_last());
        before.push(appended(head_of(before), key, news.last().0, news.last().1))
    }
}

/// The number of the newest entry, zero if there is none.
pub open spec fn head_id(chain: Seq<EntryView>) -> int {
    match head_of(chain) {
        Some(h) => h.id,
        None => 0,
    }
}

/// Entry `at` has the number `id`, is linked to the one before it, and says what
/// it was told, with normalized params.
pub open spec fn keeps(
    chain: Seq<EntryView>,
    at: int,
    id: int,
    told: (Seq<char>, NewEntryView),
) -> bool {
    let e = chain[at];
    let new = told.1;
    &&& e.id == id
    &&& e.ts == told.0
    &&& e.kind == new.kind
    &&& e.actor == new.actor
    &&& e.action == new.action
    &&& e.target == new.target
    &&& e.decision == new.decision
    &&& e.reason == new.reason
    &&& e.policy == new.policy
    &&& e.params == json::normalized(new.params)
    &&& e.authenticated == new.authenticated
    &&& e.prev_hmac == if at == 0 {
        "genesis"@
    } else {
        chain[at - 1].hmac
    }
}

/// A ledger that is only ever appended to stays valid, keeps every earlier entry
/// as it was, numbers the new ones on without a gap, links each to the one before
/// it, and says of each what it was told, with normalized params.
pub proof fn law_a_ledger_keeps_what_was_appended(
    key: Seq<u8>,
    chain: Seq<EntryView>,
    news: Seq<(Seq<char>, NewEntryView)>,
)
    requires
        chain_valid(key, chain),
    ensures
        chain_valid(key, extended(key, chain, news)),
        extended(key, chain, news).len() == chain.len() + news.len(),
        extended(key, chain, news).take(chain.len() as int) == chain,
        forall|i: int|
            0 <= i < news.len() ==> keeps(
                extended(key, chain, news),
                chain.len() + i,
                head_id(chain) + i + 1,
                #[trigger] news[i],
            ),
    decreases news.len(),
{
    let all = extended(key, chain, news);
    let n = chain.len() as int;
    if news.len() == 0 {
        assert(all.take(n) =~= chain);
    } else {
        let shorter = news.drop_last();
        let before = extended(key, chain, shorter);
        law_a_ledger_keeps_what_was_appended(key, chain, shorter);
        law_append_extends_a_valid_chain(key, before, news.last().0, news.last().1);
        assert(all.take(n) =~= before.take(n));
        assert(before.take(before.len() as int) =~= before);
        assert forall|i: int| 0 <= i < news.len() - 1 implies all[n + i] == before[n + i] && link(
            all,
            n + i,
        ) == link(before, n + i) && news[i] == #[trigger] shorter[i] by {}
        if shorter.len() > 0 {
            assert(shorter[shorter.len() - 1] == news[news.len() - 2]);
            assert(before.last() == before[n + shorter.len() - 1]);
        }
        assert forall|i: int| 0 <= i < news.len() implies keeps(
            all,
            n + i,
            head_id(chain) + i + 1,
            #[trigger] news[i],
        ) by {
            if i < news.len() - 1 {
                assert(shorter[i] == news[i]);
            }
        }
    }
}

/// A chain is valid up to any entry if it is valid.
pub proof fn law_prefix_of_a_valid_chain_is_valid(key: Seq<u8>, chain: Seq<EntryView>, n: int)
    requires
        chain_valid(key, chain),
        0 <= n <= chain.len(),
    ensures
        chain_valid(key, chain.take(n)),
{
    assert forall|i: int| 0 <= i < n implies #[trigger] intact(key, chain.take(n), i) by {
        assert(intact(key, chain, i));
        assert(link(chain.take(n), i) == link(chain, i));
    }
}

/// An edit of any field of a past entry, its signature apart, breaks the chain
/// exactly there: the only way out is a second text with the same HMAC under the
/// key.
pub proof fn law_an_edited_entry_breaks_the_chain_there(
    key: Seq<u8>,
    chain: Seq<EntryView>,
    i: int,
    edited: EntryView,
)
    requires
        chain_valid(key, chain),
        chain_printable(chain),
        0 <= i < chain.len(),
        edited.hmac == chain[i].hmac,
        edited != chain[i],
        edited.params.holdable(),
    ensures
        canonical(edited) != canonical(chain[i]),
        first_broken(key, chain.update(i, edited), i) || hmac_sha256(
            key,
            encode_utf8(canonical(edited)),
        ) == hmac_sha256(key, encode_utf8(canonical(chain[i]))),
{
    assert(chain[i].params.printable());
    if signature(key, edited) == signature(key, chain[i]) {
        lemma_hex_injective(
            hmac_sha256(key, encode_utf8(canonical(edited))),
            hmac_sha256(key, encode_utf8(canonical(chain[i]))),
        );
    }
    if canonical(edited) == canonical(chain[i]) {
        law_canonical_text_is_injective(edited, chain[i]);
    }
    let after = chain.update(i, edited);
    assert(intact(key, chain, i));
    assert forall|j: int| 0 <= j < i implies #[trigger] intact(key, after, j) by {
        assert(intact(key, chain, j));
        assert(link(after, j) == link(chain, j));
    }
}

/// An edit of the signature of an entry alone breaks the chain exactly there.
pub proof fn law_an_edited_signature_breaks_the_chain_there(
    key: Seq<u8>,
    chain: Seq<EntryView>,
    i: int,
    edited: EntryView,
)
    requires
        chain_valid(key, chain),
        0 <= i < chain.len(),
        edited == (EntryView { hmac: edited.hmac, ..chain[i] }),
        edited.hmac != chain[i].hmac,
    ensures
        first_broken(key, chain.update(i, edited), i),
{
    let after = chain.update(i, edited);
    assert(intact(key, chain, i));
    assert(signed_fields(edited) =~= signed_fields(chain[i]));
    assert forall|j: int| 0 <= j < i implies #[trigger] intact(key, after, j) by {
        assert(intact(key, chain, j));
        assert(link(after, j) == link(chain, j));
    }
}

/// Rewriting a past entry together with its signature does not help: whatever
/// replaces it, the chain breaks at that entry or at the next one, which is
/// still linked to the old signature.
pub proof fn law_a_resigned_entry_breaks_the_chain(
    key: Seq<u8>,
    chain: Seq<EntryView>,
    i: int,
    edited: EntryView,
)
    requires
        chain_valid(key, chain),
        0 <= i < chain.len() - 1,
        edited.hmac != chain[i].hmac,
    ensures
        first_broken(key, chain.update(i, edited), i) || first_broken(
            key,
            chain.update(i, edited),
            i + 1,
        ),
{
    let after = chain.update(i, edited);
    assert(intact(key, chain, i + 1));
    assert(link(after, i + 1) == edited.hmac);
    assert(!intact(key, after, i + 1));
    assert forall|j: int| 0 <= j < i implies #[trigger] intact(key, after, j) by {
        assert(intact(key, chain, j));
        assert(link(after, j) == link(chain, j));
    }
}

// ---------------------------------------------------------------------------
// Several containers
// ---------------------------------------------------------------------------

/// The ledger as several containers share it: what it holds, and who holds its
/// lock, with the newest entry that the holder read under it.
pub struct SharedLedger {
    pub chain: Seq<EntryView>,
    pub holder: Option<(int, Option<HeadView>)>,
}

/// What a container does to append an entry.
pub enum AppendStep {
    /// Take the lock and read the newest entry.
    Lock { who: int },
    /// Store the entry that follows what was read, and let go of the lock.
    Store { who: int, ts: Seq<char>, new: NewEntryView },
    /// Let go of the lock without storing anything.
    GiveUp { who: int },
}

impl SharedLedger {
    /// Whether a step can be taken now: the lock has one holder at most, and
    /// only the holder goes on.
    pub open spec fn admits(self, step: AppendStep) -> bool {
        match step {
            AppendStep::Lock { .. } => self.holder is None,
            AppendStep::Store { who, .. } => self.holder matches Some(h) && h.0 == who,
            AppendStep::GiveUp { who } => self.holder matches Some(h) && h.0 == who,
        }
    }

    /// What a step leads to.
    pub open spec fn next(self, key: Seq<u8>, step: AppendStep) -> SharedLedger {
        match step {
            AppendStep::Lock { who } => SharedLedger {
                holder: Some((who, head_of(self.chain))),
                ..self
            },
            AppendStep::Store { ts, new, .. } => SharedLedger {
                chain: self.chain.push(appended((self.holder->0).1, key, ts, new)),
                holder: None,
            },
            AppendStep::GiveUp { .. } => SharedLedger { holder: None, ..self },
        }
    }

    /// What several steps lead to.
    pub open spec fn after(self, key: Seq<u8>, steps: Seq<AppendStep>) -> SharedLedger
        decreases steps.len(),
    {
        if steps.len() == 0 {
            self
        } else {
            self.after(key, steps.drop_last()).next(key, steps.last())
        }
    }

    /// Whether several steps can be taken in their order.
    pub open spec fn admits_all(self, key: Seq<u8>, steps: Seq<AppendStep>) -> bool
        decreases steps.len(),
    {
        steps.len() > 0 ==> self.admits_all(key, steps.drop_last()) && self.after(
            key,
            steps.drop_last(),
        ).admits(steps.last())
    }
}

/// What some steps store, in their order.
pub open spec fn stored(steps: Seq<AppendStep>) -> Seq<(Seq<char>, NewEntryView)>
    decreases steps.len(),
{
    if steps.len() == 0 {
        Seq::empty()
    } else {
        let before = stored(steps.drop_last());
        match steps.last() {
            AppendStep::Store { ts, new, .. } => before.push((ts, new)),
            _ => before,
        }
    }
}

/// The lock makes appends follow each other.
proof fn lemma_locked_appends(key: Seq<u8>, chain: Seq<EntryView>, steps: Seq<AppendStep>)
    requires
        (SharedLedger { chain, holder: None }).admits_all(key, steps),
    ensures
        ({
            let end = (SharedLedger { chain, holder: None }).after(key, steps);
            &&& end.chain == extended(key, chain, stored(steps))
            &&& end.holder matches Some(h) ==> h.1 == head_of(end.chain)
        }),
    decreases steps.len(),
{
    if steps.len() > 0 {
        lemma_locked_appends(key, chain, steps.drop_last());
        if steps.last() is Store {
            assert(stored(steps).drop_last() =~= stored(steps.drop_last()));
        }
    }
}

/// However the steps of several containers interleave, the ledger is what it
/// would be if one container had made all the appends one after the other: it
/// stays valid, no two entries take the same number, no number is left out, and
/// the chain does not fork. The lock is what this rests on: it has one holder at
/// most.
pub proof fn law_locked_appends_do_not_race(
    key: Seq<u8>,
    chain: Seq<EntryView>,
    steps: Seq<AppendStep>,
)
    requires
        chain_valid(key, chain),
        (SharedLedger { chain, holder: None }).admits_all(key, steps),
    ensures
        ({
            let end = (SharedLedger { chain, holder: None }).after(key, steps).chain;
            let news = stored(steps);
            &&& end == extended(key, chain, news)
            &&& chain_valid(key, end)
            &&& end.len() == chain.len() + news.len()
            &&& forall|i: int|
                0 <= i < news.len() ==> keeps(
                    end,
                    chain.len() + i,
                    head_id(chain) + i + 1,
                    #[trigger] news[i],
                )
        }),
{
    lemma_locked_appends(key, chain, steps);
    law_a_ledger_keeps_what_was_appended(key, chain, stored(steps));
}

// ---------------------------------------------------------------------------
// Listing
// ---------------------------------------------------------------------------

/// An entry is of one of the given kinds; every entry is, where none are given.
pub open spec fn is_of(e: EntryView, kinds: Option<Seq<Seq<char>>>) -> bool {
    kinds matches Some(ks) ==> ks.contains(e.kind)
}

/// The kinds that a listing is restricted to, if it is.
pub open spec fn wanted_kinds(kinds: Option<&[&str]>) -> Option<Seq<Seq<char>>> {
    match kinds {
        Some(ks) => Some(Seq::new(ks@.len(), |i: int| ks@[i]@)),
        None => None,
    }
}

/// The entries of the given kinds, in their order.
pub open spec fn of_kinds(chain: Seq<EntryView>, kinds: Option<Seq<Seq<char>>>) -> Seq<EntryView> {
    chain.filter(|e: EntryView| is_of(e, kinds))
}

/// At most `limit` entries after the first `offset`, newest first.
pub open spec fn page(chain: Seq<EntryView>, limit: int, offset: int) -> Seq<EntryView> {
    let newest = chain.reverse();
    if offset >= newest.len() {
        Seq::empty()
    } else if limit >= newest.len() - offset {
        newest.skip(offset)
    } else {
        newest.subrange(offset, offset + limit)
    }
}

/// Whether an entry is of one of the given kinds.
fn kind_listed(kind: &str, kinds: &[&str]) -> (r: bool)
    ensures
        r == (wanted_kinds(Some(kinds))->0).contains(kind@),
{
    let ghost texts = wanted_kinds(Some(kinds))->0;
    let mut i: usize = 0;
    while i < kinds.len()
        invariant
            i <= kinds@.len(),
            texts == wanted_kinds(Some(kinds))->0,
            forall|j: int| 0 <= j < i ==> #[trigger] texts[j] != kind@,
        decreases kinds@.len() - i,
    {
        if text::str_eq(kinds[i], kind) {
            assert(texts[i as int] == kind@);
            return true;
        }
        i = i + 1;
    }
    false
}

/// One page of the ledger, newest first, and how many entries there are on all
/// pages. `kinds = None` lists everything. `entries` are in the order of their
/// ids.
pub fn list(entries: &[Entry], limit: i64, offset: i64, kinds: Option<&[&str]>) -> (r: (
    Vec<Entry>,
    usize,
))
    requires
        0 <= limit,
        0 <= offset,
    ensures
        entry_views(r.0@) == page(
            of_kinds(entry_views(entries@), wanted_kinds(kinds)),
            limit as int,
            offset as int,
        ),
        r.1 == of_kinds(entry_views(entries@), wanted_kinds(kinds)).len(),
{
    let ghost wanted = wanted_kinds(kinds);
    let ghost chain = entry_views(entries@);
    let ghost all = of_kinds(chain, wanted);
    let mut found: Vec<usize> = Vec::new();
    let mut i: usize = 0;
    proof {
        reveal(Seq::filter);
        assert(of_kinds(chain.take(0), wanted) =~= Seq::<EntryView>::empty());
    }
    while i < entries.len()
        invariant
            i <= entries@.len(),
            chain == entry_views(entries@),
            wanted == wanted_kinds(kinds),
            found@.len() == of_kinds(chain.take(i as int), wanted).len(),
            forall|k: int|
                0 <= k < found@.len() ==> #[trigger] found@[k] < i && chain[found@[k] as int]
                    == of_kinds(chain.take(i as int), wanted)[k],
        decreases entries@.len() - i,
    {
        proof {
            reveal(Seq::filter);
            assert(chain.take(i + 1).drop_last() =~= chain.take(i as int));
            assert(chain.take(i + 1).last() == entries@[i as int]@);
        }
        let hit = match kinds {
            Some(ks) => kind_listed(entries[i].kind.as_str(), ks),
            None => true,
        };
        assert(hit == is_of(chain[i as int], wanted));
        assert(of_kinds(chain.take(i + 1), wanted) == if hit {
            of_kinds(chain.take(i as int), wanted).push(chain[i as int])
        } else {
            of_kinds(chain.take(i as int), wanted)
        });
        if hit {
            found.push(i);
        }
        i = i + 1;
    }
    assert(chain.take(chain.len() as int) =~= chain);
    let total: usize = found.len();
    let mut out: Vec<Entry> = Vec::new();
    let mut k: u64 = offset as u64;
    while k < total as u64 && (out.len() as u64) < limit as u64
        invariant
            chain == entry_views(entries@),
            all == of_kinds(chain, wanted),
            total == found@.len(),
            total == all.len(),
            forall|j: int|
                0 <= j < found@.len() ==> #[trigger] found@[j] < entries@.len()
                    && chain[found@[j] as int] == all[j],
            0 <= offset,
            0 <= limit,
            k == offset + out@.len(),
            out@.len() == 0 || k <= total,
            out@.len() <= limit,
            forall|j: int|
                0 <= j < out@.len() ==> (#[trigger] out@[j])@ == all[total - 1 - offset - j],
        decreases total - k,
    {
        let at: usize = found[total - 1 - k as usize];
        out.push(entries[at].clone());
        k = k + 1;
    }
    assert(entry_views(out@) =~= page(all, limit as int, offset as int));
    (out, total)
}

/// Pages that follow each other leave nothing out and list nothing twice.
pub proof fn law_pages_join(chain: Seq<EntryView>, first: int, second: int, offset: int)
    requires
        0 <= first,
        0 <= second,
        0 <= offset,
    ensures
        page(chain, first, offset) + page(chain, second, offset + first) == page(
            chain,
            first + second,
            offset,
        ),
{
    assert(page(chain, first, offset) + page(chain, second, offset + first) =~= page(
        chain,
        first + second,
        offset,
    ));
}

/// A page shows only the newest entries of its kinds: the first `offset + limit`
/// of them, newest first, are enough to make it.
pub proof fn law_a_page_needs_only_the_newest(
    chain: Seq<EntryView>,
    kinds: Option<Seq<Seq<char>>>,
    limit: int,
    offset: int,
    n: int,
)
    requires
        0 <= limit,
        0 <= offset,
        0 <= n <= of_kinds(chain, kinds).len(),
        n >= offset + limit || n == of_kinds(chain, kinds).len(),
    ensures
        ({
            let all = of_kinds(chain, kinds);
            page(of_kinds(all.skip(all.len() - n), kinds), limit, offset) == page(
                all,
                limit,
                offset,
            )
        }),
{
    let all = of_kinds(chain, kinds);
    let part = all.skip(all.len() - n);
    let keep = |e: EntryView| is_of(e, kinds);
    assert forall|i: int| 0 <= i < part.len() implies keep(#[trigger] part[i]) by {
        chain.lemma_filter_pred(keep, all.len() - n + i);
    }
    lists::lemma_filter_keeps_all(part, keep);
    assert(page(part, limit, offset) =~= page(all, limit, offset));
}

/// The kinds of entries that tell of services that are gone.
pub open spec fn drift_kinds_text() -> Seq<Seq<char>> {
    seq!["drift"@, "audit"@]
}

/// The kinds of entries that tell of services that are gone: what `/v1/drift`
/// lists.
pub fn drift_kinds() -> (kinds: Vec<&'static str>)
    ensures
        Seq::new(kinds@.len(), |i: int| kinds@[i]@) == drift_kinds_text(),
{
    let mut kinds: Vec<&'static str> = Vec::new();
    kinds.push("drift");
    kinds.push("audit");
    assert(Seq::new(kinds@.len(), |i: int| kinds@[i]@) =~= drift_kinds_text());
    kinds
}

/// One page of what `/v1/drift` lists, and how many entries there are on all
/// pages.
pub fn list_drift(entries: &[Entry], limit: i64, offset: i64) -> (r: (Vec<Entry>, usize))
    requires
        0 <= limit,
        0 <= offset,
    ensures
        entry_views(r.0@) == page(
            of_kinds(entry_views(entries@), Some(drift_kinds_text())),
            limit as int,
            offset as int,
        ),
        r.1 == of_kinds(entry_views(entries@), Some(drift_kinds_text())).len(),
{
    let kinds = drift_kinds();
    list(entries, limit, offset, Some(kinds.as_slice()))
}

/// `/v1/drift` lists the entries of the kinds `drift` and `audit`, and no other.
pub proof fn law_drift_lists_drift_and_audit(e: EntryView)
    ensures
        is_of(e, Some(drift_kinds_text())) == (e.kind == "drift"@ || e.kind == "audit"@),
{
    assert(drift_kinds_text()[0] == "drift"@);
    assert(drift_kinds_text()[1] == "audit"@);
}

// ---------------------------------------------------------------------------
// Authorizations
// ---------------------------------------------------------------------------

/// How long an allow authorizes a removal, in microseconds: 30 minutes.
pub const ALLOW_WINDOW_MICROS: i64 = 1_800_000_000;

/// The columns of a ledger row that decide whether a removal was authorized.
#[derive(Debug, Clone)]
pub struct LedgerRow {
    pub kind: String,
    pub decision: String,
    pub action: String,
    pub target: String,
    /// Microseconds since the Unix epoch.
    pub at: i64,
}

impl LedgerRow {
    /// An allow for stopping or deleting `target`.
    pub open spec fn allows_removal(self, target: Seq<char>) -> bool {
        &&& self.kind@ == "decision"@
        &&& self.decision@ == "allow"@
        &&& self.action@ == "service.delete"@ || self.action@ == "service.stop"@
        &&& self.target@ == target
    }

    /// The row of a recorded entry.
    pub open spec fn records(self, e: NewEntryView) -> bool {
        &&& self.kind@ == e.kind
        &&& self.decision@ == e.decision
        &&& self.action@ == e.action
        &&& self.target@ == e.target
    }

    /// A removal of `target` that was found authorized.
    pub open spec fn audits(self, target: Seq<char>) -> bool {
        self.kind@ == "audit"@ && self.target@ == target
    }
}

/// Row `i` is an allow of the last 30 minutes that no audit has spent: it is
/// later than every audit recorded for the target (than the epoch, if none is).
pub open spec fn unspent_allow(rows: Seq<LedgerRow>, target: Seq<char>, now: int, i: int) -> bool {
    &&& 0 <= i < rows.len()
    &&& rows[i].allows_removal(target)
    &&& rows[i].at > now - ALLOW_WINDOW_MICROS
    &&& forall|j: int|
        0 <= j < rows.len() && (#[trigger] rows[j]).audits(target) ==> rows[i].at > rows[j].at
    &&& (forall|j: int| 0 <= j < rows.len() ==> !(#[trigger] rows[j]).audits(target))
        ==> rows[i].at > 0
}

/// Whether a removal of `target` now is authorized: decides audited removal
/// against unaudited drift.
///
/// An authorization covers exactly one removal: the allow must be later than
/// the last audit already recorded for the target. Without that, one approved
/// stop would launder every later stop of the same service for the rest of the
/// window.
pub fn recent_allow_exists(rows: &[LedgerRow], target: &str, now: i64) -> (r: bool)
    ensures
        r == exists|i: int| unspent_allow(rows@, target@, now as int, i),
{
    let mut last_audit: Option<i64> = None;
    let mut i: usize = 0;
    while i < rows.len()
        invariant
            i <= rows@.len(),
            match last_audit {
                Some(t) => {
                    &&& exists|j: int|
                        0 <= j < i && (#[trigger] rows@[j]).audits(target@) && rows@[j].at == t
                    &&& forall|j: int|
                        0 <= j < i && (#[trigger] rows@[j]).audits(target@) ==> rows@[j].at <= t
                },
                None => forall|j: int| 0 <= j < i ==> !(#[trigger] rows@[j]).audits(target@),
            },
        decreases rows@.len() - i,
    {
        let row = &rows[i];
        if text::str_eq(row.kind.as_str(), "audit") && text::str_eq(row.target.as_str(), target) {
            assert(rows@[i as int].audits(target@));
            last_audit = match last_audit {
                Some(t) => if t < row.at {
                    Some(row.at)
                } else {
                    Some(t)
                },
                None => Some(row.at),
            };
        }
        i = i + 1;
    }
    let spent: i64 = match last_audit {
        Some(t) => t,
        None => 0,
    };
    i = 0;
    while i < rows.len()
        invariant
            i <= rows@.len(),
            match last_audit {
                Some(t) => {
                    &&& spent == t
                    &&& exists|j: int|
                        0 <= j < rows@.len() && (#[trigger] rows@[j]).audits(target@)
                            && rows@[j].at == t
                    &&& forall|j: int|
                        0 <= j < rows@.len() && (#[trigger] rows@[j]).audits(target@)
                            ==> rows@[j].at <= t
                },
                None => {
                    &&& spent == 0
                    &&& forall|j: int|
                        0 <= j < rows@.len() ==> !(#[trigger] rows@[j]).audits(target@)
                },
            },
            forall|j: int| 0 <= j < i ==> !unspent_allow(rows@, target@, now as int, j),
        decreases rows@.len() - i,
    {
        let row = &rows[i];
        let fresh = (row.at as i128) > (now as i128) - (ALLOW_WINDOW_MICROS as i128);
        if text::str_eq(row.kind.as_str(), "decision") && text::str_eq(
            row.decision.as_str(),
            "allow",
        ) && (text::str_eq(row.action.as_str(), "service.delete") || text::str_eq(
            row.action.as_str(),
            "service.stop",
        )) && text::str_eq(row.target.as_str(), target) && fresh && row.at > spent {
            assert(unspent_allow(rows@, target@, now as int, i as int));
            return true;
        }
        i = i + 1;
    }
    false
}

/// An authorization is spent once: after an audit of a target that is no
/// earlier than any allow for it, no removal of it is authorized, whenever it
/// is asked.
pub proof fn law_an_allow_covers_one_removal(
    rows: Seq<LedgerRow>,
    target: Seq<char>,
    audit: int,
    now: int,
)
    requires
        0 <= audit < rows.len(),
        rows[audit].audits(target),
        forall|i: int|
            0 <= i < rows.len() && (#[trigger] rows[i]).allows_removal(target) ==> rows[i].at
                <= rows[audit].at,
    ensures
        !exists|i: int| unspent_allow(rows, target, now, i),
{
    assert forall|i: int| !unspent_allow(rows, target, now, i) by {
        if unspent_allow(rows, target, now, i) {
            assert(rows[i].allows_removal(target));
            assert(rows[audit].audits(target));
        }
    }
}

/// An allow authorizes for 30 minutes and no longer.
pub proof fn law_an_allow_expires(rows: Seq<LedgerRow>, target: Seq<char>, now: int)
    requires
        forall|i: int|
            0 <= i < rows.len() && (#[trigger] rows[i]).allows_removal(target) ==> rows[i].at
                + ALLOW_WINDOW_MICROS <= now,
    ensures
        !exists|i: int| unspent_allow(rows, target, now, i),
{
    assert forall|i: int| !unspent_allow(rows, target, now, i) by {
        if unspent_allow(rows, target, now, i) {
            assert(rows[i].allows_removal(target));
        }
    }
}

/// Only the audits of a target and what was recorded in the last 30 minutes
/// matter for whether a removal of it is authorized.
pub proof fn law_stale_rows_do_not_matter(rows: Seq<LedgerRow>, target: Seq<char>, now: int)
    ensures
        ({
            let kept = rows.filter(
                |r: LedgerRow| r.audits(target) || r.at > now - ALLOW_WINDOW_MICROS,
            );
            (exists|i: int| unspent_allow(rows, target, now, i)) == (exists|i: int|
                unspent_allow(kept, target, now, i))
        }),
{
    let keep = |r: LedgerRow| r.audits(target) || r.at > now - ALLOW_WINDOW_MICROS;
    let kept = rows.filter(keep);
    assert forall|i: int| 0 <= i < rows.len() && keep(rows[i]) implies exists|j: int|
        0 <= j < kept.len() && #[trigger] kept[j] == #[trigger] rows[i] by {
        rows.lemma_filter_contains(keep, i);
    }
    assert forall|j: int| 0 <= j < kept.len() implies exists|i: int|
        0 <= i < rows.len() && #[trigger] rows[i] == #[trigger] kept[j] by {
        lists::lemma_filter_origin(rows, keep, j);
    }
    if exists|i: int| unspent_allow(rows, target, now, i) {
        let i = choose|i: int| unspent_allow(rows, target, now, i);
        assert(keep(rows[i]));
        let j = choose|j: int| 0 <= j < kept.len() && #[trigger] kept[j] == rows[i];
        if forall|k: int| 0 <= k < kept.len() ==> !(#[trigger] kept[k]).audits(target) {
            assert forall|k: int| 0 <= k < rows.len() implies !(#[trigger] rows[k]).audits(
                target,
            ) by {
                if rows[k].audits(target) {
                    assert(keep(rows[k]));
                    let l = choose|l: int| 0 <= l < kept.len() && #[trigger] kept[l] == rows[k];
                    assert(kept[l].audits(target));
                }
            }
        }
        assert(unspent_allow(kept, target, now, j));
    }
    if exists|j: int| unspent_allow(kept, target, now, j) {
        let j = choose|j: int| unspent_allow(kept, target, now, j);
        let i = choose|i: int| 0 <= i < rows.len() && #[trigger] rows[i] == kept[j];
        assert forall|k: int|
            0 <= k < rows.len() && (#[trigger] rows[k]).audits(target) implies rows[i].at
            > rows[k].at by {
            assert(keep(rows[k]));
            let l = choose|l: int| 0 <= l < kept.len() && #[trigger] kept[l] == rows[k];
            assert(kept[l].audits(target));
        }
        if forall|k: int| 0 <= k < rows.len() ==> !(#[trigger] rows[k]).audits(target) {
            assert forall|k: int| 0 <= k < kept.len() implies !(#[trigger] kept[k]).audits(
                target,
            ) by {
                let l = choose|l: int| 0 <= l < rows.len() && #[trigger] rows[l] == kept[k];
            }
        }
        assert(unspent_allow(rows, target, now, i));
    }
}

// ---------------------------------------------------------------------------
// What an entry says and how it is signed
// ---------------------------------------------------------------------------

/// The entry that follows a head says what it was told, field by field, and
/// nothing else: it has the next number, the given time, the fields of the new
/// entry each in its own place, the params normalized, and the signature of the
/// head as that of its predecessor.
pub proof fn law_an_entry_says_what_it_was_told(
    head: Option<HeadView>,
    key: Seq<u8>,
    ts: Seq<char>,
    new: NewEntryView,
)
    ensures
        ({
            let e = appended(head, key, ts, new);
            &&& e.id == match head {
                Some(h) => h.id + 1,
                None => 1,
            }
            &&& e.ts == ts
            &&& e.kind == new.kind
            &&& e.actor == new.actor
            &&& e.action == new.action
            &&& e.target == new.target
            &&& e.decision == new.decision
            &&& e.reason == new.reason
            &&& e.policy == new.policy
            &&& e.params == json::normalized(new.params)
            &&& e.authenticated == new.authenticated
            &&& e.prev_hmac == match head {
                Some(h) => h.hmac,
                None => "genesis"@,
            }
        }),
{
}

/// An entry is signed with the HMAC, in hexadecimal, of twelve of its fields,
/// framed in this order: everything but the signature.
pub proof fn law_an_entry_is_signed_over_all_its_fields(
    head: Option<HeadView>,
    key: Seq<u8>,
    ts: Seq<char>,
    new: NewEntryView,
)
    ensures
        ({
            let e = appended(head, key, ts, new);
            e.hmac == hex_text(
                hmac_sha256(
                    key,
                    encode_utf8(
                        frame(
                            seq![
                                text::int_text(e.id),
                                e.ts,
                                e.kind,
                                e.actor,
                                e.action,
                                e.target,
                                e.decision,
                                e.reason,
                                e.policy,
                                json::compact_json(e.params),
                                if e.authenticated {
                                    "1"@
                                } else {
                                    "0"@
                                },
                                e.prev_hmac,
                            ],
                        ),
                    ),
                ),
            )
        }),
{
    let e = appended(head, key, ts, new);
    assert(signed_fields(EntryView { hmac: Seq::empty(), ..e }) =~= seq![
        text::int_text(e.id),
        e.ts,
        e.kind,
        e.actor,
        e.action,
        e.target,
        e.decision,
        e.reason,
        e.policy,
        json::compact_json(e.params),
        if e.authenticated {
            "1"@
        } else {
            "0"@
        },
        e.prev_hmac,
    ]);
}

/// The canonical text of an entry is its twelve fields, framed in this order.
pub proof fn law_the_canonical_text_frames_twelve_fields(e: EntryView)
    ensures
        canonical(e) == frame(
            seq![
                text::int_text(e.id),
                e.ts,
                e.kind,
                e.actor,
                e.action,
                e.target,
                e.decision,
                e.reason,
                e.policy,
                json::compact_json(e.params),
                if e.authenticated {
                    "1"@
                } else {
                    "0"@
                },
                e.prev_hmac,
            ],
        ),
{
}

/// Framing puts before each field its length in bytes and a colon, and a bar
/// behind it, one field after the other.
pub proof fn law_framing_counts_bytes(fields: Seq<Seq<char>>, f: Seq<char>)
    ensures
        frame(Seq::<Seq<char>>::empty()) == Seq::<char>::empty(),
        frame(fields.push(f)) == frame(fields) + text::dec(encode_utf8(f).len()) + seq![':'] + f
            + seq!['|'],
{
    lemma_frame_push(fields, f);
    assert(frame(fields) + field(f) =~= frame(fields) + text::dec(encode_utf8(f).len())
        + seq![':'] + f + seq!['|']);
}

/// The value of a lower-case hexadecimal digit.
pub open spec fn hex_value(c: char) -> int {
    if 48 <= c as int <= 57 {
        c as int - 48
    } else if 97 <= c as int <= 102 {
        c as int - 87
    } else {
        -1
    }
}

/// A hexadecimal text has two digits for each byte, the high one first: the bytes
/// can be read back from it.
pub proof fn law_hexadecimal_reads_back(bytes: Seq<u8>, i: int)
    requires
        0 <= i < bytes.len(),
    ensures
        hex_text(bytes).len() == 2 * bytes.len(),
        0 <= hex_value(hex_text(bytes)[2 * i]) < 16,
        0 <= hex_value(hex_text(bytes)[2 * i + 1]) < 16,
        16 * hex_value(hex_text(bytes)[2 * i]) + hex_value(hex_text(bytes)[2 * i + 1]) == bytes[i],
{
    let b = bytes[i] as int;
    assert(hex_text(bytes)[2 * i] == hex_digit(b / 16));
    assert(hex_text(bytes)[2 * i + 1] == hex_digit(b % 16));
    assert(hex_digit(b / 16) as int == if b / 16 < 10 {
        48 + b / 16
    } else {
        87 + b / 16
    });
    assert(hex_digit(b % 16) as int == if b % 16 < 10 {
        48 + b % 16
    } else {
        87 + b % 16
    });
}

/// The signature of a text is the hexadecimal of its HMAC-SHA256 under the key,
/// over its UTF-8 bytes.
pub proof fn law_a_signature_is_an_hmac(key: Seq<u8>, msg: Seq<char>)
    ensures
        hmac_hex_text(key, msg) == hex_text(hmac_sha256(key, encode_utf8(msg))),
{
}

/// A chain is valid exactly if every entry carries the HMAC of its canonical text
/// and the signature of the entry before it, the first one the word `genesis`.
pub proof fn law_what_makes_a_chain_valid(key: Seq<u8>, chain: Seq<EntryView>)
    ensures
        chain_valid(key, chain) <==> forall|i: int|
            0 <= i < chain.len() ==> {
                &&& (#[trigger] chain[i]).hmac == hex_text(
                    hmac_sha256(key, encode_utf8(canonical(chain[i]))),
                )
                &&& chain[i].prev_hmac == if i == 0 {
                    "genesis"@
                } else {
                    chain[i - 1].hmac
                }
            },
{
    if chain_valid(key, chain) {
        assert forall|i: int| 0 <= i < chain.len() implies {
            &&& (#[trigger] chain[i]).hmac == hex_text(
                hmac_sha256(key, encode_utf8(canonical(chain[i]))),
            )
            &&& chain[i].prev_hmac == if i == 0 {
                "genesis"@
            } else {
                chain[i - 1].hmac
            }
        } by {
            assert(intact(key, chain, i));
        }
    }
}

/// The place where a chain breaks is the first entry up to which it is not valid:
/// without that entry it is, with it it is not.
pub proof fn law_a_chain_breaks_where_it_stops_being_valid(
    key: Seq<u8>,
    chain: Seq<EntryView>,
    i: int,
)
    requires
        0 <= i < chain.len(),
    ensures
        first_broken(key, chain, i) <==> chain_valid(key, chain.take(i)) && !chain_valid(
            key,
            chain.take(i + 1),
        ),
        chain_valid(key, chain) ==> !first_broken(key, chain, i),
{
    assert forall|j: int, n: int| 0 <= j < n <= chain.len() implies #[trigger] intact(
        key,
        chain.take(n),
        j,
    ) == intact(key, chain, j) by {
        assert(link(chain.take(n), j) == link(chain, j));
    }
    if chain_valid(key, chain.take(i)) {
        assert forall|j: int| 0 <= j < i implies #[trigger] intact(key, chain, j) by {
            assert(intact(key, chain.take(i), j));
        }
        if intact(key, chain, i) {
            assert(chain_valid(key, chain.take(i + 1)));
        }
    }
    if first_broken(key, chain, i) {
        assert(!intact(key, chain.take(i + 1), i));
    }
}

/// What the next entry follows is the number and the signature of the last one.
pub proof fn law_the_head_is_the_last_entry(chain: Seq<EntryView>)
    ensures
        chain.len() == 0 ==> head_of(chain) is None && head_id(chain) == 0,
        chain.len() > 0 ==> head_of(chain) == Some(
            HeadView { id: chain[chain.len() - 1].id, hmac: chain[chain.len() - 1].hmac },
        ) && head_id(chain) == chain[chain.len() - 1].id,
{
}

/// A page counts back from the newest entry: its `i`-th entry is the one `offset +
/// i` places before the last, and it is as long as the limit and the ledger allow.
pub proof fn law_a_page_counts_back_from_the_newest(
    chain: Seq<EntryView>,
    limit: int,
    offset: int,
)
    requires
        0 <= limit,
        0 <= offset,
    ensures
        page(chain, limit, offset).len() == if chain.len() <= offset {
            0
        } else if chain.len() - offset <= limit {
            chain.len() - offset
        } else {
            limit
        },
        forall|i: int|
            0 <= i < page(chain, limit, offset).len() ==> #[trigger] page(chain, limit, offset)[i]
                == chain[chain.len() - 1 - offset - i],
{
}

/// A listing by kinds shows every entry of one of them and no other, in the order
/// of the ledger: one entry more shows at the end if it is of one of the kinds.
pub proof fn law_a_listing_shows_the_entries_of_its_kinds(
    chain: Seq<EntryView>,
    kinds: Seq<Seq<char>>,
    e: EntryView,
)
    ensures
        of_kinds(Seq::<EntryView>::empty(), Some(kinds)) == Seq::<EntryView>::empty(),
        of_kinds(chain.push(e), Some(kinds)) == if exists|i: int|
            0 <= i < kinds.len() && #[trigger] kinds[i] == e.kind {
            of_kinds(chain, Some(kinds)).push(e)
        } else {
            of_kinds(chain, Some(kinds))
        },
        of_kinds(chain, None) == chain,
{
    reveal(Seq::filter);
    assert(chain.push(e).drop_last() =~= chain);
    assert(kinds.contains(e.kind) == exists|i: int|
        0 <= i < kinds.len() && #[trigger] kinds[i] == e.kind);
    lists::lemma_filter_keeps_all(chain, |x: EntryView| is_of(x, None));
}

/// The kinds that a listing is restricted to are the given ones, in their order.
pub proof fn law_the_kinds_of_a_listing(kinds: &[&str], i: int)
    requires
        0 <= i < kinds@.len(),
    ensures
        wanted_kinds(None) is None,
        wanted_kinds(Some(kinds)) is Some,
        (wanted_kinds(Some(kinds))->0).len() == kinds@.len(),
        (wanted_kinds(Some(kinds))->0)[i] == kinds@[i]@,
{
}

/// A removal is authorized exactly by a decision to allow stopping or deleting the
/// target, made in the last 30 minutes, after every audit of that target, and
/// after the epoch where there is none.
pub proof fn law_what_authorizes_a_removal(
    rows: Seq<LedgerRow>,
    target: Seq<char>,
    now: int,
    i: int,
)
    requires
        0 <= i < rows.len(),
    ensures
        unspent_allow(rows, target, now, i) <==> {
            &&& rows[i].kind@ == "decision"@
            &&& rows[i].decision@ == "allow"@
            &&& rows[i].action@ == "service.stop"@ || rows[i].action@ == "service.delete"@
            &&& rows[i].target@ == target
            &&& now - rows[i].at < 30 * 60 * 1_000_000
            &&& forall|j: int|
                0 <= j < rows.len() && (#[trigger] rows[j]).kind@ == "audit"@ && rows[j].target@
                    == target ==> rows[j].at < rows[i].at
            &&& rows[i].at > 0 || exists|j: int|
                0 <= j < rows.len() && (#[trigger] rows[j]).kind@ == "audit"@ && rows[j].target@
                    == target
        },
{
    if unspent_allow(rows, target, now, i) {
        assert forall|j: int|
            0 <= j < rows.len() && (#[trigger] rows[j]).kind@ == "audit"@ && rows[j].target@
                == target implies rows[j].at < rows[i].at by {
            assert(rows[j].audits(target));
        }
        if rows[i].at <= 0 {
            let j = choose|j: int| 0 <= j < rows.len() && (#[trigger] rows[j]).audits(target);
            assert(rows[j].kind@ == "audit"@);
        }
    }
}

/// What an entry, a new entry and a head are said to hold is what they hold, each
/// field in its own place.
pub proof fn law_entries_are_their_fields(e: Entry, n: NewEntry, h: Head)
    ensures
        e@.id == e.id && e@.ts == e.ts@ && e@.kind == e.kind@ && e@.actor == e.actor@,
        e@.action == e.action@ && e@.target == e.target@ && e@.decision == e.decision@,
        e@.reason == e.reason@ && e@.policy == e.policy@ && e@.params == e.params@,
        e@.authenticated == e.authenticated && e@.prev_hmac == e.prev_hmac@ && e@.hmac == e.hmac@,
        n@.kind == n.kind@ && n@.actor == n.actor@ && n@.action == n.action@ && n@.target
            == n.target@,
        n@.decision == n.decision@ && n@.reason == n.reason@ && n@.policy == n.policy@,
        n@.params == n.params@ && n@.authenticated == n.authenticated,
        h@.id == h.id && h@.hmac == h.hmac@,
{
}

/// What a row of the ledger tells of an entry is the fields of the same names.
pub proof fn law_a_row_records_an_entry_by_its_fields(r: LedgerRow, e: NewEntryView)
    ensures
        r.records(e) <==> r.kind@ == e.kind && r.decision@ == e.decision && r.action@ == e.action
            && r.target@ == e.target,
{
}

/// A list of entries says what its entries say, one by one.
pub proof fn law_entries_are_read_one_by_one(entries: Seq<Entry>, i: int)
    ensures
        entry_views(entries).len() == entries.len(),
        0 <= i < entries.len() ==> entry_views(entries)[i] == entries[i]@,
{
}

} // verus!
