//! The policy engine: ordered rules, the first that matches decides.

use vstd::hash_map::StringHashMap;
use vstd::prelude::*;
use vstd::string::*;

use crate::json;
use crate::json::Json;
use crate::state::GATE;
use crate::text;

verus! {

/// One row of the policy table.
#[derive(Debug, Clone)]
pub struct PolicyRow {
    pub id: &'static str,
    pub ord: i32,
    pub effect: &'static str,
    pub description: String,
}

/// What a decision comes to.
#[derive(Debug, Clone, Copy, PartialEq, Eq, Structural)]
pub enum Effect {
    Allow,
    Refuse,
}

/// A decision, the policy that made it, and why.
#[derive(Debug, Clone)]
pub struct Decision {
    pub effect: Effect,
    pub policy: &'static str,
    pub reason: String,
}

/// The slice of the topology model that the engine needs.
#[derive(Debug, Clone)]
pub struct TopoView {
    pub hostname: String,
    pub stateful: bool,
}

/// Which policies are switched on. A policy that is not listed is on.
pub struct PolicyFlags {
    flags: StringHashMap<bool>,
}

impl View for PolicyFlags {
    type V = Map<Seq<char>, bool>;

    closed spec fn view(&self) -> Map<Seq<char>, bool> {
        self.flags@
    }
}

impl PolicyFlags {
    /// No policy listed: all of them on.
    pub fn new() -> (r: PolicyFlags)
        ensures
            r@ == Map::<Seq<char>, bool>::empty(),
    {
        PolicyFlags { flags: StringHashMap::new() }
    }

    /// Switches a policy on or off.
    pub fn insert(&mut self, id: String, on: bool)
        ensures
            final(self)@ == old(self)@.insert(id@, on),
    {
        self.flags.insert(id, on);
    }

    /// Whether a policy is on.
    pub fn on(&self, id: &str) -> (r: bool)
        ensures
            r == is_on(self@, id@),
            !self@.contains_key(id@) ==> r,
            self@.contains_key(id@) ==> r == self@[id@],
    {
        match self.flags.get(id) {
            Some(b) => *b,
            None => true,
        }
    }
}

// ---------------------------------------------------------------------------
// The rules
// ---------------------------------------------------------------------------

/// A refusal rule.
pub enum Rule {
    ProtectStateful,
    ProtectSpine,
    NoScaleToZero,
    SecretShield,
    UnknownTarget,
}

/// What a decision depends on.
pub struct Query {
    pub action: Seq<char>,
    pub target: Seq<char>,
    pub params: json::Doc,
    pub topo: Seq<TopoView>,
    pub enabled: Map<Seq<char>, bool>,
}

/// What a [`Decision`] says.
#[verifier::ext_equal]
pub struct DecisionView {
    pub effect: Effect,
    pub policy: Seq<char>,
    pub reason: Seq<char>,
}

impl View for Decision {
    type V = DecisionView;

    open spec fn view(&self) -> DecisionView {
        DecisionView { effect: self.effect, policy: self.policy@, reason: self.reason@ }
    }
}

/// A policy is on unless it is listed as off.
pub open spec fn is_on(enabled: Map<Seq<char>, bool>, id: Seq<char>) -> bool {
    enabled.contains_key(id) ==> enabled[id]
}

/// The topology model lists the target.
pub open spec fn known(topo: Seq<TopoView>, target: Seq<char>) -> bool {
    exists|i: int| 0 <= i < topo.len() && (#[trigger] topo[i]).hostname@ == target
}

/// The topology model lists the target as stateful.
pub open spec fn known_stateful(topo: Seq<TopoView>, target: Seq<char>) -> bool {
    exists|i: int|
        0 <= i < topo.len() && (#[trigger] topo[i]).hostname@ == target && topo[i].stateful
}

/// A key that names a credential: `(_KEY|_TOKEN|_SECRET|PASSWORD)$` in any case.
pub open spec fn names_secret(key: Seq<char>) -> bool {
    let up = text::upper_text(key);
    ||| "_KEY"@.is_suffix_of(up)
    ||| "_TOKEN"@.is_suffix_of(up)
    ||| "_SECRET"@.is_suffix_of(up)
    ||| "PASSWORD"@.is_suffix_of(up)
}

/// The `key` parameter, when it names a credential.
pub open spec fn secret_param(params: json::Doc) -> Option<Seq<char>> {
    match params.member("key"@) {
        Some(json::Doc::String(key)) => if names_secret(key) {
            Some(key)
        } else {
            None
        },
        _ => None,
    }
}

/// The `minContainers` parameter is the number zero.
pub open spec fn scales_to_zero(params: json::Doc) -> bool {
    match params.member("minContainers"@) {
        Some(d) => d.is_zero(),
        None => false,
    }
}

impl Rule {
    /// The name of the rule.
    pub open spec fn id(self) -> Seq<char> {
        match self {
            Rule::ProtectStateful => "protect-stateful"@,
            Rule::ProtectSpine => "protect-spine"@,
            Rule::NoScaleToZero => "no-scale-to-zero"@,
            Rule::SecretShield => "secret-shield"@,
            Rule::UnknownTarget => "unknown-target"@,
        }
    }

    /// What the rule is about, whether or not it is on.
    pub open spec fn matches(self, q: Query) -> bool {
        match self {
            Rule::ProtectStateful => {
                &&& q.action == "service.delete"@ || q.action == "service.stop"@
                &&& known_stateful(q.topo, q.target)
            },
            Rule::ProtectSpine => {
                &&& q.target == GATE@ || q.target == "console"@
                &&& q.action == "service.delete"@ || q.action == "service.stop"@ || q.action
                    == "env.delete"@
            },
            Rule::NoScaleToZero => q.action == "service.scale"@ && scales_to_zero(q.params),
            Rule::SecretShield => {
                &&& q.action == "env.set"@ || q.action == "env.delete"@
                &&& secret_param(q.params) is Some
            },
            Rule::UnknownTarget => if q.action == "service.create"@ {
                known(q.topo, q.target)
            } else {
                &&& "service."@.is_prefix_of(q.action) || "env."@.is_prefix_of(q.action)
                &&& !known(q.topo, q.target)
            },
        }
    }

    /// The rule is on and matches.
    pub open spec fn refuses(self, q: Query) -> bool {
        is_on(q.enabled, self.id()) && self.matches(q)
    }

    /// Why the rule refuses.
    pub open spec fn reason(self, q: Query) -> Seq<char> {
        match self {
            Rule::ProtectStateful => "'"@ + q.target + "' is a stateful service; "@ + q.action
                + " risks irreversible data loss"@,
            Rule::ProtectSpine => "'"@ + q.target
                + "' is part of the audit spine; the "@ + GATE@ + " refuses "@ + q.action
                + " against its own surface"@,
            Rule::NoScaleToZero => "scaling '"@ + q.target
                + "' to minContainers=0 silently removes the service; use an explicit stop"@,
            Rule::SecretShield => "env key '"@ + secret_param(q.params)->0
                + "' looks like a credential; the "@ + GATE@ + " refuses to touch secrets"@,
            Rule::UnknownTarget => if q.action == "service.create"@ {
                "hostname '"@ + q.target + "' already exists in the topology model"@
            } else {
                "'"@ + q.target
                    + "' is not in the topology model; the "@ + GATE@
                    + " cannot evaluate what it cannot see"@
            },
        }
    }

    /// The decision of a rule that refuses.
    pub open spec fn refusal(self, q: Query) -> DecisionView {
        DecisionView { effect: Effect::Refuse, policy: self.id(), reason: self.reason(q) }
    }
}

/// The rules in the order in which they are asked.
pub open spec fn rules() -> Seq<Rule> {
    seq![
        Rule::ProtectStateful,
        Rule::ProtectSpine,
        Rule::NoScaleToZero,
        Rule::SecretShield,
        Rule::UnknownTarget,
    ]
}

/// The decision when no rule refuses.
pub open spec fn default_record() -> DecisionView {
    DecisionView {
        effect: Effect::Allow,
        policy: "default-record"@,
        reason: "no refusal policy matched; action allowed and recorded"@,
    }
}

/// The decision of the rules from the `i`-th on.
pub open spec fn decided_from(q: Query, i: nat) -> DecisionView
    decreases rules().len() - i,
{
    if i >= rules().len() {
        default_record()
    } else if rules()[i as int].refuses(q) {
        rules()[i as int].refusal(q)
    } else {
        decided_from(q, i + 1)
    }
}

/// The decision: that of the first rule that refuses, else the default.
pub open spec fn decided(q: Query) -> DecisionView {
    decided_from(q, 0)
}

// ---------------------------------------------------------------------------
// Deciding
// ---------------------------------------------------------------------------

/// Whether the topology model lists a hostname.
fn lists(topo: &[TopoView], target: &str) -> (r: bool)
    ensures
        r == known(topo@, target@),
{
    let mut i: usize = 0;
    while i < topo.len()
        invariant
            i <= topo@.len(),
            forall|j: int| 0 <= j < i ==> (#[trigger] topo@[j]).hostname@ != target@,
        decreases topo@.len() - i,
    {
        if text::str_eq(topo[i].hostname.as_str(), target) {
            return true;
        }
        i = i + 1;
    }
    false
}

/// Whether the topology model lists a hostname as stateful.
fn lists_stateful(topo: &[TopoView], target: &str) -> (r: bool)
    ensures
        r == known_stateful(topo@, target@),
{
    let mut i: usize = 0;
    while i < topo.len()
        invariant
            i <= topo@.len(),
            forall|j: int|
                0 <= j < i ==> !((#[trigger] topo@[j]).hostname@ == target@ && topo@[j].stateful),
        decreases topo@.len() - i,
    {
        if topo[i].stateful && text::str_eq(topo[i].hostname.as_str(), target) {
            return true;
        }
        i = i + 1;
    }
    false
}

/// Whether `minContainers` is the number zero.
pub fn min_containers_is_zero(params: &Json) -> (r: bool)
    ensures
        r == scales_to_zero(params@),
{
    match params.get("minContainers") {
        Some(v) => v.is_zero(),
        None => false,
    }
}

/// The offending key when it matches `(_KEY|_TOKEN|_SECRET|PASSWORD)$`
/// case-insensitively.
pub fn secret_key(params: &Json) -> (r: Option<String>)
    ensures
        match r {
            Some(key) => secret_param(params@) == Some(key@),
            None => secret_param(params@) is None,
        },
{
    let key = match params.get("key") {
        Some(v) => match v.as_str() {
            Some(s) => s,
            None => return None,
        },
        None => return None,
    };
    if text::ends_with_folded(key, "_KEY") || text::ends_with_folded(key, "_TOKEN")
        || text::ends_with_folded(key, "_SECRET") || text::ends_with_folded(key, "PASSWORD") {
        Some(key.to_owned())
    } else {
        None
    }
}

/// A refusal.
pub fn refuse(policy: &'static str, reason: String) -> (d: Decision)
    ensures
        d@ == (DecisionView { effect: Effect::Refuse, policy: policy@, reason: reason@ }),
{
    Decision { effect: Effect::Refuse, policy, reason }
}

/// Decides on a proposed action.
pub fn evaluate(
    action: &str,
    target: &str,
    params: &Json,
    topo: &[TopoView],
    enabled: &PolicyFlags,
) -> (d: Decision)
    ensures
        d@ == decided(
            (Query {
                action: action@,
                target: target@,
                params: params@,
                topo: topo@,
                enabled: enabled@,
            }),
        ),
{
    let ghost q = Query {
        action: action@,
        target: target@,
        params: params@,
        topo: topo@,
        enabled: enabled@,
    };
    proof {
        reveal_with_fuel(decided_from, 6);
    }
    let is_delete = text::str_eq(action, "service.delete");
    let is_stop = text::str_eq(action, "service.stop");
    let is_env_delete = text::str_eq(action, "env.delete");

    if enabled.on("protect-stateful") && (is_delete || is_stop) && lists_stateful(topo, target) {
        let mut reason = String::new();
        reason.append("'");
        reason.append(target);
        reason.append("' is a stateful service; ");
        reason.append(action);
        reason.append(" risks irreversible data loss");
        assert(reason@ =~= Rule::ProtectStateful.reason(q));
        return refuse("protect-stateful", reason);
    }
    assert(!Rule::ProtectStateful.refuses(q));

    if enabled.on("protect-spine") && (text::str_eq(target, GATE) || text::str_eq(
        target,
        "console",
    )) && (is_delete || is_stop || is_env_delete) {
        let mut reason = String::new();
        reason.append("'");
        reason.append(target);
        reason.append("' is part of the audit spine; the ");
        reason.append(GATE);
        reason.append(" refuses ");
        reason.append(action);
        reason.append(" against its own surface");
        assert(reason@ =~= Rule::ProtectSpine.reason(q));
        return refuse("protect-spine", reason);
    }
    assert(!Rule::ProtectSpine.refuses(q));

    if enabled.on("no-scale-to-zero") && text::str_eq(action, "service.scale")
        && min_containers_is_zero(params) {
        let mut reason = String::new();
        reason.append("scaling '");
        reason.append(target);
        reason.append("' to minContainers=0 silently removes the service; use an explicit stop");
        assert(reason@ =~= Rule::NoScaleToZero.reason(q));
        return refuse("no-scale-to-zero", reason);
    }
    assert(!Rule::NoScaleToZero.refuses(q));

    if enabled.on("secret-shield") && (text::str_eq(action, "env.set") || is_env_delete) {
        match secret_key(params) {
            Some(key) => {
                let mut reason = String::new();
                reason.append("env key '");
                reason.append(key.as_str());
                reason.append("' looks like a credential; the ");
                reason.append(GATE);
                reason.append(" refuses to touch secrets");
                assert(reason@ =~= Rule::SecretShield.reason(q));
                return refuse("secret-shield", reason);
            },
            None => {},
        }
    }
    assert(!Rule::SecretShield.refuses(q));

    if enabled.on("unknown-target") {
        let known = lists(topo, target);
        if text::str_eq(action, "service.create") {
            if known {
                let mut reason = String::new();
                reason.append("hostname '");
                reason.append(target);
                reason.append("' already exists in the topology model");
                assert(reason@ =~= Rule::UnknownTarget.reason(q));
                return refuse("unknown-target", reason);
            }
        } else if (text::starts_with(action, "service.") || text::starts_with(action, "env."))
            && !known {
            let mut reason = String::new();
            reason.append("'");
            reason.append(target);
            reason.append("' is not in the topology model; the ");
            reason.append(GATE);
            reason.append(" cannot evaluate what it cannot see");
            assert(reason@ =~= Rule::UnknownTarget.reason(q));
            return refuse("unknown-target", reason);
        }
    }
    assert(!Rule::UnknownTarget.refuses(q));

    Decision {
        effect: Effect::Allow,
        policy: "default-record",
        reason: "no refusal policy matched; action allowed and recorded".to_owned(),
    }
}

/// Where the search for a refusing rule gets to.
proof fn lemma_decided_skips(q: Query, i: nat)
    requires
        i <= rules().len(),
        forall|j: int| 0 <= j < i ==> !(#[trigger] rules()[j]).refuses(q),
    ensures
        decided(q) == decided_from(q, i),
    decreases i,
{
    if i > 0 {
        lemma_decided_skips(q, (i - 1) as nat);
        assert(!rules()[i - 1].refuses(q));
    }
}

/// The first rule that refuses decides.
pub proof fn law_first_match_wins(q: Query, i: nat)
    requires
        i < rules().len(),
        rules()[i as int].refuses(q),
        forall|j: int| 0 <= j < i ==> !(#[trigger] rules()[j]).refuses(q),
    ensures
        decided(q) == rules()[i as int].refusal(q),
{
    lemma_decided_skips(q, i);
}

/// What no rule refuses is allowed, and nothing else is.
pub proof fn law_only_the_unrefused_is_allowed(q: Query)
    ensures
        decided(q).effect == Effect::Allow <==> forall|i: int|
            0 <= i < rules().len() ==> !(#[trigger] rules()[i]).refuses(q),
        decided(q).effect == Effect::Allow ==> decided(q) == default_record(),
{
    reveal_with_fuel(decided_from, 6);
    if forall|i: int| 0 <= i < rules().len() ==> !(#[trigger] rules()[i]).refuses(q) {
        lemma_decided_skips(q, rules().len());
    } else {
        assert(rules()[0] == Rule::ProtectStateful && rules()[1] == Rule::ProtectSpine);
        assert(rules()[2] == Rule::NoScaleToZero && rules()[3] == Rule::SecretShield);
        assert(rules()[4] == Rule::UnknownTarget);
    }
}

/// The names of the rules, and that of the default, are all different.
proof fn lemma_ids_differ()
    ensures
        forall|r: Rule, t: Rule| #[trigger] r.id() == #[trigger] t.id() ==> r == t,
        forall|r: Rule| #[trigger] r.id() != default_record().policy,
{
    reveal_strlit("protect-stateful");
    reveal_strlit("protect-spine");
    reveal_strlit("no-scale-to-zero");
    reveal_strlit("secret-shield");
    reveal_strlit("unknown-target");
    reveal_strlit("default-record");
    assert("protect-stateful"@.len() == 16 && "no-scale-to-zero"@.len() == 16);
    assert("protect-spine"@.len() == 13 && "secret-shield"@.len() == 13);
    assert("unknown-target"@.len() == 14 && "default-record"@.len() == 14);
    assert("protect-stateful"@[0] != "no-scale-to-zero"@[0]);
    assert("protect-spine"@[0] != "secret-shield"@[0]);
    assert("unknown-target"@[0] != "default-record"@[0]);
}

/// A rule that is switched off decides nothing.
pub proof fn law_a_disabled_rule_never_decides(q: Query, r: Rule)
    requires
        !is_on(q.enabled, r.id()),
    ensures
        decided(q).policy != r.id(),
{
    reveal_with_fuel(decided_from, 6);
    lemma_ids_differ();
}

/// While its rule is on, no stateful service can be stopped or deleted,
/// whatever else is asked or switched off.
pub proof fn law_stateful_services_are_kept(q: Query)
    requires
        is_on(q.enabled, "protect-stateful"@),
        known_stateful(q.topo, q.target),
        q.action == "service.delete"@ || q.action == "service.stop"@,
    ensures
        decided(q) == Rule::ProtectStateful.refusal(q),
{
    assert(rules()[0].refuses(q));
    law_first_match_wins(q, 0);
}

/// While its rule is on, the service itself and the console cannot be stopped or
/// deleted nor lose an environment variable: the audit surface is defended.
pub proof fn law_the_audit_spine_is_kept(q: Query)
    requires
        is_on(q.enabled, "protect-spine"@),
        q.target == GATE@ || q.target == "console"@,
        q.action == "service.delete"@ || q.action == "service.stop"@ || q.action == "env.delete"@,
    ensures
        decided(q).effect == Effect::Refuse,
{
    law_only_the_unrefused_is_allowed(q);
    assert(rules()[1].refuses(q));
}

/// While its rule is on, no environment variable that names a credential is
/// set or deleted.
pub proof fn law_secrets_are_not_touched(q: Query)
    requires
        is_on(q.enabled, "secret-shield"@),
        q.action == "env.set"@ || q.action == "env.delete"@,
        secret_param(q.params) is Some,
    ensures
        decided(q).effect == Effect::Refuse,
{
    law_only_the_unrefused_is_allowed(q);
    assert(rules()[3].refuses(q));
}

// ---------------------------------------------------------------------------
// The policy table
// ---------------------------------------------------------------------------

/// What a [`PolicyRow`] says.
#[verifier::ext_equal]
pub struct PolicyRowView {
    pub id: Seq<char>,
    pub ord: int,
    pub effect: Seq<char>,
    pub description: Seq<char>,
}

impl View for PolicyRow {
    type V = PolicyRowView;

    open spec fn view(&self) -> PolicyRowView {
        PolicyRowView {
            id: self.id@,
            ord: self.ord as int,
            effect: self.effect@,
            description: self.description@,
        }
    }
}

/// The policy table, in the order of the engine.
pub open spec fn policy_table() -> Seq<PolicyRowView> {
    seq![
        PolicyRowView {
            id: "protect-stateful"@,
            ord: 0,
            effect: "refuse"@,
            description: "Refuse service.delete/service.stop when the target is a stateful service (db, cache, storage)."@,
        },
        PolicyRowView {
            id: "protect-spine"@,
            ord: 1,
            effect: "refuse"@,
            description: "Refuse service.delete/service.stop/env.delete against gate or console — the "@
                + GATE@ + " defends its own audit surface."@,
        },
        PolicyRowView {
            id: "no-scale-to-zero"@,
            ord: 2,
            effect: "refuse"@,
            description: "Refuse service.scale with params.minContainers == 0."@,
        },
        PolicyRowView {
            id: "secret-shield"@,
            ord: 3,
            effect: "refuse"@,
            description: "Refuse env.set/env.delete when params.key ends with _KEY, _TOKEN, _SECRET or PASSWORD (case-insensitive)."@,
        },
        PolicyRowView {
            id: "unknown-target"@,
            ord: 4,
            effect: "refuse"@,
            description: "Refuse service.*/env.* actions whose target is not in the topology model; for service.create, refuse only on hostname collision."@,
        },
        PolicyRowView {
            id: "default-record"@,
            ord: 5,
            effect: "allow"@,
            description: "Allow everything else and record it in the ledger."@,
        },
    ]
}

/// The rows that seed the policy table on first boot. The order of the engine
/// itself is fixed in [`evaluate`].
pub fn policies() -> (rows: Vec<PolicyRow>)
    ensures
        Seq::new(rows@.len(), |i: int| rows@[i]@) == policy_table(),
{
    let mut spine = String::new();
    spine.append(
        "Refuse service.delete/service.stop/env.delete against gate or console — the ",
    );
    spine.append(GATE);
    spine.append(" defends its own audit surface.");
    assert(spine@ =~= policy_table()[1].description);
    let mut rows: Vec<PolicyRow> = Vec::new();
    rows.push(
        PolicyRow {
            id: "protect-stateful",
            ord: 0,
            effect: "refuse",
            description: "Refuse service.delete/service.stop when the target is a stateful service (db, cache, storage).".to_owned(),
        },
    );
    rows.push(
        PolicyRow {
            id: "protect-spine",
            ord: 1,
            effect: "refuse",
            description: spine,
        },
    );
    rows.push(
        PolicyRow {
            id: "no-scale-to-zero",
            ord: 2,
            effect: "refuse",
            description: "Refuse service.scale with params.minContainers == 0.".to_owned(),
        },
    );
    rows.push(
        PolicyRow {
            id: "secret-shield",
            ord: 3,
            effect: "refuse",
            description: "Refuse env.set/env.delete when params.key ends with _KEY, _TOKEN, _SECRET or PASSWORD (case-insensitive).".to_owned(),
        },
    );
    rows.push(
        PolicyRow {
            id: "unknown-target",
            ord: 4,
            effect: "refuse",
            description: "Refuse service.*/env.* actions whose target is not in the topology model; for service.create, refuse only on hostname collision.".to_owned(),
        },
    );
    rows.push(
        PolicyRow {
            id: "default-record",
            ord: 5,
            effect: "allow",
            description: "Allow everything else and record it in the ledger.".to_owned(),
        },
    );
    assert(Seq::new(rows@.len(), |i: int| rows@[i]@) =~= policy_table());
    rows
}

/// The policy table lists the rules in the order in which they are asked, each
/// as a refusal, and the default last, as an allow.
pub proof fn law_the_table_is_in_engine_order(i: int)
    requires
        0 <= i < policy_table().len(),
    ensures
        policy_table().len() == rules().len() + 1,
        policy_table()[i].ord == i,
        i < rules().len() ==> policy_table()[i].id == rules()[i].id() && policy_table()[i].effect
            == "refuse"@,
        i == rules().len() ==> policy_table()[i].id == default_record().policy
            && policy_table()[i].effect == "allow"@,
{
}

// ---------------------------------------------------------------------------
// What is refused, over the texts of a request and the rows of the model
// ---------------------------------------------------------------------------

/// While `unknown-target` is on, every action on services or environments whose
/// target no row of the topology names is refused, but for the creation of a
/// service, which is refused of a target that a row names.
pub proof fn law_unknown_targets_are_refused(q: Query)
    requires
        q.enabled.contains_key("unknown-target"@) ==> q.enabled["unknown-target"@],
    ensures
        q.action != "service.create"@ && "service."@.is_prefix_of(q.action) && (forall|i: int|
            0 <= i < q.topo.len() ==> (#[trigger] q.topo[i]).hostname@ != q.target) ==> decided(
            q,
        ).effect == Effect::Refuse,
        q.action != "service.create"@ && "env."@.is_prefix_of(q.action) && (forall|i: int|
            0 <= i < q.topo.len() ==> (#[trigger] q.topo[i]).hostname@ != q.target) ==> decided(
            q,
        ).effect == Effect::Refuse,
        q.action == "service.create"@ && (exists|i: int|
            0 <= i < q.topo.len() && (#[trigger] q.topo[i]).hostname@ == q.target) ==> decided(
            q,
        ).effect == Effect::Refuse,
{
    reveal_with_fuel(decided_from, 6);
}

/// While `protect-stateful` is on, stopping or deleting a target that a row names
/// as stateful is refused, on that ground.
pub proof fn law_stateful_rows_are_refused(q: Query, i: int)
    requires
        q.enabled.contains_key("protect-stateful"@) ==> q.enabled["protect-stateful"@],
        0 <= i < q.topo.len(),
        q.topo[i].hostname@ == q.target,
        q.topo[i].stateful,
        q.action == "service.delete"@ || q.action == "service.stop"@,
    ensures
        decided(q).effect == Effect::Refuse,
        decided(q).policy == "protect-stateful"@,
        decided(q).reason == "'"@ + q.target + "' is a stateful service; "@ + q.action
            + " risks irreversible data loss"@,
{
    reveal_with_fuel(decided_from, 6);
}

/// While `protect-spine` is on, the service itself and the console are not stopped
/// or deleted, and lose no environment variable.
pub proof fn law_the_spine_is_refused(q: Query)
    requires
        q.enabled.contains_key("protect-spine"@) ==> q.enabled["protect-spine"@],
        q.target == "gate"@ || q.target == "console"@,
        q.action == "service.delete"@ || q.action == "service.stop"@ || q.action == "env.delete"@,
    ensures
        decided(q).effect == Effect::Refuse,
{
    reveal_with_fuel(decided_from, 6);
}

/// While `no-scale-to-zero` is on, no service is scaled to no container, however
/// the zero is written.
pub proof fn law_scaling_to_zero_is_refused(q: Query)
    requires
        q.enabled.contains_key("no-scale-to-zero"@) ==> q.enabled["no-scale-to-zero"@],
        q.action == "service.scale"@,
        q.params.member("minContainers"@) == Some(json::Doc::Number("0"@)) || q.params.member(
            "minContainers"@,
        ) == Some(json::Doc::Number("0.0"@)) || q.params.member("minContainers"@) == Some(
            json::Doc::Number("-0.0"@),
        ),
    ensures
        decided(q).effect == Effect::Refuse,
{
    reveal_with_fuel(decided_from, 6);
}

/// While `secret-shield` is on, no environment variable whose name ends like that
/// of a credential, in whatever case, is set or deleted.
pub proof fn law_credentials_are_refused(q: Query, key: Seq<char>)
    requires
        q.enabled.contains_key("secret-shield"@) ==> q.enabled["secret-shield"@],
        q.action == "env.set"@ || q.action == "env.delete"@,
        q.params.member("key"@) == Some(json::Doc::String(key)),
        "_KEY"@.is_suffix_of(text::upper_text(key)) || "_TOKEN"@.is_suffix_of(text::upper_text(key))
            || "_SECRET"@.is_suffix_of(text::upper_text(key)) || "PASSWORD"@.is_suffix_of(
            text::upper_text(key),
        ),
    ensures
        decided(q).effect == Effect::Refuse,
{
    reveal_with_fuel(decided_from, 6);
}

/// Nothing else is refused: the policy that decides is the first of those that are
/// on and apply, and where none does the action is allowed and recorded.
pub proof fn law_which_policy_decides(q: Query)
    ensures
        ({
            let on = |id: Seq<char>| q.enabled.contains_key(id) ==> q.enabled[id];
            let known = exists|i: int|
                0 <= i < q.topo.len() && (#[trigger] q.topo[i]).hostname@ == q.target;
            let stateful = exists|i: int|
                0 <= i < q.topo.len() && (#[trigger] q.topo[i]).hostname@ == q.target
                    && q.topo[i].stateful;
            let removes = q.action == "service.delete"@ || q.action == "service.stop"@;
            let least = q.params.member("minContainers"@);
            let key = q.params.member("key"@);
            let name = text::upper_text((key->0)->String_0);
            decided(q).policy == if on("protect-stateful"@) && removes && stateful {
                "protect-stateful"@
            } else if on("protect-spine"@) && (q.target == "gate"@ || q.target == "console"@) && (
            removes || q.action == "env.delete"@) {
                "protect-spine"@
            } else if on("no-scale-to-zero"@) && q.action == "service.scale"@ && (least == Some(
                json::Doc::Number("0"@),
            ) || least == Some(json::Doc::Number("0.0"@)) || least == Some(
                json::Doc::Number("-0.0"@),
            )) {
                "no-scale-to-zero"@
            } else if on("secret-shield"@) && (q.action == "env.set"@ || q.action == "env.delete"@)
                && key is Some && key->0 is String && ("_KEY"@.is_suffix_of(name)
                || "_TOKEN"@.is_suffix_of(name) || "_SECRET"@.is_suffix_of(name)
                || "PASSWORD"@.is_suffix_of(name)) {
                "secret-shield"@
            } else if on("unknown-target"@) && q.action == "service.create"@ && known {
                "unknown-target"@
            } else if on("unknown-target"@) && q.action != "service.create"@ && (
            "service."@.is_prefix_of(q.action) || "env."@.is_prefix_of(q.action)) && !known {
                "unknown-target"@
            } else {
                "default-record"@
            }
        }),
        decided(q).effect == Effect::Allow <==> decided(q).policy == "default-record"@,
{
    reveal_with_fuel(decided_from, 6);
    lemma_ids_differ();
    let stateful = Rule::ProtectStateful.id();
    let spine = Rule::ProtectSpine.id();
    let scale = Rule::NoScaleToZero.id();
    let secret = Rule::SecretShield.id();
    let unknown = Rule::UnknownTarget.id();
}

/// Each policy says why it refuses, with the names that the request gave.
pub proof fn law_each_policy_says_why(q: Query)
    ensures
        decided(q).policy == "protect-stateful"@ ==> decided(q).reason == "'"@ + q.target
            + "' is a stateful service; "@ + q.action + " risks irreversible data loss"@,
        decided(q).policy == "protect-spine"@ ==> decided(q).reason == "'"@ + q.target
            + "' is part of the audit spine; the "@ + "gate"@ + " refuses "@ + q.action
            + " against its own surface"@,
        decided(q).policy == "no-scale-to-zero"@ ==> decided(q).reason == "scaling '"@ + q.target
            + "' to minContainers=0 silently removes the service; use an explicit stop"@,
        decided(q).policy == "secret-shield"@ ==> q.params.member("key"@) is Some
            && q.params.member("key"@)->0 is String && decided(q).reason == "env key '"@ + (
        q.params.member("key"@)->0)->String_0 + "' looks like a credential; the "@ + "gate"@
            + " refuses to touch secrets"@,
        decided(q).policy == "unknown-target"@ && q.action == "service.create"@ ==> decided(
            q,
        ).reason == "hostname '"@ + q.target + "' already exists in the topology model"@,
        decided(q).policy == "unknown-target"@ && q.action != "service.create"@ ==> decided(
            q,
        ).reason == "'"@ + q.target + "' is not in the topology model; the "@ + "gate"@
            + " cannot evaluate what it cannot see"@,
        decided(q).policy == "default-record"@ ==> decided(q).reason
            == "no refusal policy matched; action allowed and recorded"@,
{
    reveal_with_fuel(decided_from, 6);
    lemma_ids_differ();
    let stateful = Rule::ProtectStateful.id();
    let spine = Rule::ProtectSpine.id();
    let scale = Rule::NoScaleToZero.id();
    let secret = Rule::SecretShield.id();
    let unknown = Rule::UnknownTarget.id();
}

/// Switching a policy off never makes an action refused that was allowed.
pub proof fn law_switching_off_refuses_nothing_more(q: Query, id: Seq<char>)
    requires
        decided(q).effect == Effect::Allow,
    ensures
        decided((Query { enabled: q.enabled.insert(id, false), ..q })).effect == Effect::Allow,
{
    reveal_with_fuel(decided_from, 6);
}

/// Switching a policy off leaves alone what another policy refuses.
pub proof fn law_switching_off_leaves_other_refusals(q: Query, id: Seq<char>)
    requires
        decided(q).policy != id,
    ensures
        decided((Query { enabled: q.enabled.insert(id, false), ..q })) == decided(q),
{
    reveal_with_fuel(decided_from, 6);
}

/// A policy that is listed as on is as good as one that is not listed.
pub proof fn law_a_listed_policy_is_as_good_as_an_unlisted_one(q: Query, id: Seq<char>)
    requires
        !q.enabled.contains_key(id),
    ensures
        decided((Query { enabled: q.enabled.insert(id, true), ..q })) == decided(q),
{
    reveal_with_fuel(decided_from, 6);
}

/// A decision depends on the rows of the model only by what they say of the
/// target: rows of other services change nothing.
pub proof fn law_other_services_do_not_matter(q: Query, row: TopoView)
    requires
        row.hostname@ != q.target,
    ensures
        decided((Query { topo: q.topo.push(row), ..q })) == decided(q),
{
    reveal_with_fuel(decided_from, 6);
    let more = Query { topo: q.topo.push(row), ..q };
    assert(known(more.topo, q.target) == known(q.topo, q.target)) by {
        if known(q.topo, q.target) {
            let i = choose|i: int|
                0 <= i < q.topo.len() && (#[trigger] q.topo[i]).hostname@ == q.target;
            assert(more.topo[i].hostname@ == q.target);
        }
        if known(more.topo, q.target) {
            let i = choose|i: int|
                0 <= i < more.topo.len() && (#[trigger] more.topo[i]).hostname@ == q.target;
            assert(q.topo[i].hostname@ == q.target);
        }
    }
    assert(known_stateful(more.topo, q.target) == known_stateful(q.topo, q.target)) by {
        if known_stateful(q.topo, q.target) {
            let i = choose|i: int|
                0 <= i < q.topo.len() && (#[trigger] q.topo[i]).hostname@ == q.target
                    && q.topo[i].stateful;
            assert(more.topo[i].hostname@ == q.target && more.topo[i].stateful);
        }
        if known_stateful(more.topo, q.target) {
            let i = choose|i: int|
                0 <= i < more.topo.len() && (#[trigger] more.topo[i]).hostname@ == q.target
                    && more.topo[i].stateful;
            assert(q.topo[i].hostname@ == q.target && q.topo[i].stateful);
        }
    }
}

/// The key that is reported as that of a credential is the one that was given, and
/// it is reported exactly if it ends like one in upper case.
pub proof fn law_which_keys_name_credentials(params: json::Doc, key: Seq<char>)
    ensures
        secret_param(params) == Some(key) <==> params.member("key"@) == Some(
            json::Doc::String(key),
        ) && ("_KEY"@.is_suffix_of(text::upper_text(key)) || "_TOKEN"@.is_suffix_of(
            text::upper_text(key),
        ) || "_SECRET"@.is_suffix_of(text::upper_text(key)) || "PASSWORD"@.is_suffix_of(
            text::upper_text(key),
        )),
{
}

/// Scaling goes to zero exactly if `minContainers` is a zero.
pub proof fn law_which_scalings_go_to_zero(params: json::Doc)
    ensures
        scales_to_zero(params) <==> params.member("minContainers"@) == Some(
            json::Doc::Number("0"@),
        ) || params.member("minContainers"@) == Some(json::Doc::Number("0.0"@)) || params.member(
            "minContainers"@,
        ) == Some(json::Doc::Number("-0.0"@)),
{
}

/// A decision and a row of the policy table are what they hold.
pub proof fn law_decisions_are_their_fields(d: Decision, r: PolicyRow)
    ensures
        d@.effect == d.effect && d@.policy == d.policy@ && d@.reason == d.reason@,
        r@.id == r.id@ && r@.ord == r.ord && r@.effect == r.effect@ && r@.description
            == r.description@,
{
}

/// The policy table has a row for each policy, under its name, that tells what it
/// refuses.
pub proof fn law_the_table_describes_each_policy(i: int)
    requires
        0 <= i < policy_table().len(),
    ensures
        policy_table().len() == 6,
        policy_table()[i].id == "protect-stateful"@ <==> i == 0,
        policy_table()[i].id == "protect-spine"@ <==> i == 1,
        policy_table()[i].id == "no-scale-to-zero"@ <==> i == 2,
        policy_table()[i].id == "secret-shield"@ <==> i == 3,
        policy_table()[i].id == "unknown-target"@ <==> i == 4,
        policy_table()[i].id == "default-record"@ <==> i == 5,
        policy_table()[i].ord == i,
        policy_table()[i].effect == "refuse"@ <==> policy_table()[i].id != "default-record"@,
        policy_table()[i].effect == "allow"@ <==> policy_table()[i].id == "default-record"@,
        i == 0 ==> policy_table()[i].description
            == "Refuse service.delete/service.stop when the target is a stateful service (db, cache, storage)."@,
        i == 1 ==> policy_table()[i].description
            == "Refuse service.delete/service.stop/env.delete against gate or console — the "@
            + "gate"@ + " defends its own audit surface."@,
        i == 2 ==> policy_table()[i].description
            == "Refuse service.scale with params.minContainers == 0."@,
        i == 3 ==> policy_table()[i].description
            == "Refuse env.set/env.delete when params.key ends with _KEY, _TOKEN, _SECRET or PASSWORD (case-insensitive)."@,
        i == 4 ==> policy_table()[i].description
            == "Refuse service.*/env.* actions whose target is not in the topology model; for service.create, refuse only on hostname collision."@,
        i == 5 ==> policy_table()[i].description
            == "Allow everything else and record it in the ledger."@,
{
    reveal_strlit("refuse");
    reveal_strlit("allow");
    assert("refuse"@.len() != "allow"@.len());
    lemma_ids_differ();
    let stateful = Rule::ProtectStateful.id();
    let spine = Rule::ProtectSpine.id();
    let scale = Rule::NoScaleToZero.id();
    let secret = Rule::SecretShield.id();
    let unknown = Rule::UnknownTarget.id();
}

} // verus!
