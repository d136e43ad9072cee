//! JSON documents: the `params` of a proposed action and of a ledger entry.
//!
//! A [`Json`] is a document as plain data. What it denotes is its view, a
//! [`Doc`]: there an object is a map, so neither the order in which its members
//! were written nor a member that a later one overrides makes a difference.
//! Numbers stay in the form that `serde_json` holds them in, and a `Doc` knows
//! a number by the text that `serde_json` prints for it.

use vstd::prelude::*;

use crate::text;

verus! {

/// `serde_json`'s number: an integer of 64 bits or a finite float.
#[verifier::external_type_specification]
#[verifier::external_body]
pub struct ExNumber(serde_json::Number);

/// `serde_json`'s document type.
#[verifier::external_type_specification]
#[verifier::external_body]
pub struct ExValue(serde_json::Value);

/// `serde_json`'s type for the members of an object.
#[verifier::external_type_specification]
#[verifier::external_body]
#[verifier::reject_recursive_types(K)]
#[verifier::reject_recursive_types(V)]
pub struct ExMap<K, V>(serde_json::Map<K, V>);

/// A JSON document.
#[derive(Debug)]
pub enum Json {
    Null,
    Bool(bool),
    Number(serde_json::Number),
    String(String),
    Array(Vec<Json>),
    /// Members in the order they were written; a later one overrides an
    /// earlier one of the same name.
    Object(Vec<(String, Json)>),
}

/// What a JSON document denotes.
pub enum Doc {
    Null,
    Bool(bool),
    Number(Seq<char>),
    String(Seq<char>),
    Array(Seq<Doc>),
    Object(Map<Seq<char>, Doc>),
}

/// The text that `serde_json` prints for a number (`Number::to_string`).
pub uninterp spec fn number_text(n: serde_json::Number) -> Seq<char>;

/// The document that a `serde_json` value holds.
pub uninterp spec fn value_doc(v: serde_json::Value) -> Doc;

/// The members that a `serde_json` map holds, by name.
pub uninterp spec fn map_members(
    m: serde_json::Map<String, serde_json::Value>,
) -> Map<Seq<char>, Doc>;

/// The compact text that `serde_json` prints for a document
/// (`serde_json::to_string`).
pub uninterp spec fn compact_json(d: Doc) -> Seq<char>;

/// The document of a [`Json`].
pub open spec fn json_doc(j: Json) -> Doc
    decreases j, 0nat,
{
    match j {
        Json::Null => Doc::Null,
        Json::Bool(b) => Doc::Bool(b),
        Json::Number(n) => Doc::Number(number_text(n)),
        Json::String(s) => Doc::String(s@),
        Json::Array(a) => Doc::Array(docs(a@, a@.len())),
        Json::Object(o) => Doc::Object(members(o@, o@.len())),
    }
}

/// The documents of the first `n` items.
pub open spec fn docs(a: Seq<Json>, n: nat) -> Seq<Doc>
    decreases a, n,
{
    if n == 0 || n > a.len() {
        Seq::empty()
    } else {
        docs(a, (n - 1) as nat).push(json_doc(a[n - 1]))
    }
}

/// The members that the first `n` entries of an object leave behind.
pub open spec fn members(o: Seq<(String, Json)>, n: nat) -> Map<Seq<char>, Doc>
    decreases o, n,
{
    if n == 0 || n > o.len() {
        Map::empty()
    } else {
        members(o, (n - 1) as nat).insert(o[n - 1].0@, json_doc(o[n - 1].1))
    }
}

impl View for Json {
    type V = Doc;

    open spec fn view(&self) -> Doc {
        json_doc(*self)
    }
}

impl Doc {
    /// The member of an object by its name.
    pub open spec fn member(self, name: Seq<char>) -> Option<Doc> {
        match self {
            Doc::Object(m) => if m.contains_key(name) {
                Some(m[name])
            } else {
                None
            },
            _ => None,
        }
    }

    /// A document that a `serde_json` value can hold.
    pub open spec fn holdable(self) -> bool {
        exists|v: serde_json::Value| #[trigger] value_doc(v) == self
    }

    /// A document that can be printed, and told from any other by what is
    /// printed.
    pub open spec fn printable(self) -> bool {
        &&& self.holdable()
        &&& forall|d: Doc|
            #[trigger] d.holdable() && compact_json(d) == compact_json(self) ==> d == self
    }
}

// ---------------------------------------------------------------------------
// serde_json
// ---------------------------------------------------------------------------

/// `Number::to_string`: prints a number.
#[verifier::external_body]
fn print_number(n: &serde_json::Number) -> (s: String)
    ensures
        s@ == number_text(*n),
{
    n.to_string()
}

/// `Number::clone`: the copy is the number it was taken from.
pub assume_specification [<serde_json::Number as Clone>::clone] (n: &serde_json::Number) -> (r:
    serde_json::Number)
    ensures
        r == *n,
;

/// `Number::from(i64)`: an integer prints as its decimal numeral.
#[verifier::external_body]
fn integer_number(i: i64) -> (n: serde_json::Number)
    ensures
        number_text(n) == text::int_text(i as int),
{
    serde_json::Number::from(i)
}

/// `Number::from_str`: the numeral `0.0` is read as the float zero without a
/// sign, which prints as it was written.
#[verifier::external_body]
fn read_zero(numeral: &str) -> (n: serde_json::Number)
    requires
        numeral@ == "0.0"@,
    ensures
        number_text(n) == numeral@,
{
    numeral.parse::<serde_json::Number>().unwrap()
}

/// `Value::Null`: the null document.
#[verifier::external_body]
fn null_value() -> (v: serde_json::Value)
    ensures
        value_doc(v) == Doc::Null,
{
    serde_json::Value::Null
}

/// `Value::from(bool)`.
#[verifier::external_body]
fn bool_value(b: bool) -> (v: serde_json::Value)
    ensures
        value_doc(v) == Doc::Bool(b),
{
    serde_json::Value::from(b)
}

/// `Value::from(Number)`: holds the number as it is.
#[verifier::external_body]
fn number_value(n: serde_json::Number) -> (v: serde_json::Value)
    ensures
        value_doc(v) == Doc::Number(number_text(n)),
{
    serde_json::Value::from(n)
}

/// `Value::from(String)`.
#[verifier::external_body]
fn string_value(s: String) -> (v: serde_json::Value)
    ensures
        value_doc(v) == Doc::String(s@),
{
    serde_json::Value::from(s)
}

/// `Value::from(Vec<Value>)`: an array of the items, in their order.
#[verifier::external_body]
fn array_value(items: Vec<serde_json::Value>) -> (v: serde_json::Value)
    ensures
        value_doc(v) == Doc::Array(Seq::new(items@.len(), |i: int| value_doc(items@[i]))),
{
    serde_json::Value::from(items)
}

/// `Map::new`: a map without members.
#[verifier::external_body]
fn empty_map() -> (m: serde_json::Map<String, serde_json::Value>)
    ensures
        Doc::Object(map_members(m)) == Doc::empty_object(),
{
    serde_json::Map::new()
}

/// `Map::insert`: one more member; the value of one of the same name is
/// replaced.
#[verifier::external_body]
fn insert_member(
    m: &mut serde_json::Map<String, serde_json::Value>,
    name: String,
    value: serde_json::Value,
)
    ensures
        map_members(*final(m)) == map_members(*old(m)).insert(name@, value_doc(value)),
{
    m.insert(name, value);
}

/// `Value::from(Map)`: an object with the members of the map.
#[verifier::external_body]
fn object_value(m: serde_json::Map<String, serde_json::Value>) -> (v: serde_json::Value)
    ensures
        value_doc(v) == Doc::Object(map_members(m)),
{
    serde_json::Value::from(m)
}

/// `serde_json::to_string`: the compact text of a value, which is a function of
/// the document it holds and tells it from any other.
#[verifier::external_body]
fn print_value(v: &serde_json::Value) -> (s: String)
    ensures
        s@ == compact_json(value_doc(*v)),
        forall|w: serde_json::Value|
            compact_json(#[trigger] value_doc(w)) == s@ ==> value_doc(w) == value_doc(*v),
{
    serde_json::to_string(v).unwrap_or_else(|_| "null".to_string())
}

// ---------------------------------------------------------------------------
// Documents
// ---------------------------------------------------------------------------

/// The documents of a list depend on its items alone.
proof fn lemma_docs_index(a: Seq<Json>, n: nat)
    requires
        n <= a.len(),
    ensures
        docs(a, n).len() == n,
        forall|i: int| 0 <= i < n ==> #[trigger] docs(a, n)[i] == json_doc(a[i]),
    decreases n,
{
    if n > 0 {
        lemma_docs_index(a, (n - 1) as nat);
    }
}

/// An item of an array is structurally smaller than the array.
proof fn lemma_item_smaller(j: Json, a: Vec<Json>, i: int)
    requires
        j == Json::Array(a),
        0 <= i < a@.len(),
    ensures
        decreases_to!(j => a@[i]),
{
    assert(decreases_to!(j => j->Array_0));
    assert(decreases_to!(a => a@));
    assert(decreases_to!(a@ => a@[i]));
}

/// A member of an object is structurally smaller than the object.
proof fn lemma_entry_smaller(j: Json, o: Vec<(String, Json)>, i: int)
    requires
        j == Json::Object(o),
        0 <= i < o@.len(),
    ensures
        decreases_to!(j => o@[i].1),
{
    assert(decreases_to!(j => j->Object_0));
    assert(decreases_to!(o => o@));
    assert(decreases_to!(o@ => o@[i]));
    assert(decreases_to!(o@[i] => o@[i].1));
}

/// The members of a list of entries depend on those entries alone.
proof fn lemma_members_prefix(a: Seq<(String, Json)>, b: Seq<(String, Json)>, n: nat)
    requires
        n <= a.len(),
        n <= b.len(),
        forall|i: int| 0 <= i < n ==> a[i] == b[i],
    ensures
        members(a, n) == members(b, n),
    decreases n,
{
    if n > 0 {
        lemma_members_prefix(a, b, (n - 1) as nat);
    }
}

impl Clone for Json {
    /// A copy that denotes the same document.
    fn clone(&self) -> (r: Json)
        ensures
            r@ == self@,
        decreases self,
    {
        match self {
            Json::Null => Json::Null,
            Json::Bool(b) => Json::Bool(*b),
            Json::Number(n) => Json::Number(n.clone()),
            Json::String(s) => Json::String(s.clone()),
            Json::Array(a) => {
                let mut items: Vec<Json> = Vec::new();
                let mut i: usize = 0;
                while i < a.len()
                    invariant
                        i <= a@.len(),
                        items@.len() == i,
                        *self == Json::Array(*a),
                        forall|k: int|
                            0 <= k < i ==> json_doc(#[trigger] items@[k]) == json_doc(a@[k]),
                    decreases a@.len() - i,
                {
                    proof {
                        lemma_item_smaller(*self, *a, i as int);
                    }
                    items.push(a[i].clone());
                    i = i + 1;
                }
                proof {
                    lemma_docs_index(a@, a@.len());
                    lemma_docs_index(items@, items@.len());
                    assert(docs(items@, items@.len()) =~= docs(a@, a@.len()));
                }
                Json::Array(items)
            },
            Json::Object(o) => {
                let mut entries: Vec<(String, Json)> = Vec::new();
                let mut i: usize = 0;
                while i < o.len()
                    invariant
                        i <= o@.len(),
                        entries@.len() == i,
                        *self == Json::Object(*o),
                        members(entries@, i as nat) == members(o@, i as nat),
                    decreases o@.len() - i,
                {
                    proof {
                        lemma_entry_smaller(*self, *o, i as int);
                    }
                    let copy = (o[i].0.clone(), o[i].1.clone());
                    let ghost before = entries@;
                    entries.push(copy);
                    proof {
                        lemma_members_prefix(before, entries@, i as nat);
                    }
                    i = i + 1;
                }
                Json::Object(entries)
            },
        }
    }
}

impl Json {
    /// The same document as a `serde_json` value.
    pub fn to_value(&self) -> (v: serde_json::Value)
        ensures
            value_doc(v) == self@,
        decreases self,
    {
        match self {
            Json::Null => null_value(),
            Json::Bool(b) => bool_value(*b),
            Json::Number(n) => number_value(n.clone()),
            Json::String(s) => string_value(s.clone()),
            Json::Array(a) => {
                let mut items: Vec<serde_json::Value> = Vec::new();
                let mut i: usize = 0;
                while i < a.len()
                    invariant
                        i <= a@.len(),
                        items@.len() == i,
                        *self == Json::Array(*a),
                        forall|k: int|
                            0 <= k < i ==> value_doc(#[trigger] items@[k]) == json_doc(a@[k]),
                    decreases a@.len() - i,
                {
                    proof {
                        lemma_item_smaller(*self, *a, i as int);
                    }
                    let v = a[i].to_value();
                    items.push(v);
                    i = i + 1;
                }
                proof {
                    lemma_docs_index(a@, a@.len());
                    assert(Seq::new(items@.len(), |k: int| value_doc(items@[k])) =~= docs(
                        a@,
                        a@.len(),
                    ));
                }
                array_value(items)
            },
            Json::Object(o) => {
                let mut m = empty_map();
                let mut i: usize = 0;
                while i < o.len()
                    invariant
                        i <= o@.len(),
                        *self == Json::Object(*o),
                        map_members(m) == members(o@, i as nat),
                    decreases o@.len() - i,
                {
                    proof {
                        lemma_entry_smaller(*self, *o, i as int);
                    }
                    let v = o[i].1.to_value();
                    insert_member(&mut m, o[i].0.clone(), v);
                    i = i + 1;
                }
                object_value(m)
            },
        }
    }

    /// The compact JSON text of the document, which tells it from any other.
    pub fn to_text(&self) -> (s: String)
        ensures
            s@ == compact_json(self@),
            self@.printable(),
    {
        let v = self.to_value();
        let s = print_value(&v);
        assert(value_doc(v) == self@);
        s
    }
}

// ---------------------------------------------------------------------------
// Normal form
// ---------------------------------------------------------------------------

/// The document with every negative zero replaced by zero.
pub open spec fn normalized(d: Doc) -> Doc
    decreases d,
{
    match d {
        Doc::Number(t) => if t == "-0.0"@ {
            Doc::Number("0.0"@)
        } else {
            d
        },
        Doc::Array(a) => Doc::Array(
            Seq::new(
                a.len(),
                |i: int|
                    if 0 <= i < a.len() {
                        normalized(a[i])
                    } else {
                        Doc::Null
                    },
            ),
        ),
        Doc::Object(m) => Doc::Object(
            Map::new(
                |k: Seq<char>| m.contains_key(k),
                |k: Seq<char>|
                    if m.contains_key(k) {
                        normalized(m[k])
                    } else {
                        Doc::Null
                    },
            ),
        ),
        _ => d,
    }
}

/// The members of a normalized object.
pub open spec fn normalized_members(m: Map<Seq<char>, Doc>) -> Map<Seq<char>, Doc> {
    Map::new(|k: Seq<char>| m.contains_key(k), |k: Seq<char>| normalized(m[k]))
}

/// No number anywhere in the document is the negative zero.
pub open spec fn free_of_negative_zero(d: Doc) -> bool
    decreases d,
{
    match d {
        Doc::Number(t) => t != "-0.0"@,
        Doc::Array(a) => forall|i: int| 0 <= i < a.len() ==> free_of_negative_zero(#[trigger] a[i]),
        Doc::Object(m) => forall|k: Seq<char>|
            m.contains_key(k) ==> free_of_negative_zero(#[trigger] m[k]),
        _ => true,
    }
}

/// Replaces every negative zero in a document by zero.
///
/// Postgres `jsonb` turns `-0.0` into `0.0` on the way in, so the text printed
/// for a negative zero that was sent would not match the one printed for what is
/// read back. Normalizing first makes up for that, and for nothing else that a
/// database may do to a number.
pub fn normalize_params(v: &Json) -> (r: Json)
    ensures
        r@ == normalized(v@),
    decreases v,
{
    match v {
        Json::Number(n) => {
            let printed = print_number(n);
            if text::str_eq(printed.as_str(), "-0.0") {
                Json::Number(read_zero("0.0"))
            } else {
                v.clone()
            }
        },
        Json::Array(a) => {
            let mut items: Vec<Json> = Vec::new();
            let mut i: usize = 0;
            while i < a.len()
                invariant
                    i <= a@.len(),
                    items@.len() == i,
                    *v == Json::Array(*a),
                    forall|k: int|
                        0 <= k < i ==> json_doc(#[trigger] items@[k]) == normalized(
                            json_doc(a@[k]),
                        ),
                decreases a@.len() - i,
            {
                proof {
                    lemma_item_smaller(*v, *a, i as int);
                }
                items.push(normalize_params(&a[i]));
                i = i + 1;
            }
            proof {
                lemma_docs_index(a@, a@.len());
                lemma_docs_index(items@, items@.len());
                assert(normalized(v@)->Array_0 =~= docs(items@, items@.len()));
            }
            Json::Array(items)
        },
        Json::Object(o) => {
            let mut entries: Vec<(String, Json)> = Vec::new();
            let mut i: usize = 0;
            assert(normalized_members(members(o@, 0)) =~= members(entries@, 0));
            while i < o.len()
                invariant
                    i <= o@.len(),
                    entries@.len() == i,
                    *v == Json::Object(*o),
                    members(entries@, i as nat) == normalized_members(members(o@, i as nat)),
                decreases o@.len() - i,
            {
                proof {
                    lemma_entry_smaller(*v, *o, i as int);
                }
                let entry = (o[i].0.clone(), normalize_params(&o[i].1));
                let ghost before = entries@;
                entries.push(entry);
                proof {
                    lemma_members_prefix(before, entries@, i as nat);
                    assert(members(entries@, (i + 1) as nat) =~= normalized_members(
                        members(o@, (i + 1) as nat),
                    ));
                }
                i = i + 1;
            }
            assert(normalized(v@)->Object_0 =~= normalized_members(members(o@, o@.len())));
            Json::Object(entries)
        },
        _ => v.clone(),
    }
}

/// Normalizing leaves no negative zero behind.
pub proof fn law_normalized_is_free_of_negative_zero(d: Doc)
    ensures
        free_of_negative_zero(normalized(d)),
    decreases d,
{
    match d {
        Doc::Number(t) => {
            reveal_strlit("-0.0");
            reveal_strlit("0.0");
            assert("-0.0"@.len() != "0.0"@.len());
        },
        Doc::Array(a) => {
            let n = normalized(d)->Array_0;
            assert forall|i: int| 0 <= i < n.len() implies free_of_negative_zero(
                #[trigger] n[i],
            ) by {
                law_normalized_is_free_of_negative_zero(a[i]);
            }
        },
        Doc::Object(m) => {
            let n = normalized(d)->Object_0;
            assert forall|k: Seq<char>| n.contains_key(k) implies free_of_negative_zero(
                #[trigger] n[k],
            ) by {
                law_normalized_is_free_of_negative_zero(m[k]);
            }
        },
        _ => {},
    }
}

/// A document without a negative zero is left as it is: integers, other floats
/// and everything that is no number survive untouched.
pub proof fn law_normalizing_keeps_everything_else(d: Doc)
    requires
        free_of_negative_zero(d),
    ensures
        normalized(d) == d,
    decreases d,
{
    match d {
        Doc::Array(a) => {
            let n = normalized(d)->Array_0;
            assert forall|i: int| 0 <= i < a.len() implies #[trigger] n[i] == a[i] by {
                law_normalizing_keeps_everything_else(a[i]);
            }
            assert(n =~= a);
        },
        Doc::Object(m) => {
            let n = normalized(d)->Object_0;
            assert forall|k: Seq<char>| m.contains_key(k) implies #[trigger] n[k] == m[k] by {
                law_normalizing_keeps_everything_else(m[k]);
            }
            assert(n =~= m);
        },
        _ => {},
    }
}

/// Normalizing twice is normalizing once.
pub proof fn law_normalizing_is_idempotent(d: Doc)
    ensures
        normalized(normalized(d)) == normalized(d),
{
    law_normalized_is_free_of_negative_zero(d);
    law_normalizing_keeps_everything_else(normalized(d));
}

// ---------------------------------------------------------------------------
// Reading a document
// ---------------------------------------------------------------------------

/// Entries of other names leave a member as it was.
proof fn lemma_members_skip(o: Seq<(String, Json)>, m: nat, n: nat, name: Seq<char>)
    requires
        m <= n <= o.len(),
        forall|i: int| m <= i < n ==> (#[trigger] o[i]).0@ != name,
    ensures
        members(o, n).contains_key(name) == members(o, m).contains_key(name),
        members(o, n).contains_key(name) ==> members(o, n)[name] == members(o, m)[name],
    decreases n,
{
    if m < n {
        lemma_members_skip(o, m, (n - 1) as nat, name);
    }
}

/// The members of entries with different names are those entries.
proof fn lemma_distinct_members(o: Seq<(String, Json)>, name: Seq<char>)
    requires
        distinct_names(o),
    ensures
        forall|i: int|
            0 <= i < o.len() && (#[trigger] o[i]).0@ == name ==> members(o, o.len()).contains_key(
                name,
            ) && members(o, o.len())[name] == json_doc(o[i].1),
        members(o, o.len()).contains_key(name) ==> exists|i: int|
            0 <= i < o.len() && (#[trigger] o[i]).0@ == name,
{
    assert forall|i: int| 0 <= i < o.len() && (#[trigger] o[i]).0@ == name implies members(
        o,
        o.len(),
    ).contains_key(name) && members(o, o.len())[name] == json_doc(o[i].1) by {
        lemma_members_skip(o, (i + 1) as nat, o.len(), name);
    }
    if forall|i: int| 0 <= i < o.len() ==> (#[trigger] o[i]).0@ != name {
        lemma_members_skip(o, 0, o.len(), name);
    }
}

/// No two entries have the same name.
pub open spec fn distinct_names(o: Seq<(String, Json)>) -> bool {
    forall|i: int, j: int|
        0 <= i < o.len() && 0 <= j < o.len() && (#[trigger] o[i]).0@ == (#[trigger] o[j]).0@ ==> i
            == j
}

/// Every entry of `a` has its like in `b`.
pub open spec fn entries_within(a: Seq<(String, Json)>, b: Seq<(String, Json)>) -> bool {
    forall|i: int|
        0 <= i < a.len() ==> exists|j: int|
            0 <= j < b.len() && (#[trigger] b[j]).0@ == (#[trigger] a[i]).0@ && json_doc(b[j].1)
                == json_doc(a[i].1)
}

/// The order in which the members of an object are written is immaterial: the
/// same members in another order are the same document, and so print, and sign,
/// the same.
pub proof fn law_member_order_is_immaterial(a: Vec<(String, Json)>, b: Vec<(String, Json)>)
    requires
        distinct_names(a@),
        distinct_names(b@),
        entries_within(a@, b@),
        entries_within(b@, a@),
    ensures
        json_doc(Json::Object(a)) == json_doc(Json::Object(b)),
        compact_json(json_doc(Json::Object(a))) == compact_json(json_doc(Json::Object(b))),
{
    let x = members(a@, a@.len());
    let y = members(b@, b@.len());
    assert forall|k: Seq<char>|
        #![trigger x.dom().contains(k)]
        #![trigger y.dom().contains(k)]
        x.dom().contains(k) == y.dom().contains(k) && (x.dom().contains(k) ==> x[k] == y[k]) by {
        lemma_distinct_members(a@, k);
        lemma_distinct_members(b@, k);
        if x.contains_key(k) {
            let i = choose|i: int| 0 <= i < a@.len() && (#[trigger] a@[i]).0@ == k;
            let j = choose|j: int|
                0 <= j < b@.len() && (#[trigger] b@[j]).0@ == a@[i].0@ && json_doc(b@[j].1)
                    == json_doc(a@[i].1);
            assert(b@[j].0@ == k);
        }
        if y.contains_key(k) {
            let i = choose|i: int| 0 <= i < b@.len() && (#[trigger] b@[i]).0@ == k;
            let j = choose|j: int|
                0 <= j < a@.len() && (#[trigger] a@[j]).0@ == b@[i].0@ && json_doc(a@[j].1)
                    == json_doc(b@[i].1);
            assert(a@[j].0@ == k);
        }
    }
    assert(x =~= y);
}

impl Json {
    /// The member of an object by its name; nothing in any other document.
    pub fn get(&self, name: &str) -> (r: Option<&Json>)
        ensures
            match r {
                Some(j) => self@.member(name@) == Some(j@),
                None => self@.member(name@) is None,
            },
    {
        match self {
            Json::Object(o) => {
                let mut n: usize = o.len();
                while n > 0
                    invariant
                        n <= o@.len(),
                        *self == Json::Object(*o),
                        forall|i: int| n <= i < o@.len() ==> (#[trigger] o@[i]).0@ != name@,
                    decreases n,
                {
                    if text::str_eq(o[n - 1].0.as_str(), name) {
                        proof {
                            lemma_members_skip(o@, n as nat, o@.len(), name@);
                        }
                        return Some(&o[n - 1].1);
                    }
                    n = n - 1;
                }
                proof {
                    lemma_members_skip(o@, 0, o@.len(), name@);
                }
                None
            },
            _ => None,
        }
    }

    /// The text of a string; nothing of any other document.
    pub fn as_str(&self) -> (r: Option<&str>)
        ensures
            match r {
                Some(s) => self@ == Doc::String(s@),
                None => !(self@ is String),
            },
    {
        match self {
            Json::String(s) => Some(s.as_str()),
            _ => None,
        }
    }

    /// Whether the document is a number equal to zero: the integer or either
    /// float zero.
    pub fn is_zero(&self) -> (r: bool)
        ensures
            r == self@.is_zero(),
    {
        match self {
            Json::Number(n) => {
                let printed = print_number(n);
                text::str_eq(printed.as_str(), "0") || text::str_eq(printed.as_str(), "0.0")
                    || text::str_eq(printed.as_str(), "-0.0")
            },
            _ => false,
        }
    }

    /// The object without members.
    pub fn object() -> (r: Json)
        ensures
            r@ == Doc::empty_object(),
    {
        Json::Object(Vec::new())
    }

    /// The object with one more member, which replaces an earlier one of the
    /// same name.
    pub fn with(self, name: &str, value: Json) -> (r: Json)
        requires
            self@ is Object,
        ensures
            r@ == self@.with(name@, value@),
    {
        match self {
            Json::Object(o) => {
                let mut entries = o;
                let ghost before = entries@;
                entries.push((name.to_owned(), value));
                proof {
                    lemma_members_prefix(before, entries@, before.len());
                }
                Json::Object(entries)
            },
            other => other,
        }
    }

    /// A text.
    pub fn text(s: &str) -> (r: Json)
        ensures
            r@ == Doc::String(s@),
    {
        Json::String(s.to_owned())
    }

    /// An integer.
    pub fn integer(i: i64) -> (r: Json)
        ensures
            r@ == Doc::Number(text::int_text(i as int)),
    {
        Json::Number(integer_number(i))
    }

    /// An array of documents, in their order.
    pub fn list(items: Vec<Json>) -> (r: Json)
        ensures
            r@ == Doc::Array(Seq::new(items@.len(), |i: int| items@[i]@)),
    {
        proof {
            lemma_docs_index(items@, items@.len());
            assert(docs(items@, items@.len()) =~= Seq::new(items@.len(), |i: int| items@[i]@));
        }
        Json::Array(items)
    }

    /// An array of texts, in their order.
    pub fn texts(items: &Vec<String>) -> (r: Json)
        ensures
            r@ == Doc::texts(Seq::new(items@.len(), |i: int| items@[i]@)),
    {
        let mut list: Vec<Json> = Vec::new();
        let mut i: usize = 0;
        while i < items.len()
            invariant
                i <= items@.len(),
                list@.len() == i,
                forall|k: int|
                    0 <= k < i ==> json_doc(#[trigger] list@[k]) == Doc::String(items@[k]@),
            decreases items@.len() - i,
        {
            list.push(Json::String(items[i].clone()));
            i = i + 1;
        }
        proof {
            lemma_docs_index(list@, list@.len());
            assert(docs(list@, list@.len()) =~= Doc::texts(
                Seq::new(items@.len(), |k: int| items@[k]@),
            )->Array_0);
        }
        Json::Array(list)
    }
}

impl Doc {
    /// A number equal to zero.
    pub open spec fn is_zero(self) -> bool {
        match self {
            Doc::Number(t) => t == "0"@ || t == "0.0"@ || t == "-0.0"@,
            _ => false,
        }
    }

    /// An array of texts.
    pub open spec fn texts(items: Seq<Seq<char>>) -> Doc {
        Doc::Array(Seq::new(items.len(), |i: int| Doc::String(items[i])))
    }

    /// The object without members.
    pub open spec fn empty_object() -> Doc {
        Doc::Object(Map::empty())
    }

    /// The object with one more member, which replaces an earlier one of the
    /// same name.
    pub open spec fn with(self, name: Seq<char>, value: Doc) -> Doc {
        match self {
            Doc::Object(m) => Doc::Object(m.insert(name, value)),
            _ => self,
        }
    }
}

// ---------------------------------------------------------------------------
// Laws of documents
// ---------------------------------------------------------------------------

/// What a value denotes is what it holds: nothing is added, left out or changed
/// on the way, at any place of an array.
pub proof fn law_a_document_is_what_the_value_holds(j: Json)
    ensures
        match j {
            Json::Null => j@ == Doc::Null,
            Json::Bool(b) => j@ == Doc::Bool(b),
            Json::Number(n) => j@ == Doc::Number(number_text(n)),
            Json::String(s) => j@ == Doc::String(s@),
            Json::Array(a) => j@ is Array && j@->Array_0.len() == a@.len() && (forall|i: int|
                0 <= i < a@.len() ==> #[trigger] j@->Array_0[i] == a@[i]@),
            Json::Object(_) => j@ is Object,
        },
{
    if let Json::Array(a) = j {
        lemma_docs_index(a@, a@.len());
    }
}

/// Of several members with the same name the last one counts; a name that none
/// has is not there.
pub proof fn law_the_last_member_of_a_name_counts(
    o: Vec<(String, Json)>,
    name: Seq<char>,
    i: int,
)
    ensures
        (0 <= i < o@.len() && o@[i].0@ == name && forall|k: int|
            i < k < o@.len() ==> (#[trigger] o@[k]).0@ != name) ==> json_doc(
            Json::Object(o),
        ).member(name) == Some(o@[i].1@),
        (forall|k: int| 0 <= k < o@.len() ==> (#[trigger] o@[k]).0@ != name) ==> json_doc(
            Json::Object(o),
        ).member(name) is None,
{
    if 0 <= i < o@.len() && o@[i].0@ == name && forall|k: int|
        i < k < o@.len() ==> (#[trigger] o@[k]).0@ != name {
        lemma_members_skip(o@, (i + 1) as nat, o@.len(), name);
    }
    if forall|k: int| 0 <= k < o@.len() ==> (#[trigger] o@[k]).0@ != name {
        lemma_members_skip(o@, 0, o@.len(), name);
    }
}

/// Only an object has members, and it has those of its map.
pub proof fn law_only_an_object_has_members(d: Doc, name: Seq<char>)
    ensures
        match d {
            Doc::Object(m) => d.member(name) == (if m.contains_key(name) {
                Some(m[name])
            } else {
                None::<Doc>
            }),
            _ => d.member(name) is None,
        },
{
}

/// A member that is added to an object is there with its value, and every other
/// member is as it was; the empty object has none.
pub proof fn law_adding_a_member_adds_that_member(
    d: Doc,
    name: Seq<char>,
    value: Doc,
    other: Seq<char>,
)
    requires
        d is Object,
    ensures
        d.with(name, value) is Object,
        d.with(name, value).member(name) == Some(value),
        other != name ==> d.with(name, value).member(other) == d.member(other),
        Doc::empty_object() is Object,
        Doc::empty_object().member(name) is None,
{
}

/// An array of texts holds those texts in their order.
pub proof fn law_an_array_of_texts_holds_the_texts(items: Seq<Seq<char>>, i: int)
    requires
        0 <= i < items.len(),
    ensures
        Doc::texts(items) is Array,
        Doc::texts(items)->Array_0.len() == items.len(),
        Doc::texts(items)->Array_0[i] == Doc::String(items[i]),
{
}

/// A number is zero in three forms: the integer, and the float with either sign.
/// Nothing that is no number is zero, and normalizing makes nothing zero or
/// other than zero.
pub proof fn law_zero_has_three_forms(d: Doc)
    ensures
        d.is_zero() <==> d == Doc::Number("0"@) || d == Doc::Number("0.0"@) || d == Doc::Number(
            "-0.0"@,
        ),
        normalized(d).is_zero() == d.is_zero(),
{
}

/// Normalizing goes through a document part by part: a negative zero becomes a
/// zero, any other number, text, flag or null stays, an array keeps its length
/// and an object its names, with each item and member normalized.
pub proof fn law_normalizing_goes_part_by_part(d: Doc)
    ensures
        match d {
            Doc::Number(t) => normalized(d) == Doc::Number(
                if t == "-0.0"@ {
                    "0.0"@
                } else {
                    t
                },
            ),
            Doc::Array(a) => {
                &&& normalized(d) is Array
                &&& normalized(d)->Array_0.len() == a.len()
                &&& forall|i: int|
                    0 <= i < a.len() ==> #[trigger] normalized(d)->Array_0[i] == normalized(a[i])
            },
            Doc::Object(m) => {
                &&& normalized(d) is Object
                &&& forall|k: Seq<char>|
                    #![trigger normalized(d).member(k)]
                    normalized(d).member(k) == match d.member(k) {
                        Some(x) => Some(normalized(x)),
                        None => None,
                    }
            },
            _ => normalized(d) == d,
        },
{
}

/// A document is free of negative zeros exactly if it is none itself and no item
/// or member of it has one.
pub proof fn law_free_of_negative_zero(d: Doc)
    ensures
        free_of_negative_zero(d) <==> {
            &&& d != Doc::Number("-0.0"@)
            &&& d matches Doc::Array(a) ==> forall|i: int|
                0 <= i < a.len() ==> free_of_negative_zero(#[trigger] a[i])
            &&& d matches Doc::Object(m) ==> forall|k: Seq<char>|
                m.contains_key(k) ==> free_of_negative_zero(#[trigger] m[k])
        },
{
}

} // verus!
