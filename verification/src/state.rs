//! The secrets of the process, and the checks against them.

use vstd::prelude::*;
use vstd::string::*;
use vstd::utf8::*;

use crate::text;

verus! {

/// The name of this service among those it guards.
pub const GATE: &'static str = "gate";

/// The key that signs the ledger when none is configured.
pub const DEV_SIGNING_KEY: &'static str = "insecure-dev-signing-key";

/// What the process was started with.
pub struct AppState {
    /// The shared operator token, if one is configured.
    pub gate_token: Option<String>,
    /// The key of the ledger's signatures.
    pub signing_key: Vec<u8>,
}

/// A setting, where an empty one counts as none.
pub open spec fn nonempty(setting: Option<String>) -> Option<Seq<char>> {
    match setting {
        Some(s) => if s@.len() > 0 {
            Some(s@)
        } else {
            None
        },
        None => None,
    }
}

/// A setting, where an empty one counts as none.
pub fn env_nonempty(setting: Option<String>) -> (r: Option<String>)
    ensures
        match r {
            Some(s) => nonempty(setting) == Some(s@),
            None => nonempty(setting) is None,
        },
        r is Some <==> setting is Some && (setting->0)@.len() > 0,
        r is Some ==> (r->0)@ == (setting->0)@,
{
    match setting {
        Some(s) => if s.as_str().is_empty() {
            None
        } else {
            Some(s)
        },
        None => None,
    }
}

/// The bytes of a text.
fn bytes_of(s: &str) -> (v: Vec<u8>)
    ensures
        v@ == encode_utf8(s@),
{
    s.as_bytes_vec()
}

impl AppState {
    /// The state of a process that was started with these settings.
    pub fn new(gate_token: Option<String>, signing_key: Option<String>) -> (st: AppState)
        ensures
            match st.gate_token {
                Some(t) => nonempty(gate_token) == Some(t@),
                None => nonempty(gate_token) is None,
            },
            st.signing_key@ == encode_utf8(
                match nonempty(signing_key) {
                    Some(k) => k,
                    None => DEV_SIGNING_KEY@,
                },
            ),
            st.gate_token is Some <==> gate_token is Some && (gate_token->0)@.len() > 0,
            st.gate_token is Some ==> (st.gate_token->0)@ == (gate_token->0)@,
            signing_key is Some && (signing_key->0)@.len() > 0 ==> st.signing_key@ == encode_utf8(
                (signing_key->0)@,
            ),
            !(signing_key is Some && (signing_key->0)@.len() > 0) ==> st.signing_key@
                == encode_utf8("insecure-dev-signing-key"@),
    {
        let signing_key = match env_nonempty(signing_key) {
            Some(k) => bytes_of(k.as_str()),
            None => bytes_of(DEV_SIGNING_KEY),
        };
        AppState { gate_token: env_nonempty(gate_token), signing_key }
    }

    /// Checks a presented token in constant time. Without a configured token
    /// nothing matches: authentication fails closed.
    pub fn token_matches(&self, presented: Option<&str>) -> (r: bool)
        ensures
            r == (match (self.gate_token, presented) {
                (Some(expected), Some(got)) => expected@ == got@,
                _ => false,
            }),
    {
        match (&self.gate_token, presented) {
            (Some(expected), Some(got)) => {
                let r = ct_eq(expected.as_str().as_bytes(), got.as_bytes());
                proof {
                    if r {
                        text::lemma_encode_utf8_injective(expected@, got@);
                    }
                }
                r
            },
            _ => false,
        }
    }
}

/// Compares bytes in constant time: every byte is looked at, and only the
/// length is allowed to leak.
pub fn ct_eq(a: &[u8], b: &[u8]) -> (r: bool)
    ensures
        r == (a@ == b@),
{
    if a.len() != b.len() {
        return false;
    }
    let mut acc: u8 = 0;
    let mut i: usize = 0;
    while i < a.len()
        invariant
            i <= a@.len(),
            a@.len() == b@.len(),
            acc == 0 <==> (forall|j: int| 0 <= j < i ==> a@[j] == b@[j]),
        decreases a@.len() - i,
    {
        let x: u8 = a[i];
        let y: u8 = b[i];
        assert((acc | (x ^ y)) == 0 <==> (acc == 0 && x == y)) by (bit_vector);
        acc = acc | (x ^ y);
        i = i + 1;
    }
    assert(acc == 0 ==> a@ =~= b@);
    acc == 0
}

/// A setting counts exactly if there is something in it, and then as it is.
pub proof fn law_a_setting_counts_if_it_says_something(setting: Option<String>)
    ensures
        nonempty(setting) is Some <==> setting is Some && (setting->0)@.len() > 0,
        nonempty(setting) is Some ==> nonempty(setting)->0 == (setting->0)@,
        GATE@ == "gate"@,
        DEV_SIGNING_KEY@ == "insecure-dev-signing-key"@,
{
}

} // verus!
