//! How a network is reached: an RPC endpoint given by its URL, or a free hosted
//! provider, and the codec between a provider and a document value.
//!
//! On input an RPC provider may be a bare URL string or a table tagged
//! `type = "rpc"`; a free provider is a table tagged `type = "free"`. On output an
//! RPC provider is always the bare string.
use vstd::prelude::*;
use vstd::string::{is_ascii, is_ascii_spec_bytes};
use crate::value::{
    lemma_value_at_entry,
    Entries, Value, check_keys_distinct, find_key, has_key, keys_distinct, keys_within, text_is,
    value_at,
};

verus! {

/// What `url::Url::parse` makes of a text: the serialization of the URL it parses,
/// or `None` where the text is not an absolute URL.
pub uninterp spec fn url_parse(s: Seq<char>) -> Option<Seq<char>>;

/// Relies on `url::Url::parse` and `Url::as_str`: the serialization of the parsed
/// URL. The crate's own invariant check (`Url::check_invariants`) holds that
/// parsing a serialization again gives that serialization.
#[verifier::external_body]
fn parse_url(s: &str) -> (r: Option<String>)
    ensures
        r is Some <==> url_parse(s@) is Some,
        r matches Some(u) ==> url_parse(s@) == Some(u@) && url_parse(u@) == Some(u@),
{
    match url::Url::parse(s) {
        Ok(url) => Some(String::from(url.as_str())),
        Err(_) => None,
    }
}

/// A URL text in the normal form that parsing gives.
pub open spec fn is_normal_url(u: Seq<char>) -> bool {
    url_parse(u) == Some(u)
}

/// A free hosted provider.
#[derive(Debug, Clone, Copy, PartialEq, Eq, Structural)]
pub enum FreeProviderVendor {
    Blast,
    Nethermind,
}

/// The name of a vendor in a document.
pub open spec fn vendor_key(v: FreeProviderVendor) -> Seq<char> {
    match v {
        FreeProviderVendor::Blast => "blast"@,
        FreeProviderVendor::Nethermind => "nethermind"@,
    }
}

/// The character code of `c` with an ASCII upper-case letter taken to lower case.
pub open spec fn ascii_lower(c: char) -> int {
    if 'A' <= c <= 'Z' {
        c as int + 32
    } else {
        c as int
    }
}

/// `s` is the lower-case text `lit` up to the case of its ASCII letters.
pub open spec fn same_ignoring_case(s: Seq<char>, lit: Seq<char>) -> bool {
    s.len() == lit.len() && forall|i: int| 0 <= i < s.len() ==> ascii_lower(#[trigger] s[i]) == lit[i] as int
}

/// The vendor that a document names, if any; the case of letters does not matter.
pub open spec fn vendor_of(s: Seq<char>) -> Option<FreeProviderVendor> {
    if same_ignoring_case(s, "blast"@) {
        Some(FreeProviderVendor::Blast)
    } else if same_ignoring_case(s, "nethermind"@) {
        Some(FreeProviderVendor::Nethermind)
    } else {
        None
    }
}

/// The name shown to people for a vendor.
pub open spec fn vendor_title(v: FreeProviderVendor) -> Seq<char> {
    match v {
        FreeProviderVendor::Blast => "Blast"@,
        FreeProviderVendor::Nethermind => "Nethermind"@,
    }
}

impl FreeProviderVendor {
    /// The name shown to people: `Blast` or `Nethermind`.
    pub fn title(&self) -> (r: String)
        ensures
            r@ == vendor_title(*self),
    {
        match self {
            FreeProviderVendor::Blast => String::from_str("Blast"),
            FreeProviderVendor::Nethermind => String::from_str("Nethermind"),
        }
    }

    /// The name of this vendor in a document: `blast` or `nethermind`.
    pub fn key(&self) -> (r: String)
        ensures
            r@ == vendor_key(*self),
    {
        match self {
            FreeProviderVendor::Blast => String::from_str("blast"),
            FreeProviderVendor::Nethermind => String::from_str("nethermind"),
        }
    }

    /// The vendor that a document names, if any; the case of letters does not
    /// matter.
    pub fn from_key(s: &String) -> (r: Option<FreeProviderVendor>)
        ensures
            r == vendor_of(s@),
    {
        proof {
            reveal_strlit("blast");
            reveal_strlit("nethermind");
        }
        if text_is_ignoring_case(s, "blast") {
            Some(FreeProviderVendor::Blast)
        } else if text_is_ignoring_case(s, "nethermind") {
            Some(FreeProviderVendor::Nethermind)
        } else {
            None
        }
    }
}

/// Whether `s` is the ASCII text `lit` up to the case of its letters, where `lit`
/// holds no upper-case letter.
fn text_is_ignoring_case(s: &String, lit: &str) -> (r: bool)
    requires
        forall|i: int| 0 <= i < lit@.len() ==> '\0' <= #[trigger] lit@[i] <= '\u{7f}' && !('A' <= lit@[i] <= 'Z'),
    ensures
        r == same_ignoring_case(s@, lit@),
{
    broadcast use is_ascii_spec_bytes;
    let t = s.as_str();
    if !t.is_ascii() {
        proof {
            assert(!vstd::utf8::is_ascii_chars(t@));
            let w = choose|w: int| 0 <= w < t@.len() && !('\0' <= #[trigger] t@[w] <= '\u{7f}');
            if same_ignoring_case(s@, lit@) {
                assert(ascii_lower(s@[w]) == lit@[w] as int);
                assert(s@[w] as int > 127);
                assert(lit@[w] as int <= 127);
            }
        }
        return false;
    }
    assert(is_ascii(lit));
    let a = t.as_bytes();
    let b = lit.as_bytes();
    if a.len() != b.len() {
        return false;
    }
    let mut i: usize = 0;
    while i < a.len()
        invariant
            0 <= i <= a@.len(),
            a@.len() == b@.len(),
            a@.len() == s@.len(),
            b@.len() == lit@.len(),
            forall|j: int| 0 <= j < a@.len() ==> a@[j] as int == s@[j] as int,
            forall|j: int| 0 <= j < b@.len() ==> b@[j] as int == lit@[j] as int,
            forall|j: int| 0 <= j < i ==> ascii_lower(#[trigger] s@[j]) == lit@[j] as int,
        decreases a@.len() - i,
    {
        let c = a[i];
        let lower: u8 = if 65 <= c && c <= 90 { c + 32 } else { c };
        assert(lower as int == ascii_lower(s@[i as int]));
        if lower != b[i] {
            return false;
        }
        i = i + 1;
    }
    true
}

/// What a provider stands for.
pub enum ProviderModel {
    Rpc(Seq<char>),
    Free(FreeProviderVendor),
}

/// How a network is reached.
#[derive(Debug)]
pub enum NetworkProvider {
    /// An RPC endpoint, held as the serialization of its URL.
    Rpc(String),
    Free(FreeProviderVendor),
}

impl View for NetworkProvider {
    type V = ProviderModel;

    open spec fn view(&self) -> ProviderModel {
        match self {
            NetworkProvider::Rpc(u) => ProviderModel::Rpc(u@),
            NetworkProvider::Free(v) => ProviderModel::Free(*v),
        }
    }
}

/// An RPC provider's URL is in normal form.
pub open spec fn provider_wf(p: ProviderModel) -> bool {
    p matches ProviderModel::Rpc(u) ==> is_normal_url(u)
}

/// The provider that a tagged table stands for, if any.
pub open spec fn tagged_provider_of(es: Entries) -> Option<ProviderModel> {
    if !keys_distinct(es) || !has_key(es, "type"@) {
        None
    } else {
        match value_at(es, "type"@) {
            Value::Str(t) => if t@ == "rpc"@ {
                if keys_within(es, seq!["type"@, "url"@]) && has_key(es, "url"@) {
                    match value_at(es, "url"@) {
                        Value::Str(u) => match url_parse(u@) {
                            Some(n) => Some(ProviderModel::Rpc(n)),
                            None => None,
                        },
                        _ => None,
                    }
                } else {
                    None
                }
            } else if t@ == "free"@ {
                if keys_within(es, seq!["type"@, "vendor"@]) && has_key(es, "vendor"@) {
                    match value_at(es, "vendor"@) {
                        Value::Str(n) => match vendor_of(n@) {
                            Some(v) => Some(ProviderModel::Free(v)),
                            None => None,
                        },
                        _ => None,
                    }
                } else {
                    None
                }
            } else {
                None
            },
            _ => None,
        }
    }
}

/// The provider that a document value stands for; `None` is a schema violation. A
/// bare string is tried first, as a URL; a table after it, by its `type` tag.
pub open spec fn provider_of(v: Value) -> Option<ProviderModel> {
    match v {
        Value::Str(s) => match url_parse(s@) {
            Some(u) => Some(ProviderModel::Rpc(u)),
            None => None,
        },
        Value::Table(es) => tagged_provider_of(es@),
        _ => None,
    }
}

/// `v` is the document value written for provider `p`: the bare URL string for an
/// RPC provider, and for a free one the table `type = "free"`, `vendor = <name>`.
pub open spec fn encodes_provider(v: Value, p: ProviderModel) -> bool {
    match p {
        ProviderModel::Rpc(u) => v matches Value::Str(s) && s@ == u,
        ProviderModel::Free(vendor) => {
            &&& v matches Value::Table(es)
            &&& es@.len() == 2
            &&& es@[0].0@ == "type"@
            &&& es@[0].1 matches Value::Str(t) && t@ == "free"@
            &&& es@[1].0@ == "vendor"@
            &&& es@[1].1 matches Value::Str(n) && n@ == vendor_key(vendor)
        },
    }
}

impl NetworkProvider {
    /// An RPC provider for a URL text; `None` where the text is not an absolute URL.
    pub fn rpc(url: &str) -> (r: Option<NetworkProvider>)
        ensures
            r is Some <==> url_parse(url@) is Some,
            r matches Some(p) ==> p@ == ProviderModel::Rpc(url_parse(url@)->0) && provider_wf(p@),
    {
        match parse_url(url) {
            Some(u) => Some(NetworkProvider::Rpc(u)),
            None => None,
        }
    }

    /// A copy of this provider.
    pub fn copy(&self) -> (r: NetworkProvider)
        ensures
            r@ == self@,
    {
        match self {
            NetworkProvider::Rpc(u) => NetworkProvider::Rpc(u.clone()),
            NetworkProvider::Free(v) => NetworkProvider::Free(*v),
        }
    }

    /// Reads a provider from a document value; `None` where the value fits neither
    /// the bare URL string nor a tagged table.
    pub fn decode(v: &Value) -> (r: Option<NetworkProvider>)
        ensures
            r is Some <==> provider_of(*v) is Some,
            r matches Some(p) ==> provider_of(*v) == Some(p@) && provider_wf(p@),
    {
        match v {
            Value::Str(s) => NetworkProvider::rpc(s.as_str()),
            Value::Table(es) => decode_tagged(es),
            Value::Bool(_) => None,
            Value::Other => None,
        }
    }

    /// Writes a provider as a document value.
    pub fn encode(&self) -> (r: Value)
        ensures
            encodes_provider(r, self@),
    {
        match self {
            NetworkProvider::Rpc(u) => Value::Str(u.clone()),
            NetworkProvider::Free(vendor) => {
                let mut es: Vec<(String, Value)> = Vec::new();
                es.push((String::from_str("type"), Value::Str(String::from_str("free"))));
                es.push((String::from_str("vendor"), Value::Str(vendor.key())));
                Value::Table(es)
            },
        }
    }
}

/// Whether every key is `type` or `second`.
fn keys_are_type_and(es: &Vec<(String, Value)>, second: &str) -> (r: bool)
    ensures
        r == keys_within(es@, seq!["type"@, second@]),
{
    let ghost allowed = seq!["type"@, second@];
    let mut i: usize = 0;
    while i < es.len()
        invariant
            0 <= i <= es@.len(),
            allowed == seq!["type"@, second@],
            forall|a: int| 0 <= a < i ==> allowed.contains(#[trigger] es@[a].0@),
        decreases es@.len() - i,
    {
        if !text_is(&es[i].0, "type") && !text_is(&es[i].0, second) {
            assert(!allowed.contains(es@[i as int].0@)) by {
                if allowed.contains(es@[i as int].0@) {
                    let w = choose|w: int| 0 <= w < allowed.len() && allowed[w] == es@[i as int].0@;
                    assert(w == 0 || w == 1);
                }
            }
            return false;
        }
        assert(allowed[0] == "type"@ && allowed[1] == second@);
        i = i + 1;
    }
    true
}

fn decode_tagged(es: &Vec<(String, Value)>) -> (r: Option<NetworkProvider>)
    ensures
        r is Some <==> tagged_provider_of(es@) is Some,
        r matches Some(p) ==> tagged_provider_of(es@) == Some(p@) && provider_wf(p@),
{
    if !check_keys_distinct(es) {
        return None;
    }
    let t = match find_key(es, "type") {
        Some(i) => i,
        None => return None,
    };
    let tag = match &es[t].1 {
        Value::Str(s) => s,
        _ => return None,
    };
    if text_is(tag, "rpc") {
        if !keys_are_type_and(es, "url") {
            return None;
        }
        match find_key(es, "url") {
            Some(i) => match &es[i].1 {
                Value::Str(u) => NetworkProvider::rpc(u.as_str()),
                _ => None,
            },
            None => None,
        }
    } else if text_is(tag, "free") {
        if !keys_are_type_and(es, "vendor") {
            return None;
        }
        match find_key(es, "vendor") {
            Some(i) => match &es[i].1 {
                Value::Str(n) => match FreeProviderVendor::from_key(n) {
                    Some(v) => Some(NetworkProvider::Free(v)),
                    None => None,
                },
                _ => None,
            },
            None => None,
        }
    } else {
        None
    }
}

/// Reading back the value written for a well-formed provider gives that provider:
/// an RPC URL in normal form parses to itself, and a vendor's name names it.
pub proof fn lemma_provider_round_trip(v: Value, p: ProviderModel)
    requires
        provider_wf(p),
        encodes_provider(v, p),
    ensures
        provider_of(v) == Some(p),
{
    match p {
        ProviderModel::Rpc(u) => {},
        ProviderModel::Free(vendor) => {
            reveal_strlit("type");
            reveal_strlit("vendor");
            reveal_strlit("free");
            reveal_strlit("rpc");
            reveal_strlit("blast");
            reveal_strlit("nethermind");
            let es = v->Table_0@;
            assert(es[0].0@ != es[1].0@) by {
                assert(es[0].0@[0] != es[1].0@[0]);
            }
            assert(keys_distinct(es));
            lemma_value_at_entry(es, 0);
            lemma_value_at_entry(es, 1);
            let allowed = seq!["type"@, "vendor"@];
            assert(allowed[0] == "type"@ && allowed[1] == "vendor"@);
            assert(allowed.contains(es[0].0@));
            assert(allowed.contains(es[1].0@));
            assert(keys_within(es, allowed));
            assert("free"@ != "rpc"@) by {
                assert("free"@.len() != "rpc"@.len());
            }
            assert(vendor_of(vendor_key(vendor)) == Some(vendor)) by {
                assert("blast"@ != "nethermind"@) by {
                    assert("blast"@.len() != "nethermind"@.len());
                }
            }
        },
    }
}

} // verus!
