//! One configured endpoint: an optional display name, a chain id, an integration
//! flag and a provider, and its codec to and from a document table.
use vstd::prelude::*;
use crate::chain_id::{chain_id_wf, lemma_chain_id_round_trip, ChainId, is_short_string, packed, unpacks_to, has_text};
use crate::error::{ErrorModel, ProfileError};
use crate::provider::{
    NetworkProvider, ProviderModel, encodes_provider, lemma_provider_round_trip, provider_of, provider_wf,
};
use crate::value::{
    lemma_value_at_entry,
    Entries, Value, check_keys_distinct, find_key, has_key, keys_distinct, keys_within, text_is,
    value_at,
};

verus! {

/// One configured network.
#[derive(Debug)]
pub struct Network {
    pub name: Option<String>,
    pub chain_id: ChainId,
    pub is_integration: bool,
    pub provider: NetworkProvider,
}

/// What a network holds.
pub struct NetworkModel {
    pub name: Option<Seq<char>>,
    pub chain_id: Seq<u8>,
    pub is_integration: bool,
    pub provider: ProviderModel,
}

impl View for Network {
    type V = NetworkModel;

    open spec fn view(&self) -> NetworkModel {
        NetworkModel {
            name: match self.name {
                Some(n) => Some(n@),
                None => None,
            },
            chain_id: self.chain_id@,
            is_integration: self.is_integration,
            provider: self.provider@,
        }
    }
}

/// A network's chain id is a packed short string and its RPC URL is in normal form.
pub open spec fn network_wf(n: NetworkModel) -> bool {
    chain_id_wf(n.chain_id) && provider_wf(n.provider)
}

/// The fields a network table may hold.
pub open spec fn network_keys() -> Seq<Seq<char>> {
    seq!["name"@, "chain_id"@, "is_integration"@, "provider"@]
}

/// The `name` field: absent, or a string; `None` where it has another shape.
pub open spec fn name_field(es: Entries) -> Option<Option<Seq<char>>> {
    if has_key(es, "name"@) {
        match value_at(es, "name"@) {
            Value::Str(s) => Some(Some(s@)),
            _ => None,
        }
    } else {
        Some(None)
    }
}

/// The `is_integration` field, `false` where absent; `None` where not a boolean.
pub open spec fn integration_field(es: Entries) -> Option<bool> {
    if has_key(es, "is_integration"@) {
        match value_at(es, "is_integration"@) {
            Value::Bool(b) => Some(b),
            _ => None,
        }
    } else {
        Some(false)
    }
}

/// The `provider` field, which must be present.
pub open spec fn provider_field(es: Entries) -> Option<ProviderModel> {
    if has_key(es, "provider"@) {
        provider_of(value_at(es, "provider"@))
    } else {
        None
    }
}

/// The network that a document value stands for. The value must be a table with
/// distinct keys among `name`, `chain_id`, `is_integration` and `provider`; the
/// chain id must be a string, and a Cairo short string; the other fields must have
/// their shapes.
pub open spec fn network_of(v: Value) -> Result<NetworkModel, ErrorModel> {
    match v {
        Value::Table(t) => {
            let es = t@;
            if !keys_distinct(es) || !keys_within(es, network_keys()) || !has_key(es, "chain_id"@) {
                Err(ErrorModel::SchemaViolation)
            } else {
                match value_at(es, "chain_id"@) {
                    Value::Str(c) => if !is_short_string(c@) {
                        Err(ErrorModel::InvalidShortString(c@))
                    } else {
                        match (name_field(es), integration_field(es), provider_field(es)) {
                            (Some(name), Some(is_integration), Some(provider)) => Ok(
                                NetworkModel {
                                    name,
                                    chain_id: packed(c@),
                                    is_integration,
                                    provider,
                                },
                            ),
                            _ => Err(ErrorModel::SchemaViolation),
                        }
                    },
                    _ => Err(ErrorModel::SchemaViolation),
                }
            }
        },
        _ => Err(ErrorModel::SchemaViolation),
    }
}

/// `v` is the table written for network `n`: `name` when it has one, `chain_id` as
/// the text of its chain id, `is_integration` only when set, then `provider`, in
/// that order and with nothing else.
pub open spec fn encodes_network(v: Value, n: NetworkModel) -> bool {
    let k: int = if n.name is Some { 1 } else { 0 };
    let m: int = if n.is_integration { 1 } else { 0 };
    &&& v matches Value::Table(t)
    &&& t@.len() == k + 2 + m
    &&& (n.name matches Some(nm) ==> (t@[0].0@ == "name"@ && (t@[0].1 matches Value::Str(s)
        && s@ == nm)))
    &&& t@[k].0@ == "chain_id"@
    &&& t@[k].1 matches Value::Str(c) && unpacks_to(n.chain_id, c@)
    &&& (n.is_integration ==> (t@[k + 1].0@ == "is_integration"@ && t@[k + 1].1 == Value::Bool(
        true)))
    &&& t@[k + 1 + m].0@ == "provider"@
    &&& encodes_provider(t@[k + 1 + m].1, n.provider)
}

/// Whether a flag is unset; an unset `is_integration` is left out of a document.
pub fn is_false(value: &bool) -> (r: bool)
    ensures
        r == !*value,
{
    *value == false
}

/// Whether every key is a network field.
fn keys_are_network_fields(es: &Vec<(String, Value)>) -> (r: bool)
    ensures
        r == keys_within(es@, network_keys()),
{
    let ghost allowed = network_keys();
    let mut i: usize = 0;
    while i < es.len()
        invariant
            0 <= i <= es@.len(),
            allowed == network_keys(),
            forall|a: int| 0 <= a < i ==> allowed.contains(#[trigger] es@[a].0@),
        decreases es@.len() - i,
    {
        let k = &es[i].0;
        if !text_is(k, "name") && !text_is(k, "chain_id") && !text_is(k, "is_integration")
            && !text_is(k, "provider") {
            assert(!allowed.contains(es@[i as int].0@)) by {
                if allowed.contains(es@[i as int].0@) {
                    let w = choose|w: int|
                        0 <= w < allowed.len() && allowed[w] == es@[i as int].0@;
                    assert(w == 0 || w == 1 || w == 2 || w == 3);
                }
            }
            return false;
        }
        assert(allowed[0] == "name"@ && allowed[1] == "chain_id"@ && allowed[2]
            == "is_integration"@ && allowed[3] == "provider"@);
        i = i + 1;
    }
    true
}

impl Network {
    /// Reads a network from a document value.
    pub fn decode(v: &Value) -> (r: Result<Network, ProfileError>)
        ensures
            r matches Ok(n) ==> network_of(*v) == Ok::<NetworkModel, ErrorModel>(n@) && network_wf(
                n@,
            ),
            r matches Err(e) ==> network_of(*v) == Err::<NetworkModel, ErrorModel>(e@),
    {
        let es = match v {
            Value::Table(es) => es,
            _ => return Err(ProfileError::SchemaViolation),
        };
        if !check_keys_distinct(es) || !keys_are_network_fields(es) {
            return Err(ProfileError::SchemaViolation);
        }
        let c = match find_key(es, "chain_id") {
            Some(i) => match &es[i].1 {
                Value::Str(c) => c,
                _ => return Err(ProfileError::SchemaViolation),
            },
            None => return Err(ProfileError::SchemaViolation),
        };
        let chain_id = match ChainId::from_short_string(c.as_str()) {
            Some(id) => id,
            None => return Err(ProfileError::InvalidShortString(c.clone())),
        };
        let name = match find_key(es, "name") {
            Some(i) => match &es[i].1 {
                Value::Str(s) => Some(s.clone()),
                _ => return Err(ProfileError::SchemaViolation),
            },
            None => None,
        };
        let is_integration = match find_key(es, "is_integration") {
            Some(i) => match &es[i].1 {
                Value::Bool(b) => *b,
                _ => return Err(ProfileError::SchemaViolation),
            },
            None => false,
        };
        let provider = match find_key(es, "provider") {
            Some(i) => match NetworkProvider::decode(&es[i].1) {
                Some(p) => p,
                None => return Err(ProfileError::SchemaViolation),
            },
            None => return Err(ProfileError::SchemaViolation),
        };
        let n = Network { name, chain_id, is_integration, provider };
        assert(n@.name == name_field(es@)->0);
        Ok(n)
    }

    /// Writes a network as a document table; fails where its chain id reads back as
    /// no short string.
    pub fn encode(&self) -> (r: Result<Value, ProfileError>)
        requires
            network_wf(self@),
        ensures
            r is Ok <==> has_text(self@.chain_id),
            r matches Ok(v) ==> encodes_network(v, self@),
            r matches Err(e) ==> e@ == ErrorModel::UnencodableChainId(self@.chain_id),
    {
        proof {
            assert(self.chain_id.wf());
        }
        let text = match self.chain_id.to_short_string() {
            Some(t) => t,
            None => return Err(ProfileError::UnencodableChainId(self.chain_id.copy())),
        };
        let mut es: Vec<(String, Value)> = Vec::new();
        match &self.name {
            Some(n) => es.push((String::from_str("name"), Value::Str(n.clone()))),
            None => {},
        }
        es.push((String::from_str("chain_id"), Value::Str(text)));
        if !is_false(&self.is_integration) {
            es.push((String::from_str("is_integration"), Value::Bool(true)));
        }
        es.push((String::from_str("provider"), self.provider.encode()));
        Ok(Value::Table(es))
    }
}

/// The field that stands at position `a` of the table written for `n`.
pub open spec fn field_at(n: NetworkModel, a: int) -> Seq<char> {
    let k: int = if n.name is Some { 1 } else { 0 };
    let m: int = if n.is_integration { 1 } else { 0 };
    if a < k {
        "name"@
    } else if a == k {
        "chain_id"@
    } else if a < k + 1 + m {
        "is_integration"@
    } else {
        "provider"@
    }
}

proof fn lemma_field_names_distinct()
    ensures
        "name"@ != "chain_id"@,
        "name"@ != "is_integration"@,
        "name"@ != "provider"@,
        "chain_id"@ != "is_integration"@,
        "chain_id"@ != "provider"@,
        "is_integration"@ != "provider"@,
{
    reveal_strlit("name");
    reveal_strlit("chain_id");
    reveal_strlit("is_integration");
    reveal_strlit("provider");
    assert("name"@.len() != "chain_id"@.len());
    assert("name"@.len() != "is_integration"@.len());
    assert("name"@.len() != "provider"@.len());
    assert("chain_id"@.len() != "is_integration"@.len());
    assert("chain_id"@[0] != "provider"@[0]);
    assert("is_integration"@.len() != "provider"@.len());
}

/// Reading back the table written for a well-formed network gives that network:
/// an unset flag and a missing name, left out when
/// written, come back as they were, and an RPC provider written as a bare URL
/// string comes back as the same provider.
pub proof fn lemma_network_round_trip(v: Value, n: NetworkModel)
    requires
        network_wf(n),
        encodes_network(v, n),
    ensures
        network_of(v) == Ok::<NetworkModel, ErrorModel>(n),
{
    lemma_field_names_distinct();
    let es = v->Table_0@;
    let k: int = if n.name is Some { 1 } else { 0 };
    let m: int = if n.is_integration { 1 } else { 0 };
    assert forall|a: int| 0 <= a < es.len() implies #[trigger] es[a].0@ == field_at(n, a) by {}
    assert(keys_distinct(es)) by {
        assert forall|a: int, b: int| 0 <= a < b < es.len() implies (#[trigger] es[a]).0@ != (
        #[trigger] es[b]).0@ by {
            assert(es[a].0@ == field_at(n, a));
            assert(es[b].0@ == field_at(n, b));
        }
    }
    assert(keys_within(es, network_keys())) by {
        let keys = network_keys();
        assert(keys[0] == "name"@ && keys[1] == "chain_id"@ && keys[2] == "is_integration"@
            && keys[3] == "provider"@);
        assert forall|a: int| 0 <= a < es.len() implies keys.contains(#[trigger] es[a].0@) by {
            assert(es[a].0@ == field_at(n, a));
        }
    }
    lemma_value_at_entry(es, k);
    let c = es[k].1->Str_0;
    lemma_chain_id_round_trip(n.chain_id, c@);
    if n.name is Some {
        lemma_value_at_entry(es, 0);
    } else {
        assert(!has_key(es, "name"@)) by {
            if has_key(es, "name"@) {
                let w = choose|w: int| 0 <= w < es.len() && es[w].0@ == "name"@;
                assert(es[w].0@ == field_at(n, w));
            }
        }
    }
    if n.is_integration {
        lemma_value_at_entry(es, k + 1);
    } else {
        assert(!has_key(es, "is_integration"@)) by {
            if has_key(es, "is_integration"@) {
                let w = choose|w: int| 0 <= w < es.len() && es[w].0@ == "is_integration"@;
                assert(es[w].0@ == field_at(n, w));
            }
        }
    }
    lemma_value_at_entry(es, k + 1 + m);
    lemma_provider_round_trip(es[k + 1 + m].1, n.provider);
}

/// A network table with a field other than `name`, `chain_id`, `is_integration`
/// and `provider` is refused as a schema violation.
pub proof fn lemma_unknown_field_refused(v: Value, i: int)
    requires
        v matches Value::Table(t) && 0 <= i < t@.len() && !network_keys().contains(t@[i].0@),
    ensures
        network_of(v) == Err::<NetworkModel, ErrorModel>(ErrorModel::SchemaViolation),
{
}

/// A network table whose fields are known and distinct, and whose chain id is a
/// string that is not a Cairo short string (a character outside ASCII, or more
/// than 31 characters), is refused with that string.
pub proof fn lemma_bad_chain_id_refused(v: Value, s: String, c: Seq<char>)
    requires
        v is Table,
        keys_distinct(v->Table_0@),
        keys_within(v->Table_0@, network_keys()),
        has_key(v->Table_0@, "chain_id"@),
        value_at(v->Table_0@, "chain_id"@) == Value::Str(s),
        s@ == c,
        !is_short_string(c),
    ensures
        network_of(v) == Err::<NetworkModel, ErrorModel>(ErrorModel::InvalidShortString(c)),
{
}

} // verus!
