//! Profiles: named, ordered collections of networks, and the store of profiles
//! with the checks it must pass when loaded.
use vstd::prelude::*;
use indexmap::IndexMap;
use crate::chain_id::has_text;
use crate::error::{ErrorModel, ProfileError};
use crate::network::{
    Network, NetworkModel, encodes_network, lemma_network_round_trip, network_of,
    network_wf,
};
use crate::value::{
    lemma_value_at_entry,
    Entries, Value, check_keys_distinct, find_key, has_key, keys_distinct, keys_within, text_is,
    value_at,
};

verus! {

/// The name of the one profile that is supported.
pub const DEFAULT_PROFILE_NAME: &'static str = "default";

/// The networks of a profile, by key, in order.
pub type NetworksModel = Seq<(Seq<char>, NetworkModel)>;

/// The profiles of a store, by name, in order.
pub type ProfilesModel = Seq<(Seq<char>, NetworksModel)>;

/// `indexmap::IndexMap`, an insertion-ordered hash map; its entries are known
/// through the names below and the wrappers that speak of them.
#[verifier::external_type_specification]
#[verifier::external_body]
#[verifier::reject_recursive_types(K)]
#[verifier::reject_recursive_types(V)]
#[verifier::reject_recursive_types(S)]
pub struct ExIndexMap<K, V, S>(IndexMap<K, V, S>);

/// The entries of a map of networks, in order: each key with its network.
pub uninterp spec fn network_entries(m: IndexMap<String, Network>) -> NetworksModel;

/// The entries of a map of profiles, in order: each name with its networks.
pub uninterp spec fn profile_entries(m: IndexMap<String, Profile>) -> ProfilesModel;

/// Relies on `IndexMap::new`: a map with no entry.
#[verifier::external_body]
fn new_network_map() -> (r: IndexMap<String, Network>)
    ensures
        network_entries(r) == Seq::<(Seq<char>, NetworkModel)>::empty(),
{
    IndexMap::new()
}

/// Relies on `IndexMap::insert`: a key that no entry has yet is inserted last in
/// order.
#[verifier::external_body]
fn insert_network(m: &mut IndexMap<String, Network>, k: String, v: Network)
    requires
        forall|i: int|
            0 <= i < network_entries(*old(m)).len() ==> (#[trigger] network_entries(*old(m))[i]).0
                != k@,
    ensures
        network_entries(*final(m)) == network_entries(*old(m)).push((k@, v@)),
{
    m.insert(k, v);
}

/// Relies on `IndexMap::len`: the number of entries.
#[verifier::external_body]
fn network_count(m: &IndexMap<String, Network>) -> (r: usize)
    ensures
        r == network_entries(*m).len(),
{
    m.len()
}

/// Relies on `IndexMap::get_index`: the entry at a position below the length.
#[verifier::external_body]
fn network_at(m: &IndexMap<String, Network>, i: usize) -> (r: (&String, &Network))
    requires
        i < network_entries(*m).len(),
    ensures
        r.0@ == network_entries(*m)[i as int].0,
        r.1@ == network_entries(*m)[i as int].1,
{
    m.get_index(i).unwrap()
}

/// Relies on `IndexMap::new`: a map with no entry.
#[verifier::external_body]
fn new_profile_map() -> (r: IndexMap<String, Profile>)
    ensures
        profile_entries(r) == Seq::<(Seq<char>, NetworksModel)>::empty(),
{
    IndexMap::new()
}

/// Relies on `IndexMap::insert`: a name that no entry has yet is inserted last in
/// order.
#[verifier::external_body]
fn insert_profile(m: &mut IndexMap<String, Profile>, k: String, v: Profile)
    requires
        forall|i: int|
            0 <= i < profile_entries(*old(m)).len() ==> (#[trigger] profile_entries(*old(m))[i]).0
                != k@,
    ensures
        profile_entries(*final(m)) == profile_entries(*old(m)).push((k@, v@)),
{
    m.insert(k, v);
}

/// Relies on `IndexMap::len`: the number of entries.
#[verifier::external_body]
fn profile_count(m: &IndexMap<String, Profile>) -> (r: usize)
    ensures
        r == profile_entries(*m).len(),
{
    m.len()
}

/// Relies on `IndexMap::get_index`: the entry at a position below the length.
#[verifier::external_body]
fn profile_at(m: &IndexMap<String, Profile>, i: usize) -> (r: (&String, &Profile))
    requires
        i < profile_entries(*m).len(),
    ensures
        r.0@ == profile_entries(*m)[i as int].0,
        r.1@ == profile_entries(*m)[i as int].1,
{
    m.get_index(i).unwrap()
}

/// A named collection of networks, keyed in insertion order.
#[derive(Debug)]
pub struct Profile {
    pub networks: IndexMap<String, Network>,
}

/// The store of profiles, keyed by name in insertion order.
#[derive(Debug)]
pub struct Profiles {
    pub profiles: IndexMap<String, Profile>,
}

impl View for Profile {
    type V = NetworksModel;

    open spec fn view(&self) -> NetworksModel {
        network_entries(self.networks)
    }
}

impl View for Profiles {
    type V = ProfilesModel;

    open spec fn view(&self) -> ProfilesModel {
        profile_entries(self.profiles)
    }
}

/// The networks of a profile have distinct keys and are each well formed.
pub open spec fn networks_wf(ns: NetworksModel) -> bool {
    &&& forall|i: int, j: int| 0 <= i < j < ns.len() ==> (#[trigger] ns[i]).0 != (#[trigger] ns[j]).0
    &&& forall|i: int| 0 <= i < ns.len() ==> network_wf(#[trigger] ns[i].1)
}

/// The profiles of a store have distinct names and each is well formed.
pub open spec fn profiles_wf(ps: ProfilesModel) -> bool {
    &&& forall|i: int, j: int| 0 <= i < j < ps.len() ==> (#[trigger] ps[i]).0 != (#[trigger] ps[j]).0
    &&& forall|i: int| 0 <= i < ps.len() ==> networks_wf(#[trigger] ps[i].1)
}

/// The networks that table entries stand for, read in order; the first entry that
/// is no network gives the error.
pub open spec fn networks_of(es: Entries) -> Result<NetworksModel, ErrorModel>
    decreases es.len(),
{
    if es.len() == 0 {
        Ok(Seq::empty())
    } else {
        match networks_of(es.drop_last()) {
            Ok(ns) => match network_of(es.last().1) {
                Ok(n) => Ok(ns.push((es.last().0@, n))),
                Err(e) => Err(e),
            },
            Err(e) => Err(e),
        }
    }
}

/// The profile that a document value stands for: a table whose one field,
/// `networks`, is a table of networks with distinct keys.
pub open spec fn profile_of(v: Value) -> Result<NetworksModel, ErrorModel> {
    match v {
        Value::Table(t) => if !keys_distinct(t@) || !keys_within(t@, seq!["networks"@]) || !has_key(
            t@,
            "networks"@,
        ) {
            Err(ErrorModel::SchemaViolation)
        } else {
            match value_at(t@, "networks"@) {
                Value::Table(ns) => if !keys_distinct(ns@) {
                    Err(ErrorModel::SchemaViolation)
                } else {
                    networks_of(ns@)
                },
                _ => Err(ErrorModel::SchemaViolation),
            }
        },
        _ => Err(ErrorModel::SchemaViolation),
    }
}

/// The profiles that table entries stand for, read in order.
pub open spec fn profiles_of(es: Entries) -> Result<ProfilesModel, ErrorModel>
    decreases es.len(),
{
    if es.len() == 0 {
        Ok(Seq::empty())
    } else {
        match profiles_of(es.drop_last()) {
            Ok(ps) => match profile_of(es.last().1) {
                Ok(p) => Ok(ps.push((es.last().0@, p))),
                Err(e) => Err(e),
            },
            Err(e) => Err(e),
        }
    }
}

/// The store that a whole document stands for: a table of profiles with distinct
/// names.
pub open spec fn store_of(v: Value) -> Result<ProfilesModel, ErrorModel> {
    match v {
        Value::Table(t) => if !keys_distinct(t@) {
            Err(ErrorModel::SchemaViolation)
        } else {
            profiles_of(t@)
        },
        _ => Err(ErrorModel::SchemaViolation),
    }
}

/// No profile, or one named `default`.
pub open spec fn cardinality_ok(ps: ProfilesModel) -> bool {
    ps.len() == 0 || (ps.len() == 1 && ps[0].0 == DEFAULT_PROFILE_NAME@)
}

/// No two networks share a chain id.
pub open spec fn chain_ids_distinct(ns: NetworksModel) -> bool {
    forall|i: int, j: int|
        0 <= i < j < ns.len() ==> (#[trigger] ns[i]).1.chain_id != (#[trigger] ns[j]).1.chain_id
}

/// Networks `i` and `j` share a chain id, and `j` is the first network whose
/// chain id an earlier one already has.
pub open spec fn first_duplicate(ns: NetworksModel, i: int, j: int) -> bool {
    &&& 0 <= i < j < ns.len()
    &&& ns[i].1.chain_id == ns[j].1.chain_id
    &&& chain_ids_distinct(ns.take(j))
}

/// `e` is the error that the duplicate check reports on networks `ns`.
pub open spec fn reports_duplicate(ns: NetworksModel, e: ErrorModel) -> bool {
    exists|i: int, j: int|
        first_duplicate(ns, i, j) && e == (ErrorModel::DuplicateChainId {
            first: ns[i].0,
            second: ns[j].0,
            chain_id: ns[j].1.chain_id,
        })
}

/// The checks of a loaded store, over the profiles that it read: the number and
/// names of the profiles, then the chain ids of the `default` profile.
pub open spec fn validated(ps: ProfilesModel, r: Result<ProfilesModel, ErrorModel>) -> bool {
    if !cardinality_ok(ps) {
        r == Err::<ProfilesModel, ErrorModel>(ErrorModel::CardinalityViolation)
    } else if ps.len() == 1 && !chain_ids_distinct(ps[0].1) {
        r matches Err(e) && reports_duplicate(ps[0].1, e)
    } else {
        r == Ok::<ProfilesModel, ErrorModel>(ps)
    }
}

/// `v` is the table written for a profile: its one field `networks`, a table of
/// the networks in order.
pub open spec fn encodes_profile(v: Value, ns: NetworksModel) -> bool {
    &&& v matches Value::Table(t)
    &&& t@.len() == 1
    &&& t@[0].0@ == "networks"@
    &&& t@[0].1 matches Value::Table(u)
    &&& u@.len() == ns.len()
    &&& forall|k: int| 0 <= k < ns.len() ==> (#[trigger] u@[k]).0@ == ns[k].0 && encodes_network(u@[k].1, ns[k].1)
}

/// `v` is the document written for a store: a table of the profiles in order.
pub open spec fn encodes_store(v: Value, ps: ProfilesModel) -> bool {
    &&& v matches Value::Table(t)
    &&& t@.len() == ps.len()
    &&& forall|i: int| 0 <= i < ps.len() ==> (#[trigger] t@[i]).0@ == ps[i].0 && encodes_profile(t@[i].1, ps[i].1)
}

/// Every chain id of the networks reads back as a short string.
pub open spec fn networks_have_text(ns: NetworksModel) -> bool {
    forall|k: int| 0 <= k < ns.len() ==> has_text(#[trigger] ns[k].1.chain_id)
}

/// Every chain id of the store reads back as a short string.
pub open spec fn store_has_text(ps: ProfilesModel) -> bool {
    forall|i: int| 0 <= i < ps.len() ==> networks_have_text(#[trigger] ps[i].1)
}

/// What loading gives for a document, or for no document at all.
pub open spec fn load_outcome(d: Option<Value>, r: Result<ProfilesModel, ErrorModel>) -> bool {
    match d {
        None => r == Ok::<ProfilesModel, ErrorModel>(Seq::empty()),
        Some(v) => match store_of(v) {
            Err(e) => r == Err::<ProfilesModel, ErrorModel>(e),
            Ok(ps) => validated(ps, r),
        },
    }
}

proof fn lemma_networks_err_stays(es: Entries, k: int)
    requires
        0 <= k <= es.len(),
        networks_of(es.take(k)) is Err,
    ensures
        networks_of(es) == networks_of(es.take(k)),
    decreases es.len() - k,
{
    if k < es.len() {
        assert(es.take(k + 1).drop_last() =~= es.take(k));
        lemma_networks_err_stays(es, k + 1);
    } else {
        assert(es.take(k) =~= es);
    }
}

proof fn lemma_profiles_err_stays(es: Entries, k: int)
    requires
        0 <= k <= es.len(),
        profiles_of(es.take(k)) is Err,
    ensures
        profiles_of(es) == profiles_of(es.take(k)),
    decreases es.len() - k,
{
    if k < es.len() {
        assert(es.take(k + 1).drop_last() =~= es.take(k));
        lemma_profiles_err_stays(es, k + 1);
    } else {
        assert(es.take(k) =~= es);
    }
}

fn decode_networks(es: &Vec<(String, Value)>) -> (r: Result<IndexMap<String, Network>, ProfileError>)
    requires
        keys_distinct(es@),
    ensures
        r matches Ok(ns) ==> networks_of(es@) == Ok::<NetworksModel, ErrorModel>(network_entries(ns))
            && forall|i: int| 0 <= i < network_entries(ns).len() ==> network_wf(#[trigger] network_entries(ns)[i].1),
        r matches Err(e) ==> networks_of(es@) == Err::<NetworksModel, ErrorModel>(e@),
{
    let mut out = new_network_map();
    let mut i: usize = 0;
    assert(es@.take(0) =~= Seq::<(String, Value)>::empty());
    while i < es.len()
        invariant
            0 <= i <= es@.len(),
            keys_distinct(es@),
            networks_of(es@.take(i as int)) == Ok::<NetworksModel, ErrorModel>(network_entries(out)),
            network_entries(out).len() == i,
            forall|a: int| 0 <= a < i ==> (#[trigger] network_entries(out)[a]).0 == es@[a].0@,
            forall|a: int| 0 <= a < i ==> network_wf(#[trigger] network_entries(out)[a].1),
        decreases es@.len() - i,
    {
        assert(es@.take(i + 1).drop_last() =~= es@.take(i as int));
        assert(es@.take(i + 1).last() == es@[i as int]);
        match Network::decode(&es[i].1) {
            Ok(n) => {
                assert forall|a: int| 0 <= a < network_entries(out).len() implies (
                #[trigger] network_entries(out)[a]).0 != es@[i as int].0@ by {
                    assert(es@[a].0@ != es@[i as int].0@);
                }
                insert_network(&mut out, es[i].0.clone(), n);
            },
            Err(e) => {
                proof {
                    lemma_networks_err_stays(es@, i + 1);
                }
                return Err(e);
            },
        }
        i = i + 1;
    }
    assert(es@.take(es@.len() as int) =~= es@);
    Ok(out)
}

fn decode_profile(v: &Value) -> (r: Result<Profile, ProfileError>)
    ensures
        r matches Ok(p) ==> profile_of(*v) == Ok::<NetworksModel, ErrorModel>(p@) && networks_wf(
            p@,
        ),
        r matches Err(e) ==> profile_of(*v) == Err::<NetworksModel, ErrorModel>(e@),
{
    let t = match v {
        Value::Table(t) => t,
        _ => return Err(ProfileError::SchemaViolation),
    };
    if !check_keys_distinct(t) {
        return Err(ProfileError::SchemaViolation);
    }
    let mut i: usize = 0;
    while i < t.len()
        invariant
            0 <= i <= t@.len(),
            keys_distinct(t@),
            *v == Value::Table(*t),
            forall|a: int| 0 <= a < i ==> seq!["networks"@].contains(#[trigger] t@[a].0@),
        decreases t@.len() - i,
    {
        if !text_is(&t[i].0, "networks") {
            assert(!seq!["networks"@].contains(t@[i as int].0@)) by {
                if seq!["networks"@].contains(t@[i as int].0@) {
                    let w = choose|w: int|
                        0 <= w < 1 && seq!["networks"@][w] == t@[i as int].0@;
                    assert(w == 0);
                }
            }
            assert(!keys_within(t@, seq!["networks"@]));
            return Err(ProfileError::SchemaViolation);
        }
        assert(seq!["networks"@][0] == "networks"@);
        i = i + 1;
    }
    let ns = match find_key(t, "networks") {
        Some(k) => match &t[k].1 {
            Value::Table(ns) => ns,
            _ => return Err(ProfileError::SchemaViolation),
        },
        None => return Err(ProfileError::SchemaViolation),
    };
    if !check_keys_distinct(ns) {
        return Err(ProfileError::SchemaViolation);
    }
    let networks = decode_networks(ns)?;
    proof {
        lemma_networks_of_keys(ns@);
    }
    Ok(Profile { networks })
}

/// The networks read from entries keep the entries' keys, in order.
proof fn lemma_networks_of_keys(es: Entries)
    requires
        networks_of(es) is Ok,
    ensures
        networks_of(es)->Ok_0.len() == es.len(),
        forall|i: int| 0 <= i < es.len() ==> (#[trigger] networks_of(es)->Ok_0[i]).0 == es[i].0@,
    decreases es.len(),
{
    if es.len() > 0 {
        lemma_networks_of_keys(es.drop_last());
        let prev = networks_of(es.drop_last())->Ok_0;
        assert forall|i: int| 0 <= i < es.len() implies (#[trigger] networks_of(es)->Ok_0[i]).0
            == es[i].0@ by {
            if i < es.len() - 1 {
                assert(es.drop_last()[i] == es[i]);
                assert(prev[i].0 == es.drop_last()[i].0@);
            }
        }
    }
}

fn decode_profiles(es: &Vec<(String, Value)>) -> (r: Result<IndexMap<String, Profile>, ProfileError>)
    requires
        keys_distinct(es@),
    ensures
        r matches Ok(ps) ==> profiles_of(es@) == Ok::<ProfilesModel, ErrorModel>(profile_entries(ps))
            && profiles_wf(profile_entries(ps)),
        r matches Err(e) ==> profiles_of(es@) == Err::<ProfilesModel, ErrorModel>(e@),
{
    let mut out = new_profile_map();
    let mut i: usize = 0;
    assert(es@.take(0) =~= Seq::<(String, Value)>::empty());
    while i < es.len()
        invariant
            0 <= i <= es@.len(),
            keys_distinct(es@),
            profiles_of(es@.take(i as int)) == Ok::<ProfilesModel, ErrorModel>(profile_entries(out)),
            profile_entries(out).len() == i,
            forall|a: int| 0 <= a < i ==> (#[trigger] profile_entries(out)[a]).0 == es@[a].0@,
            forall|a: int| 0 <= a < i ==> networks_wf(#[trigger] profile_entries(out)[a].1),
        decreases es@.len() - i,
    {
        assert(es@.take(i + 1).drop_last() =~= es@.take(i as int));
        assert(es@.take(i + 1).last() == es@[i as int]);
        match decode_profile(&es[i].1) {
            Ok(p) => {
                assert forall|a: int| 0 <= a < profile_entries(out).len() implies (
                #[trigger] profile_entries(out)[a]).0 != es@[i as int].0@ by {
                    assert(es@[a].0@ != es@[i as int].0@);
                }
                insert_profile(&mut out, es[i].0.clone(), p);
            },
            Err(e) => {
                proof {
                    lemma_profiles_err_stays(es@, i + 1);
                }
                return Err(e);
            },
        }
        i = i + 1;
    }
    assert(es@.take(es@.len() as int) =~= es@);
    proof {
        let m = profile_entries(out);
        assert forall|a: int, b: int| 0 <= a < b < m.len() implies (#[trigger] m[a]).0 != (
        #[trigger] m[b]).0 by {
            assert(es@[a].0@ != es@[b].0@);
        }
    }
    Ok(out)
}

/// Finds the first network whose chain id an earlier network already has.
fn check_chain_ids(ns: &IndexMap<String, Network>) -> (r: Result<(), ProfileError>)
    ensures
        r is Ok <==> chain_ids_distinct(network_entries(*ns)),
        r matches Err(e) ==> reports_duplicate(network_entries(*ns), e@),
{
    let ghost m = network_entries(*ns);
    let len = network_count(ns);
    let mut j: usize = 0;
    while j < len
        invariant
            0 <= j <= len,
            len == m.len(),
            m == network_entries(*ns),
            chain_ids_distinct(m.take(j as int)),
        decreases len - j,
    {
        let (key_j, net_j) = network_at(ns, j);
        let mut i: usize = 0;
        while i < j
            invariant
                0 <= i <= j < len,
                len == m.len(),
                m == network_entries(*ns),
                key_j@ == m[j as int].0,
                net_j@ == m[j as int].1,
                chain_ids_distinct(m.take(j as int)),
                forall|a: int| 0 <= a < i ==> m[a].1.chain_id != m[j as int].1.chain_id,
            decreases j - i,
        {
            let (key_i, net_i) = network_at(ns, i);
            if net_i.chain_id.same_as(&net_j.chain_id) {
                let e = ProfileError::DuplicateChainId {
                    first: key_i.clone(),
                    second: key_j.clone(),
                    chain_id: net_j.chain_id.copy(),
                };
                assert(first_duplicate(m, i as int, j as int));
                assert(!chain_ids_distinct(m));
                return Err(e);
            }
            i = i + 1;
        }
        assert forall|a: int, b: int| 0 <= a < b < j + 1 implies (#[trigger] m.take(j + 1)[a]).1.chain_id
            != (#[trigger] m.take(j + 1)[b]).1.chain_id by {
            if b < j {
                assert(m.take(j as int)[a] == m.take(j + 1)[a]);
                assert(m.take(j as int)[b] == m.take(j + 1)[b]);
            }
        }
        j = j + 1;
    }
    assert(m.take(len as int) =~= m);
    Ok(())
}

impl Profiles {
    /// An empty store: no profile.
    pub fn new() -> (r: Profiles)
        ensures
            r@ == Seq::<(Seq<char>, NetworksModel)>::empty(),
    {
        Profiles { profiles: new_profile_map() }
    }

    /// Loads a store from a document, or from no document where the backing file is
    /// absent, which gives an empty store. The document is read whole first; then
    /// at most one profile, named `default`, is accepted, and no two of its
    /// networks may share a chain id.
    pub fn load(document: Option<&Value>) -> (r: Result<Profiles, ProfileError>)
        ensures
            load_outcome(
                match document {
                    Some(v) => Some(*v),
                    None => None,
                },
                match r {
                    Ok(p) => Ok(p@),
                    Err(e) => Err(e@),
                },
            ),
            r matches Ok(p) ==> profiles_wf(p@),
    {
        let v = match document {
            Some(v) => v,
            None => return Ok(Profiles::new()),
        };
        let t = match v {
            Value::Table(t) => t,
            _ => return Err(ProfileError::SchemaViolation),
        };
        if !check_keys_distinct(t) {
            return Err(ProfileError::SchemaViolation);
        }
        let profiles = decode_profiles(t)?;
        let loaded = Profiles { profiles };
        let n = profile_count(&loaded.profiles);
        if n > 1 || (n == 1 && !text_is(profile_at(&loaded.profiles, 0).0, DEFAULT_PROFILE_NAME)) {
            return Err(ProfileError::CardinalityViolation);
        }
        if n == 1 {
            check_chain_ids(&profile_at(&loaded.profiles, 0).1.networks)?;
        }
        Ok(loaded)
    }

    /// Writes the store as a document, profiles and networks in order; fails where
    /// a chain id reads back as no short string.
    pub fn save(&self) -> (r: Result<Value, ProfileError>)
        requires
            profiles_wf(self@),
        ensures
            r is Ok <==> store_has_text(self@),
            r matches Ok(v) ==> encodes_store(v, self@),
            r matches Err(e) ==> exists|i: int, k: int|
                0 <= i < self@.len() && 0 <= k < self@[i].1.len() && !has_text(self@[i].1[k].1.chain_id)
                    && e@ == ErrorModel::UnencodableChainId(self@[i].1[k].1.chain_id),
    {
        let mut out: Vec<(String, Value)> = Vec::new();
        let count = profile_count(&self.profiles);
        let mut i: usize = 0;
        while i < count
            invariant
                0 <= i <= count,
                count == self@.len(),
                profiles_wf(self@),
                out@.len() == i,
                forall|a: int| 0 <= a < i ==> (#[trigger] out@[a]).0@ == self@[a].0 && encodes_profile(out@[a].1, self@[a].1),
                forall|a: int| 0 <= a < i ==> networks_have_text(#[trigger] self@[a].1),
            decreases count - i,
        {
            let (name, profile) = profile_at(&self.profiles, i);
            let ns = &profile.networks;
            assert(network_entries(*ns) == self@[i as int].1);
            assert(networks_wf(self@[i as int].1));
            let len = network_count(ns);
            let mut u: Vec<(String, Value)> = Vec::new();
            let mut k: usize = 0;
            while k < len
                invariant
                    0 <= k <= len,
                    0 <= i < self@.len(),
                    len == self@[i as int].1.len(),
                    network_entries(*ns) == self@[i as int].1,
                    networks_wf(self@[i as int].1),
                    u@.len() == k,
                    forall|b: int| 0 <= b < k ==> (#[trigger] u@[b]).0@ == self@[i as int].1[b].0 && encodes_network(u@[b].1, self@[i as int].1[b].1),
                    forall|b: int| 0 <= b < k ==> has_text(#[trigger] self@[i as int].1[b].1.chain_id),
                decreases len - k,
            {
                assert(network_wf(self@[i as int].1[k as int].1));
                let (key, net) = network_at(ns, k);
                match net.encode() {
                    Ok(v) => {
                        u.push((key.clone(), v));
                    },
                    Err(e) => {
                        assert(!networks_have_text(self@[i as int].1));
                        assert(!store_has_text(self@));
                        return Err(e);
                    },
                }
                k = k + 1;
            }
            let mut t: Vec<(String, Value)> = Vec::new();
            t.push((String::from_str("networks"), Value::Table(u)));
            out.push((name.clone(), Value::Table(t)));
            i = i + 1;
        }
        Ok(Value::Table(out))
    }
}

proof fn lemma_networks_read_back(u: Entries, ns: NetworksModel)
    requires
        u.len() == ns.len(),
        forall|k: int| 0 <= k < ns.len() ==> network_wf(#[trigger] ns[k].1),
        forall|k: int|
            0 <= k < ns.len() ==> (#[trigger] u[k]).0@ == ns[k].0 && encodes_network(u[k].1, ns[k].1),
    ensures
        networks_of(u) == Ok::<NetworksModel, ErrorModel>(ns),
    decreases u.len(),
{
    if u.len() == 0 {
        assert(ns =~= Seq::<(Seq<char>, NetworkModel)>::empty());
    } else {
        let l = u.len() - 1;
        let (u0, n0) = (u.drop_last(), ns.drop_last());
        assert forall|k: int| 0 <= k < n0.len() implies (#[trigger] u0[k]).0@ == n0[k].0
            && encodes_network(u0[k].1, n0[k].1) && network_wf(n0[k].1) by {
            assert(u0[k] == u[k] && n0[k] == ns[k]);
        }
        lemma_networks_read_back(u0, n0);
        assert(network_wf(ns[l].1) && u[l].0@ == ns[l].0);
        lemma_network_round_trip(u[l].1, ns[l].1);
        assert(n0.push((u.last().0@, ns[l].1)) =~= ns);
    }
}

proof fn lemma_profile_read_back(v: Value, ns: NetworksModel)
    requires
        networks_wf(ns),
        encodes_profile(v, ns),
    ensures
        profile_of(v) == Ok::<NetworksModel, ErrorModel>(ns),
{
    let t = v->Table_0@;
    assert(keys_distinct(t));
    assert(keys_within(t, seq!["networks"@])) by {
        assert(seq!["networks"@][0] == t[0].0@);
    }
    lemma_value_at_entry(t, 0);
    let u = t[0].1->Table_0@;
    assert(keys_distinct(u)) by {
        assert forall|a: int, b: int| 0 <= a < b < u.len() implies (#[trigger] u[a]).0@ != (
        #[trigger] u[b]).0@ by {
            assert(ns[a].0 != ns[b].0);
        }
    }
    lemma_networks_read_back(u, ns);
}

proof fn lemma_profiles_read_back(t: Entries, ps: ProfilesModel)
    requires
        t.len() == ps.len(),
        forall|i: int| 0 <= i < ps.len() ==> networks_wf(#[trigger] ps[i].1),
        forall|i: int|
            0 <= i < ps.len() ==> (#[trigger] t[i]).0@ == ps[i].0 && encodes_profile(t[i].1, ps[i].1),
    ensures
        profiles_of(t) == Ok::<ProfilesModel, ErrorModel>(ps),
    decreases t.len(),
{
    if t.len() == 0 {
        assert(ps =~= Seq::<(Seq<char>, NetworksModel)>::empty());
    } else {
        let l = t.len() - 1;
        let (t0, rest) = (t.drop_last(), ps.drop_last());
        assert forall|i: int| 0 <= i < rest.len() implies (#[trigger] t0[i]).0@ == rest[i].0
            && encodes_profile(t0[i].1, rest[i].1) && networks_wf(rest[i].1) by {
            assert(t0[i] == t[i] && rest[i] == ps[i]);
        }
        lemma_profiles_read_back(t0, rest);
        assert(networks_wf(ps[l].1) && t[l].0@ == ps[l].0);
        lemma_profile_read_back(t[l].1, ps[l].1);
        assert(rest.push((t.last().0@, ps[l].1)) =~= ps);
    }
}

/// Reading back the document written for a well-formed store gives that store:
/// profiles, networks and their order, names, flags
/// and providers all come back as they were.
pub proof fn lemma_store_round_trip(v: Value, ps: ProfilesModel)
    requires
        profiles_wf(ps),
        encodes_store(v, ps),
    ensures
        store_of(v) == Ok::<ProfilesModel, ErrorModel>(ps),
{
    let t = v->Table_0@;
    assert(keys_distinct(t)) by {
        assert forall|a: int, b: int| 0 <= a < b < t.len() implies (#[trigger] t[a]).0@ != (
        #[trigger] t[b]).0@ by {
            assert(ps[a].0 != ps[b].0);
        }
    }
    lemma_profiles_read_back(t, ps);
}

/// A store that passes the load checks loads back, from the document written for
/// it, as the same store.
pub proof fn lemma_saved_store_loads(v: Value, ps: ProfilesModel)
    requires
        profiles_wf(ps),
        cardinality_ok(ps),
        ps.len() == 1 ==> chain_ids_distinct(ps[0].1),
        encodes_store(v, ps),
    ensures
        load_outcome(Some(v), Ok::<ProfilesModel, ErrorModel>(ps)),
{
    lemma_store_round_trip(v, ps);
}

} // verus!
