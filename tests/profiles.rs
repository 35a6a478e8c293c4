use starkli_profiles::{
    is_false, ChainId, FreeProviderVendor, Network, NetworkProvider, Profile, ProfileError, Profiles,
    Value,
};

fn text(s: &str) -> Value {
    Value::Str(s.to_string())
}

fn table(entries: Vec<(&str, Value)>) -> Value {
    Value::Table(entries.into_iter().map(|(k, v)| (k.to_string(), v)).collect())
}

fn network_doc(chain_id: &str, provider: Value) -> Value {
    table(vec![("chain_id", text(chain_id)), ("provider", provider)])
}

fn store_doc(profiles: Vec<(&str, Vec<(&str, Value)>)>) -> Value {
    table(
        profiles
            .into_iter()
            .map(|(name, networks)| (name, table(vec![("networks", table(networks))])))
            .collect(),
    )
}

fn entries(v: &Value) -> &Vec<(String, Value)> {
    match v {
        Value::Table(es) => es,
        _ => panic!("not a table"),
    }
}

fn keys(v: &Value) -> Vec<String> {
    entries(v).iter().map(|(k, _)| k.clone()).collect()
}

#[test]
fn chain_id_packs_big_endian() {
    let id = ChainId::from_short_string("SN_MAIN").unwrap();
    let bytes = id.as_bytes();
    assert_eq!(bytes.len(), 32);
    assert!(bytes[..25].iter().all(|b| *b == 0));
    assert_eq!(&bytes[25..], b"SN_MAIN");
}

#[test]
fn chain_id_round_trip() {
    let id = ChainId::from_short_string("SN_GOERLI").unwrap();
    assert_eq!(id.to_short_string().unwrap(), "SN_GOERLI");
    let again = ChainId::from_short_string(&id.to_short_string().unwrap()).unwrap();
    assert!(again.same_as(&id));
}

#[test]
fn chain_id_empty_text_is_zero() {
    let id = ChainId::from_short_string("").unwrap();
    assert!(id.as_bytes().iter().all(|b| *b == 0));
    assert_eq!(id.to_short_string().unwrap(), "");
}

#[test]
fn chain_id_rejects_non_ascii() {
    assert!(ChainId::from_short_string("SN_MAIN\u{e9}").is_none());
}

#[test]
fn chain_id_rejects_over_length() {
    let long = "a".repeat(32);
    assert!(ChainId::from_short_string(&long).is_none());
    let longest = "a".repeat(31);
    assert!(ChainId::from_short_string(&longest).is_some());
}

#[test]
fn chain_id_with_embedded_nul_has_no_text() {
    let id = ChainId::from_short_string("a\0b").unwrap();
    assert!(id.to_short_string().is_none());
}

#[test]
fn shorthand_provider_is_rpc() {
    let p = NetworkProvider::decode(&text("https://example.com/rpc")).unwrap();
    match p {
        NetworkProvider::Rpc(u) => assert_eq!(u, "https://example.com/rpc"),
        other => panic!("unexpected {:?}", other),
    }
}

#[test]
fn rpc_url_is_normalized() {
    match NetworkProvider::rpc("https://example.com").unwrap() {
        NetworkProvider::Rpc(u) => assert_eq!(u, "https://example.com/"),
        other => panic!("unexpected {:?}", other),
    }
}

#[test]
fn tagged_free_provider_is_free() {
    let v = table(vec![("type", text("free")), ("vendor", text("blast"))]);
    match NetworkProvider::decode(&v).unwrap() {
        NetworkProvider::Free(FreeProviderVendor::Blast) => {}
        other => panic!("unexpected {:?}", other),
    }
    let v = table(vec![("vendor", text("nethermind")), ("type", text("free"))]);
    match NetworkProvider::decode(&v).unwrap() {
        NetworkProvider::Free(FreeProviderVendor::Nethermind) => {}
        other => panic!("unexpected {:?}", other),
    }
}

#[test]
fn vendor_names_ignore_case() {
    let v = table(vec![("type", text("free")), ("vendor", text("Blast"))]);
    assert!(matches!(
        NetworkProvider::decode(&v),
        Some(NetworkProvider::Free(FreeProviderVendor::Blast))
    ));
    let v = table(vec![("type", text("free")), ("vendor", text("NETHERMIND"))]);
    assert!(matches!(
        NetworkProvider::decode(&v),
        Some(NetworkProvider::Free(FreeProviderVendor::Nethermind))
    ));
    let v = table(vec![("type", text("free")), ("vendor", text("blast\u{e9}"))]);
    assert!(NetworkProvider::decode(&v).is_none());
    let v = table(vec![("type", text("free")), ("vendor", text("blas"))]);
    assert!(NetworkProvider::decode(&v).is_none());
}

#[test]
fn tagged_rpc_provider_is_rpc() {
    let v = table(vec![("type", text("rpc")), ("url", text("https://example.com/rpc"))]);
    match NetworkProvider::decode(&v).unwrap() {
        NetworkProvider::Rpc(u) => assert_eq!(u, "https://example.com/rpc"),
        other => panic!("unexpected {:?}", other),
    }
}

#[test]
fn provider_shapes_refused() {
    assert!(NetworkProvider::decode(&text("not a url")).is_none());
    assert!(NetworkProvider::decode(&Value::Bool(true)).is_none());
    assert!(NetworkProvider::decode(&Value::Other).is_none());
    let unknown_tag = table(vec![("type", text("paid")), ("vendor", text("blast"))]);
    assert!(NetworkProvider::decode(&unknown_tag).is_none());
    let unknown_vendor = table(vec![("type", text("free")), ("vendor", text("infura"))]);
    assert!(NetworkProvider::decode(&unknown_vendor).is_none());
    let extra = table(vec![
        ("type", text("free")),
        ("vendor", text("blast")),
        ("url", text("https://example.com/")),
    ]);
    assert!(NetworkProvider::decode(&extra).is_none());
    let bad_url = table(vec![("type", text("rpc")), ("url", text("nope"))]);
    assert!(NetworkProvider::decode(&bad_url).is_none());
    let missing_url = table(vec![("type", text("rpc"))]);
    assert!(NetworkProvider::decode(&missing_url).is_none());
}

#[test]
fn providers_encode_rpc_as_shorthand() {
    let rpc = NetworkProvider::rpc("https://example.com/rpc").unwrap();
    match rpc.encode() {
        Value::Str(s) => assert_eq!(s, "https://example.com/rpc"),
        other => panic!("unexpected {:?}", other),
    }
    let tagged = table(vec![("type", text("rpc")), ("url", text("https://example.com/rpc"))]);
    match NetworkProvider::decode(&tagged).unwrap().encode() {
        Value::Str(s) => assert_eq!(s, "https://example.com/rpc"),
        other => panic!("unexpected {:?}", other),
    }
    let free = NetworkProvider::Free(FreeProviderVendor::Nethermind).encode();
    assert_eq!(keys(&free), vec!["type", "vendor"]);
    match &entries(&free)[1].1 {
        Value::Str(s) => assert_eq!(s, "nethermind"),
        other => panic!("unexpected {:?}", other),
    }
}

#[test]
fn vendor_titles() {
    assert_eq!(FreeProviderVendor::Blast.title(), "Blast");
    assert_eq!(FreeProviderVendor::Nethermind.title(), "Nethermind");
}

#[test]
fn network_extra_field_refused() {
    let v = table(vec![
        ("chain_id", text("SN_MAIN")),
        ("provider", text("https://example.com/rpc")),
        ("colour", text("blue")),
    ]);
    assert!(matches!(Network::decode(&v), Err(ProfileError::SchemaViolation)));
}

#[test]
fn network_bad_chain_id_refused() {
    let v = network_doc("SN_MAIN\u{e9}", text("https://example.com/rpc"));
    match Network::decode(&v) {
        Err(ProfileError::InvalidShortString(s)) => assert_eq!(s, "SN_MAIN\u{e9}"),
        other => panic!("unexpected {:?}", other),
    }
    let long = "b".repeat(40);
    let v = network_doc(&long, text("https://example.com/rpc"));
    assert!(matches!(Network::decode(&v), Err(ProfileError::InvalidShortString(_))));
}

#[test]
fn network_field_shapes() {
    let v = table(vec![("chain_id", text("SN_MAIN"))]);
    assert!(matches!(Network::decode(&v), Err(ProfileError::SchemaViolation)));
    let v = table(vec![
        ("chain_id", text("SN_MAIN")),
        ("is_integration", text("yes")),
        ("provider", text("https://example.com/rpc")),
    ]);
    assert!(matches!(Network::decode(&v), Err(ProfileError::SchemaViolation)));
    let v = table(vec![
        ("name", text("Mainnet")),
        ("chain_id", text("SN_MAIN")),
        ("is_integration", Value::Bool(true)),
        ("provider", text("https://example.com/rpc")),
    ]);
    let n = Network::decode(&v).unwrap();
    assert_eq!(n.name.as_deref(), Some("Mainnet"));
    assert!(n.is_integration);
}

#[test]
fn network_default_elision() {
    let n = Network {
        name: None,
        chain_id: ChainId::from_short_string("SN_MAIN").unwrap(),
        is_integration: false,
        provider: NetworkProvider::rpc("https://example.com/rpc").unwrap(),
    };
    let v = n.encode().unwrap();
    assert_eq!(keys(&v), vec!["chain_id", "provider"]);
    let back = Network::decode(&v).unwrap();
    assert!(back.name.is_none());
    assert!(!back.is_integration);
    assert!(back.chain_id.same_as(&n.chain_id));
    match back.provider {
        NetworkProvider::Rpc(u) => assert_eq!(u, "https://example.com/rpc"),
        other => panic!("unexpected {:?}", other),
    }
}

#[test]
fn network_full_round_trip() {
    let n = Network {
        name: Some("Integration".to_string()),
        chain_id: ChainId::from_short_string("SN_INTEGRATION").unwrap(),
        is_integration: true,
        provider: NetworkProvider::Free(FreeProviderVendor::Blast),
    };
    let v = n.encode().unwrap();
    assert_eq!(keys(&v), vec!["name", "chain_id", "is_integration", "provider"]);
    let back = Network::decode(&v).unwrap();
    assert_eq!(back.name.as_deref(), Some("Integration"));
    assert!(back.is_integration);
    assert!(back.chain_id.same_as(&n.chain_id));
    assert!(matches!(back.provider, NetworkProvider::Free(FreeProviderVendor::Blast)));
}

#[test]
fn network_with_textless_chain_id_cannot_be_written() {
    let n = Network {
        name: None,
        chain_id: ChainId::from_short_string("a\0b").unwrap(),
        is_integration: false,
        provider: NetworkProvider::Free(FreeProviderVendor::Blast),
    };
    assert!(matches!(n.encode(), Err(ProfileError::UnencodableChainId(_))));
}

#[test]
fn save_built_store() {
    let mut networks = indexmap::IndexMap::new();
    networks.insert(
        "sepolia".to_string(),
        Network {
            name: Some("Sepolia".to_string()),
            chain_id: ChainId::from_short_string("SN_SEPOLIA").unwrap(),
            is_integration: false,
            provider: NetworkProvider::Free(FreeProviderVendor::Nethermind),
        },
    );
    let mut store = Profiles::new();
    store.profiles.insert("default".to_string(), Profile { networks });
    let saved = store.save().unwrap();
    let net = &entries(&entries(&entries(&saved)[0].1)[0].1)[0].1;
    assert_eq!(keys(net), vec!["name", "chain_id", "provider"]);
    match &entries(net)[1].1 {
        Value::Str(s) => assert_eq!(s, "SN_SEPOLIA"),
        other => panic!("unexpected {:?}", other),
    }
}

#[test]
fn is_false_flags() {
    assert!(is_false(&false));
    assert!(!is_false(&true));
}

#[test]
fn load_absent_is_empty() {
    let store = Profiles::load(None).unwrap();
    assert!(store.profiles.is_empty());
}

#[test]
fn load_two_profiles_refused() {
    let doc = store_doc(vec![
        ("default", vec![("mainnet", network_doc("SN_MAIN", text("https://a.example/")))]),
        ("other", vec![]),
    ]);
    assert!(matches!(Profiles::load(Some(&doc)), Err(ProfileError::CardinalityViolation)));
}

#[test]
fn load_custom_profile_refused() {
    let doc = store_doc(vec![("custom", vec![])]);
    assert!(matches!(Profiles::load(Some(&doc)), Err(ProfileError::CardinalityViolation)));
}

#[test]
fn load_default_profile_accepted() {
    let doc = store_doc(vec![(
        "default",
        vec![
            ("mainnet", network_doc("SN_MAIN", text("https://a.example/rpc"))),
            (
                "sepolia",
                network_doc(
                    "SN_SEPOLIA",
                    table(vec![("type", text("free")), ("vendor", text("blast"))]),
                ),
            ),
        ],
    )]);
    let store = Profiles::load(Some(&doc)).unwrap();
    assert_eq!(store.profiles.len(), 1);
    assert_eq!(store.profiles.get_index(0).unwrap().0, "default");
    let nets = &store.profiles["default"].networks;
    assert_eq!(nets.len(), 2);
    assert_eq!(nets.get_index(0).unwrap().0, "mainnet");
    assert_eq!(nets.get_index(1).unwrap().0, "sepolia");
    assert!(matches!(
        nets["sepolia"].provider,
        NetworkProvider::Free(FreeProviderVendor::Blast)
    ));
}

#[test]
fn load_duplicate_chain_id_refused() {
    let doc = store_doc(vec![(
        "default",
        vec![
            ("mainnet", network_doc("SN_MAIN", text("https://a.example/rpc"))),
            ("mainnet2", network_doc("SN_MAIN", text("https://b.example/rpc"))),
        ],
    )]);
    match Profiles::load(Some(&doc)) {
        Err(ProfileError::DuplicateChainId { first, second, chain_id }) => {
            assert_eq!(first, "mainnet");
            assert_eq!(second, "mainnet2");
            assert_eq!(chain_id.to_short_string().unwrap(), "SN_MAIN");
        }
        other => panic!("unexpected {:?}", other),
    }
    let doc = store_doc(vec![(
        "default",
        vec![
            ("mainnet", network_doc("SN_MAIN", text("https://a.example/rpc"))),
            ("mainnet2", network_doc("SN_SEPOLIA", text("https://b.example/rpc"))),
        ],
    )]);
    assert!(Profiles::load(Some(&doc)).is_ok());
}

#[test]
fn load_shape_errors() {
    assert!(matches!(Profiles::load(Some(&text("x"))), Err(ProfileError::SchemaViolation)));
    let doc = table(vec![("default", table(vec![("networks", table(vec![])), ("x", text("y"))]))]);
    assert!(matches!(Profiles::load(Some(&doc)), Err(ProfileError::SchemaViolation)));
    let doc = table(vec![("default", table(vec![]))]);
    assert!(matches!(Profiles::load(Some(&doc)), Err(ProfileError::SchemaViolation)));
    let doc = store_doc(vec![("default", vec![("bad", network_doc("\u{e9}", text("https://a.example/")))])]);
    assert!(matches!(Profiles::load(Some(&doc)), Err(ProfileError::InvalidShortString(_))));
}

#[test]
fn save_then_load() {
    let doc = store_doc(vec![(
        "default",
        vec![
            ("mainnet", network_doc("SN_MAIN", table(vec![("type", text("rpc")), ("url", text("https://a.example/rpc"))]))),
        ],
    )]);
    let store = Profiles::load(Some(&doc)).unwrap();
    let saved = store.save().unwrap();
    assert_eq!(keys(&saved), vec!["default"]);
    let profile = &entries(&saved)[0].1;
    assert_eq!(keys(profile), vec!["networks"]);
    let nets = &entries(profile)[0].1;
    assert_eq!(keys(nets), vec!["mainnet"]);
    let net = &entries(nets)[0].1;
    assert_eq!(keys(net), vec!["chain_id", "provider"]);
    match &entries(net)[1].1 {
        Value::Str(s) => assert_eq!(s, "https://a.example/rpc"),
        other => panic!("unexpected {:?}", other),
    }
    let again = Profiles::load(Some(&saved)).unwrap();
    assert_eq!(again.profiles["default"].networks.get_index(0).unwrap().0, "mainnet");
}
