use kakarot_rpc::method_table::MethodTable;
use kakarot_rpc::registry::{
    merge_tables, DispatchTable, KakarotRpcModule, KakarotRpcModuleBuilder,
};

fn eth_table() -> MethodTable<u64> {
    let mut t: MethodTable<u64> = MethodTable::new();
    assert!(t.register("eth_chainId".to_string(), 1));
    assert!(t.register("eth_blockNumber".to_string(), 2));
    t
}

fn alchemy_table() -> MethodTable<u64> {
    let mut t: MethodTable<u64> = MethodTable::new();
    assert!(t.register("alchemy_getTokenBalances".to_string(), 3));
    t
}

#[test]
fn register_rejects_duplicate_name() {
    let mut t: MethodTable<u64> = MethodTable::new();
    assert!(t.register("eth_chainId".to_string(), 1));
    assert!(!t.register("eth_chainId".to_string(), 9));
    assert_eq!(t.len(), 1);
    // the existing binding is untouched
    assert_eq!(t.get(&"eth_chainId".to_string()), Some(1));
}

#[test]
fn method_table_lookup() {
    let t = eth_table();
    assert_eq!(t.len(), 2);
    assert!(t.contains_method(&"eth_chainId".to_string()));
    assert!(!t.contains_method(&"eth_getBalance".to_string()));
    assert_eq!(t.get(&"eth_blockNumber".to_string()), Some(2));
    assert_eq!(t.get(&"eth_getBalance".to_string()), None);
}

#[test]
fn disjoint_namespaces_merge_with_summed_size() {
    let builder = KakarotRpcModuleBuilder::new(eth_table(), alchemy_table());
    let table = builder.rpc_module().expect("disjoint namespaces must merge");
    // 2 methods from Eth + 1 from Alchemy
    assert_eq!(table.len(), 3);
}

#[test]
fn merged_table_resolves_every_method() {
    let builder = KakarotRpcModuleBuilder::new(eth_table(), alchemy_table());
    let table = builder.rpc_module().expect("disjoint namespaces must merge");
    assert_eq!(table.get(&"eth_chainId".to_string()), Some(1));
    assert_eq!(table.get(&"eth_blockNumber".to_string()), Some(2));
    assert_eq!(table.get(&"alchemy_getTokenBalances".to_string()), Some(3));
    assert_eq!(table.get(&"eth_getBalance".to_string()), None);
    assert!(!table.contains_method(&"net_version".to_string()));
}

#[test]
fn cross_namespace_collision_is_reported() {
    let mut eth: MethodTable<u64> = MethodTable::new();
    assert!(eth.register("eth_chainId".to_string(), 1));
    let mut alchemy: MethodTable<u64> = MethodTable::new();
    assert!(alchemy.register("eth_chainId".to_string(), 3));
    let builder = KakarotRpcModuleBuilder::new(eth, alchemy);
    let err = builder.rpc_module().err().expect("colliding namespaces must not merge");
    assert_eq!(err.method.as_str(), "eth_chainId");
    assert_eq!(err.first, KakarotRpcModule::Eth);
    assert_eq!(err.second, KakarotRpcModule::Alchemy);
}

#[test]
fn collision_error_names_the_colliding_method_only() {
    let mut eth: MethodTable<u64> = MethodTable::new();
    assert!(eth.register("eth_chainId".to_string(), 1));
    assert!(eth.register("eth_syncing".to_string(), 2));
    let mut alchemy: MethodTable<u64> = MethodTable::new();
    assert!(alchemy.register("alchemy_getTokenBalances".to_string(), 3));
    assert!(alchemy.register("eth_syncing".to_string(), 4));
    let builder = KakarotRpcModuleBuilder::new(eth, alchemy);
    let err = builder.rpc_module().err().expect("colliding namespaces must not merge");
    assert_eq!(err.method.as_str(), "eth_syncing");
    assert_eq!(err.first, KakarotRpcModule::Eth);
    assert_eq!(err.second, KakarotRpcModule::Alchemy);
}

#[test]
fn empty_registry_merges_to_empty_table() {
    let modules: Vec<(KakarotRpcModule, MethodTable<u64>)> = Vec::new();
    let table: DispatchTable<u64> = merge_tables(&modules).expect("an empty registry must merge");
    assert_eq!(table.len(), 0);
    assert!(!table.contains_method(&"eth_chainId".to_string()));
}

#[test]
fn empty_namespace_tables_merge_to_empty_table() {
    let builder: KakarotRpcModuleBuilder<u64> =
        KakarotRpcModuleBuilder::new(MethodTable::new(), MethodTable::new());
    let table = builder.rpc_module().expect("empty namespaces must merge");
    assert_eq!(table.len(), 0);
}

#[test]
fn building_twice_yields_equivalent_tables() {
    let builder = KakarotRpcModuleBuilder::new(eth_table(), alchemy_table());
    let t1 = builder.rpc_module().expect("disjoint namespaces must merge");
    let t2 = builder.rpc_module().expect("disjoint namespaces must merge");
    assert_eq!(t1.len(), t2.len());
    for name in ["eth_chainId", "eth_blockNumber", "alchemy_getTokenBalances"] {
        assert_eq!(t1.get(&name.to_string()), t2.get(&name.to_string()));
    }
}

#[test]
fn building_twice_yields_the_same_error() {
    let mut eth: MethodTable<u64> = MethodTable::new();
    assert!(eth.register("eth_chainId".to_string(), 1));
    let mut alchemy: MethodTable<u64> = MethodTable::new();
    assert!(alchemy.register("eth_chainId".to_string(), 3));
    let builder = KakarotRpcModuleBuilder::new(eth, alchemy);
    let e1 = builder.rpc_module().err().expect("colliding namespaces must not merge");
    let e2 = builder.rpc_module().err().expect("colliding namespaces must not merge");
    assert_eq!(e1.method, e2.method);
    assert_eq!(e1.first, e2.first);
    assert_eq!(e1.second, e2.second);
}

#[test]
fn adding_a_method_changes_only_that_method() {
    let with_builder = KakarotRpcModuleBuilder::new(eth_table(), alchemy_table());
    let with_extra = {
        let mut eth = eth_table();
        assert!(eth.register("eth_syncing".to_string(), 7));
        KakarotRpcModuleBuilder::new(eth, alchemy_table())
    };
    let base = with_builder.rpc_module().expect("disjoint namespaces must merge");
    let extended = with_extra.rpc_module().expect("disjoint namespaces must merge");
    assert_eq!(extended.len(), base.len() + 1);
    assert_eq!(extended.get(&"eth_syncing".to_string()), Some(7));
    assert_eq!(base.get(&"eth_syncing".to_string()), None);
    // every other binding is unaffected
    for name in ["eth_chainId", "eth_blockNumber", "alchemy_getTokenBalances"] {
        assert_eq!(base.get(&name.to_string()), extended.get(&name.to_string()));
    }
}

#[test]
fn within_namespace_duplicates_cannot_be_built() {
    // A method table never holds a duplicate, so a collision can only be
    // introduced across namespaces.
    let mut t: MethodTable<u64> = MethodTable::new();
    assert!(t.register("eth_chainId".to_string(), 1));
    assert!(!t.register("eth_chainId".to_string(), 2));
    assert_eq!(t.len(), 1);
}
