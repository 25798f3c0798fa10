use staking_ledger::rpc::{Path, PathParseError, Payload};

fn read(text: &str) -> Path {
    Path::from_str(text).unwrap()
}

#[test]
fn bare_paths_are_read() {
    assert!(matches!(read("dry_run_tx"), Path::DryRunTx));
    assert!(matches!(read("epoch"), Path::Epoch));
    assert!(matches!(read("results"), Path::Results));
}

#[test]
fn paths_with_a_storage_key_are_read() {
    match read("value/some/storage/key") {
        Path::Value(key) => assert_eq!(key, "some/storage/key"),
        other => panic!("unexpected {:?}", other),
    }
    match read("prefix/some") {
        Path::Prefix(key) => assert_eq!(key, "some"),
        other => panic!("unexpected {:?}", other),
    }
    match read("has_key/#atest1v4ehgw36/balance") {
        Path::HasKey(key) => assert_eq!(key, "#atest1v4ehgw36/balance"),
        other => panic!("unexpected {:?}", other),
    }
}

#[test]
fn path_with_an_asset_type_is_read() {
    match read("conversion-prefix/0123abcd") {
        Path::Conversion(asset) => assert_eq!(asset, "0123abcd"),
        other => panic!("unexpected {:?}", other),
    }
}

#[test]
fn path_with_an_empty_payload_is_read() {
    match read("value/") {
        Path::Value(key) => assert_eq!(key, ""),
        other => panic!("unexpected {:?}", other),
    }
}

#[test]
fn paths_are_written_as_text() {
    assert_eq!(Path::DryRunTx.to_string(), "dry_run_tx");
    assert_eq!(Path::Epoch.to_string(), "epoch");
    assert_eq!(Path::Results.to_string(), "results");
    assert_eq!(Path::Value("a/b".to_string()).to_string(), "value/a/b");
    assert_eq!(Path::Prefix("a".to_string()).to_string(), "prefix/a");
    assert_eq!(Path::HasKey("a/b/c".to_string()).to_string(), "has_key/a/b/c");
    assert_eq!(Path::Conversion("00ff".to_string()).to_string(), "conversion-prefix/00ff");
}

#[test]
fn read_paths_are_written_as_they_were() {
    for text in [
        "dry_run_tx",
        "epoch",
        "results",
        "value/k",
        "value/some/storage/key",
        "value/",
        "prefix/some",
        "prefix//",
        "has_key/a/b",
        "conversion-prefix/0123abcd",
        "conversion-prefix/",
    ] {
        assert_eq!(read(text).to_string(), text);
    }
}

#[test]
fn written_paths_are_read_as_they_were() {
    let paths = [
        Path::DryRunTx,
        Path::Epoch,
        Path::Results,
        Path::Value("epoch".to_string()),
        Path::Prefix("value/x".to_string()),
        Path::HasKey("".to_string()),
        Path::Conversion("a/b".to_string()),
    ];
    for path in paths {
        let text = path.to_string();
        let again = read(&text);
        assert_eq!(format!("{:?}", again), format!("{:?}", path));
    }
}

fn refused(text: &str) {
    match Path::from_str(text) {
        Err(PathParseError::InvalidPath(held)) => assert_eq!(held, text),
        other => panic!("unexpected {:?}", other),
    }
}

#[test]
fn unrecognized_paths_are_refused() {
    refused("");
    refused("/");
    refused("value");
    refused("prefix");
    refused("has_key");
    refused("conversion-prefix");
    refused("unknown");
    refused("unknown/key");
    refused("Value/key");
    refused("epoch/");
    refused("results/1");
    refused("dry_run_tx/x");
    refused(" value/key");
    refused("/value/key");
    refused("values/key");
    refused("conv/0123");
    refused("conversion/0123");
    refused("\u{e9}poch");
}

#[test]
fn a_verdict_settles_a_path_with_a_storage_key() {
    let settled = read("value/key").checked(Ok(()));
    assert!(matches!(settled, Ok(Path::Value(_))));
    match read("value/key").checked(Err("bad key".to_string())) {
        Err(PathParseError::InvalidStorageKey(said)) => assert_eq!(said, "bad key"),
        other => panic!("unexpected {:?}", other),
    }
    match read("prefix/key").checked(Err("bad prefix".to_string())) {
        Err(PathParseError::InvalidStorageKey(said)) => assert_eq!(said, "bad prefix"),
        other => panic!("unexpected {:?}", other),
    }
    match read("has_key/key").checked(Err("bad".to_string())) {
        Err(PathParseError::InvalidStorageKey(said)) => assert_eq!(said, "bad"),
        other => panic!("unexpected {:?}", other),
    }
}

#[test]
fn a_verdict_settles_a_path_with_an_asset_type() {
    let settled = read("conversion-prefix/00ff").checked(Ok(()));
    assert!(matches!(settled, Ok(Path::Conversion(_))));
    match read("conversion-prefix/zz").checked(Err("unable to read AssetType".to_string())) {
        Err(PathParseError::InvalidAssetType(said)) => assert_eq!(said, "unable to read AssetType"),
        other => panic!("unexpected {:?}", other),
    }
}

#[test]
fn a_bare_path_stands_whatever_the_verdict() {
    assert!(matches!(read("epoch").checked(Ok(())), Ok(Path::Epoch)));
    assert!(matches!(read("epoch").checked(Err("x".to_string())), Ok(Path::Epoch)));
    assert!(matches!(read("results").checked(Err("x".to_string())), Ok(Path::Results)));
    assert!(matches!(read("dry_run_tx").checked(Err("x".to_string())), Ok(Path::DryRunTx)));
}

#[test]
fn a_path_tells_what_it_carries() {
    assert!(matches!(read("epoch").payload(), Payload::Bare));
    assert!(matches!(read("results").payload(), Payload::Bare));
    assert!(matches!(read("dry_run_tx").payload(), Payload::Bare));
    match read("value/a/b").payload() {
        Payload::StorageKey(key) => assert_eq!(key, "a/b"),
        other => panic!("unexpected {:?}", other),
    }
    match read("prefix/a").payload() {
        Payload::StorageKey(key) => assert_eq!(key, "a"),
        other => panic!("unexpected {:?}", other),
    }
    match read("has_key/k").payload() {
        Payload::StorageKey(key) => assert_eq!(key, "k"),
        other => panic!("unexpected {:?}", other),
    }
    match read("conversion-prefix/00ff").payload() {
        Payload::AssetType(asset) => assert_eq!(asset, "00ff"),
        other => panic!("unexpected {:?}", other),
    }
}
