use newfilenodes::cache::ListReadEvent;
use newfilenodes::cache::MemcacheCache;
use newfilenodes::cache::PointReadEvent;
use newfilenodes::cache::fill_history;
use newfilenodes::cache::get_history_from_memcache;
use newfilenodes::cache::get_single_filenode_from_memcache;
use newfilenodes::cache::parse_u32;
use newfilenodes::codec::FilenodeInfoList;
use newfilenodes::codec::deserialize_filenode;
use newfilenodes::codec::deserialize_list;
use newfilenodes::codec::serialize_filenode;
use newfilenodes::codec::serialize_history;
use newfilenodes::keys::CacheKey;
use newfilenodes::keys::KeyGen;
use newfilenodes::keys::PathHash;
use newfilenodes::keys::get_mc_key_for_filenodes_list;
use newfilenodes::keys::get_mc_key_for_single_filenode;
use newfilenodes::pointers::PointersIter;
use newfilenodes::record::FilenodeInfo;
use newfilenodes::render::render_key;
use newfilenodes::store::Store;
use newfilenodes::ttl::TTL_SEC;
use newfilenodes::ttl::TTL_SEC_RAND;
use newfilenodes::ttl::chunk_ttl;
use newfilenodes::ttl::root_ttl_from_draw;

fn sample() -> FilenodeInfo {
    FilenodeInfo {
        path: b"dir/file.txt".to_vec(),
        filenode: 42,
        p1: Some(7),
        p2: None,
        copyfrom: None,
        linknode: 99,
    }
}

#[test]
fn test_point_codec_round_trip() {
    let info = sample();
    let bytes = serialize_filenode(&info);
    assert_eq!(Some(info), deserialize_filenode(&bytes));
}

#[test]
fn test_list_codec_round_trip() {
    let history = vec![sample(), FilenodeInfo {
        path: Vec::new(),
        filenode: 0,
        p1: None,
        p2: None,
        copyfrom: Some((b"origin".to_vec(), u64::MAX)),
        linknode: u64::MAX,
    }];
    let bytes = serialize_history(&history);
    match deserialize_list(&bytes) {
        Some(FilenodeInfoList::Data(rs)) => assert_eq!(rs, history),
        _ => panic!("an encoded list must decode as inline data"),
    }
}

#[test]
fn test_truncated_point_payload_is_absent() {
    let info = sample();
    let mut bytes = serialize_filenode(&info);
    bytes.truncate(bytes.len() - 1);
    assert_eq!(None, deserialize_filenode(&bytes));
    assert_eq!(None, deserialize_filenode(&Vec::new()));
}

#[test]
fn test_mangled_list_payload_is_absent() {
    let history = vec![sample()];
    let mut bytes = serialize_history(&history);
    bytes.truncate(bytes.len() - 2);
    assert_eq!(None, deserialize_list(&bytes));

    // An unknown leading tag decodes as the forward-compatibility variant,
    // which readers treat as a miss.
    let unknown = vec![77u8, 1, 2, 3];
    assert!(matches!(deserialize_list(&unknown), Some(FilenodeInfoList::UnknownField)));
}

#[test]
fn test_corrupt_root_and_chunk_payloads_read_as_absent() {
    let mut store = Store::new();
    let keygen = KeyGen::new(b"newfilenodes.test".to_vec(), 0, 0);
    let path = b"somewhere".to_vec();
    let path_hash = PathHash::from_repo_path(&path);

    let root_key = get_mc_key_for_filenodes_list(&keygen, 0, &path_hash);
    let point_key = get_mc_key_for_single_filenode(&keygen, 0, 42, &path_hash);
    store.set(root_key, vec![1u8, 0, 0, 0]).expect("store must accept the value");
    store.set(point_key, vec![255u8, 255, 255]).expect("store must accept the value");

    let mut cache = newfilenodes::cache::RemoteCache::Memcache(MemcacheCache {
        memcache: store,
        keygen,
    });
    assert_eq!(None, cache.get_history(0, &path));
    assert_eq!(None, cache.get_filenode(0, &path, 42));
    // Corruption never breaks later fills of the same keys.
    let info = sample();
    cache.fill_filenode(0, &path, 42, info.clone());
    assert_eq!(Some(info), cache.get_filenode(0, &path, 42));
}

#[test]
fn test_chunk_ttl_dominates_every_root_ttl() {
    let draws = [0u64, 1, 1799, 1800, 12345, u64::MAX];
    for d in draws {
        let root = root_ttl_from_draw(d);
        assert!(root >= TTL_SEC);
        assert!(root < TTL_SEC + TTL_SEC_RAND);
        assert!(chunk_ttl() >= root);
    }
    assert_eq!(TTL_SEC + TTL_SEC_RAND, chunk_ttl());
    assert_eq!(TTL_SEC + 45, root_ttl_from_draw(1800 + 45));
}

#[test]
fn test_pointers_are_pairwise_distinct() {
    let mut it = PointersIter::new();
    let mut drawn: Vec<i64> = Vec::new();
    for _ in 0..100 {
        let p = it.next().expect("collisions must not exhaust the retries");
        drawn.push(p);
    }
    for a in 0..drawn.len() {
        for b in (a + 1)..drawn.len() {
            assert_ne!(drawn[a], drawn[b]);
        }
    }
}

#[test]
fn test_sitever_override_parsing() {
    assert_eq!(Some(0), parse_u32(&b"0".to_vec()));
    assert_eq!(Some(4294967295), parse_u32(&b"4294967295".to_vec()));
    assert_eq!(None, parse_u32(&b"4294967296".to_vec()));
    assert_eq!(None, parse_u32(&b"".to_vec()));
    assert_eq!(None, parse_u32(&b"12a".to_vec()));

    let cache = MemcacheCache::new(
        Store::new(),
        &b"store".to_vec(),
        &b"params".to_vec(),
        Some(b"7".to_vec()),
    );
    assert_eq!(7, cache.keygen.sitever);
    let mut expected_prefix = b"scm.mononoke.filenodes.".to_vec();
    expected_prefix.extend_from_slice(b"store");
    expected_prefix.push(b'.');
    expected_prefix.extend_from_slice(b"params");
    assert_eq!(expected_prefix, cache.keygen.prefix);

    let fallback = MemcacheCache::new(
        Store::new(),
        &b"store".to_vec(),
        &b"params".to_vec(),
        Some(b"not a number".to_vec()),
    );
    assert_eq!(newfilenodes::cache::MC_SITEVER, fallback.keygen.sitever);
}

#[test]
fn test_keys_distinguish_repositories_and_shapes() {
    let keygen = KeyGen::new(b"p".to_vec(), 1, 2);
    let path_hash = PathHash::from_repo_path(&b"x".to_vec());
    let a = get_mc_key_for_single_filenode(&keygen, 0, 9, &path_hash);
    let b = get_mc_key_for_single_filenode(&keygen, 1, 9, &path_hash);
    match (a, b) {
        (
            CacheKey::Point { repo_id: ra, digest: da, .. },
            CacheKey::Point { repo_id: rb, digest: db, .. },
        ) => {
            assert_ne!(ra, rb);
            assert_eq!(da, db);
            assert_eq!(64, da.len());
        }
        _ => panic!("point key builder must build point keys"),
    }
}

#[test]
fn test_rendered_keys_are_pairwise_distinct() {
    let keygen = KeyGen::new(b"prefix.p".to_vec(), 3, 0);
    let hash_a = PathHash::from_repo_path(&b"a".to_vec());
    let hash_b = PathHash::from_repo_path(&b"b".to_vec());
    let keys = vec![
        get_mc_key_for_single_filenode(&keygen, 0, 9, &hash_a),
        get_mc_key_for_single_filenode(&keygen, 1, 9, &hash_a),
        get_mc_key_for_single_filenode(&keygen, 0, 10, &hash_a),
        get_mc_key_for_single_filenode(&keygen, 0, 9, &hash_b),
        get_mc_key_for_filenodes_list(&keygen, 0, &hash_a),
        get_mc_key_for_filenodes_list(&keygen, 1, &hash_a),
        newfilenodes::keys::get_mc_key_for_filenodes_list_chunk(&keygen, 0, &hash_a, 5),
        newfilenodes::keys::get_mc_key_for_filenodes_list_chunk(&keygen, 0, &hash_a, -5),
    ];
    let rendered: Vec<Vec<u8>> = keys.iter().map(render_key).collect();
    for a in 0..rendered.len() {
        for b in (a + 1)..rendered.len() {
            assert_ne!(rendered[a], rendered[b]);
        }
    }
}

#[test]
fn test_read_events_name_each_failure_mode() {
    let keygen = KeyGen::new(b"newfilenodes.test".to_vec(), 0, 0);
    let path = b"watched".to_vec();
    let path_hash = PathHash::from_repo_path(&path);
    let mut store = Store::new();

    // Miss before any fill.
    let (r, ev) = get_single_filenode_from_memcache(&store, &keygen, 0, 7, &path_hash);
    assert_eq!((None, PointReadEvent::Miss), (r, ev));
    let (r, ev) = get_history_from_memcache(&store, &keygen, 0, &path_hash);
    assert_eq!((None, ListReadEvent::Miss), (r, ev));

    // Inline hit after a small fill.
    let history = vec![sample()];
    fill_history(&mut store, &keygen, 0, &path_hash, &history).expect("clean store");
    let (r, ev) = get_history_from_memcache(&store, &keygen, 0, &path_hash);
    assert_eq!(Some(history.clone()), r);
    assert_eq!(ListReadEvent::HitData, ev);

    // Chunked hit after a large fill.
    let long = (0..100_000).map(|_| sample()).collect::<Vec<_>>();
    fill_history(&mut store, &keygen, 0, &path_hash, &long).expect("clean store");
    let (r, ev) = get_history_from_memcache(&store, &keygen, 0, &path_hash);
    assert_eq!(Some(long), r);
    assert_eq!(ListReadEvent::HitChunked, ev);

    // Corrupt payload is a deserialize error.
    let root_key = get_mc_key_for_filenodes_list(&keygen, 0, &path_hash);
    store.set(root_key, vec![1u8, 2, 3]).expect("store must accept the value");
    let (r, ev) = get_history_from_memcache(&store, &keygen, 0, &path_hash);
    assert_eq!((None, ListReadEvent::DeserializeErr), (r, ev));

    // A failing key is an internal error.
    let point_key = get_mc_key_for_single_filenode(&keygen, 0, 7, &path_hash);
    let failing = Store::new_with_failures(vec![point_key], false);
    let (r, ev) = get_single_filenode_from_memcache(&failing, &keygen, 0, 7, &path_hash);
    assert_eq!((None, PointReadEvent::InternalErr), (r, ev));
}
