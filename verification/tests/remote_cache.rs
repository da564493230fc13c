use newfilenodes::MEMCACHE_VALUE_MAX_SIZE;
use newfilenodes::cache::FillHistoryError;
use newfilenodes::cache::MemcacheCache;
use newfilenodes::cache::fill_history;
use newfilenodes::cache::RemoteCache;
use newfilenodes::codec::FilenodeInfoList;
use newfilenodes::codec::deserialize_list;
use newfilenodes::codec::serialize_history;
use newfilenodes::keys::KeyGen;
use newfilenodes::keys::PathHash;
use newfilenodes::keys::get_mc_key_for_filenodes_list;
use newfilenodes::record::FilenodeInfo;
use newfilenodes::store::Store;

const REPO_ZERO: i32 = 0;
const REPO_ONE: i32 = 1;

fn filenode() -> FilenodeInfo {
    FilenodeInfo {
        path: b"copiedto".to_vec(),
        filenode: 0x1111111111111111,
        p1: None,
        p2: None,
        copyfrom: Some((b"copiedfrom".to_vec(), 0x1111111111111111)),
        linknode: 0x1111111111111111,
    }
}

fn make_test_cache() -> RemoteCache {
    let keygen = KeyGen::new(b"newfilenodes.test".to_vec(), 0, 0);
    RemoteCache::Memcache(MemcacheCache { memcache: Store::new(), keygen })
}

#[test]
fn test_store_filenode() {
    let mut cache = make_test_cache();
    let info = filenode();

    cache.fill_filenode(REPO_ZERO, &info.path.clone(), info.filenode, info.clone());

    let from_cache = cache
        .get_filenode(REPO_ZERO, &info.path.clone(), info.filenode)
        .expect("point fill should be visible");
    assert_eq!(from_cache, info);
    assert_eq!(None, cache.get_filenode(REPO_ONE, &info.path.clone(), info.filenode));
}

#[test]
fn test_store_short_history() {
    let mut cache = make_test_cache();
    let info = filenode();

    let history = vec![info.clone(), info.clone(), info.clone()];

    cache.fill_history(REPO_ZERO, &info.path.clone(), history.clone());

    let from_cache = cache
        .get_history(REPO_ZERO, &info.path.clone())
        .expect("list fill should be visible");
    assert_eq!(from_cache, history);
    assert_eq!(None, cache.get_history(REPO_ONE, &info.path.clone()));
}

#[test]
fn test_store_long_history() {
    let mut cache = make_test_cache();
    let info = filenode();

    let history = (0..100_000).map(|_| info.clone()).collect::<Vec<_>>();
    assert!(serialize_history(&history).len() >= MEMCACHE_VALUE_MAX_SIZE);

    cache.fill_history(REPO_ZERO, &info.path.clone(), history.clone());

    let from_cache = cache
        .get_history(REPO_ZERO, &info.path.clone())
        .expect("chunked list fill should be visible");
    assert_eq!(from_cache, history);
    assert_eq!(None, cache.get_history(REPO_ONE, &info.path.clone()));

    // The stored root must be a pointer list of at least two pairwise
    // distinct pointers.
    match &cache {
        RemoteCache::Memcache(mc) => {
            let path_hash = PathHash::from_repo_path(&info.path.clone());
            let root_key = get_mc_key_for_filenodes_list(&mc.keygen, REPO_ZERO, &path_hash);
            let root = mc
                .memcache
                .get(&root_key)
                .expect("transport must not fail")
                .expect("root must be present");
            match deserialize_list(&root) {
                Some(FilenodeInfoList::Pointers(ps)) => {
                    assert!(ps.len() >= 2);
                    for a in 0..ps.len() {
                        for b in (a + 1)..ps.len() {
                            assert_ne!(ps[a], ps[b]);
                        }
                    }
                }
                _ => panic!("root of an oversized list must decode as pointers"),
            }
        }
        RemoteCache::Noop => panic!("test cache must be enabled"),
    }
}

#[test]
fn test_disabled_cache_reads_absent_and_fills_do_nothing() {
    let mut cache = RemoteCache::Noop;
    let info = filenode();

    cache.fill_filenode(REPO_ZERO, &info.path.clone(), info.filenode, info.clone());
    cache.fill_history(REPO_ZERO, &info.path.clone(), vec![info.clone()]);

    assert_eq!(None, cache.get_filenode(REPO_ZERO, &info.path.clone(), info.filenode));
    assert_eq!(None, cache.get_history(REPO_ZERO, &info.path.clone()));
}

#[test]
fn test_failed_chunk_write_leaves_root_untouched() {
    // A store on which every chunk write fails: an oversized fill must
    // abort without touching the root, so an earlier short history stays
    // authoritative.
    let store = Store::new_with_failures(Vec::new(), true);
    let keygen = KeyGen::new(b"newfilenodes.test".to_vec(), 0, 0);
    let mut cache = RemoteCache::Memcache(MemcacheCache { memcache: store, keygen });
    let info = filenode();

    let short = vec![info.clone()];
    cache.fill_history(REPO_ZERO, &info.path.clone(), short.clone());
    assert_eq!(Some(short.clone()), cache.get_history(REPO_ZERO, &info.path.clone()));

    let long = (0..100_000).map(|_| info.clone()).collect::<Vec<_>>();
    cache.fill_history(REPO_ZERO, &info.path.clone(), long);

    assert_eq!(Some(short), cache.get_history(REPO_ZERO, &info.path.clone()));
}

#[test]
fn test_failed_chunk_write_with_no_previous_root_stays_absent() {
    let store = Store::new_with_failures(Vec::new(), true);
    let keygen = KeyGen::new(b"newfilenodes.test".to_vec(), 0, 0);
    let mut cache = RemoteCache::Memcache(MemcacheCache { memcache: store, keygen });
    let info = filenode();

    let long = (0..100_000).map(|_| info.clone()).collect::<Vec<_>>();
    cache.fill_history(REPO_ZERO, &info.path.clone(), long);

    assert_eq!(None, cache.get_history(REPO_ZERO, &info.path.clone()));
}

#[test]
fn test_small_fill_on_failing_root_key_reports_the_cause() {
    let keygen = KeyGen::new(b"newfilenodes.test".to_vec(), 0, 0);
    let path = b"copiedto".to_vec();
    let path_hash = PathHash::from_repo_path(&path);
    let root_key = get_mc_key_for_filenodes_list(&keygen, REPO_ZERO, &path_hash);
    let mut store = Store::new_with_failures(vec![root_key], false);

    let short = vec![filenode()];
    let r = fill_history(&mut store, &keygen, REPO_ZERO, &path_hash, &short);
    assert!(matches!(r, Err(FillHistoryError::RootStoreFailed)));

    let mut cache = RemoteCache::Memcache(MemcacheCache { memcache: store, keygen });
    assert_eq!(None, cache.get_history(REPO_ZERO, &path));
    cache.fill_history(REPO_ZERO, &path, short);
    assert_eq!(None, cache.get_history(REPO_ZERO, &path));
}

#[test]
fn test_chunked_fill_on_failing_chunks_reports_the_cause() {
    let keygen = KeyGen::new(b"newfilenodes.test".to_vec(), 0, 0);
    let path = b"copiedto".to_vec();
    let path_hash = PathHash::from_repo_path(&path);
    let mut store = Store::new_with_failures(Vec::new(), true);

    let long = (0..100_000).map(|_| filenode()).collect::<Vec<_>>();
    let r = fill_history(&mut store, &keygen, REPO_ZERO, &path_hash, &long);
    assert!(matches!(r, Err(FillHistoryError::ChunkStoreFailed)));
}

#[test]
fn test_small_fill_succeeds_on_a_clean_store() {
    let keygen = KeyGen::new(b"newfilenodes.test".to_vec(), 0, 0);
    let path = b"copiedto".to_vec();
    let path_hash = PathHash::from_repo_path(&path);
    let mut store = Store::new();

    let short = vec![filenode(), filenode()];
    let r = fill_history(&mut store, &keygen, REPO_ZERO, &path_hash, &short);
    assert!(r.is_ok());
}
