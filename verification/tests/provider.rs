use chunk_store::error::Error;
use chunk_store::fs::{chunk_index_of_path, uploaded_chunks_from_paths, FsProvider};
use chunk_store::memory::MemoryProvider;
use chunk_store::streamer::Streamer;

#[test]
fn enumeration_returns_pushed_indices_sorted() {
    let mut store = MemoryProvider::new();
    store.push("f", 2, b"two".as_slice());
    store.push("f", 0, b"zero".as_slice());
    store.push("f", 1, b"one".as_slice());
    store.push("f", 1, b"one again".as_slice());
    store.push("g", 7, b"other file".as_slice());
    assert_eq!(store.get_uploaded_chunks("f"), vec![0, 1, 2]);
    assert_eq!(store.get_uploaded_chunks("g"), vec![7]);
}

#[test]
fn push_then_pull_round_trips() {
    let mut store = MemoryProvider::new();
    store.push("f", 0, b"hello".as_slice());
    assert_eq!(store.pull("f", 0), Ok(b"hello".to_vec()));
    store.push("f", 0, b"world".as_slice());
    assert_eq!(store.pull("f", 0), Ok(b"world".to_vec()));
}

#[test]
fn push_empty_payload_round_trips() {
    let mut store = MemoryProvider::new();
    store.push("f", 0, b"".as_slice());
    assert_eq!(store.pull("f", 0), Ok(Vec::new()));
}

#[test]
fn pull_of_absent_chunk_is_not_found() {
    let store = MemoryProvider::new();
    assert_eq!(store.pull("f", 0), Err(Error::NotFound));
}

#[test]
fn stream_yields_blocks_in_ascending_chunk_order() {
    let mut store = MemoryProvider::new();
    store.push("f", 2, b"C".as_slice());
    store.push("f", 0, b"A".as_slice());
    store.push("f", 1, b"B".as_slice());
    let blocks = store.stream("f", None).unwrap();
    assert_eq!(blocks, vec![b"A".to_vec(), b"B".to_vec(), b"C".to_vec()]);
}

#[test]
fn stream_of_one_chunk_yields_that_chunk() {
    let mut store = MemoryProvider::new();
    store.push("f", 1, b"B".as_slice());
    assert_eq!(store.stream("f", Some(1)), Ok(vec![b"B".to_vec()]));
    assert_eq!(store.stream("f", Some(0)), Err(Error::NotFound));
}

#[test]
fn purge_leaves_nothing_of_the_filename() {
    let mut store = MemoryProvider::new();
    store.push("f", 0, b"a".as_slice());
    store.push("f", 1, b"b".as_slice());
    store.push("g", 0, b"kept".as_slice());
    store.purge("f");
    assert_eq!(store.get_uploaded_chunks("f"), Vec::<i32>::new());
    assert!(!store.chunk_exists("f", 0));
    assert!(!store.chunk_exists("f", 1));
    assert_eq!(store.pull("g", 0), Ok(b"kept".to_vec()));
}

#[test]
fn exists_is_false_before_push_and_true_after() {
    let mut store = MemoryProvider::new();
    assert!(!store.chunk_exists("f", 3));
    store.push("f", 3, b"x".as_slice());
    assert!(store.chunk_exists("f", 3));
    assert!(!store.chunk_exists("f", 2));
}

#[test]
fn non_numeric_suffix_is_an_internal_error() {
    assert_eq!(
        chunk_index_of_path("/data/foo.bar.part"),
        Err(Error::InternalError)
    );
    let paths = vec![
        "/data/foo.0.part".to_string(),
        "/data/foo.bar.part".to_string(),
    ];
    assert_eq!(uploaded_chunks_from_paths(&paths), Err(Error::InternalError));
}

#[test]
fn chunk_index_is_the_token_before_part() {
    assert_eq!(chunk_index_of_path("/data/1700000000-abc.17.part"), Ok(17));
    assert_eq!(chunk_index_of_path("/da.ta/a.b.c.3.part"), Ok(3));
    assert_eq!(chunk_index_of_path("/data/f.-4.part"), Ok(-4));
    assert_eq!(chunk_index_of_path("/data/f.2147483647.part"), Ok(i32::MAX));
    assert_eq!(
        chunk_index_of_path("/data/f.2147483648.part"),
        Err(Error::InternalError)
    );
    assert_eq!(chunk_index_of_path("/data/f..part"), Err(Error::InternalError));
}

#[test]
fn enumerated_paths_come_back_sorted() {
    let paths = vec![
        "/d/f.2.part".to_string(),
        "/d/f.0.part".to_string(),
        "/d/f.10.part".to_string(),
    ];
    assert_eq!(uploaded_chunks_from_paths(&paths), Ok(vec![0, 2, 10]));
    assert_eq!(uploaded_chunks_from_paths(&Vec::new()), Ok(Vec::new()));
}

#[test]
fn full_path_maps_root_filename_and_chunk() {
    let provider = FsProvider::new("/data");
    assert_eq!(provider.full_path("1700000000-abc", "0"), "/data/1700000000-abc.0.part");
    assert_eq!(provider.chunk_path("f", 12), "/data/f.12.part");
    assert_eq!(provider.chunk_path("f", -3), "/data/f.-3.part");
    assert_eq!(provider.glob_pattern("f"), "/data/f.*.part");
}

#[test]
fn chunk_path_round_trips_through_enumeration() {
    let provider = FsProvider::new("/var/data");
    for chunk in [0, 1, 9, 10, 1234, -17, i32::MAX, i32::MIN] {
        let path = provider.chunk_path("1700000000-abc.def", chunk);
        assert_eq!(chunk_index_of_path(&path), Ok(chunk));
    }
}

#[test]
fn streamer_emits_front_first_and_in_order() {
    let mut streamer = Streamer::new(vec![0, 1, 2]);
    assert_eq!(streamer.next_chunk(), Some(0));
    assert_eq!(streamer.next_chunk(), Some(1));
    assert_eq!(streamer.next_chunk(), Some(2));
    assert_eq!(streamer.next_chunk(), None);
    assert_eq!(streamer.next_chunk(), None);
}

#[test]
fn aborted_streamer_emits_nothing_more() {
    let mut streamer = Streamer::new(vec![4, 5, 6]);
    assert_eq!(streamer.next_chunk(), Some(4));
    streamer.abort();
    assert_eq!(streamer.next_chunk(), None);
}

#[test]
fn error_kinds_describe_themselves() {
    assert_eq!(Error::NotFound.describe(), "not found");
    assert_eq!(Error::IOFailure.describe(), "i/o failure");
    assert_eq!(Error::InternalError.describe(), "internal error");
    assert_eq!(Error::EnumerationFailure.describe(), "enumeration failure");
}
