use cooklang_sync_client::cache::InMemoryCache;
use cooklang_sync_client::chunker::Chunker;
use cooklang_sync_client::chunks::{split_binary, split_text, BINARY_CHUNK_SIZE};
use cooklang_sync_client::errors::SyncError;
use cooklang_sync_client::formats::FormatRules;
use cooklang_sync_client::hashing::{digest_prefix, hash};

#[test]
fn test_hash_consistency() {
    let cache = InMemoryCache::new(100, 1000);
    let chunker = Chunker::new(cache, "/tmp".to_string());

    let data = b"Hello, World!".to_vec();
    let hash1 = chunker.hash(&data, 10);
    let hash2 = chunker.hash(&data, 10);

    // Same input should produce same hash
    assert_eq!(hash1, hash2);
}

#[test]
fn test_hash_different_data_produces_different_hash() {
    let cache = InMemoryCache::new(100, 1000);
    let chunker = Chunker::new(cache, "/tmp".to_string());

    let data1 = b"Hello, World!".to_vec();
    let data2 = b"Goodbye, World!".to_vec();

    let hash1 = chunker.hash(&data1, 10);
    let hash2 = chunker.hash(&data2, 10);

    // Different input should produce different hash
    assert_ne!(hash1, hash2);
}

#[test]
fn test_hash_respects_size_parameter() {
    let cache = InMemoryCache::new(100, 1000);
    let chunker = Chunker::new(cache, "/tmp".to_string());

    let data = b"Hello, World!".to_vec();
    let hash_short = chunker.hash(&data, 5);
    let hash_long = chunker.hash(&data, 10);

    assert_eq!(hash_short.len(), 5);
    assert_eq!(hash_long.len(), 10);
    // Shorter hash should be prefix of longer hash
    assert!(hash_long.starts_with(&hash_short));
}

#[test]
fn test_chunker_check_chunk_empty_hash() {
    let cache = InMemoryCache::new(100, 1000);
    let chunker = Chunker::new(cache, "/tmp".to_string());

    // Empty hash should return true
    assert!(chunker.check_chunk(""));
}

#[test]
fn test_chunker_check_chunk_existing() {
    let mut cache = InMemoryCache::new(100, 1000);
    cache.set("existinghash", vec![1, 2, 3]).unwrap();
    let chunker = Chunker::new(cache, "/tmp".to_string());

    assert!(chunker.check_chunk("existinghash"));
}

#[test]
fn test_chunker_check_chunk_nonexistent() {
    let cache = InMemoryCache::new(100, 1000);
    let chunker = Chunker::new(cache, "/tmp".to_string());

    assert!(!chunker.check_chunk("nonexistent"));
}

#[test]
fn test_chunker_hashify_text_round_trip() {
    let cache = InMemoryCache::new(1000, 100000);
    let mut chunker = Chunker::new(cache, "/tmp/root".to_string());

    let test_file = "test.cook";
    let content = "Line 1\nLine 2\nLine 3\n";

    let hashes = chunker.hashify(test_file, &content.as_bytes().to_vec()).unwrap();

    // Should have 3 hashes (one per line)
    assert_eq!(hashes.len(), 3);

    // Verify all chunks are in cache
    for hash in &hashes {
        assert!(chunker.check_chunk(hash));
    }
}

#[test]
fn test_chunker_save_and_read() {
    let cache = InMemoryCache::new(1000, 100000);
    let mut chunker = Chunker::new(cache, "/tmp/root".to_string());

    let chunk1 = b"Hello ".to_vec();
    let chunk2 = b"World!".to_vec();
    let hash1 = chunker.hash(&chunk1, 10);
    let hash2 = chunker.hash(&chunk2, 10);

    chunker.save_chunk(&hash1, chunk1).unwrap();
    chunker.save_chunk(&hash2, chunk2).unwrap();

    let test_file = "output.txt";
    let written = chunker.save(test_file, vec![&hash1, &hash2]).unwrap();

    assert_eq!(written.path, "/tmp/root/output.txt");
    assert_eq!(written.content, b"Hello World!");
}

#[test]
fn test_text_file_round_trip_various_sizes() {
    let test_cases = vec![
        ("Line1\n", 1),
        ("Line1\nLine2\n", 2),
        ("Line1\nLine2\nLine3\n", 3),
        ("A\nB\nC\nD\nE\n", 5),
    ];

    for (content, expected_chunks) in test_cases {
        let cache = InMemoryCache::new(1000, 100000);
        let mut chunker = Chunker::new(cache, "/tmp/root".to_string());

        let hashes = chunker.hashify("test.cook", &content.as_bytes().to_vec()).unwrap();

        assert_eq!(hashes.len(), expected_chunks, "Failed for content: {:?}", content);

        let hash_refs: Vec<&str> = hashes.iter().map(|s| s.as_str()).collect();
        let written = chunker.save("output.cook", hash_refs).unwrap();

        assert_eq!(written.content, content.as_bytes(), "Content mismatch for: {:?}", content);
    }
}

#[test]
fn test_binary_file_round_trip_various_sizes() {
    let test_cases: Vec<Vec<u8>> = vec![
        vec![1, 2, 3, 4, 5],
        vec![0u8; 1024],
        vec![255u8; 2048],
        (0..5000).map(|i| (i % 256) as u8).collect(),
    ];

    for content in test_cases {
        let cache = InMemoryCache::new(10000, 10000000);
        let mut chunker = Chunker::new(cache, "/tmp/root".to_string());

        let hashes = chunker.hashify("test.jpg", &content).unwrap();

        let hash_refs: Vec<&str> = hashes.iter().map(|s| s.as_str()).collect();
        let written = chunker.save("output.jpg", hash_refs).unwrap();

        assert_eq!(written.content, content, "Binary content mismatch for size: {}", content.len());
    }
}

#[test]
fn test_hashify() {
    let mut chunker = Chunker::new(InMemoryCache::new(100, 1000), "tmp".to_string());
    let hashes = chunker.hashify("test.md", &b"Hello\nWorld\n".to_vec()).unwrap();

    assert_eq!(hashes.len(), 2); // Ensure two lines are hashed
}

#[test]
fn test_save() {
    let mut chunker = Chunker::new(InMemoryCache::new(100, 1000), "tmp".to_string());

    let hash = chunker.hashify("test_chunk.md", &b"Chunk content\n".to_vec()).unwrap()[0].clone();
    chunker.save_chunk(&hash, b"Chunk content".to_vec()).unwrap();

    let save_result = chunker.save("test_save.txt", vec![&hash]);
    assert!(save_result.is_ok());
}

#[test]
fn test_read_chunk() {
    let mut chunker = Chunker::new(InMemoryCache::new(100, 1000), "tmp".to_string());
    let chunk_hash = "some_hash_string".to_string();
    let chunk_content = "some content".to_string();

    chunker.save_chunk(&chunk_hash, chunk_content.clone().into_bytes()).unwrap();
    let result = chunker.read_chunk(&chunk_hash).unwrap();

    assert_eq!(result, chunk_content.into_bytes());
}

#[test]
fn test_save_chunk() {
    let mut chunker = Chunker::new(InMemoryCache::new(100, 1000), "tmp".to_string());
    let chunk_hash = "some_hash_string".to_string();
    let chunk_content = "some content".to_string();

    chunker.save_chunk(&chunk_hash, chunk_content.into_bytes()).unwrap();

    assert!(chunker.check_chunk(&chunk_hash));
}

#[test]
fn test_check_chunk() {
    let mut chunker = Chunker::new(InMemoryCache::new(100, 1000), "tmp".to_string());
    let chunk_hash = "some_hash_string".to_string();
    let chunk_content = "some content".to_string();

    chunker.save_chunk(&chunk_hash, chunk_content.into_bytes()).unwrap();
    assert!(chunker.check_chunk(&chunk_hash));
    assert!(!chunker.check_chunk("non_existent_hash"));
}

#[test]
fn hash_is_the_prefix_of_the_sha256_digest_in_hex() {
    assert_eq!(hash(&b"eggs\n".to_vec(), 10), "e9c3c1c06f");
    assert_eq!(hash(&b"bacon\n".to_vec(), 10), "10da16ba98");
    assert_eq!(
        hash(&b"abc".to_vec(), 64),
        "ba7816bf8f01cfea414140de5dae2223b00361a396177a9cb410ff61f20015ad"
    );
    assert_eq!(hash(&Vec::new(), 32), "e3b0c44298fc1c149afbf4c8996fb924");
    assert_eq!(hash(&b"abc".to_vec(), 0), "");
}

#[test]
fn hash_of_every_size_is_a_prefix_of_every_longer_one() {
    let data = b"Hello, World!".to_vec();
    let full = hash(&data, 64);
    for n in 0..=64usize {
        let h = hash(&data, n);
        assert_eq!(h.len(), n);
        assert!(full.starts_with(&h));
    }
}

#[test]
fn text_ids_have_10_digits_and_binary_ids_32() {
    let mut chunker = Chunker::new(InMemoryCache::new(100, 100000), "/r".to_string());
    let text = chunker.hashify("a.cook", &b"eggs\nbacon\n".to_vec()).unwrap();
    assert_eq!(text, vec!["e9c3c1c06f".to_string(), "10da16ba98".to_string()]);
    let binary = chunker.hashify("a.png", &vec![1, 2, 3, 4, 5]).unwrap();
    assert_eq!(binary, vec!["74f81fe167d99b4cb41d6d0ccda82278".to_string()]);
    assert_eq!(chunker.read_chunk("e9c3c1c06f").unwrap(), b"eggs\n");
    assert_eq!(chunker.read_chunk("74f81fe167d99b4cb41d6d0ccda82278").unwrap(), vec![1, 2, 3, 4, 5]);
}

#[test]
fn empty_file_has_no_chunks_and_no_chunks_make_an_empty_file() {
    let mut chunker = Chunker::new(InMemoryCache::new(100, 1000), "/r".to_string());
    assert_eq!(chunker.hashify("a.cook", &Vec::new()).unwrap(), Vec::<String>::new());
    assert_eq!(chunker.hashify("a.jpg", &Vec::new()).unwrap(), Vec::<String>::new());
    let written = chunker.save("out.cook", Vec::new()).unwrap();
    assert_eq!(written.content, Vec::<u8>::new());
    assert_eq!(written.path, "/r/out.cook");
}

#[test]
fn text_without_trailing_newline_ends_in_a_chunk_without_newline() {
    let chunks = split_text(&b"Hello\nWorld".to_vec());
    assert_eq!(chunks, vec![b"Hello\n".to_vec(), b"World".to_vec()]);
    let chunks = split_text(&b"no newline at all".to_vec());
    assert_eq!(chunks, vec![b"no newline at all".to_vec()]);
    let chunks = split_text(&b"\n\na\n".to_vec());
    assert_eq!(chunks, vec![b"\n".to_vec(), b"\n".to_vec(), b"a\n".to_vec()]);
}

#[test]
fn binary_file_of_whole_blocks_has_equal_chunks() {
    let content = vec![7u8; 3 * BINARY_CHUNK_SIZE];
    let chunks = split_binary(&content);
    assert_eq!(chunks.len(), 3);
    for c in &chunks {
        assert_eq!(c.len(), BINARY_CHUNK_SIZE);
    }
    let content = vec![7u8; 2 * BINARY_CHUNK_SIZE + 1];
    let chunks = split_binary(&content);
    assert_eq!(chunks.len(), 3);
    assert_eq!(chunks[2], vec![7u8]);
    assert_eq!(chunks.concat(), content);
}

#[test]
fn binary_ids_of_a_large_file() {
    let mut chunker = Chunker::new(InMemoryCache::new(100, 100000000), "/r".to_string());
    let ids = chunker.hashify("photo.JPG", &vec![7u8; 2 * BINARY_CHUNK_SIZE]).unwrap();
    assert_eq!(
        ids,
        vec![
            "51b12eb838732b786b4d45c660a974dd".to_string(),
            "51b12eb838732b786b4d45c660a974dd".to_string()
        ]
    );
    let refs: Vec<&str> = ids.iter().map(|s| s.as_str()).collect();
    assert_eq!(chunker.save("copy.jpg", refs).unwrap().content.len(), 2 * BINARY_CHUNK_SIZE);
}

#[test]
fn unlisted_format_is_refused() {
    let mut chunker = Chunker::new(InMemoryCache::new(100, 1000), "/r".to_string());
    assert_eq!(
        chunker.hashify("notes.txt", &b"x\n".to_vec()),
        Err(SyncError::UnlistedFileFormat("notes.txt".to_string()))
    );
}

#[test]
fn save_with_a_missing_chunk_fails() {
    let mut chunker = Chunker::new(InMemoryCache::new(100, 1000), "/r".to_string());
    chunker.save_chunk("aaaa", vec![1]).unwrap();
    assert_eq!(
        chunker.save("x.cook", vec!["aaaa", "bbbb"]).map(|w| w.content),
        Err(SyncError::GetFromCacheError)
    );
    assert_eq!(chunker.save("x.cook", vec!["aaaa", ""]).unwrap().content, vec![1]);
}

#[test]
fn full_path_joins_like_a_path() {
    let chunker = Chunker::new(InMemoryCache::new(10, 10), "/data/root".to_string());
    assert_eq!(chunker.full_path("recipes/a.cook"), "/data/root/recipes/a.cook");
    assert_eq!(chunker.full_path("/abs/a.cook"), "/abs/a.cook");
    assert_eq!(chunker.full_path(""), "/data/root/");
    let chunker = Chunker::new(InMemoryCache::new(10, 10), "root/".to_string());
    assert_eq!(chunker.full_path("a.cook"), "root/a.cook");
    let chunker = Chunker::new(InMemoryCache::new(10, 10), "".to_string());
    assert_eq!(chunker.full_path("a.cook"), "a.cook");
}

#[test]
fn rules_are_a_seam() {
    let rules = FormatRules {
        text_extensions: vec!["txt".to_string()],
        binary_extensions: vec!["bin".to_string()],
        text_filenames: vec!["Makefile".to_string()],
    };
    let mut chunker = Chunker::with_rules(InMemoryCache::new(100, 1000), "/r".to_string(), rules);
    assert_eq!(chunker.hashify("a.TXT", &b"x\ny\n".to_vec()).unwrap().len(), 2);
    assert_eq!(chunker.hashify("dir/Makefile", &b"x\ny\n".to_vec()).unwrap().len(), 2);
    assert_eq!(chunker.hashify("a.bin", &b"x\ny\n".to_vec()).unwrap().len(), 1);
    assert!(chunker.hashify("a.cook", &b"x\n".to_vec()).is_err());
}

#[test]
fn digest_prefix_takes_the_first_digits() {
    assert_eq!(digest_prefix("e9c3c1c06f1825ff", 10), "e9c3c1c06f");
    assert_eq!(digest_prefix("abc", 0), "");
    assert_eq!(digest_prefix("abc", 3), "abc");
}

#[test]
fn test_compare_sets() {
    let chunker = Chunker::new(InMemoryCache::new(100, 1000), "tmp".to_string());
    let set1 = vec!["hash1".to_string(), "hash2".to_string()];
    let set2 = vec!["hash1".to_string(), "hash2".to_string()];
    let set3 = vec!["hash3".to_string(), "hash4".to_string()];

    assert!(chunker.compare_sets(set1.clone(), set2.clone())); // Check for equality
    assert!(!chunker.compare_sets(set1, set3)); // Check for inequality
}

#[test]
fn compare_sets_minds_order_and_length() {
    let chunker = Chunker::new(InMemoryCache::new(100, 1000), "tmp".to_string());
    let ab = vec!["a".to_string(), "b".to_string()];
    let ba = vec!["b".to_string(), "a".to_string()];
    let a = vec!["a".to_string()];
    assert!(!chunker.compare_sets(ab.clone(), ba));
    assert!(!chunker.compare_sets(ab, a));
    assert!(chunker.compare_sets(Vec::new(), Vec::new()));
}

#[test]
fn an_empty_file_leaves_the_cache_as_it_is() {
    let mut chunker = Chunker::new(InMemoryCache::new(100, 1000), "/r".to_string());
    chunker.save_chunk("aa", vec![1]).unwrap();
    chunker.save_chunk("bb", vec![2, 3]).unwrap();
    assert_eq!(chunker.hashify("a.cook", &Vec::new()).unwrap(), Vec::<String>::new());
    assert_eq!(chunker.hashify("a.png", &Vec::new()).unwrap(), Vec::<String>::new());
    assert_eq!(chunker.read_chunk("aa").unwrap(), vec![1]);
    assert_eq!(chunker.read_chunk("bb").unwrap(), vec![2, 3]);
}
