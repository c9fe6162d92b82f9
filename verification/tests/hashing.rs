use civ_dedup::digest::{ContentHasher, DIGEST_TEXT_LEN};
use civ_dedup::failure::{FailureKind, HashError};
use civ_dedup::file_hash::{hash_bytes, FileHasher, HashStep, CHUNK_SIZE};
use civ_dedup::sha::{SHA256_MAX_INPUT, SHA256_OUTPUT_LEN};

const EMPTY: &str = "e3b0c44298fc1c149afbf4c8996fb92427ae41e4649b934ca495991b7852b855";
const HELLO: &str = "2cf24dba5fb0a30e26e83b2ac5b9e29e1b161e5c1fa7425e73043362938b9824";
const WORLD: &str = "486ea46224d1bb4fb680f34f7c9ad96a8f24ec88be73ea8e5a6c65260e9cb8a7";
const HELLO_WORLD: &str = "b94d27b9934d3e08a52e52d7da7dabfac484efe37a5380ee9088f7ace2efcde9";

fn digest_text(content: &[u8]) -> String {
    hash_bytes(content).expect("content of this size can be hashed").into_string()
}

fn pattern(len: usize) -> Vec<u8> {
    (0..len).map(|i| (i % 251) as u8).collect()
}

#[test]
fn hello_has_its_known_digest() {
    let mut hasher = ContentHasher::new();
    assert!(hasher.update(b"hello"));
    let digest = hasher.finalize();
    assert_eq!(digest.as_str(), HELLO);
}

#[test]
fn a_hasher_given_nothing_ends_in_the_digest_of_nothing() {
    let hasher = ContentHasher::new();
    assert_eq!(hasher.len(), 0);
    assert_eq!(hasher.finalize().as_str(), EMPTY);
}

#[test]
fn hash_bytes_gives_known_digests() {
    assert_eq!(digest_text(b""), EMPTY);
    assert_eq!(digest_text(b"hello"), HELLO);
    assert_eq!(digest_text(b"world"), WORLD);
    assert_eq!(digest_text(b"hello world"), HELLO_WORLD);
    assert_eq!(
        digest_text(b"abc"),
        "ba7816bf8f01cfea414140de5dae2223b00361a396177a9cb410ff61f20015ad"
    );
}

#[test]
fn identical_content_has_identical_digest() {
    let first = hash_bytes(b"the same bytes").unwrap();
    let second = hash_bytes(b"the same bytes").unwrap();
    assert!(first.same_as(&second));
    assert_eq!(first.as_str(), second.as_str());
}

#[test]
fn different_content_has_different_digest() {
    let hello = hash_bytes(b"hello").unwrap();
    let world = hash_bytes(b"world").unwrap();
    assert!(!hello.same_as(&world));
    assert_ne!(hello.as_str(), world.as_str());
    let longer = hash_bytes(b"hello ").unwrap();
    assert!(!hello.same_as(&longer));
    let empty = hash_bytes(b"").unwrap();
    assert!(!hello.same_as(&empty));
    let zero = hash_bytes(&[0u8]).unwrap();
    assert!(!empty.same_as(&zero));
}

#[test]
fn the_digest_text_is_sixty_four_lowercase_hex_digits() {
    assert_eq!(DIGEST_TEXT_LEN, 64);
    assert_eq!(SHA256_OUTPUT_LEN, 32);
    for content in [&b""[..], &b"hello"[..], &[0u8, 255, 16, 15][..]] {
        let text = digest_text(content);
        assert_eq!(text.len(), DIGEST_TEXT_LEN);
        assert!(text.chars().all(|c| matches!(c, '0'..='9' | 'a'..='f')));
    }
}

#[test]
fn the_cut_into_pieces_does_not_change_the_digest() {
    let mut hasher = ContentHasher::new();
    assert!(hasher.update(b"hel"));
    assert!(hasher.update(b""));
    assert!(hasher.update(b"lo wo"));
    assert!(hasher.update(b"rld"));
    assert_eq!(hasher.len(), 11);
    assert_eq!(hasher.finalize().as_str(), HELLO_WORLD);

    let mut bytewise = ContentHasher::new();
    for byte in b"hello world" {
        assert!(bytewise.update(&[*byte]));
    }
    assert_eq!(bytewise.finalize().as_str(), HELLO_WORLD);
}

#[test]
fn the_order_of_the_pieces_matters() {
    let mut hasher = ContentHasher::new();
    assert!(hasher.update(b"world"));
    assert!(hasher.update(b"hello"));
    let swapped = hasher.finalize();
    assert_ne!(swapped.as_str(), digest_text(b"helloworld"));
    assert_eq!(swapped.as_str(), digest_text(b"worldhello"));
}

#[test]
fn content_longer_than_a_block_is_hashed_block_by_block() {
    assert_eq!(CHUNK_SIZE, 8192);
    assert_eq!(
        digest_text(&vec![b'a'; 8192]),
        "dd4e6730520932767ec0a9e33fe19c4ce24399d6eba4ff62f13013c9ed30ef87"
    );
    assert_eq!(
        digest_text(&vec![b'a'; 8193]),
        "9c10c48d1f1d6618db88fde2c25409181c9201ed34ec6815d62bcf57c10d177b"
    );
    assert_eq!(
        digest_text(&vec![b'a'; 16384]),
        "f3336bea752b5a28743033dd2c844a4a63fba08871aaee2586a2bf2d69be83a2"
    );
    assert_eq!(
        digest_text(&pattern(20000)),
        "93a6015a3874a774dd59fdd5db19414b301525381eb5ddcc265cdcc68bb9d350"
    );
}

#[test]
fn block_wise_and_whole_hashing_agree() {
    let content = pattern(3 * CHUNK_SIZE + 17);
    let mut whole = ContentHasher::new();
    assert!(whole.update(&content));
    assert_eq!(whole.len(), content.len() as u64);
    assert_eq!(whole.finalize().as_str(), digest_text(&content));
}

#[test]
fn a_file_is_hashed_read_by_read() {
    let mut hasher = FileHasher::new();
    for chunk in [&b"hello"[..], &b" "[..], &b"world"[..]] {
        hasher = match hasher.step(Ok(chunk)) {
            HashStep::Continue(rest) => rest,
            _ => panic!("a read that brought bytes asks for the next read"),
        };
    }
    match hasher.step(Ok(&[])) {
        HashStep::Finished(digest) => assert_eq!(digest.as_str(), HELLO_WORLD),
        _ => panic!("a read of no bytes ends the file"),
    }
}

#[test]
fn an_empty_file_ends_at_its_first_read() {
    match FileHasher::new().step(Ok(&[])) {
        HashStep::Finished(digest) => assert_eq!(digest.as_str(), EMPTY),
        _ => panic!("a read of no bytes ends the file"),
    }
}

#[test]
fn a_failed_read_ends_the_hashing_in_that_failure() {
    let hasher = match FileHasher::new().step(Ok(b"some bytes")) {
        HashStep::Continue(rest) => rest,
        _ => panic!("a read that brought bytes asks for the next read"),
    };
    let failure = HashError::new(FailureKind::PermissionDenied, "permission denied".to_string());
    match hasher.step(Err(failure)) {
        HashStep::Failed(error) => {
            assert_eq!(error.kind, FailureKind::PermissionDenied);
            assert_eq!(error.message, "permission denied");
        }
        _ => panic!("a failed read fails the file"),
    }
}

#[test]
fn a_failure_keeps_its_kind_and_message() {
    for kind in [
        FailureKind::NotFound,
        FailureKind::PermissionDenied,
        FailureKind::Interrupted,
        FailureKind::Other,
    ] {
        let error = HashError::new(kind, "what went wrong".to_string());
        assert_eq!(error.kind, kind);
        assert_eq!(error.message, "what went wrong");
        match FileHasher::new().step(Err(error)) {
            HashStep::Failed(error) => assert_eq!(error.kind, kind),
            _ => panic!("a failed read fails the file"),
        }
    }
}

#[test]
fn the_failure_of_an_oversized_file_says_so() {
    let error = HashError::too_large();
    assert_eq!(error.kind, FailureKind::TooLarge);
    assert_eq!(error.message, "content is longer than SHA-256 can digest");
    assert_eq!(SHA256_MAX_INPUT, (1u64 << 61) - 1);
}

#[test]
fn a_digest_can_be_copied_and_compared() {
    let digest = hash_bytes(b"hello").unwrap();
    let copy = digest.clone();
    assert!(digest.same_as(&copy));
    assert_eq!(copy.into_string(), HELLO);
}
