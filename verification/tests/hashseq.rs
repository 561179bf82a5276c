use seyfr::errors::SeyfrError;
use seyfr::hashseq::{decode_hash_seq, encode_hash_seq, split_root, transfer_root};

fn hash(b: u8) -> Vec<u8> {
    vec![b; 32]
}

#[test]
fn encode_concatenates() {
    let bytes = encode_hash_seq(&vec![hash(1), hash(2)]);
    assert_eq!(bytes.len(), 64);
    assert_eq!(&bytes[..32], &hash(1)[..]);
    assert_eq!(&bytes[32..], &hash(2)[..]);
}

#[test]
fn decode_encode_roundtrip() {
    let hs = vec![hash(7), hash(8), hash(9)];
    let bytes = encode_hash_seq(&hs);
    assert_eq!(decode_hash_seq(&bytes), Some(hs));
}

#[test]
fn decode_rejects_partial_hash() {
    assert_eq!(decode_hash_seq(&vec![0u8; 33]), None);
    assert_eq!(decode_hash_seq(&vec![0u8; 0]), Some(vec![]));
}

#[test]
fn root_roundtrip() {
    let meta = hash(0xaa);
    let files = vec![hash(1), hash(2)];
    let root = transfer_root(&meta, &files);
    let (m, fs) = split_root(&root).unwrap();
    assert_eq!(m, meta);
    assert_eq!(fs, files);
}

#[test]
fn split_root_errors() {
    match split_root(&vec![1u8; 31]) {
        Err(SeyfrError::Store { details }) => {
            assert_eq!(details, "invalid hash sequence: invalid hash sequence")
        }
        other => panic!("unexpected {:?}", other),
    }
    match split_root(&[]) {
        Err(SeyfrError::Store { details }) => assert_eq!(details, "empty hash sequence"),
        other => panic!("unexpected {:?}", other),
    }
}
