use sha3::{Digest, Keccak256};
use zk_circuits::fiat_shamir::FiatShamirTranscript;

fn keccak(data: &[u8]) -> [u8; 32] {
    Keccak256::digest(data).into()
}

#[test]
fn sample_is_the_digest_of_what_was_absorbed() {
    let mut transcript = FiatShamirTranscript::new(vec![1u8, 2, 3]);
    transcript.append(vec![4u8, 5]);
    let challenge = transcript.sample();
    assert_eq!(challenge, keccak(&[1, 2, 3, 4, 5]));
    assert_ne!(challenge.to_vec(), vec![1u8, 2, 3, 4, 5]);
}

#[test]
fn sample_of_nothing_is_the_digest_of_the_empty_message() {
    let mut transcript = FiatShamirTranscript::new(vec![]);
    let challenge = transcript.sample();
    let expected: [u8; 32] = [
        0xc5, 0xd2, 0x46, 0x01, 0x86, 0xf7, 0x23, 0x3c, 0x92, 0x7e, 0x7d, 0xb2, 0xdc, 0xc7, 0x03,
        0xc0, 0xe5, 0x00, 0xb6, 0x53, 0xca, 0x82, 0x27, 0x3b, 0x7b, 0xfa, 0xd8, 0x04, 0x5d, 0x85,
        0xa4, 0x70,
    ];
    assert_eq!(challenge, expected);
}

#[test]
fn each_sample_replaces_the_state() {
    let mut transcript = FiatShamirTranscript::new(vec![9u8]);
    let first = transcript.sample();
    let second = transcript.sample();
    assert_eq!(first, keccak(&[9]));
    assert_eq!(second, keccak(&first));
    transcript.append(vec![7u8]);
    let third = transcript.sample();
    let mut absorbed = second.to_vec();
    absorbed.push(7);
    assert_eq!(third, keccak(&absorbed));
}

#[test]
fn sample_n_draws_a_chain_of_digests() {
    let mut transcript = FiatShamirTranscript::new(vec![1u8, 2]);
    let challenges = transcript.sample_n(3);
    let first = keccak(&[1, 2]);
    let second = keccak(&first);
    let third = keccak(&second);
    assert_eq!(challenges, vec![first, second, third]);
    assert_eq!(transcript.sample(), keccak(&third));
    let mut other = FiatShamirTranscript::new(vec![1u8, 2]);
    assert_eq!(other.sample_n(0), Vec::<[u8; 32]>::new());
    assert_eq!(other.sample(), first);
}

#[test]
fn a_clone_holds_what_the_transcript_holds() {
    let mut transcript = FiatShamirTranscript::new(vec![5u8, 6]);
    let mut copy = transcript.clone();
    copy.append(vec![7u8]);
    assert_eq!(transcript.sample(), keccak(&[5, 6]));
    assert_eq!(copy.sample(), keccak(&[5, 6, 7]));
}

#[test]
fn the_default_transcript_has_absorbed_nothing() {
    let mut transcript = FiatShamirTranscript::default();
    assert_eq!(transcript.sample(), keccak(&[]));
}
