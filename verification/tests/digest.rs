use collector::digest::{FileDigest, READ_BUFFER_SIZE};

#[test]
fn fingerprint_of_no_read_is_the_empty_digest() {
    assert_eq!(FileDigest::new().finish(), "da39a3ee5e6b4b0d3255bfef95601890afd80709");
}

#[test]
fn one_read_hashes_the_whole_buffer() {
    let mut d = FileDigest::new();
    d.absorb(b"abc");
    assert_eq!(d.finish(), "248d0844446a133afb848afad23cafb34fffaab7");
}

#[test]
fn a_short_read_keeps_the_tail_of_the_previous_one() {
    let mut d = FileDigest::new();
    d.absorb(b"abc");
    d.absorb(b"xy");
    assert_eq!(d.finish(), "eb93a65dd34de4979963d5356b6b61482da2f35b");
}

#[test]
fn fingerprint_is_forty_lowercase_hex_digits() {
    let mut d = FileDigest::new();
    d.absorb(&[0xffu8; READ_BUFFER_SIZE]);
    let f = d.finish();
    assert_eq!(f.len(), 40);
    assert!(f.chars().all(|c| c.is_ascii_digit() || ('a'..='f').contains(&c)));
}
