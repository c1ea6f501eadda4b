use murmel_core::address::{address_key, address_words};

#[test]
fn key_is_zero_padded_lowercase_hex() {
    let words: [u16; 8] = [0x2001, 0x0db8, 0, 0, 0, 0, 0xabcd, 1];
    assert_eq!(address_key(&words), "20010db80000000000000000abcd0001");
}

#[test]
fn key_of_ipv4_mapped_address() {
    let words: [u16; 8] = [0, 0, 0, 0, 0, 0xffff, 0xc0a8, 0x0001];
    assert_eq!(address_key(&words), "00000000000000000000ffffc0a80001");
}

#[test]
fn key_round_trips() {
    let samples: [[u16; 8]; 3] = [
        [0, 0, 0, 0, 0, 0, 0, 0],
        [0xffff, 0xfffe, 0x1234, 0x00a0, 0x0b00, 0xc000, 0x000d, 0xffff],
        [0xfd87, 0xd87e, 0xeb43, 1, 2, 3, 4, 5],
    ];
    for w in samples.iter() {
        let key = address_key(w);
        assert_eq!(key.len(), 32);
        assert_eq!(address_words(&key), *w);
    }
}

#[test]
fn malformed_groups_decode_to_zero() {
    let key = "zzzz0001 12300g0ffffffff-001abcd";
    assert_eq!(address_words(key), [0, 1, 0, 0, 0xffff, 0xffff, 0, 0xabcd]);
}

#[test]
fn groups_accept_uppercase_and_plus_sign() {
    let key = "ABCD+abc000100010001000100010001";
    assert_eq!(address_words(key), [0xabcd, 0xabc, 1, 1, 1, 1, 1, 1]);
}

#[test]
fn characters_past_the_key_are_ignored() {
    let key = "0001000200030004000500060007000899";
    assert_eq!(address_words(key), [1, 2, 3, 4, 5, 6, 7, 8]);
}
