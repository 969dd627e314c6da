use byzantine_paxos::crypto::{decrypt, encrypt};

#[test]
fn encrypt_combines_with_the_repeated_key() {
    // 'a' ^ 'k' = 0x61 ^ 0x6b = 0x0a, 'b' ^ 'e' = 0x62 ^ 0x65 = 0x07,
    // 'c' ^ 'k' = 0x63 ^ 0x6b = 0x08.
    assert_eq!(encrypt("abc", "ke"), "\u{0a}\u{07}\u{08}");
}

#[test]
fn encrypt_with_itself_as_key_gives_zeros() {
    assert_eq!(encrypt("hello", "hello"), "\0\0\0\0\0");
}

#[test]
fn empty_key_gives_empty_text() {
    assert_eq!(encrypt("secret", ""), "");
    assert_eq!(decrypt("secret", ""), "");
}

#[test]
fn empty_data_gives_empty_text() {
    assert_eq!(encrypt("", "key"), "");
}

#[test]
fn decrypt_undoes_encrypt() {
    let cipher = encrypt("hash_da_transacao", "chave");
    assert_ne!(cipher, "hash_da_transacao");
    assert_eq!(decrypt(&cipher, "chave"), "hash_da_transacao");
}

#[test]
fn round_trip_over_one_byte_characters() {
    let data = "caf\u{e9} \u{ff}";
    let cipher = encrypt(data, "\u{80}z");
    assert_eq!(decrypt(&cipher, "\u{80}z"), data);
}

#[test]
fn only_the_low_byte_of_a_character_counts() {
    // U+0141 has the low byte 0x41, which is 'A'.
    assert_eq!(encrypt("\u{141}", "\0"), "A");
    assert_eq!(encrypt("A", "\u{100}"), "A");
}
