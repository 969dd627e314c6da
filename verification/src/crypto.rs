//! A repeating-key XOR over characters: a stand-in cipher for demonstrations
//! and test doubles. It protects nothing.

use vstd::prelude::*;

verus! {

/// The character that a data character and a key character give: the XOR of
/// their low bytes.
pub open spec fn xor_char(d: char, k: char) -> char {
    ((d as u8) ^ (k as u8)) as char
}

/// The text that `data` gives under `key`: each character is combined with
/// the key character at its position, the key being repeated as often as
/// needed. Under an empty key nothing comes out.
pub open spec fn spec_encrypt(data: Seq<char>, key: Seq<char>) -> Seq<char> {
    if key.len() == 0 {
        Seq::empty()
    } else {
        Seq::new(data.len(), |i: int| xor_char(data[i], key[i % (key.len() as int)]))
    }
}

/// Combining twice with the same key character gives a character of one
/// byte back.
proof fn lemma_xor_char_twice(d: char, k: char)
    requires
        (d as u32) < 256,
    ensures
        xor_char(xor_char(d, k), k) == d,
{
    let a = d as u8;
    let b = k as u8;
    assert((a ^ b) ^ b == a) by (bit_vector);
    assert(((a ^ b) as char) as u8 == a ^ b);
    assert(a as char == d);
}

/// Under a key that is not empty, [`decrypt`] gives back what [`encrypt`]
/// was given, provided that every character of the data is below 256: the
/// combination keeps only the low byte of a character.
pub proof fn lemma_decrypt_undoes_encrypt(data: Seq<char>, key: Seq<char>)
    requires
        key.len() > 0,
        forall|i: int| 0 <= i < data.len() ==> (#[trigger] data[i] as u32) < 256,
    ensures
        spec_encrypt(spec_encrypt(data, key), key) == data,
{
    let once = spec_encrypt(data, key);
    let twice = spec_encrypt(once, key);
    assert forall|i: int| 0 <= i < data.len() implies twice[i] == data[i] by {
        lemma_xor_char_twice(data[i], key[i % (key.len() as int)]);
    }
    assert(twice =~= data);
}

/// Appends `c` to `text`: `String::push` of the standard library, which is
/// documented to append the given character to the end of the string.
#[verifier::external_body]
fn push_char(text: &mut String, c: char)
    ensures
        final(text)@ == old(text)@.push(c),
{
    text.push(c)
}

fn xor_text(data: &str, key: &str) -> (out: String)
    ensures
        out@ == spec_encrypt(data@, key@),
{
    let mut out = String::new();
    let key_len = key.unicode_len();
    if key_len == 0 {
        return out;
    }
    let data_len = data.unicode_len();
    let mut i: usize = 0;
    while i < data_len
        invariant
            i <= data_len,
            data_len == data@.len(),
            key_len == key@.len(),
            key_len > 0,
            out@ == spec_encrypt(data@.take(i as int), key@),
        decreases data_len - i,
    {
        let d = data.get_char(i);
        let k = key.get_char(i % key_len);
        let c = ((d as u8) ^ (k as u8)) as char;
        push_char(&mut out, c);
        proof {
            assert(out@ =~= spec_encrypt(data@.take(i + 1), key@));
        }
        i += 1;
    }
    proof {
        assert(data@.take(i as int) =~= data@);
    }
    out
}

/// Combines `data` with the repeated `key`.
pub fn encrypt(data: &str, key: &str) -> (cipher: String)
    ensures
        cipher@ == spec_encrypt(data@, key@),
{
    xor_text(data, key)
}

/// Undoes [`encrypt`] under the same key, by the same combination.
pub fn decrypt(data: &str, key: &str) -> (plain: String)
    ensures
        plain@ == spec_encrypt(data@, key@),
{
    xor_text(data, key)
}

} // verus!
