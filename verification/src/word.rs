//! 32-bit words in a byte buffer, least significant byte first. A word is an
//! unsigned integer or the bit pattern of a single-precision number; either
//! way it is moved, never computed with.

use vstd::prelude::*;

verus! {

/// The word whose four bytes stand at `at`, least significant first.
pub open spec fn word_at(bytes: Seq<u8>, at: int) -> u32 {
    (bytes[at] + 256 * bytes[at + 1] + 65536 * bytes[at + 2] + 16777216 * bytes[at + 3]) as u32
}

/// The `n` consecutive words that start at `at`.
pub open spec fn words_at(bytes: Seq<u8>, at: int, n: nat) -> Seq<u32> {
    Seq::new(n, |k: int| word_at(bytes, at + 4 * k))
}

/// The four bytes of a word, least significant first.
pub open spec fn word_bytes(word: u32) -> Seq<u8> {
    seq![
        (word % 256) as u8,
        ((word / 256) % 256) as u8,
        ((word / 65536) % 256) as u8,
        (word / 16777216) as u8,
    ]
}

/// Reads the word at `at`.
pub(crate) fn read_word(bytes: &[u8], at: usize) -> (word: u32)
    requires
        at + 4 <= bytes.len(),
    ensures
        word == word_at(bytes@, at as int),
{
    bytes[at] as u32 + 256 * (bytes[at + 1] as u32) + 65536 * (bytes[at + 2] as u32) + 16777216 * (
    bytes[at + 3] as u32)
}

/// Reads `N` consecutive words from `at` on.
pub(crate) fn read_words<const N: usize>(bytes: &[u8], at: usize) -> (words: [u32; N])
    requires
        at + 4 * N <= bytes.len(),
    ensures
        words@ == words_at(bytes@, at as int, N as nat),
{
    let mut words: [u32; N] = [0u32;N];
    let mut k: usize = 0;
    while k < N
        invariant
            k <= N,
            at + 4 * N <= bytes.len(),
            forall|j: int| 0 <= j < k ==> words@[j] == word_at(bytes@, at + 4 * j),
        decreases N - k,
    {
        words[k] = read_word(bytes, at + 4 * k);
        k += 1;
    }
    assert(words@ =~= words_at(bytes@, at as int, N as nat));
    words
}

/// Appends the four bytes of `word` to `buffer`.
pub(crate) fn push_word(buffer: &mut Vec<u8>, word: u32)
    ensures
        final(buffer)@ == old(buffer)@ + word_bytes(word),
        final(buffer).len() == old(buffer).len() + 4,
        word_at(final(buffer)@, old(buffer).len() as int) == word,
{
    buffer.push((word % 256) as u8);
    buffer.push(((word / 256) % 256) as u8);
    buffer.push(((word / 65536) % 256) as u8);
    buffer.push((word / 16777216) as u8);
    assert(buffer@ =~= old(buffer)@ + word_bytes(word));
}

} // verus!
