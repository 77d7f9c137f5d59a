//! The bulk copier that moves a band into its place on the display surface.
//!
//! A copy runs in three stages: blocks of 64 bytes, each moved as eight
//! words of 8 bytes that are all read before the first is written; then
//! single words; then the last bytes one at a time. `plan_copy` says how
//! many of each a length takes, and `fast_copy` carries the plan out on
//! ordinary memory.

use vstd::prelude::*;

verus! {

/// Bytes moved by one word.
pub const WORD_LEN: usize = 8;

/// Bytes moved by one block: eight words, one cache line.
pub const BLOCK_LEN: usize = 64;

/// How a copy of some length splits into blocks, words and single bytes.
#[derive(Clone, Copy, Debug, PartialEq, Eq)]
pub struct CopyPlan {
    /// Number of 64-byte blocks, copied first.
    pub blocks: usize,
    /// Number of 8-byte words that follow the blocks; fewer than eight.
    pub words: usize,
    /// Number of single bytes that follow the words; fewer than eight.
    pub bytes: usize,
}

impl CopyPlan {
    /// Total number of bytes the plan moves.
    pub open spec fn total(self) -> nat {
        (self.blocks as nat) * 64 + (self.words as nat) * 8 + (self.bytes as nat)
    }

    /// Offset at which the word stage starts.
    pub open spec fn words_start(self) -> nat {
        (self.blocks as nat) * 64
    }

    /// Offset at which the byte stage starts.
    pub open spec fn bytes_start(self) -> nat {
        (self.blocks as nat) * 64 + (self.words as nat) * 8
    }
}

/// Splits a copy of `len` bytes into its three stages.
pub fn plan_copy(len: usize) -> (plan: CopyPlan)
    ensures
        plan.blocks == len / 64,
        plan.words == (len % 64) / 8,
        plan.bytes == len % 8,
        plan.words < 8,
        plan.bytes < 8,
        plan.total() == len,
{
    let rest: usize = len % BLOCK_LEN;
    CopyPlan { blocks: len / BLOCK_LEN, words: rest / WORD_LEN, bytes: rest % WORD_LEN }
}

/// `dst` with the bytes from `offset` on replaced by `src`; all other bytes
/// keep their value.
pub open spec fn overwritten(dst: Seq<u8>, offset: int, src: Seq<u8>) -> Seq<u8> {
    Seq::new(
        dst.len(),
        |i: int|
            if offset <= i < offset + src.len() {
                src[i - offset]
            } else {
                dst[i]
            },
    )
}

/// Reads the word of eight bytes that starts at `at`.
fn load_word(src: &[u8], at: usize) -> (word: [u8; 8])
    requires
        at + 8 <= src.len(),
    ensures
        word@ == src@.subrange(at as int, at + 8),
{
    let word: [u8; 8] = [
        src[at],
        src[at + 1],
        src[at + 2],
        src[at + 3],
        src[at + 4],
        src[at + 5],
        src[at + 6],
        src[at + 7],
    ];
    assert(word@ =~= src@.subrange(at as int, at + 8));
    word
}

/// Writes the eight bytes of `word` to `dst` from `at` on.
fn store_word(dst: &mut Vec<u8>, at: usize, word: &[u8; 8])
    requires
        at + 8 <= old(dst).len(),
    ensures
        final(dst)@ == overwritten(old(dst)@, at as int, word@),
{
    dst.set(at, word[0]);
    dst.set(at + 1, word[1]);
    dst.set(at + 2, word[2]);
    dst.set(at + 3, word[3]);
    dst.set(at + 4, word[4]);
    dst.set(at + 5, word[5]);
    dst.set(at + 6, word[6]);
    dst.set(at + 7, word[7]);
    assert(dst@ =~= overwritten(old(dst)@, at as int, word@));
}

/// Writing the next piece right behind what was written so far is the same
/// as writing both at once.
proof fn lemma_overwrite_extends(
    dst: Seq<u8>,
    offset: int,
    src: Seq<u8>,
    done: int,
    step: int,
)
    requires
        0 <= offset,
        0 <= done,
        0 <= step,
        done + step <= src.len(),
        offset + src.len() <= dst.len(),
    ensures
        overwritten(
            overwritten(dst, offset, src.take(done)),
            offset + done,
            src.subrange(done, done + step),
        ) == overwritten(dst, offset, src.take(done + step)),
{
    assert(overwritten(
        overwritten(dst, offset, src.take(done)),
        offset + done,
        src.subrange(done, done + step),
    ) =~= overwritten(dst, offset, src.take(done + step)));
}

/// Copies all of `src` into `dst` from `offset` on, in blocks, then words,
/// then single bytes. Bytes of `dst` outside that range keep their value.
pub fn fast_copy(src: &[u8], dst: &mut Vec<u8>, offset: usize)
    requires
        offset + src.len() <= old(dst).len(),
    ensures
        final(dst)@ == overwritten(old(dst)@, offset as int, src@),
{
    let len: usize = src.len();
    let plan: CopyPlan = plan_copy(len);
    let ghost start = dst@;
    let mut i: usize = 0;
    let mut block: usize = 0;
    assert(dst@ =~= overwritten(start, offset as int, src@.take(0)));
    while block < plan.blocks
        invariant
            len == src.len(),
            offset + len <= start.len() == dst.len(),
            plan.total() == len,
            block <= plan.blocks,
            i == block * 64,
            dst@ == overwritten(start, offset as int, src@.take(i as int)),
        decreases plan.blocks - block,
    {
        let w0 = load_word(src, i);
        let w1 = load_word(src, i + 8);
        let w2 = load_word(src, i + 16);
        let w3 = load_word(src, i + 24);
        let w4 = load_word(src, i + 32);
        let w5 = load_word(src, i + 40);
        let w6 = load_word(src, i + 48);
        let w7 = load_word(src, i + 56);
        proof {
            lemma_overwrite_extends(start, offset as int, src@, i as int, 8);
            lemma_overwrite_extends(start, offset as int, src@, i + 8, 8);
            lemma_overwrite_extends(start, offset as int, src@, i + 16, 8);
            lemma_overwrite_extends(start, offset as int, src@, i + 24, 8);
            lemma_overwrite_extends(start, offset as int, src@, i + 32, 8);
            lemma_overwrite_extends(start, offset as int, src@, i + 40, 8);
            lemma_overwrite_extends(start, offset as int, src@, i + 48, 8);
            lemma_overwrite_extends(start, offset as int, src@, i + 56, 8);
        }
        store_word(dst, offset + i, &w0);
        store_word(dst, offset + i + 8, &w1);
        store_word(dst, offset + i + 16, &w2);
        store_word(dst, offset + i + 24, &w3);
        store_word(dst, offset + i + 32, &w4);
        store_word(dst, offset + i + 40, &w5);
        store_word(dst, offset + i + 48, &w6);
        store_word(dst, offset + i + 56, &w7);
        i += BLOCK_LEN;
        block += 1;
    }
    let mut word: usize = 0;
    while word < plan.words
        invariant
            len == src.len(),
            offset + len <= start.len() == dst.len(),
            plan.total() == len,
            word <= plan.words,
            i == plan.words_start() + word * 8,
            dst@ == overwritten(start, offset as int, src@.take(i as int)),
        decreases plan.words - word,
    {
        let w = load_word(src, i);
        proof {
            lemma_overwrite_extends(start, offset as int, src@, i as int, 8);
        }
        store_word(dst, offset + i, &w);
        i += WORD_LEN;
        word += 1;
    }
    while i < len
        invariant
            len == src.len(),
            offset + len <= start.len() == dst.len(),
            i <= len,
            dst@ == overwritten(start, offset as int, src@.take(i as int)),
        decreases len - i,
    {
        dst.set(offset + i, src[i]);
        i += 1;
        assert(dst@ =~= overwritten(start, offset as int, src@.take(i as int)));
    }
    assert(src@.take(len as int) =~= src@);
}

} // verus!
