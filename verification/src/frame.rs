//! The first stack frame of a task that has not run yet, and where in the
//! stack buffer it lies.
//!
//! The frame is three 8-byte words, stored least significant byte first, as
//! an x86-64 processor reads them. A return-style transfer to the frame
//! lands on the task; when the task returns, control passes over the bridge
//! stub into the recycling trampoline.

use vstd::prelude::*;
use vstd::bytes::{
    lemma_auto_spec_u64_to_from_le_bytes, spec_u64_from_le_bytes, spec_u64_to_le_bytes,
    u64_to_le_bytes,
};

verus! {

/// Boundary, in bytes, to which the top of a stack is aligned down.
pub const STACK_ALIGNMENT: usize = 16;

/// Size in bytes of one word of a frame.
pub const WORD_SIZE: usize = 8;

/// Distance in bytes from the aligned top of a stack down to the first
/// frame.
pub const FRAME_DEPTH: usize = 32;

/// Number of bytes that the three words of a frame take.
pub const FRAME_SIZE: usize = 24;

/// The smallest stack in which a frame fits wherever the stack lies:
/// aligning the top down may take up to 15 bytes.
pub const MIN_STACK_SIZE: usize = FRAME_DEPTH + STACK_ALIGNMENT - 1;

/// The three code addresses of a first frame.
#[derive(Clone, Copy, Debug, PartialEq, Eq, Structural)]
pub struct Launch {
    /// Where the task starts.
    pub entry: u64,
    /// The bridge stub, which the task returns to.
    pub skip: u64,
    /// The recycling trampoline, which the bridge stub falls through to.
    pub guard: u64,
}

/// Offset, from the first byte of a stack of `size` bytes at address `base`,
/// of the first frame: `FRAME_DEPTH` bytes below the end of the stack
/// aligned down to `STACK_ALIGNMENT`.
pub open spec fn frame_offset(base: int, size: int) -> int {
    size - (base + size) % (STACK_ALIGNMENT as int) - FRAME_DEPTH
}

/// `bytes` with the eight bytes from offset `at` replaced by `word`, least
/// significant byte first.
pub open spec fn put_word(bytes: Seq<u8>, at: int, word: u64) -> Seq<u8> {
    Seq::new(
        bytes.len(),
        |i: int|
            if at <= i < at + 8 {
                spec_u64_to_le_bytes(word)[i - at]
            } else {
                bytes[i]
            },
    )
}

/// The word that the eight bytes of `bytes` from offset `at` hold.
pub open spec fn word_at(bytes: Seq<u8>, at: int) -> u64 {
    spec_u64_from_le_bytes(bytes.subrange(at, at + 8))
}

/// `bytes` with a first frame at offset `at`: the task's entry at `at`, the
/// bridge stub above it, the recycling trampoline above that.
pub open spec fn with_frame(bytes: Seq<u8>, at: int, launch: Launch) -> Seq<u8> {
    put_word(
        put_word(put_word(bytes, at + 2 * WORD_SIZE, launch.guard), at + WORD_SIZE, launch.skip),
        at,
        launch.entry,
    )
}

/// A word that was put at an offset is read back there; the length and every
/// byte outside the word are as before.
pub proof fn lemma_put_word(bytes: Seq<u8>, at: int, word: u64)
    requires
        0 <= at,
        at + 8 <= bytes.len(),
    ensures
        put_word(bytes, at, word).len() == bytes.len(),
        word_at(put_word(bytes, at, word), at) == word,
        forall|i: int|
            0 <= i < bytes.len() && !(at <= i < at + 8) ==> #[trigger] put_word(bytes, at, word)[i]
                == bytes[i],
{
    lemma_auto_spec_u64_to_from_le_bytes();
    assert(put_word(bytes, at, word).subrange(at, at + 8) =~= spec_u64_to_le_bytes(word));
}

/// A word that does not overlap the one that was put reads as before.
pub proof fn lemma_put_word_elsewhere(bytes: Seq<u8>, at: int, word: u64, other: int)
    requires
        0 <= at,
        at + 8 <= bytes.len(),
        0 <= other,
        other + 8 <= bytes.len(),
        other + 8 <= at || at + 8 <= other,
    ensures
        word_at(put_word(bytes, at, word), other) == word_at(bytes, other),
{
    assert(put_word(bytes, at, word).subrange(other, other + 8) =~= bytes.subrange(
        other,
        other + 8,
    ));
}

/// The three words of a frame read back as they were laid out, and the bytes
/// outside the frame are as before.
pub proof fn lemma_frame_words(bytes: Seq<u8>, at: int, launch: Launch)
    requires
        0 <= at,
        at + 24 <= bytes.len(),
    ensures
        with_frame(bytes, at, launch).len() == bytes.len(),
        word_at(with_frame(bytes, at, launch), at) == launch.entry,
        word_at(with_frame(bytes, at, launch), at + 8) == launch.skip,
        word_at(with_frame(bytes, at, launch), at + 16) == launch.guard,
        forall|i: int|
            0 <= i < bytes.len() && !(at <= i < at + 24) ==> #[trigger] with_frame(
                bytes,
                at,
                launch,
            )[i] == bytes[i],
{
    let first = put_word(bytes, at + 16, launch.guard);
    let second = put_word(first, at + 8, launch.skip);
    lemma_put_word(bytes, at + 16, launch.guard);
    lemma_put_word(first, at + 8, launch.skip);
    lemma_put_word(second, at, launch.entry);
    lemma_put_word_elsewhere(first, at + 8, launch.skip, at + 16);
    lemma_put_word_elsewhere(second, at, launch.entry, at + 16);
    lemma_put_word_elsewhere(second, at, launch.entry, at + 8);
}

/// The offset of the first frame in a stack of `size` bytes at address
/// `base`.
pub fn locate_frame(base: usize, size: usize) -> (at: usize)
    requires
        base + size <= usize::MAX,
        size >= MIN_STACK_SIZE,
    ensures
        at == frame_offset(base as int, size as int),
        at + FRAME_DEPTH <= size,
        (base + at) % (STACK_ALIGNMENT as int) == 0,
{
    let end: usize = base + size;
    let mask: usize = !(STACK_ALIGNMENT - 1);
    let top: usize = end & mask;
    assert(top == end - end % 16) by (bit_vector)
        requires
            mask == !15usize,
            top == end & mask,
    ;
    top - FRAME_DEPTH - base
}

/// Stores `word` in the eight bytes of `stack` from offset `at`, least
/// significant byte first.
pub fn write_word(stack: &mut Vec<u8>, at: usize, word: u64)
    requires
        at + WORD_SIZE <= old(stack).len(),
    ensures
        final(stack)@ == put_word(old(stack)@, at as int, word),
{
    let bytes = u64_to_le_bytes(word);
    let mut k: usize = 0;
    while k < WORD_SIZE
        invariant
            k <= 8,
            bytes@ == spec_u64_to_le_bytes(word),
            bytes@.len() == 8,
            stack.len() == old(stack).len(),
            at + 8 <= stack.len(),
            forall|i: int|
                0 <= i < stack@.len() ==> #[trigger] stack@[i] == if at <= i < at + k {
                    bytes@[i - at]
                } else {
                    old(stack)@[i]
                },
        decreases 8 - k,
    {
        stack[at + k] = bytes[k];
        k += 1;
    }
    assert(stack@ =~= put_word(old(stack)@, at as int, word));
}

/// Lays out a first frame in `stack` at offset `at`, from the high address
/// downward: the recycling trampoline, the bridge stub, the task's entry.
pub fn write_frame(stack: &mut Vec<u8>, at: usize, launch: Launch)
    requires
        at + FRAME_SIZE <= old(stack).len(),
    ensures
        final(stack)@ == with_frame(old(stack)@, at as int, launch),
{
    write_word(stack, at + 2 * WORD_SIZE, launch.guard);
    write_word(stack, at + WORD_SIZE, launch.skip);
    write_word(stack, at, launch.entry);
}

/// The addresses of the first byte of `stack` and of the byte one past its
/// last, from `<[u8]>::as_ptr_range`. Its documentation says that the
/// difference between the two pointers is the size of the slice; nothing
/// else is claimed of them.
#[verifier::external_body]
pub(crate) fn address_range(stack: &Vec<u8>) -> (range: (usize, usize))
    ensures
        range.1 - range.0 == stack@.len(),
{
    let range = stack.as_ptr_range();
    (range.start as usize, range.end as usize)
}

} // verus!
