//! Positioned writes, and what applying one does to a file's bytes.
//!
//! The engine never touches a file itself: each mutating operation
//! returns the positioned writes to perform, and the I/O shell applies
//! them with positioned writes on the open table file.
//! [`spec_apply_write`] states what such a write does to the file's
//! byte content — the written range is replaced, and any gap between
//! the old end of the file and the write reads back as zero bytes —
//! and [`apply_write`] is the same operation on an in-memory image,
//! used to reason about and test whole write sequences.

use vstd::prelude::*;
use vstd::pervasive::VecAdditionalExecFns;

verus! {

/// One positioned write: `bytes`, to be written at absolute byte
/// `offset` of the table file.
pub struct DiskWrite {
    pub offset: u64,
    pub bytes: Vec<u8>,
}

impl DiskWrite {
    /// The first byte offset past the written range.
    pub open spec fn spec_end(self) -> int {
        self.offset + self.bytes@.len()
    }
}

/// A file's bytes after a positioned write of `bytes` at `offset`:
/// the file keeps its length or grows to the end of the write,
/// whichever is larger; the written range holds the new bytes; bytes
/// between the old end of the file and the write read as zero; all
/// others are unchanged.
pub open spec fn spec_apply_write(image: Seq<u8>, offset: int, bytes: Seq<u8>) -> Seq<u8> {
    let end = offset + bytes.len();
    let n = if image.len() >= end {
        image.len() as int
    } else {
        end
    };
    Seq::new(
        n as nat,
        |i: int|
            if offset <= i < end {
                bytes[i - offset]
            } else if i < image.len() {
                image[i]
            } else {
                0u8
            },
    )
}

/// A positioned write never shrinks the file and leaves every byte
/// before its offset unchanged.
pub proof fn lemma_apply_write_preserves_prefix(image: Seq<u8>, offset: int, bytes: Seq<u8>, n: int)
    requires
        0 <= n <= offset,
        n <= image.len(),
    ensures
        spec_apply_write(image, offset, bytes).len() >= image.len(),
        spec_apply_write(image, offset, bytes).subrange(0, n) == image.subrange(0, n),
{
    assert(spec_apply_write(image, offset, bytes).subrange(0, n) =~= image.subrange(0, n));
}

/// After a positioned write, the written range holds exactly the
/// written bytes.
pub proof fn lemma_apply_write_overwrites(image: Seq<u8>, offset: int, bytes: Seq<u8>)
    requires
        0 <= offset,
    ensures
        spec_apply_write(image, offset, bytes).len() >= offset + bytes.len(),
        spec_apply_write(image, offset, bytes).subrange(offset, offset + bytes.len()) == bytes,
{
    assert(spec_apply_write(image, offset, bytes).subrange(offset, offset + bytes.len())
        =~= bytes);
}

/// Applies one positioned write to an in-memory file image, with the
/// semantics a positioned write has on a file.
pub fn apply_write(image: &mut Vec<u8>, w: &DiskWrite)
    requires
        w.offset + w.bytes@.len() <= usize::MAX,
    ensures
        final(image)@ == spec_apply_write(old(image)@, w.offset as int, w.bytes@),
{
    let offset = w.offset as usize;
    let end = offset + w.bytes.len();
    let ghost target: int = if old(image)@.len() >= end {
        old(image)@.len() as int
    } else {
        end as int
    };
    while image.len() < end
        invariant
            end <= usize::MAX,
            old(image)@.len() <= image@.len() <= target,
            target == if old(image)@.len() >= end {
                old(image)@.len() as int
            } else {
                end as int
            },
            forall|i: int| 0 <= i < old(image)@.len() ==> image@[i] == old(image)@[i],
            forall|i: int| old(image)@.len() <= i < image@.len() ==> image@[i] == 0u8,
        decreases end - image@.len(),
    {
        image.push(0);
    }
    proof {
        assert(image@.len() == target);
    }
    let mut i: usize = 0;
    while i < w.bytes.len()
        invariant
            i <= w.bytes@.len(),
            offset == w.offset,
            end == offset + w.bytes@.len(),
            image@.len() == if old(image)@.len() >= end {
                old(image)@.len() as int
            } else {
                end as int
            },
            forall|k: int|
                offset <= k < offset + i ==> image@[k] == w.bytes@[k - offset],
            forall|k: int|
                0 <= k < image@.len() && !(offset <= k < offset + i) ==> image@[k] == (
                if k < old(image)@.len() {
                    old(image)@[k]
                } else {
                    0u8
                }),
        decreases w.bytes@.len() - i,
    {
        image.set(offset + i, w.bytes[i]);
        i += 1;
    }
    proof {
        assert(image@ =~= spec_apply_write(old(image)@, w.offset as int, w.bytes@));
    }
}

} // verus!
