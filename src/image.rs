//! A file's contents as a sequence of bytes, and what a positional write does
//! to them.
use vstd::prelude::*;

verus! {

/// The contents of `file` after `bytes` are written at `pos`: the range
/// `[pos, pos + bytes.len())` holds `bytes`, every other byte keeps its value,
/// and a gap between the old end and `pos` reads as zeros (a hole). Writing
/// no bytes changes nothing, wherever `pos` lies.
pub open spec fn write_at(file: Seq<u8>, pos: int, bytes: Seq<u8>) -> Seq<u8> {
    let end = pos + bytes.len();
    let len = if bytes.len() > 0 && end > file.len() {
        end
    } else {
        file.len() as int
    };
    Seq::new(
        len as nat,
        |i: int|
            if pos <= i < end {
                bytes[i - pos]
            } else if i < file.len() {
                file[i]
            } else {
                0u8
            },
    )
}

/// `[pos, pos + len)` and `[other, other + other_len)` share no byte.
pub open spec fn disjoint(pos: int, len: int, other: int, other_len: int) -> bool {
    pos + len <= other || other + other_len <= pos
}

/// The contents of `file` after each write of `writes`, a position and its
/// bytes, was applied in turn.
pub open spec fn write_all_at(file: Seq<u8>, writes: Seq<(int, Seq<u8>)>) -> Seq<u8>
    decreases writes.len(),
{
    if writes.len() == 0 {
        file
    } else {
        let last = writes.last();
        write_at(write_all_at(file, writes.drop_last()), last.0, last.1)
    }
}

/// After a write of some bytes, the file reaches at least to their end, and
/// reading `bytes.len()` bytes at `pos` gives them back.
pub proof fn lemma_write_exact(file: Seq<u8>, pos: int, bytes: Seq<u8>)
    requires
        0 <= pos,
        bytes.len() > 0,
    ensures
        write_at(file, pos, bytes).len() >= pos + bytes.len(),
        write_at(file, pos, bytes).subrange(pos, pos + bytes.len()) == bytes,
{
    assert(write_at(file, pos, bytes).subrange(pos, pos + bytes.len()) =~= bytes);
}

/// A write changes no byte outside its own range, and the file only grows.
pub proof fn lemma_write_untouched(file: Seq<u8>, pos: int, bytes: Seq<u8>, i: int)
    requires
        0 <= pos,
        0 <= i < file.len(),
        !(pos <= i < pos + bytes.len()),
    ensures
        write_at(file, pos, bytes).len() >= file.len(),
        write_at(file, pos, bytes)[i] == file[i],
{
}

/// Writing `first` at `pos` and then `second` right after it gives the same
/// contents as writing `first + second` at `pos` in one go.
pub proof fn lemma_write_in_pieces(file: Seq<u8>, pos: int, first: Seq<u8>, second: Seq<u8>)
    requires
        0 <= pos,
    ensures
        write_at(write_at(file, pos, first), pos + first.len(), second) == write_at(
            file,
            pos,
            first + second,
        ),
{
    assert(write_at(write_at(file, pos, first), pos + first.len(), second) =~= write_at(
        file,
        pos,
        first + second,
    ));
}

/// Writes at pairwise disjoint ranges, applied in any order (whether whole
/// records taken one at a time under a lock, or the pieces of several records
/// interleaved), leave each range holding exactly its own bytes.
pub proof fn lemma_disjoint_writes_intact(file: Seq<u8>, writes: Seq<(int, Seq<u8>)>, k: int)
    requires
        0 <= k < writes.len(),
        forall|j: int| 0 <= j < writes.len() ==> 0 <= #[trigger] writes[j].0,
        forall|j: int, l: int|
            0 <= j < writes.len() && 0 <= l < writes.len() && j != l ==> disjoint(
                #[trigger] writes[j].0,
                writes[j].1.len() as int,
                #[trigger] writes[l].0,
                writes[l].1.len() as int,
            ),
        writes[k].1.len() > 0,
    ensures
        write_all_at(file, writes).len() >= writes[k].0 + writes[k].1.len(),
        write_all_at(file, writes).subrange(writes[k].0, writes[k].0 + writes[k].1.len())
            == writes[k].1,
    decreases writes.len(),
{
    let n = writes.len() as int;
    let (pos, bytes) = writes[k];
    if k == n - 1 {
        lemma_write_exact(write_all_at(file, writes.drop_last()), pos, bytes);
    } else {
        let prefix = writes.drop_last();
        assert(prefix[k] == writes[k]);
        assert forall|j: int, l: int|
            0 <= j < prefix.len() && 0 <= l < prefix.len() && j != l implies disjoint(
                #[trigger] prefix[j].0,
                prefix[j].1.len() as int,
                #[trigger] prefix[l].0,
                prefix[l].1.len() as int,
            ) by {
            assert(prefix[j] == writes[j] && prefix[l] == writes[l]);
        }
        lemma_disjoint_writes_intact(file, prefix, k);
        let before = write_all_at(file, prefix);
        let last = writes[n - 1];
        assert(disjoint(pos, bytes.len() as int, last.0, last.1.len() as int));
        assert(write_all_at(file, writes) == write_at(before, last.0, last.1));
        assert(write_at(before, last.0, last.1).subrange(pos, pos + bytes.len()) =~= before.subrange(
            pos,
            pos + bytes.len(),
        ));
    }
}

/// Writes at disjoint ranges commute: the order in which two concurrent
/// writers reach the file does not change its contents.
pub proof fn lemma_disjoint_writes_commute(
    file: Seq<u8>,
    pos: int,
    bytes: Seq<u8>,
    other: int,
    other_bytes: Seq<u8>,
)
    requires
        0 <= pos,
        0 <= other,
        disjoint(pos, bytes.len() as int, other, other_bytes.len() as int),
    ensures
        write_at(write_at(file, pos, bytes), other, other_bytes) == write_at(
            write_at(file, other, other_bytes),
            pos,
            bytes,
        ),
{
    assert(write_at(write_at(file, pos, bytes), other, other_bytes) =~= write_at(
        write_at(file, other, other_bytes),
        pos,
        bytes,
    ));
}

/// Whether position `i` lies in the range of write `w`, which has bytes.
pub open spec fn covers(w: (int, Seq<u8>), i: int) -> bool {
    w.1.len() > 0 && w.0 <= i < w.0 + w.1.len()
}

/// The writes are at non-negative positions and pairwise disjoint.
pub open spec fn pairwise_disjoint(writes: Seq<(int, Seq<u8>)>) -> bool {
    &&& forall|j: int| 0 <= j < writes.len() ==> 0 <= #[trigger] writes[j].0
    &&& forall|j: int, l: int|
        0 <= j < writes.len() && 0 <= l < writes.len() && j != l ==> disjoint(
            #[trigger] writes[j].0,
            writes[j].1.len() as int,
            #[trigger] writes[l].0,
            writes[l].1.len() as int,
        )
}

/// What disjoint writes leave, byte by byte, whatever their order: a byte in
/// a write's range holds that write's byte; any other holds the old byte, or
/// zero in a hole; and the file ends at its old end or at the end of one of
/// the writes, whichever lies furthest.
proof fn lemma_disjoint_writes_pointwise(file: Seq<u8>, writes: Seq<(int, Seq<u8>)>)
    requires
        pairwise_disjoint(writes),
    ensures
        ({
            let after = write_all_at(file, writes);
            &&& after.len() >= file.len()
            &&& forall|k: int, i: int|
                0 <= k < writes.len() && #[trigger] covers(writes[k], i) ==> i < after.len()
                    && after[i] == writes[k].1[i - writes[k].0]
            &&& forall|i: int|
                0 <= i < after.len() && (forall|k: int| 0 <= k < writes.len() ==> !#[trigger] covers(writes[k], i))
                    ==> after[i] == (if i < file.len() {
                    file[i]
                } else {
                    0u8
                })
            &&& forall|k: int|
                0 <= k < writes.len() && writes[k].1.len() > 0 ==> after.len() >= #[trigger] writes[k].0
                    + writes[k].1.len()
            &&& after.len() == file.len() || exists|k: int|
                0 <= k < writes.len() && writes[k].1.len() > 0 && after.len() == #[trigger] writes[k].0
                    + writes[k].1.len()
        }),
    decreases writes.len(),
{
    if writes.len() > 0 {
        let n = writes.len() as int;
        let prefix = writes.drop_last();
        assert forall|j: int, l: int|
            0 <= j < prefix.len() && 0 <= l < prefix.len() && j != l implies disjoint(
                #[trigger] prefix[j].0,
                prefix[j].1.len() as int,
                #[trigger] prefix[l].0,
                prefix[l].1.len() as int,
            ) by {
            assert(prefix[j] == writes[j] && prefix[l] == writes[l]);
        }
        assert forall|j: int| 0 <= j < prefix.len() implies 0 <= #[trigger] prefix[j].0 by {
            assert(prefix[j] == writes[j]);
        }
        lemma_disjoint_writes_pointwise(file, prefix);
        let before = write_all_at(file, prefix);
        let last = writes[n - 1];
        let after = write_all_at(file, writes);
        assert(after == write_at(before, last.0, last.1));
        assert forall|k: int, i: int|
            0 <= k < writes.len() && #[trigger] covers(writes[k], i) implies i < after.len()
                && after[i] == writes[k].1[i - writes[k].0] by {
            if k < n - 1 {
                assert(prefix[k] == writes[k]);
                assert(covers(prefix[k], i));
                assert(disjoint(writes[k].0, writes[k].1.len() as int, last.0, last.1.len() as int));
            }
        }
        assert forall|i: int|
            0 <= i < after.len() && (forall|k: int| 0 <= k < writes.len() ==> !#[trigger] covers(writes[k], i))
                implies after[i] == (if i < file.len() {
                file[i]
            } else {
                0u8
            }) by {
            assert(!covers(writes[n - 1], i));
            assert forall|k: int| 0 <= k < prefix.len() implies !#[trigger] covers(prefix[k], i) by {
                assert(prefix[k] == writes[k]);
                assert(!covers(writes[k], i));
            }
        }
        assert forall|k: int|
            0 <= k < writes.len() && writes[k].1.len() > 0 implies after.len() >= #[trigger] writes[k].0
                + writes[k].1.len() by {
            if k < n - 1 {
                assert(prefix[k] == writes[k]);
                assert(before.len() >= prefix[k].0 + prefix[k].1.len());
            }
        }
        if after.len() != file.len() {
            if last.1.len() > 0 && last.0 + last.1.len() > before.len() {
                assert(after.len() == writes[n - 1].0 + writes[n - 1].1.len());
            } else {
                assert(after.len() == before.len());
                let k = choose|k: int|
                    0 <= k < prefix.len() && prefix[k].1.len() > 0 && before.len() == #[trigger] prefix[k].0
                        + prefix[k].1.len();
                assert(prefix[k] == writes[k]);
                assert(after.len() == writes[k].0 + writes[k].1.len());
            }
        }
    }
}

/// Disjoint writes give the same file in whatever order they are applied:
/// N concurrent writers at disjoint ranges leave one result, the one of
/// taking their writes one after another in any order.
pub proof fn lemma_disjoint_writes_any_order(
    file: Seq<u8>,
    writes: Seq<(int, Seq<u8>)>,
    order: Seq<int>,
)
    requires
        pairwise_disjoint(writes),
        order.len() == writes.len(),
        forall|j: int| 0 <= j < order.len() ==> 0 <= #[trigger] order[j] < writes.len(),
        forall|j: int, l: int|
            0 <= j < order.len() && 0 <= l < order.len() && j != l ==> #[trigger] order[j]
                != #[trigger] order[l],
        forall|k: int| 0 <= k < writes.len() ==> #[trigger] order.contains(k),
    ensures
        write_all_at(file, writes) == write_all_at(
            file,
            Seq::new(order.len(), |j: int| writes[order[j]]),
        ),
{
    let other = Seq::new(order.len(), |j: int| writes[order[j]]);
    assert forall|j: int| 0 <= j < other.len() implies 0 <= #[trigger] other[j].0 by {}
    assert forall|j: int, l: int|
        0 <= j < other.len() && 0 <= l < other.len() && j != l implies disjoint(
            #[trigger] other[j].0,
            other[j].1.len() as int,
            #[trigger] other[l].0,
            other[l].1.len() as int,
        ) by {
        assert(order[j] != order[l]);
    }
    lemma_disjoint_writes_pointwise(file, writes);
    lemma_disjoint_writes_pointwise(file, other);
    let a = write_all_at(file, writes);
    let b = write_all_at(file, other);
    // Each reaches as far as the other.
    assert(a.len() <= b.len()) by {
        if a.len() != file.len() {
            let k = choose|k: int|
                0 <= k < writes.len() && writes[k].1.len() > 0 && a.len() == #[trigger] writes[k].0
                    + writes[k].1.len();
            assert(order.contains(k));
            let j = choose|j: int| 0 <= j < order.len() && #[trigger] order[j] == k;
            assert(other[j] == writes[k]);
            assert(b.len() >= other[j].0 + other[j].1.len());
        }
    }
    assert(b.len() <= a.len()) by {
        if b.len() != file.len() {
            let j = choose|j: int|
                0 <= j < other.len() && other[j].1.len() > 0 && b.len() == #[trigger] other[j].0
                    + other[j].1.len();
            assert(a.len() >= writes[order[j]].0 + writes[order[j]].1.len());
        }
    }
    assert forall|i: int| 0 <= i < a.len() implies a[i] == b[i] by {
        if exists|k: int| 0 <= k < writes.len() && #[trigger] covers(writes[k], i) {
            let k = choose|k: int| 0 <= k < writes.len() && #[trigger] covers(writes[k], i);
            assert(order.contains(k));
            let j = choose|j: int| 0 <= j < order.len() && #[trigger] order[j] == k;
            assert(other[j] == writes[k]);
            assert(covers(other[j], i));
        } else {
            assert forall|j: int| 0 <= j < other.len() implies !#[trigger] covers(other[j], i) by {
                assert(other[j] == writes[order[j]]);
                assert(!covers(writes[order[j]], i));
            }
        }
    }
    assert(a =~= b);
}

} // verus!
