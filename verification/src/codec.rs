//! Frame codec: compact encoding of the pixel difference between two
//! equal-length raw buffers.
//!
//! A diff is a sequence of records laid out back to back.  Each record is
//! an 8-byte little-endian skip count, an 8-byte little-endian literal
//! count, and that many literal bytes.  Applying a diff to a buffer walks
//! a cursor: each record advances the cursor over `skip` unchanged bytes,
//! then overwrites the next `take` bytes with the literals.  Unchanged
//! trailing bytes are not encoded at all, so a diff between equal buffers
//! is empty and the cost of a diff is proportional to the changed runs,
//! not to the buffer size.
use vstd::prelude::*;

verus! {

/// Value of an 8-byte little-endian unsigned integer.
pub open spec fn le64_val(b: Seq<u8>) -> int
    recommends
        b.len() == 8,
{
    b[0] + 0x100 * b[1] + 0x10000 * b[2] + 0x1000000 * b[3] + 0x100000000 * b[4] + 0x10000000000
        * b[5] + 0x1000000000000 * b[6] + 0x100000000000000 * b[7]
}

/// Append the 8 little-endian bytes of `n` to `out`.
fn push_le64(out: &mut Vec<u8>, n: u64)
    ensures
        final(out)@.len() == old(out)@.len() + 8,
        final(out)@.subrange(0, old(out)@.len() as int) == old(out)@,
        le64_val(final(out)@.subrange(old(out)@.len() as int, final(out)@.len() as int)) == n,
{
    let b0 = (n % 0x100) as u8;
    let n1 = n / 0x100;
    let b1 = (n1 % 0x100) as u8;
    let n2 = n1 / 0x100;
    let b2 = (n2 % 0x100) as u8;
    let n3 = n2 / 0x100;
    let b3 = (n3 % 0x100) as u8;
    let n4 = n3 / 0x100;
    let b4 = (n4 % 0x100) as u8;
    let n5 = n4 / 0x100;
    let b5 = (n5 % 0x100) as u8;
    let n6 = n5 / 0x100;
    let b6 = (n6 % 0x100) as u8;
    let n7 = n6 / 0x100;
    let b7 = (n7 % 0x100) as u8;
    out.push(b0);
    out.push(b1);
    out.push(b2);
    out.push(b3);
    out.push(b4);
    out.push(b5);
    out.push(b6);
    out.push(b7);
    proof {
        let s = out@.subrange(old(out)@.len() as int, out@.len() as int);
        assert(s =~= seq![b0, b1, b2, b3, b4, b5, b6, b7]);
        assert(n7 < 0x100) by {
            assert(n / 0x100000000000000 < 0x100);
        }
        assert(le64_val(s) == n);
        assert(out@.subrange(0, old(out)@.len() as int) =~= old(out)@);
    }
}

/// Read the 8-byte little-endian integer at offset `at` of `d`.
fn read_le64(d: &Vec<u8>, at: usize) -> (n: u64)
    requires
        at + 8 <= d@.len(),
    ensures
        n == le64_val(d@.subrange(at as int, at + 8)),
{
    let len = d.len();
    assert(at + 8 <= len);
    let mut n: u64 = d[at + 7] as u64;
    n = n * 0x100 + d[at + 6] as u64;
    n = n * 0x100 + d[at + 5] as u64;
    n = n * 0x100 + d[at + 4] as u64;
    n = n * 0x100 + d[at + 3] as u64;
    n = n * 0x100 + d[at + 2] as u64;
    n = n * 0x100 + d[at + 1] as u64;
    n = n * 0x100 + d[at] as u64;
    proof {
        let s = d@.subrange(at as int, at + 8);
        assert(le64_val(s) == n);
    }
    n
}

/// Skip count of the record at the front of `d`.
pub open spec fn rec_skip(d: Seq<u8>) -> int {
    le64_val(d.subrange(0, 8))
}

/// Literal count of the record at the front of `d`.
pub open spec fn rec_take(d: Seq<u8>) -> int {
    le64_val(d.subrange(8, 16))
}

/// `base` with the bytes starting at `at` overwritten by `lit`.
pub open spec fn overwrite(base: Seq<u8>, at: int, lit: Seq<u8>) -> Seq<u8> {
    base.take(at) + lit + base.skip(at + lit.len())
}

/// The diff `d`, read from a cursor at `pos`, is well formed for a buffer
/// of length `len`: records lie back to back, and every skip and literal
/// run stays inside the buffer.
pub open spec fn diff_wf_at(d: Seq<u8>, pos: int, len: int) -> bool
    decreases d.len(),
{
    if d.len() == 0 {
        true
    } else {
        &&& d.len() >= 16
        &&& rec_take(d) <= d.len() - 16
        &&& pos + rec_skip(d) + rec_take(d) <= len
        &&& diff_wf_at(d.skip(16 + rec_take(d)), pos + rec_skip(d) + rec_take(d), len)
    }
}

/// Result of applying the diff `d` to `base` with the cursor at `pos`.
pub open spec fn diff_apply_at(d: Seq<u8>, base: Seq<u8>, pos: int) -> Seq<u8>
    decreases d.len(),
{
    if d.len() < 16 {
        base
    } else {
        let skip = rec_skip(d);
        let take = rec_take(d);
        if take > d.len() - 16 || pos < 0 || pos + skip + take > base.len() {
            base
        } else {
            diff_apply_at(
                d.skip(16 + take),
                overwrite(base, pos + skip, d.subrange(16, 16 + take)),
                pos + skip + take,
            )
        }
    }
}

/// Cursor position after walking every record of `d` from `pos`.
pub open spec fn diff_end(d: Seq<u8>, pos: int) -> int
    decreases d.len(),
{
    if d.len() < 16 {
        pos
    } else {
        let take = rec_take(d);
        if take > d.len() - 16 {
            pos
        } else {
            diff_end(d.skip(16 + take), pos + rec_skip(d) + take)
        }
    }
}

/// A diff is well formed when read from the start of the buffer.
pub open spec fn diff_wf(d: Seq<u8>, len: int) -> bool {
    diff_wf_at(d, 0, len)
}

/// Result of applying the diff `d` to the whole buffer `base`.
pub open spec fn diff_apply(d: Seq<u8>, base: Seq<u8>) -> Seq<u8> {
    diff_apply_at(d, base, 0)
}

/// Every 8-byte little-endian value is a 64-bit natural number.
proof fn lemma_le64_val_bounds(b: Seq<u8>)
    requires
        b.len() == 8,
    ensures
        0 <= le64_val(b) <= u64::MAX,
{
}

/// Appending `e` to a well-formed diff `d` yields a diff that walks `d`'s
/// records and then `e`'s, starting where `d` ended.
proof fn lemma_diff_append(d: Seq<u8>, e: Seq<u8>, base: Seq<u8>, pos: int, len: int)
    requires
        diff_wf_at(d, pos, len),
        base.len() == len,
        0 <= pos <= len,
    ensures
        diff_wf_at(e, diff_end(d, pos), len) ==> diff_wf_at(d + e, pos, len),
        diff_apply_at(d + e, base, pos) == diff_apply_at(
            e,
            diff_apply_at(d, base, pos),
            diff_end(d, pos),
        ),
        diff_end(d + e, pos) == diff_end(e, diff_end(d, pos)),
    decreases d.len(),
{
    if d.len() == 0 {
        assert(d + e =~= e);
    } else {
        let take = rec_take(d);
        let skip = rec_skip(d);
        assert((d + e).subrange(0, 8) =~= d.subrange(0, 8));
        assert((d + e).subrange(8, 16) =~= d.subrange(8, 16));
        assert((d + e).subrange(16, 16 + take) =~= d.subrange(16, 16 + take));
        assert((d + e).skip(16 + take) =~= d.skip(16 + take) + e);
        assert(skip >= 0 && take >= 0) by {
            lemma_le64_val_bounds(d.subrange(0, 8));
            lemma_le64_val_bounds(d.subrange(8, 16));
        }
        let base1 = overwrite(base, pos + skip, d.subrange(16, 16 + take));
        assert(base1.len() == len);
        lemma_diff_append(d.skip(16 + take), e, base1, pos + skip + take, len);
    }
}

/// A single record, standing alone, is well formed and overwrites
/// exactly its literal window.
proof fn lemma_single_record(rec: Seq<u8>, base: Seq<u8>, skip: int, take: int, pos: int, len: int)
    requires
        rec.len() == 16 + take,
        rec_skip(rec) == skip,
        rec_take(rec) == take,
        0 <= skip,
        0 <= take,
        0 <= pos,
        pos + skip + take <= len,
        base.len() == len,
    ensures
        diff_wf_at(rec, pos, len),
        diff_end(rec, pos) == pos + skip + take,
        diff_apply_at(rec, base, pos) == overwrite(base, pos + skip, rec.subrange(16, 16 + take)),
{
    assert(rec.skip(16 + take).len() == 0);
    assert(diff_wf_at(rec.skip(16 + take), pos + skip + take, len));
    assert(diff_end(rec.skip(16 + take), pos + skip + take) == pos + skip + take);
    let base1 = overwrite(base, pos + skip, rec.subrange(16, 16 + take));
    assert(diff_apply_at(rec.skip(16 + take), base1, pos + skip + take) == base1);
}

/// Encode the difference between the equal-length buffers `prev` and
/// `cur`.  Applying the result to `prev` yields `cur`; equal buffers
/// yield an empty diff, and a wholly changed buffer costs one record.
#[verifier::rlimit(100)]
pub fn encode(prev: &Vec<u8>, cur: &Vec<u8>) -> (d: Vec<u8>)
    requires
        prev@.len() == cur@.len(),
    ensures
        diff_wf(d@, cur@.len() as int),
        diff_apply(d@, prev@) == cur@,
        prev@ == cur@ ==> d@.len() == 0,
        (prev@.len() > 0 && (forall|q: int| 0 <= q < prev@.len() ==> prev@[q] != cur@[q]))
            ==> d@.len() == 16 + cur@.len(),
{
    let len = prev.len();
    let mut out: Vec<u8> = Vec::new();
    let mut i: usize = 0;
    loop
        invariant
            i <= len,
            len == prev@.len() == cur@.len(),
            diff_wf(out@, len as int),
            diff_end(out@, 0) == i,
            diff_apply(out@, prev@) == cur@.take(i as int) + prev@.skip(i as int),
            prev@ == cur@ ==> out@.len() == 0,
            i == 0 ==> out@.len() == 0,
            (i > 0 && (forall|q: int| 0 <= q < prev@.len() ==> prev@[q] != cur@[q])) ==> (i == len
                && out@.len() == 16 + len),
        ensures
            diff_wf(out@, len as int),
            diff_apply(out@, prev@) == cur@,
            prev@ == cur@ ==> out@.len() == 0,
            (len > 0 && (forall|q: int| 0 <= q < prev@.len() ==> prev@[q] != cur@[q]))
                ==> out@.len() == 16 + len,
        decreases len - i,
    {
        if i >= len {
            proof {
                assert(cur@.take(i as int) + prev@.skip(i as int) =~= cur@);
                if len > 0 && (forall|q: int| 0 <= q < prev@.len() ==> prev@[q] != cur@[q]) {
                    assert(i > 0);
                }
            }
            break ;
        }
        let mut j = i;
        while j < len && prev[j] == cur[j]
            invariant
                i <= j <= len,
                len == prev@.len() == cur@.len(),
                forall|q: int| i <= q < j ==> prev@[q] == cur@[q],
            decreases len - j,
        {
            j = j + 1;
        }
        if j == len {
            proof {
                assert(cur@.take(i as int) + prev@.skip(i as int) =~= cur@);
                if len > 0 && (forall|q: int| 0 <= q < prev@.len() ==> prev@[q] != cur@[q]) {
                    assert(prev@[i as int] == cur@[i as int]);
                    assert(false);
                }
            }
            break ;
        }
        let mut k = j;
        while k < len && prev[k] != cur[k]
            invariant
                j <= k <= len,
                len == prev@.len() == cur@.len(),
                forall|q: int| j <= q < k ==> prev@[q] != cur@[q],
            decreases len - k,
        {
            k = k + 1;
        }
        let ghost out0 = out@;
        push_le64(&mut out, (j - i) as u64);
        let ghost out_a = out@;
        push_le64(&mut out, (k - j) as u64);
        let ghost out1 = out@;
        let mut m = j;
        while m < k
            invariant
                j <= m <= k <= len,
                len == cur@.len(),
                out@.len() == out1.len() + (m - j),
                out@.subrange(0, out1.len() as int) == out1,
                out@.skip(out1.len() as int) == cur@.subrange(j as int, m as int),
            decreases k - m,
        {
            out.push(cur[m]);
            proof {
                assert(out@.subrange(0, out1.len() as int) =~= out1);
                assert(out@.skip(out1.len() as int) =~= cur@.subrange(j as int, m + 1));
            }
            m = m + 1;
        }
        proof {
            let rec = out@.skip(out0.len() as int);
            let skip = j - i;
            let take = k - j;
            assert(rec.subrange(0, 8) =~= out_a.subrange(out0.len() as int, out_a.len() as int));
            assert(rec.subrange(8, 16) =~= out1.subrange(out_a.len() as int, out1.len() as int));
            assert(rec.subrange(16, 16 + take) =~= cur@.subrange(j as int, k as int));
            assert(rec_skip(rec) == skip && rec_take(rec) == take);
            assert(rec.len() == 16 + take);
            let applied = cur@.take(i as int) + prev@.skip(i as int);
            assert(applied.len() == len);
            lemma_single_record(rec, applied, skip, take, i as int, len as int);
            lemma_diff_append(out0, rec, prev@, 0, len as int);
            assert(out@ =~= out0 + rec);
            assert(overwrite(applied, i + skip, rec.subrange(16, 16 + take)) =~= cur@.take(k as int)
                + prev@.skip(k as int));
            if forall|q: int| 0 <= q < prev@.len() ==> prev@[q] != cur@[q] {
                assert(i == 0);
                assert(j == 0) by {
                    if j > 0 {
                        assert(prev@[0] == cur@[0]);
                    }
                }
                assert(k == len) by {
                    if k < len {
                        assert(prev@[k as int] == cur@[k as int]);
                    }
                }
            }
        }
        i = k;
    }
    out
}

/// Apply a well-formed diff to `buf` in place, reconstructing the buffer
/// the diff was encoded against.  The length never changes and nothing is
/// reallocated.
pub fn decode(diff: &Vec<u8>, buf: &mut Vec<u8>)
    requires
        diff_wf(diff@, old(buf)@.len() as int),
    ensures
        final(buf)@ == diff_apply(diff@, old(buf)@),
        final(buf)@.len() == old(buf)@.len(),
{
    let len = buf.len();
    let dlen = diff.len();
    let mut off: usize = 0;
    let mut pos: usize = 0;
    proof {
        assert(diff@.skip(0) =~= diff@);
    }
    while off < dlen
        invariant
            off <= dlen,
            0 <= pos <= len,
            len == buf@.len() == old(buf)@.len(),
            dlen == diff@.len(),
            diff_wf_at(diff@.skip(off as int), pos as int, len as int),
            diff_apply_at(diff@.skip(off as int), buf@, pos as int) == diff_apply(
                diff@,
                old(buf)@,
            ),
        decreases dlen - off,
    {
        let ghost d = diff@.skip(off as int);
        let ghost entry = buf@;
        assert(d.len() >= 16);
        proof {
            assert(diff@.subrange(off as int, off + 8) =~= d.subrange(0, 8));
            assert(diff@.subrange(off + 8, off + 16) =~= d.subrange(8, 16));
            lemma_le64_val_bounds(d.subrange(0, 8));
            lemma_le64_val_bounds(d.subrange(8, 16));
        }
        let skip64 = read_le64(diff, off);
        let take64 = read_le64(diff, off + 8);
        assert(pos + skip64 + take64 <= len);
        let skip = skip64 as usize;
        let take = take64 as usize;
        let start = pos + skip;
        let mut m: usize = 0;
        while m < take
            invariant
                0 <= m <= take,
                start + take <= len,
                off + 16 + take <= dlen,
                len == buf@.len(),
                dlen == diff@.len(),
                entry.len() == len,
                forall|q: int| 0 <= q < start ==> buf@[q] == entry[q],
                forall|q: int|
                    start <= q < start + m ==> buf@[q] == diff@[off + 16 + (q - start)],
                forall|q: int| start + m <= q < len ==> buf@[q] == entry[q],
            decreases take - m,
        {
            let b = diff[off + 16 + m];
            buf.set(start + m, b);
            m = m + 1;
        }
        proof {
            let lits = d.subrange(16, 16 + take);
            assert(lits =~= diff@.subrange(off + 16, off + 16 + take));
            assert(buf@ =~= overwrite(entry, start as int, lits));
            assert(d.skip(16 + take) =~= diff@.skip(off + 16 + take));
            assert(diff_apply_at(d, entry, pos as int) == diff_apply_at(
                d.skip(16 + take),
                buf@,
                pos + skip + take,
            ));
        }
        pos = start + take;
        off = off + 16 + take;
    }
    proof {
        assert(diff@.skip(off as int).len() == 0);
        assert(diff_apply_at(diff@.skip(off as int), buf@, pos as int) == buf@);
    }
}

/// Check whether `diff` is a well-formed diff for a buffer of length
/// `len`, so that a diff received from outside can be rejected before it
/// is applied.
pub fn is_valid_diff(diff: &Vec<u8>, len: usize) -> (b: bool)
    ensures
        b == diff_wf(diff@, len as int),
{
    let dlen = diff.len();
    let mut off: usize = 0;
    let mut pos: usize = 0;
    proof {
        assert(diff@.skip(0) =~= diff@);
    }
    loop
        invariant
            off <= dlen,
            0 <= pos <= len,
            dlen == diff@.len(),
            diff_wf(diff@, len as int) == diff_wf_at(
                diff@.skip(off as int),
                pos as int,
                len as int,
            ),
        decreases dlen - off,
    {
        let ghost d = diff@.skip(off as int);
        if off == dlen {
            return true;
        }
        if dlen - off < 16 {
            return false;
        }
        proof {
            assert(diff@.subrange(off as int, off + 8) =~= d.subrange(0, 8));
            assert(diff@.subrange(off + 8, off + 16) =~= d.subrange(8, 16));
            lemma_le64_val_bounds(d.subrange(0, 8));
            lemma_le64_val_bounds(d.subrange(8, 16));
        }
        let skip64 = read_le64(diff, off);
        let take64 = read_le64(diff, off + 8);
        if take64 > (dlen - off - 16) as u64 {
            return false;
        }
        if skip64 > (len - pos) as u64 {
            return false;
        }
        if take64 > (len - pos) as u64 - skip64 {
            return false;
        }
        let take = take64 as usize;
        let skip = skip64 as usize;
        proof {
            assert(d.skip(16 + take as int) =~= diff@.skip(off + 16 + take));
        }
        off = off + 16 + take;
        pos = pos + skip + take;
    }
}

} // verus!
