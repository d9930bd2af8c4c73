//! The delta codec: a size-bounded binary delta between an old and a new
//! object's raw bytes. A delta copies the longest shared prefix and suffix
//! from the old bytes and inserts the middle of the new bytes; it is encoded
//! as three little-endian lengths (prefix, middle, suffix) followed by the
//! middle bytes, and is produced only when that encoding is no larger than
//! the zlib-compressed size of the new bytes. When no such delta exists the
//! codec reports "no delta" and the caller stores the full object instead.

use vstd::prelude::*;

use crate::bytes::{le_u64, lemma_u64_le_round_trip, push_u64_le, u64_le};
use crate::compress::{zlib_compressed_len, zlib_size_of};

verus! {

/// Length of the shared prefix of two byte strings.
pub open spec fn common_prefix_len(a: Seq<u8>, b: Seq<u8>) -> nat
    decreases a.len(),
{
    if a.len() == 0 || b.len() == 0 || a[0] != b[0] {
        0
    } else {
        1 + common_prefix_len(a.skip(1), b.skip(1))
    }
}

/// Length of the shared suffix of two byte strings.
pub open spec fn common_suffix_len(a: Seq<u8>, b: Seq<u8>) -> nat
    decreases a.len(),
{
    if a.len() == 0 || b.len() == 0 || a.last() != b.last() {
        0
    } else {
        1 + common_suffix_len(a.drop_last(), b.drop_last())
    }
}

pub proof fn lemma_common_prefix_props(a: Seq<u8>, b: Seq<u8>)
    ensures
        common_prefix_len(a, b) <= a.len(),
        common_prefix_len(a, b) <= b.len(),
        forall|i: int| 0 <= i < common_prefix_len(a, b) ==> a[i] == b[i],
        common_prefix_len(a, b) < a.len() && common_prefix_len(a, b) < b.len() ==> a[
            common_prefix_len(a, b) as int
        ] != b[common_prefix_len(a, b) as int],
    decreases a.len(),
{
    if a.len() == 0 || b.len() == 0 || a[0] != b[0] {
    } else {
        lemma_common_prefix_props(a.skip(1), b.skip(1));
        let n = common_prefix_len(a, b) as int;
        assert forall|i: int| 0 <= i < n implies a[i] == b[i] by {
            if i > 0 {
                assert(a.skip(1)[i - 1] == a[i]);
                assert(b.skip(1)[i - 1] == b[i]);
            }
        }
        if n < a.len() && n < b.len() {
            assert(a.skip(1)[n - 1] == a[n]);
            assert(b.skip(1)[n - 1] == b[n]);
        }
    }
}

pub proof fn lemma_common_suffix_props(a: Seq<u8>, b: Seq<u8>)
    ensures
        common_suffix_len(a, b) <= a.len(),
        common_suffix_len(a, b) <= b.len(),
        forall|i: int|
            a.len() - common_suffix_len(a, b) <= i < a.len() ==> #[trigger] a[i] == b[i - a.len()
                + b.len()],
        common_suffix_len(a, b) < a.len() && common_suffix_len(a, b) < b.len() ==> a[a.len() - 1
            - common_suffix_len(a, b)] != b[b.len() - 1 - common_suffix_len(a, b)],
    decreases a.len(),
{
    if a.len() == 0 || b.len() == 0 || a.last() != b.last() {
    } else {
        lemma_common_suffix_props(a.drop_last(), b.drop_last());
        let n = common_suffix_len(a, b) as int;
        assert forall|i: int| a.len() - n <= i < a.len() implies #[trigger] a[i] == b[i - a.len()
            + b.len()] by {
            if i == a.len() - 1 {
                assert(a[i] == a.last());
                assert(b[i - a.len() + b.len()] == b.last());
            } else {
                assert(a.drop_last()[i] == a[i]);
                assert(b.drop_last()[i - a.len() + b.len()] == b[i - a.len() + b.len()]);
            }
        }
        if n < a.len() && n < b.len() {
            assert(a.drop_last()[a.len() - 2 - (n - 1)] == a[a.len() - 1 - n]);
            assert(b.drop_last()[b.len() - 2 - (n - 1)] == b[b.len() - 1 - n]);
        }
    }
}

/// The prefix length a delta between `old` and `new` copies.
pub open spec fn delta_prefix(old: Seq<u8>, new: Seq<u8>) -> nat {
    common_prefix_len(old, new)
}

/// The suffix length a delta between `old` and `new` copies; taken after the
/// prefix so that copied regions never overlap.
pub open spec fn delta_suffix(old: Seq<u8>, new: Seq<u8>) -> nat {
    common_suffix_len(old.skip(delta_prefix(old, new) as int), new.skip(delta_prefix(old, new) as int))
}

/// The middle of `new` that a delta inserts verbatim.
pub open spec fn delta_mid(old: Seq<u8>, new: Seq<u8>) -> Seq<u8> {
    new.subrange(delta_prefix(old, new) as int, new.len() - delta_suffix(old, new))
}

/// The encoded delta: prefix length, middle length and suffix length as
/// little-endian integers, then the middle bytes.
pub open spec fn delta_bytes_of(old: Seq<u8>, new: Seq<u8>) -> Seq<u8> {
    u64_le(delta_prefix(old, new) as u64) + u64_le(delta_mid(old, new).len() as u64) + u64_le(
        delta_suffix(old, new) as u64,
    ) + delta_mid(old, new)
}

/// The size of the encoded delta.
pub open spec fn delta_encoded_len(old: Seq<u8>, new: Seq<u8>) -> nat {
    24 + delta_mid(old, new).len()
}

/// Whether the codec produces a delta at all: both sides must be non-empty
/// and the encoding must not exceed the compressed size of the new bytes.
pub open spec fn delta_exists(old: Seq<u8>, new: Seq<u8>) -> bool {
    old.len() > 0 && new.len() > 0 && delta_encoded_len(old, new) <= zlib_size_of(new)
}

/// What a well-formed delta reconstructs from `old`: the copied prefix, the
/// inserted middle, and the copied suffix. Malformed bytes reconstruct
/// nothing.
pub open spec fn apply_delta_spec(old: Seq<u8>, d: Seq<u8>) -> Option<Seq<u8>> {
    if d.len() < 24 {
        None
    } else {
        let p = le_u64(d.subrange(0, 8)) as int;
        let m = le_u64(d.subrange(8, 16)) as int;
        let s = le_u64(d.subrange(16, 24)) as int;
        if d.len() == 24 + m && p + s <= old.len() {
            Some(old.take(p) + d.skip(24) + old.skip(old.len() - s))
        } else {
            None
        }
    }
}

/// A delta made from `old` and `new` reconstructs `new` exactly.
pub proof fn lemma_delta_applies(old: Seq<u8>, new: Seq<u8>)
    requires
        old.len() <= u64::MAX,
        new.len() <= u64::MAX,
    ensures
        apply_delta_spec(old, delta_bytes_of(old, new)) == Some(new),
{
    let p = delta_prefix(old, new) as int;
    let s = delta_suffix(old, new) as int;
    let mid = delta_mid(old, new);
    let d = delta_bytes_of(old, new);
    lemma_common_prefix_props(old, new);
    lemma_common_suffix_props(old.skip(p), new.skip(p));
    assert(s <= old.len() - p && s <= new.len() - p);
    lemma_u64_le_round_trip(p as u64);
    lemma_u64_le_round_trip(mid.len() as u64);
    lemma_u64_le_round_trip(s as u64);
    assert(d.subrange(0, 8) =~= u64_le(p as u64));
    assert(d.subrange(8, 16) =~= u64_le(mid.len() as u64));
    assert(d.subrange(16, 24) =~= u64_le(s as u64));
    assert(d.len() == 24 + mid.len());
    assert(d.skip(24) =~= mid);
    let rebuilt = old.take(p) + d.skip(24) + old.skip(old.len() - s);
    assert(old.take(p) =~= new.take(p));
    assert forall|i: int| old.len() - s <= i < old.len() implies old[i] == new[i - old.len()
        + new.len()] by {
        assert(old.skip(p)[i - p] == old[i]);
        assert(new.skip(p)[i - p - old.len() + new.len()] == new[i - old.len() + new.len()]);
    }
    let osuf = old.skip(old.len() - s);
    let nsuf = new.skip(new.len() - s);
    assert forall|k: int| 0 <= k < s implies #[trigger] osuf[k] == nsuf[k] by {
        assert(old[old.len() - s + k] == new[new.len() - s + k]);
    }
    assert(osuf =~= nsuf);
    assert(rebuilt =~= new);
}

/// Length of the shared prefix of two byte vectors.
fn prefix_len(a: &Vec<u8>, b: &Vec<u8>) -> (r: usize)
    ensures
        r == common_prefix_len(a@, b@),
{
    proof {
        lemma_common_prefix_props(a@, b@);
    }
    let mut i: usize = 0;
    while i < a.len() && i < b.len() && a[i] == b[i]
        invariant
            i <= a.len(),
            i <= b.len(),
            forall|j: int| 0 <= j < i ==> a@[j] == b@[j],
        decreases a.len() - i,
    {
        i += 1;
    }
    proof {
        let n = common_prefix_len(a@, b@) as int;
        if i < n {
            assert(a@[i as int] == b@[i as int]);
        }
        if n < i {
            assert(a@[n] == b@[n]);
        }
    }
    i
}

/// Length of the shared suffix of `a[start..]` and `b[start..]`.
fn suffix_len_from(a: &Vec<u8>, b: &Vec<u8>, start: usize) -> (r: usize)
    requires
        start <= a.len(),
        start <= b.len(),
    ensures
        r == common_suffix_len(a@.skip(start as int), b@.skip(start as int)),
{
    let ghost sa = a@.skip(start as int);
    let ghost sb = b@.skip(start as int);
    proof {
        lemma_common_suffix_props(sa, sb);
        assert(forall|j: int| 0 <= j < sa.len() ==> sa[j] == a@[start + j]);
        assert(forall|j: int| 0 <= j < sb.len() ==> sb[j] == b@[start + j]);
    }
    let mut i: usize = 0;
    while i < a.len() - start && i < b.len() - start && a[a.len() - 1 - i] == b[b.len() - 1 - i]
        invariant
            i <= a.len() - start,
            i <= b.len() - start,
            start <= a.len(),
            start <= b.len(),
            forall|j: int| a@.len() - i <= j < a@.len() ==> #[trigger] a@[j] == b@[j - a@.len()
                + b@.len()],
        decreases a.len() - start - i,
    {
        i += 1;
    }
    proof {
        let n = common_suffix_len(sa, sb) as int;
        if i < n {
            // the loop stopped on a mismatch, yet the shared suffix is longer
            assert(sa[sa.len() - 1 - i] == sb[sb.len() - 1 - i]);
            assert(a@[a@.len() - 1 - i] == b@[b@.len() - 1 - i]);
        }
        if n < i {
            // the shared suffix ended, yet the loop saw equal bytes there
            assert(sa[sa.len() - 1 - n] != sb[sb.len() - 1 - n]);
            assert(a@[a@.len() - 1 - n] == b@[b@.len() - 1 - n]);
        }
    }
    i
}

/// Append `src[start..end]` to `dst`.
pub fn push_range(dst: &mut Vec<u8>, src: &Vec<u8>, start: usize, end: usize)
    requires
        start <= end <= src.len(),
    ensures
        final(dst)@ == old(dst)@ + src@.subrange(start as int, end as int),
{
    let mut i: usize = start;
    while i < end
        invariant
            start <= i <= end <= src.len(),
            dst@ == old(dst)@ + src@.subrange(start as int, i as int),
        decreases end - i,
    {
        proof {
            assert(src@.subrange(start as int, i + 1) =~= src@.subrange(start as int, i as int).push(
                src@[i as int],
            ));
        }
        dst.push(src[i]);
        i += 1;
    }
}

/// Compute the size-bounded delta turning `old_object` into `new_object`, or
/// report that none exists within the bound. The bound is the length of the
/// zlib-compressed new bytes: a delta bigger than that is worthless, since
/// storing the new object compressed would be cheaper. Empty inputs never
/// yield a delta.
#[verifier::rlimit(50)]
pub fn compute_raw_delta(old_object: &Vec<u8>, new_object: &Vec<u8>) -> (r: Option<Vec<u8>>)
    ensures
        r is Some <==> delta_exists(old_object@, new_object@),
        r matches Some(d) ==> d@ == delta_bytes_of(old_object@, new_object@) && d@.len()
            <= zlib_size_of(new_object@) && apply_delta_spec(old_object@, d@) == Some(new_object@),
{
    if old_object.len() == 0 || new_object.len() == 0 {
        return None;
    }
    let bound = zlib_compressed_len(new_object);
    let p = prefix_len(old_object, new_object);
    proof {
        lemma_common_prefix_props(old_object@, new_object@);
    }
    let s = suffix_len_from(old_object, new_object, p);
    proof {
        lemma_common_suffix_props(old_object@.skip(p as int), new_object@.skip(p as int));
    }
    let mid_len = new_object.len() - p - s;
    if bound < 24 || mid_len > bound - 24 {
        return None;
    }
    let mut d: Vec<u8> = Vec::new();
    push_u64_le(&mut d, p as u64);
    push_u64_le(&mut d, mid_len as u64);
    push_u64_le(&mut d, s as u64);
    push_range(&mut d, new_object, p, new_object.len() - s);
    proof {
        assert(d@ =~= delta_bytes_of(old_object@, new_object@));
        lemma_delta_applies(old_object@, new_object@);
    }
    Some(d)
}

/// Reconstruct the new bytes from the old bytes and an encoded delta.
/// Malformed delta bytes are rejected rather than misread.
pub fn apply_delta(old: &Vec<u8>, d: &Vec<u8>) -> (r: Option<Vec<u8>>)
    ensures
        r is Some <==> apply_delta_spec(old@, d@) is Some,
        r matches Some(v) ==> apply_delta_spec(old@, d@) == Some(v@),
{
    if d.len() < 24 {
        return None;
    }
    let p = crate::bytes::read_u64_le(d, 0);
    let m = crate::bytes::read_u64_le(d, 8);
    let s = crate::bytes::read_u64_le(d, 16);
    proof {
        assert(d@.subrange(0, 8) == d@.subrange(0int, 0int + 8));
        assert(d@.subrange(8, 16) == d@.subrange(8int, 8int + 8));
        assert(d@.subrange(16, 24) == d@.subrange(16int, 16int + 8));
    }
    if m != (d.len() - 24) as u64 {
        return None;
    }
    if p > old.len() as u64 || s > old.len() as u64 - p {
        return None;
    }
    let pu = p as usize;
    let su = s as usize;
    let mut v: Vec<u8> = Vec::new();
    push_range(&mut v, old, 0, pu);
    push_range(&mut v, d, 24, d.len());
    push_range(&mut v, old, old.len() - su, old.len());
    proof {
        assert(old@.subrange(0, pu as int) =~= old@.take(p as int));
        assert(d@.subrange(24, d@.len() as int) =~= d@.skip(24));
        assert(old@.subrange(old@.len() - su, old@.len() as int) =~= old@.skip(
            old@.len() - s as int,
        ));
    }
    Some(v)
}

} // verus!
