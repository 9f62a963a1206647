//! The binary cache format: the one snapshot carried between invocations.
//!
//! A snapshot is stored as a flat sequence of 8-byte little-endian words,
//! one per duration, in order: uptime, average idle, then one word per
//! core. The total length is `8 * (2 + cores)`. Each word holds a
//! non-negative nanosecond count, so a word whose value exceeds
//! `i64::MAX`, like a length that is not a multiple of 8 or implies fewer
//! than two words, marks the file as invalid: an invalid file is treated
//! as "no previous snapshot", never as an error.

use crate::snapshot::{Snapshot, SnapshotView};
use vstd::bytes::{
    lemma_auto_spec_u64_to_from_le_bytes, spec_u64_from_le_bytes, spec_u64_to_le_bytes,
    u64_from_le_bytes, u64_to_le_bytes,
};
use vstd::prelude::*;
use vstd::slice::slice_subrange;

verus! {

/// The 8-byte little-endian word that stores one duration.
pub open spec fn word_of(x: int) -> Seq<u8>
    recommends
        0 <= x <= i64::MAX,
{
    spec_u64_to_le_bytes(x as u64)
}

/// The words that store a sequence of per-core durations, in order.
pub open spec fn words_of(cs: Seq<int>) -> Seq<u8>
    decreases cs.len(),
{
    if cs.len() == 0 {
        Seq::empty()
    } else {
        words_of(cs.drop_last()) + word_of(cs.last())
    }
}

/// The exact bytes that [`store_bytes`] produces for a snapshot.
pub open spec fn encoding_of(v: SnapshotView) -> Seq<u8> {
    word_of(v.uptime_ns) + word_of(v.idle_ns) + words_of(v.core_idle_ns)
}

/// The words held in a byte sequence whose length is a multiple of 8.
pub open spec fn words_in(bytes: Seq<u8>) -> Seq<int> {
    Seq::new(bytes.len() / 8, |k: int| spec_u64_from_le_bytes(bytes.subrange(8 * k, 8 * k + 8)) as int)
}

/// Whether a byte sequence is a valid cache image: whole 8-byte words, at
/// least the two aggregate words, and every word within the nanosecond
/// range of a duration.
pub open spec fn valid_image(bytes: Seq<u8>) -> bool {
    &&& bytes.len() % 8 == 0
    &&& bytes.len() >= 16
    &&& forall|k: int| 0 <= k < words_in(bytes).len() ==> words_in(bytes)[k] <= i64::MAX
}

/// The snapshot that a valid cache image holds.
pub open spec fn image_snapshot(bytes: Seq<u8>) -> SnapshotView
    recommends
        valid_image(bytes),
{
    SnapshotView {
        uptime_ns: words_in(bytes)[0],
        idle_ns: words_in(bytes)[1],
        core_idle_ns: words_in(bytes).skip(2),
    }
}

/// Serializes a snapshot into the bytes of the cache file.
pub fn store_bytes(s: &Snapshot) -> (bytes: Vec<u8>)
    requires
        s.wf(),
        s.core_idle_ns@.len() <= (usize::MAX - 16) / 8,
    ensures
        bytes@ == encoding_of(s@),
        bytes@.len() == 8 * (2 + s.core_idle_ns@.len()),
{
    proof {
        lemma_words_of_len(s@.core_idle_ns);
    }
    let mut bytes = u64_to_le_bytes(s.uptime_ns as u64);
    let mut idle_word = u64_to_le_bytes(s.idle_ns as u64);
    bytes.append(&mut idle_word);
    let n = s.core_idle_ns.len();
    let mut i: usize = 0;
    while i < n
        invariant
            s.wf(),
            n == s.core_idle_ns@.len(),
            n <= (usize::MAX - 16) / 8,
            i <= n,
            bytes@ == word_of(s@.uptime_ns) + word_of(s@.idle_ns) + words_of(
                s@.core_idle_ns.take(i as int),
            ),
            bytes@.len() == 16 + 8 * i,
        decreases n - i,
    {
        proof {
            lemma_words_of_len(s@.core_idle_ns.take(i as int));
            assert(s@.core_idle_ns.take(i + 1).drop_last() =~= s@.core_idle_ns.take(i as int));
        }
        let mut core_word = u64_to_le_bytes(s.core_idle_ns[i] as u64);
        bytes.append(&mut core_word);
        i = i + 1;
    }
    proof {
        assert(s@.core_idle_ns.take(n as int) =~= s@.core_idle_ns);
    }
    bytes
}

/// Deserializes the bytes of the cache file.
///
/// Returns `None` for an invalid image, which callers treat as "no
/// previous snapshot".
pub fn load_bytes(bytes: &[u8]) -> (r: Option<Snapshot>)
    ensures
        match r {
            Some(s) => valid_image(bytes@) && s@ == image_snapshot(bytes@) && s.wf(),
            None => !valid_image(bytes@),
        },
{
    let len = bytes.len();
    if len % 8 != 0 || len < 16 {
        return None;
    }
    let n_words = len / 8;
    let uptime_ns = match read_word(bytes, 0) {
        Some(x) => x,
        None => { return None; },
    };
    let idle_ns = match read_word(bytes, 1) {
        Some(x) => x,
        None => { return None; },
    };
    let mut core_idle_ns: Vec<i64> = Vec::new();
    let mut k: usize = 2;
    while k < n_words
        invariant
            bytes@.len() % 8 == 0,
            bytes@.len() >= 16,
            n_words == bytes@.len() / 8,
            2 <= k <= n_words,
            uptime_ns == words_in(bytes@)[0] && 0 <= uptime_ns,
            idle_ns == words_in(bytes@)[1] && 0 <= idle_ns,
            core_idle_ns@.len() == k - 2,
            forall|j: int|
                0 <= j < k - 2 ==> core_idle_ns@[j] == words_in(bytes@)[j + 2] && 0
                    <= core_idle_ns@[j],
        decreases n_words - k,
    {
        match read_word(bytes, k) {
            Some(x) => core_idle_ns.push(x),
            None => { return None; },
        }
        k = k + 1;
    }
    let s = Snapshot { uptime_ns, idle_ns, core_idle_ns };
    proof {
        assert forall|j: int| 0 <= j < words_in(bytes@).len() implies words_in(bytes@)[j]
            <= i64::MAX by {
            if j >= 2 {
                assert(s.core_idle_ns@[j - 2] == words_in(bytes@)[j]);
            }
        }
        assert(s@.core_idle_ns =~= words_in(bytes@).skip(2));
        assert(s@ == image_snapshot(bytes@));
    }
    Some(s)
}

/// Reads the `k`-th word of a cache image, refusing a value outside the
/// nanosecond range of a duration.
fn read_word(bytes: &[u8], k: usize) -> (r: Option<i64>)
    requires
        bytes@.len() % 8 == 0,
        0 <= k < bytes@.len() / 8,
    ensures
        match r {
            Some(x) => x == words_in(bytes@)[k as int] && 0 <= x,
            None => words_in(bytes@)[k as int] > i64::MAX,
        },
{
    let len = bytes.len();
    proof {
        vstd::arithmetic::div_mod::lemma_fundamental_div_mod(len as int, 8);
        assert(8 * k + 8 <= len);
    }
    let word = slice_subrange(bytes, 8 * k, 8 * k + 8);
    let value = u64_from_le_bytes(word);
    if value <= 0x7fff_ffff_ffff_ffff {
        Some(value as i64)
    } else {
        None
    }
}

/// The length of the word sequence for `cs` cores is `8 * cs.len()`.
pub proof fn lemma_words_of_len(cs: Seq<int>)
    ensures
        words_of(cs).len() == 8 * cs.len(),
    decreases cs.len(),
{
    lemma_auto_spec_u64_to_from_le_bytes();
    if cs.len() > 0 {
        lemma_words_of_len(cs.drop_last());
    }
}

/// Word sequences concatenate the way their durations do.
proof fn lemma_words_of_concat(a: Seq<int>, b: Seq<int>)
    ensures
        words_of(a + b) == words_of(a) + words_of(b),
    decreases b.len(),
{
    if b.len() == 0 {
        assert(a + b =~= a);
        assert(words_of(a) + words_of(b) =~= words_of(a));
    } else {
        lemma_words_of_concat(a, b.drop_last());
        assert((a + b).drop_last() =~= a + b.drop_last());
        assert(words_of(a + b) =~= words_of(a) + words_of(b));
    }
}

/// Reading the words of an encoded duration sequence gives the sequence
/// back.
proof fn lemma_words_in_words_of(ws: Seq<int>)
    requires
        forall|k: int| 0 <= k < ws.len() ==> 0 <= #[trigger] ws[k] <= i64::MAX,
    ensures
        words_in(words_of(ws)) == ws,
    decreases ws.len(),
{
    lemma_auto_spec_u64_to_from_le_bytes();
    lemma_words_of_len(ws);
    if ws.len() == 0 {
        assert(words_in(words_of(ws)) =~= ws);
    } else {
        let prefix = ws.drop_last();
        lemma_words_in_words_of(prefix);
        lemma_words_of_len(prefix);
        let bytes = words_of(ws);
        assert forall|k: int| 0 <= k < ws.len() implies words_in(bytes)[k] == ws[k] by {
            if k < ws.len() - 1 {
                assert(bytes.subrange(8 * k, 8 * k + 8) =~= words_of(prefix).subrange(
                    8 * k,
                    8 * k + 8,
                ));
                assert(words_in(words_of(prefix))[k] == prefix[k]);
            } else {
                assert(bytes.subrange(8 * k, 8 * k + 8) =~= word_of(ws.last()));
            }
        }
        assert(words_in(bytes) =~= ws);
    }
}

/// A file truncated to a length that is not a multiple of 8, or to
/// fewer than the 16 bytes of the two aggregate words, is never a valid
/// image: loading reports "no previous snapshot", not an error.
pub proof fn lemma_truncated_image_invalid(bytes: Seq<u8>)
    requires
        bytes.len() % 8 != 0 || bytes.len() < 16,
    ensures
        !valid_image(bytes),
{
}

/// The cache round-trip law: the bytes written for a well-formed snapshot
/// form a valid image, and loading them yields that snapshot again,
/// value for value.
pub proof fn lemma_cache_round_trip(v: SnapshotView)
    requires
        v.wf(),
    ensures
        valid_image(encoding_of(v)),
        image_snapshot(encoding_of(v)) == v,
{
    let aggregate = seq![v.uptime_ns, v.idle_ns];
    let ws = aggregate + v.core_idle_ns;
    let first = seq![v.uptime_ns];
    assert(words_of(Seq::<int>::empty()) =~= Seq::<u8>::empty());
    assert(first.drop_last() =~= Seq::<int>::empty());
    assert(words_of(first) == word_of(v.uptime_ns)) by {
        assert(words_of(first) =~= word_of(v.uptime_ns));
    }
    assert(aggregate.drop_last() =~= first);
    assert(words_of(aggregate) == words_of(first) + word_of(v.idle_ns));
    lemma_words_of_concat(aggregate, v.core_idle_ns);
    assert(encoding_of(v) == words_of(ws));
    assert forall|k: int| 0 <= k < ws.len() implies 0 <= #[trigger] ws[k] <= i64::MAX by {
        if k >= 2 {
            assert(ws[k] == v.core_idle_ns[k - 2]);
        }
    }
    lemma_words_in_words_of(ws);
    lemma_words_of_len(ws);
    vstd::arithmetic::div_mod::lemma_mod_multiples_basic(2 + v.core_idle_ns.len() as int, 8);
    assert(words_in(encoding_of(v)).skip(2) =~= v.core_idle_ns);
}

} // verus!
