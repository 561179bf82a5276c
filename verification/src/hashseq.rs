//! Hash sequences: the root blob of every transfer is the concatenation of
//! 32-byte content hashes, the metadata blob's hash first and then one hash
//! per file, in the order of the metadata's items.

use vstd::prelude::*;
use crate::errors::{ErrorModel, SeyfrError};

verus! {

/// Length in bytes of one content hash.
pub const HASH_LEN: usize = 32;

/// Every hash in `hs` has the length of a content hash.
pub open spec fn well_sized(hs: Seq<Seq<u8>>) -> bool {
    forall|i: int| 0 <= i < hs.len() ==> (#[trigger] hs[i]).len() == HASH_LEN
}

/// The bytes of a hash sequence: its hashes one after the other.
pub open spec fn flatten(hs: Seq<Seq<u8>>) -> Seq<u8>
    decreases hs.len(),
{
    if hs.len() == 0 {
        Seq::empty()
    } else {
        flatten(hs.drop_last()) + hs.last()
    }
}

/// The `i`-th 32-byte chunk of `b`.
pub open spec fn chunk(b: Seq<u8>, i: int) -> Seq<u8> {
    b.subrange(HASH_LEN * i, HASH_LEN * i + HASH_LEN)
}

/// `b` cut into consecutive 32-byte chunks.
pub open spec fn chunks(b: Seq<u8>) -> Seq<Seq<u8>> {
    Seq::new(b.len() / HASH_LEN as nat, |i: int| chunk(b, i))
}

/// The hashes that a blob holds, when its length is a whole number of hashes.
pub open spec fn decode(b: Seq<u8>) -> Option<Seq<Seq<u8>>> {
    if b.len() % HASH_LEN as nat == 0 {
        Some(chunks(b))
    } else {
        None
    }
}

/// The hash sequence of a transfer: metadata hash, then the file hashes.
pub open spec fn root_layout(meta: Seq<u8>, files: Seq<Seq<u8>>) -> Seq<u8> {
    flatten(seq![meta] + files)
}

/// What the receiver makes of the root blob: the metadata hash and the
/// hashes that follow it, or the error it reports.
pub open spec fn split_root_spec(b: Seq<u8>) -> Result<(Seq<u8>, Seq<Seq<u8>>), ErrorModel> {
    match decode(b) {
        None => Err(ErrorModel::Store { details: invalid_hash_seq_text() }),
        Some(hs) => if hs.len() == 0 {
            Err(ErrorModel::Store { details: "empty hash sequence"@ })
        } else {
            Ok((hs[0], hs.drop_first()))
        },
    }
}

pub open spec fn invalid_hash_seq_text() -> Seq<char> {
    "invalid hash sequence: invalid hash sequence"@
}

// ---------------------------------------------------------------------------
// Lemmas
// ---------------------------------------------------------------------------

proof fn lemma_flatten_len(hs: Seq<Seq<u8>>)
    requires
        well_sized(hs),
    ensures
        flatten(hs).len() == HASH_LEN * hs.len(),
    decreases hs.len(),
{
    if hs.len() > 0 {
        lemma_flatten_len(hs.drop_last());
    }
}

proof fn lemma_flatten_chunk(hs: Seq<Seq<u8>>, i: int)
    requires
        well_sized(hs),
        0 <= i < hs.len(),
    ensures
        chunk(flatten(hs), i) == hs[i],
    decreases hs.len(),
{
    lemma_flatten_len(hs);
    let init = hs.drop_last();
    lemma_flatten_len(init);
    if i < hs.len() - 1 {
        lemma_flatten_chunk(init, i);
        assert(chunk(flatten(hs), i) =~= chunk(flatten(init), i));
    } else {
        assert(chunk(flatten(hs), i) =~= hs.last());
    }
}

proof fn lemma_flatten_push(hs: Seq<Seq<u8>>, h: Seq<u8>)
    ensures
        flatten(hs.push(h)) == flatten(hs) + h,
{
    assert(hs.push(h).drop_last() =~= hs);
}

/// Reading back a written hash sequence gives the hashes that were written.
pub proof fn lemma_decode_flatten(hs: Seq<Seq<u8>>)
    requires
        well_sized(hs),
    ensures
        decode(flatten(hs)) == Some(hs),
{
    lemma_flatten_len(hs);
    let b = flatten(hs);
    assert(b.len() / HASH_LEN as nat == hs.len());
    assert forall|i: int| 0 <= i < hs.len() implies chunks(b)[i] == hs[i] by {
        lemma_flatten_chunk(hs, i);
    }
    assert(chunks(b) =~= hs);
}

proof fn lemma_flatten_chunks_prefix(b: Seq<u8>, n: int)
    requires
        0 <= n,
        HASH_LEN * n <= b.len(),
    ensures
        flatten(Seq::new(n as nat, |i: int| chunk(b, i))) == b.subrange(0, HASH_LEN * n),
    decreases n,
{
    let s = Seq::new(n as nat, |i: int| chunk(b, i));
    if n == 0 {
        assert(b.subrange(0, 0) =~= Seq::<u8>::empty());
    } else {
        lemma_flatten_chunks_prefix(b, n - 1);
        assert(s.drop_last() =~= Seq::new((n - 1) as nat, |i: int| chunk(b, i)));
        assert(b.subrange(0, HASH_LEN * n) =~= b.subrange(0, HASH_LEN * (n - 1)) + chunk(
            b,
            n - 1,
        ));
    }
}

/// Writing back the hashes read from a blob gives the blob.
pub proof fn lemma_flatten_decode(b: Seq<u8>)
    requires
        decode(b) is Some,
    ensures
        flatten(decode(b)->0) == b,
{
    let n = (b.len() / HASH_LEN as nat) as int;
    lemma_flatten_chunks_prefix(b, n);
    assert(chunks(b) =~= Seq::new(n as nat, |i: int| chunk(b, i)));
    assert(b.subrange(0, HASH_LEN * n) =~= b);
}

/// What the sender writes as the root of a transfer, the receiver splits back
/// into the same metadata hash and the same file hashes.
pub proof fn lemma_root_roundtrip(meta: Seq<u8>, files: Seq<Seq<u8>>)
    requires
        meta.len() == HASH_LEN,
        well_sized(files),
    ensures
        split_root_spec(root_layout(meta, files)) == Ok::<(Seq<u8>, Seq<Seq<u8>>), ErrorModel>(
            (meta, files),
        ),
{
    let all = seq![meta] + files;
    assert(well_sized(all)) by {
        assert forall|i: int| 0 <= i < all.len() implies (#[trigger] all[i]).len() == HASH_LEN by {
            if i > 0 {
                assert(all[i] == files[i - 1]);
            }
        }
    }
    lemma_decode_flatten(all);
    assert(all.drop_first() =~= files);
}


/// A written hash sequence is its hashes end to end: 32 bytes each, the
/// `i`-th hash at bytes `32 * i` up to `32 * i + 32`.
pub proof fn lemma_flatten_bytes(hs: Seq<Seq<u8>>)
    requires
        well_sized(hs),
    ensures
        flatten(hs).len() == 32 * hs.len(),
        forall|i: int|
            0 <= i < hs.len() ==> #[trigger] flatten(hs).subrange(32 * i, 32 * i + 32) == hs[i],
{
    lemma_flatten_len(hs);
    assert forall|i: int| 0 <= i < hs.len() implies #[trigger] flatten(hs).subrange(
        32 * i,
        32 * i + 32,
    ) == hs[i] by {
        lemma_flatten_chunk(hs, i);
    }
}

/// A blob holds hashes exactly when its length is a multiple of 32, and then
/// its `i`-th hash is bytes `32 * i` up to `32 * i + 32`, in order.
pub proof fn lemma_decode_bytes(b: Seq<u8>)
    ensures
        decode(b) is Some <==> b.len() % 32 == 0,
        decode(b) matches Some(hs) ==> hs.len() == b.len() / 32 && forall|i: int|
            0 <= i < hs.len() ==> #[trigger] hs[i] == b.subrange(32 * i, 32 * i + 32),
{
}

/// The root blob of a transfer is the metadata hash in its first 32 bytes,
/// then file `i`'s hash at bytes `32 * i + 32` up to `32 * i + 64`.
pub proof fn lemma_root_bytes(meta: Seq<u8>, files: Seq<Seq<u8>>)
    requires
        meta.len() == 32,
        well_sized(files),
    ensures
        root_layout(meta, files).len() == 32 * (files.len() + 1),
        root_layout(meta, files).subrange(0, 32) == meta,
        forall|i: int|
            0 <= i < files.len() ==> #[trigger] root_layout(meta, files).subrange(
                32 * i + 32,
                32 * i + 64,
            ) == files[i],
{
    let all = seq![meta] + files;
    assert(well_sized(all)) by {
        assert forall|i: int| 0 <= i < all.len() implies (#[trigger] all[i]).len() == HASH_LEN by {
            if i > 0 {
                assert(all[i] == files[i - 1]);
            }
        }
    }
    lemma_flatten_bytes(all);
    assert(flatten(all).subrange(32 * 0int, 32 * 0int + 32) == all[0]);
    assert forall|i: int| 0 <= i < files.len() implies #[trigger] root_layout(meta, files).subrange(
        32 * i + 32,
        32 * i + 64,
    ) == files[i] by {
        assert(flatten(all).subrange(32 * (i + 1), 32 * (i + 1) + 32) == all[i + 1]);
        assert(all[i + 1] == files[i]);
    }
}

/// The receiver reads a root blob whose length is a positive multiple of 32,
/// and no other: its first 32 bytes are the metadata hash, and the hashes
/// after them, in order, are the file hashes.
pub proof fn lemma_split_bytes(b: Seq<u8>)
    ensures
        split_root_spec(b) is Ok <==> (b.len() % 32 == 0 && b.len() >= 32),
        split_root_spec(b) matches Ok((m, fs)) ==> m == b.subrange(0, 32) && fs.len() + 1 == b.len()
            / 32 && forall|i: int|
            0 <= i < fs.len() ==> #[trigger] fs[i] == b.subrange(32 * i + 32, 32 * i + 64),
{
    lemma_decode_bytes(b);
    if let Some(hs) = decode(b) {
        if hs.len() > 0 {
            assert(hs[0] == b.subrange(32 * 0int, 32 * 0int + 32));
            let fs = hs.drop_first();
            assert forall|i: int| 0 <= i < fs.len() implies #[trigger] fs[i] == b.subrange(
                32 * i + 32,
                32 * i + 64,
            ) by {
                assert(fs[i] == hs[i + 1]);
                assert(hs[i + 1] == b.subrange(32 * (i + 1), 32 * (i + 1) + 32));
            }
        }
    }
}

// ---------------------------------------------------------------------------
// Executable functions
// ---------------------------------------------------------------------------

/// The bytes of the hash sequence `hashes`.
pub fn encode_hash_seq(hashes: &Vec<Vec<u8>>) -> (r: Vec<u8>)
    requires
        well_sized(hashes.deep_view()),
    ensures
        r@ == flatten(hashes.deep_view()),
        r@.len() == 32 * hashes@.len(),
        forall|i: int|
            0 <= i < hashes@.len() ==> #[trigger] r@.subrange(32 * i, 32 * i + 32) == hashes@[i]@,
{
    proof {
        lemma_flatten_bytes(hashes.deep_view());
    }
    let mut out: Vec<u8> = Vec::new();
    let mut i: usize = 0;
    while i < hashes.len()
        invariant
            i <= hashes@.len(),
            well_sized(hashes.deep_view()),
            out@ == flatten(hashes.deep_view().subrange(0, i as int)),
        decreases hashes@.len() - i,
    {
        let h = &hashes[i];
        let ghost before = out@;
        let mut k: usize = 0;
        while k < h.len()
            invariant
                k <= h@.len(),
                out@ == before + h@.subrange(0, k as int),
            decreases h@.len() - k,
        {
            out.push(h[k]);
            k = k + 1;
            assert(out@ =~= before + h@.subrange(0, k as int));
        }
        proof {
            let done = hashes.deep_view().subrange(0, i as int);
            assert(hashes.deep_view()[i as int] == h@);
            assert(hashes.deep_view().subrange(0, i + 1) =~= done.push(h@));
            lemma_flatten_push(done, h@);
            assert(h@.subrange(0, h@.len() as int) =~= h@);
        }
        i = i + 1;
    }
    assert(hashes.deep_view().subrange(0, i as int) =~= hashes.deep_view());
    proof {
        assert forall|i: int| 0 <= i < hashes@.len() implies #[trigger] out@.subrange(
            32 * i,
            32 * i + 32,
        ) == hashes@[i]@ by {
            assert(hashes.deep_view()[i] == hashes@[i]@);
        }
    }
    out
}

/// The hashes that `bytes` holds, or `None` when its length is not a whole
/// number of hashes.
pub fn decode_hash_seq(bytes: &[u8]) -> (r: Option<Vec<Vec<u8>>>)
    ensures
        match r {
            Some(v) => decode(bytes@) == Some(v.deep_view()),
            None => decode(bytes@) is None,
        },
        r is Some <==> bytes@.len() % 32 == 0,
        r matches Some(v) ==> v@.len() == bytes@.len() / 32 && forall|i: int|
            0 <= i < v@.len() ==> #[trigger] v@[i]@ == bytes@.subrange(32 * i, 32 * i + 32),
{
    proof {
        lemma_decode_bytes(bytes@);
    }
    if bytes.len() % HASH_LEN != 0 {
        return None;
    }
    let len = bytes.len();
    let n = len / HASH_LEN;
    let mut out: Vec<Vec<u8>> = Vec::new();
    let mut i: usize = 0;
    while i < n
        invariant
            i <= n,
            len == bytes@.len(),
            n * HASH_LEN == len,
            n == bytes@.len() / HASH_LEN as nat,
            bytes@.len() % HASH_LEN as nat == 0,
            out.deep_view() == Seq::new(i as nat, |j: int| chunk(bytes@, j)),
        decreases n - i,
    {
        let mut h: Vec<u8> = Vec::new();
        let base = i * HASH_LEN;
        let mut k: usize = 0;
        while k < HASH_LEN
            invariant
                k <= HASH_LEN,
                i < n,
                len == bytes@.len(),
                n * HASH_LEN == len,
                base == i * HASH_LEN,
                n == bytes@.len() / HASH_LEN as nat,
                bytes@.len() % HASH_LEN as nat == 0,
                h@ == bytes@.subrange(base as int, base + k),
            decreases HASH_LEN - k,
        {
            h.push(bytes[base + k]);
            k = k + 1;
            assert(h@ =~= bytes@.subrange(base as int, base + k));
        }
        let ghost prev = out.deep_view();
        assert(h.deep_view() =~= h@);
        assert(h@ =~= chunk(bytes@, i as int));
        out.push(h);
        assert(out.deep_view() =~= prev.push(chunk(bytes@, i as int)));
        i = i + 1;
        assert(out.deep_view() =~= Seq::new(i as nat, |j: int| chunk(bytes@, j)));
    }
    proof {
        assert forall|i: int| 0 <= i < out@.len() implies #[trigger] out@[i]@ == bytes@.subrange(
            32 * i,
            32 * i + 32,
        ) by {
            assert(out.deep_view()[i] == out@[i]@);
        }
    }
    Some(out)
}

/// A copy of a byte vector.
pub fn copy_bytes(v: &Vec<u8>) -> (r: Vec<u8>)
    ensures
        r@ == v@,
{
    let mut r: Vec<u8> = Vec::new();
    let mut i: usize = 0;
    while i < v.len()
        invariant
            i <= v@.len(),
            r@ == v@.subrange(0, i as int),
        decreases v@.len() - i,
    {
        r.push(v[i]);
        i = i + 1;
        assert(r@ =~= v@.subrange(0, i as int));
    }
    assert(r@ =~= v@);
    r
}

/// The hash sequence of a transfer: the metadata hash, then the file hashes.
pub fn transfer_root(meta: &Vec<u8>, files: &Vec<Vec<u8>>) -> (r: Vec<u8>)
    requires
        meta@.len() == HASH_LEN,
        well_sized(files.deep_view()),
    ensures
        r@ == root_layout(meta@, files.deep_view()),
        r@.len() == 32 * (files@.len() + 1),
        r@.subrange(0, 32) == meta@,
        forall|i: int|
            0 <= i < files@.len() ==> #[trigger] r@.subrange(32 * i + 32, 32 * i + 64)
                == files@[i]@,
{
    proof {
        lemma_root_bytes(meta@, files.deep_view());
        assert forall|i: int| 0 <= i < files@.len() implies files.deep_view()[i] == files@[i]@ by {}
    }
    let mut all: Vec<Vec<u8>> = Vec::new();
    let m = copy_bytes(meta);
    assert(m.deep_view() =~= meta@);
    all.push(m);
    assert(all.deep_view() =~= seq![meta@] + files.deep_view().subrange(0, 0));
    let mut i: usize = 0;
    while i < files.len()
        invariant
            i <= files@.len(),
            meta@.len() == HASH_LEN,
            well_sized(files.deep_view()),
            all.deep_view() == seq![meta@] + files.deep_view().subrange(0, i as int),
        decreases files@.len() - i,
    {
        let ghost prev = all.deep_view();
        let f = copy_bytes(&files[i]);
        proof {
            assert(files.deep_view()[i as int] == files@[i as int].deep_view());
            assert(files@[i as int].deep_view() =~= files@[i as int]@);
            assert(f.deep_view() =~= f@);
        }
        all.push(f);
        assert(all.deep_view() =~= prev.push(files.deep_view()[i as int]));
        assert(files.deep_view().subrange(0, i + 1) =~= files.deep_view().subrange(0, i as int).push(
            files.deep_view()[i as int],
        ));
        i = i + 1;
        assert(all.deep_view() =~= seq![meta@] + files.deep_view().subrange(0, i as int));
    }
    assert(files.deep_view().subrange(0, i as int) =~= files.deep_view());
    let ghost whole = all.deep_view();
    assert(well_sized(whole)) by {
        assert forall|j: int| 0 <= j < whole.len() implies (#[trigger] whole[j]).len()
            == HASH_LEN by {
            if j > 0 {
                assert(whole[j] == files.deep_view()[j - 1]);
            }
        }
    }
    encode_hash_seq(&all)
}

/// Split the root blob of a transfer into the metadata hash and the hashes
/// that follow it.
pub fn split_root(bytes: &[u8]) -> (r: Result<(Vec<u8>, Vec<Vec<u8>>), SeyfrError>)
    ensures
        match (r, split_root_spec(bytes@)) {
            (Ok((m, fs)), Ok((sm, sfs))) => m@ == sm && fs.deep_view() == sfs,
            (Err(e), Err(se)) => e@ == se,
            _ => false,
        },
        r is Ok <==> (bytes@.len() % 32 == 0 && bytes@.len() >= 32),
        r matches Ok((m, fs)) ==> m@ == bytes@.subrange(0, 32) && fs@.len() + 1 == bytes@.len() / 32
            && forall|i: int|
            0 <= i < fs@.len() ==> #[trigger] fs@[i]@ == bytes@.subrange(32 * i + 32, 32 * i + 64),
{
    proof {
        lemma_split_bytes(bytes@);
    }
    match decode_hash_seq(bytes) {
        None => Err(SeyfrError::Store {
            details: String::from_str("invalid hash sequence: invalid hash sequence"),
        }),
        Some(mut hs) => {
            if hs.len() == 0 {
                Err(SeyfrError::Store { details: String::from_str("empty hash sequence") })
            } else {
                let ghost all = hs.deep_view();
                let meta = hs.remove(0);
                assert(hs.deep_view() =~= all.drop_first());
                Ok((meta, hs))
            }
        },
    }
}

} // verus!
