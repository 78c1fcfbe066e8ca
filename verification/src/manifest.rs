//! The block manifest: the ordered, duplicate-free list of enumerated block
//! addresses paired with locally computed digests, and its canonical binary
//! encoding.

use vstd::prelude::*;
use crate::encoding::is_ascii_seq;

verus! {

/// One manifest line: a block address and the digest of the block's bytes,
/// computed locally and never taken from the store.
pub struct ManifestEntry {
    pub address: Vec<u8>,
    pub digest: Vec<u8>,
}

/// A well-formed manifest line: an ASCII address and a full-width digest.
pub open spec fn entry_wf(e: ManifestEntry) -> bool {
    &&& is_ascii_seq(e.address@)
    &&& e.digest@.len() == 32
}

/// The plain-value form of a manifest: (address bytes, digest bytes) pairs.
pub open spec fn entries_view(m: Seq<ManifestEntry>) -> Seq<(Seq<u8>, Seq<u8>)> {
    m.map_values(|e: ManifestEntry| (e.address@, e.digest@))
}

/// The first `n` manifest lines cover the first `n` enumerated blocks, in
/// enumeration order.
pub open spec fn covers_prefix(m: Seq<ManifestEntry>, blocks: Seq<Seq<u8>>, n: int) -> bool {
    &&& m.len() == n
    &&& forall|i: int| 0 <= i < n ==> (#[trigger] m[i]).address@ == blocks[i] && entry_wf(m[i])
}

/// No two entries of `bs` are equal.
pub open spec fn no_dup(bs: Seq<Seq<u8>>) -> bool {
    forall|i: int, j: int| 0 <= i < j < bs.len() ==> bs[i] != bs[j]
}

/// One deduplication step: append `x` unless it is already present.
pub open spec fn dedup_step(acc: Seq<Seq<u8>>, x: Seq<u8>) -> Seq<Seq<u8>> {
    if acc.contains(x) {
        acc
    } else {
        acc.push(x)
    }
}

/// Folds `refs` into `acc`, keeping the first occurrence of each address.
pub open spec fn dedup_acc(acc: Seq<Seq<u8>>, refs: Seq<Seq<u8>>) -> Seq<Seq<u8>>
    decreases refs.len(),
{
    if refs.len() == 0 {
        acc
    } else {
        dedup_acc(dedup_step(acc, refs[0]), refs.drop_first())
    }
}

/// The block list the pipeline walks: the root first, then every enumerated
/// reference in arrival order, duplicates dropped.
pub open spec fn ordered_blocks(root: Seq<u8>, refs: Seq<Seq<u8>>) -> Seq<Seq<u8>> {
    dedup_acc(seq![root], refs)
}

proof fn lemma_dedup_acc(acc: Seq<Seq<u8>>, refs: Seq<Seq<u8>>)
    requires
        no_dup(acc),
    ensures
        no_dup(dedup_acc(acc, refs)),
        dedup_acc(acc, refs).len() >= acc.len(),
        forall|i: int| 0 <= i < acc.len() ==> dedup_acc(acc, refs)[i] == acc[i],
        forall|x: Seq<u8>|
            dedup_acc(acc, refs).contains(x) <==> acc.contains(x) || refs.contains(x),
    decreases refs.len(),
{
    let dd = dedup_acc(acc, refs);
    if refs.len() == 0 {
        assert(dd == acc);
        assert forall|x: Seq<u8>| dd.contains(x) <==> acc.contains(x) || refs.contains(x) by {
            if refs.contains(x) {
                let k = choose|k: int| 0 <= k < refs.len() && refs[k] == x;
            }
        }
    } else {
        let acc2 = dedup_step(acc, refs[0]);
        assert forall|i: int, j: int| 0 <= i < j < acc2.len() implies acc2[i] != acc2[j] by {
            if j == acc.len() {
                assert(!acc.contains(refs[0]));
                assert(acc[i] != refs[0]);
            }
        }
        lemma_dedup_acc(acc2, refs.drop_first());
        assert(dd == dedup_acc(acc2, refs.drop_first()));
        assert forall|i: int| 0 <= i < acc.len() implies dd[i] == acc[i] by {
            assert(dd[i] == acc2[i]);
        }
        assert forall|x: Seq<u8>| dd.contains(x) <==> acc.contains(x) || refs.contains(x) by {
            assert(dd.contains(x) <==> acc2.contains(x) || refs.drop_first().contains(x));
            assert(acc2.contains(x) <==> acc.contains(x) || x == refs[0]) by {
                if acc.contains(refs[0]) {
                    assert(acc2 == acc);
                } else {
                    assert(acc2 == acc.push(refs[0]));
                    if acc2.contains(x) {
                        let k = choose|k: int| 0 <= k < acc2.len() && acc2[k] == x;
                        if k < acc.len() {
                            assert(acc[k] == x);
                            assert(acc.contains(x));
                        } else {
                            assert(x == refs[0]);
                        }
                    }
                    if acc.contains(x) {
                        let k = choose|k: int| 0 <= k < acc.len() && acc[k] == x;
                        assert(acc2[k] == x);
                        assert(acc2.contains(x));
                    }
                    if x == refs[0] {
                        assert(acc2[acc.len() as int] == x);
                        assert(acc2.contains(x));
                    }
                }
            }
            if refs.contains(x) {
                let k = choose|k: int| 0 <= k < refs.len() && refs[k] == x;
                if k > 0 {
                    assert(refs.drop_first()[k - 1] == x);
                }
            }
            if refs.drop_first().contains(x) {
                let k = choose|k: int|
                    0 <= k < refs.drop_first().len() && refs.drop_first()[k] == x;
                assert(refs[k + 1] == x);
            }
            if x == refs[0] {
                assert(refs.contains(x));
            }
        }
    }
}

/// Properties of the walked block list: it always holds the root at its
/// head, holds no duplicates, and holds exactly the root together with the
/// enumerated references.
pub proof fn lemma_ordered_blocks(root: Seq<u8>, refs: Seq<Seq<u8>>)
    ensures
        ordered_blocks(root, refs).len() >= 1,
        ordered_blocks(root, refs)[0] == root,
        no_dup(ordered_blocks(root, refs)),
        forall|x: Seq<u8>|
            ordered_blocks(root, refs).contains(x) <==> x == root || refs.contains(x),
{
    let acc0 = seq![root];
    assert(no_dup(acc0));
    lemma_dedup_acc(acc0, refs);
    assert(ordered_blocks(root, refs)[0] == acc0[0]);
    assert forall|x: Seq<u8>|
        ordered_blocks(root, refs).contains(x) <==> x == root || refs.contains(x) by {
        assert(dedup_acc(acc0, refs).contains(x) <==> acc0.contains(x) || refs.contains(x));
        assert(acc0.contains(x) <==> x == root) by {
            if acc0.contains(x) {
                let k = choose|k: int| 0 <= k < acc0.len() && acc0[k] == x;
                assert(k == 0);
            }
            if x == root {
                assert(acc0[0] == x);
            }
        }
    }
}

/// A byte vector's deep view is its view.
pub proof fn lemma_bytes_deep_view(v: Vec<u8>)
    ensures
        v.deep_view() == v@,
{
    assert(v.deep_view() =~= v@);
}

/// Byte-string equality.
pub fn bytes_eq(a: &Vec<u8>, b: &Vec<u8>) -> (r: bool)
    ensures
        r == (a@ == b@),
{
    if a.len() != b.len() {
        return false;
    }
    let n = a.len();
    let mut i: usize = 0;
    while i < n
        invariant
            i <= n,
            n == a@.len(),
            n == b@.len(),
            forall|j: int| 0 <= j < i ==> a@[j] == b@[j],
        decreases n - i,
    {
        if a[i] != b[i] {
            return false;
        }
        i = i + 1;
    }
    proof {
        assert(a@ =~= b@);
    }
    true
}

/// Whether `bs` already holds the byte string `x`.
fn contains_bytes(bs: &Vec<Vec<u8>>, x: &Vec<u8>) -> (r: bool)
    ensures
        r == bs.deep_view().contains(x@),
{
    let n = bs.len();
    let mut i: usize = 0;
    while i < n
        invariant
            i <= n,
            n == bs@.len(),
            forall|j: int| 0 <= j < i ==> bs.deep_view()[j] != x@,
        decreases n - i,
    {
        let hit = bytes_eq(&bs[i], x);
        proof {
            lemma_bytes_deep_view(bs@[i as int]);
            assert(bs.deep_view()[i as int] == bs@[i as int]@);
        }
        if hit {
            return true;
        }
        i = i + 1;
    }
    false
}

/// Builds the walked block list from the published root and the raw
/// enumeration output: root first, first occurrences kept, duplicates
/// dropped.
pub fn order_blocks(root: Vec<u8>, refs: &Vec<Vec<u8>>) -> (r: Vec<Vec<u8>>)
    ensures
        r.deep_view() == ordered_blocks(root@, refs.deep_view()),
{
    let ghost root_v = root@;
    let ghost refs_v = refs.deep_view();
    let mut out: Vec<Vec<u8>> = Vec::new();
    out.push(root);
    proof {
        lemma_bytes_deep_view(out@[0]);
        assert(out.deep_view() =~= seq![root_v]);
        assert(refs.deep_view().skip(0) =~= refs.deep_view());
    }
    let n = refs.len();
    let mut i: usize = 0;
    while i < n
        invariant
            i <= n,
            n == refs@.len(),
            refs_v == refs.deep_view(),
            dedup_acc(out.deep_view(), refs_v.skip(i as int)) == ordered_blocks(root_v, refs_v),
        decreases n - i,
    {
        let ghost pre = out.deep_view();
        proof {
            lemma_bytes_deep_view(refs@[i as int]);
            assert(refs_v[i as int] == refs@[i as int]@);
        }
        if !contains_bytes(&out, &refs[i]) {
            let x = refs[i].clone();
            proof {
                assert(x@ == refs_v[i as int]);
            }
            out.push(x);
            proof {
                lemma_bytes_deep_view(out@[out@.len() - 1]);
                assert(out.deep_view() =~= pre.push(refs_v[i as int]));
            }
        }
        proof {
            assert(refs_v.skip(i as int)[0] == refs_v[i as int]);
            assert(out.deep_view() == dedup_step(pre, refs_v.skip(i as int)[0]));
            assert(refs_v.skip(i as int).drop_first() =~= refs_v.skip(i + 1));
            assert(dedup_acc(pre, refs_v.skip(i as int)) == dedup_acc(
                out.deep_view(),
                refs_v.skip(i + 1),
            ));
        }
        i = i + 1;
    }
    proof {
        assert(refs_v.skip(n as int) =~= Seq::<Seq<u8>>::empty());
    }
    out
}

/// The canonical binary encoding of a manifest's (address, digest) pairs.
/// The encoding is a function of the pairs alone; its byte layout is not
/// spelled out here.
pub uninterp spec fn cbor_manifest_bytes(entries: Seq<(Seq<u8>, Seq<u8>)>) -> Seq<u8>;

/// Relies on `ciborium::ser::into_writer` to produce the canonical binary
/// encoding of the (address string, digest bytes) pairs: a deterministic
/// function of the pairs. Writing into a vector cannot fail, so the call
/// succeeds whenever every address converts to text — ASCII suffices.
#[verifier::external_body]
pub(crate) fn cbor_encode_manifest(m: &Vec<ManifestEntry>) -> (r: Result<Vec<u8>, ()>)
    ensures
        r matches Ok(v) ==> v@ == cbor_manifest_bytes(entries_view(m@)),
        (forall|i: int| 0 <= i < m@.len() ==> is_ascii_seq((#[trigger] m@[i]).address@)) ==> r is Ok,
{
    let mut pairs: Vec<(&str, &[u8])> = Vec::new();
    for e in m.iter() {
        match core::str::from_utf8(e.address.as_slice()) {
            Ok(s) => pairs.push((s, e.digest.as_slice())),
            Err(_) => return Err(()),
        }
    }
    let mut out: Vec<u8> = Vec::new();
    match ciborium::ser::into_writer(&pairs, &mut out) {
        Ok(()) => Ok(out),
        Err(_) => Err(()),
    }
}

} // verus!
