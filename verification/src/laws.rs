use vstd::prelude::*;

use crate::errors::Error;
use crate::paths::{display_spec, lemma_parse_display, pathv_wf};
use crate::vfs::{resolve_spec, NodeV};

verus! {

/// The paths `ps` form a symlink chain in `m`: each of the first
/// `ps.len() - 1` paths holds a symlink whose target prints the next path,
/// and the final path holds a regular file.
pub open spec fn symlink_chain(
    m: Map<Seq<Seq<u8>>, NodeV>,
    ps: Seq<Seq<Seq<u8>>>,
) -> bool {
    &&& ps.len() >= 1
    &&& forall|k: int|
        0 <= k < ps.len() - 1 ==> m.dom().contains(#[trigger] ps[k]) && m[ps[k]] is Symlink && m[
            ps[k]
        ]->Symlink_target == display_spec(ps[k + 1]) && pathv_wf(ps[k + 1])
    &&& m.dom().contains(ps[ps.len() - 1])
    &&& m[ps[ps.len() - 1]] is File
}

/// The symlink depth bound: a chain of at most `8 - depth` hops resolves to
/// its final real path, and a longer one fails with `TooManySymlinks`. In
/// particular, from the top: eight hops succeed and nine fail.
pub proof fn lemma_resolve_chain(m: Map<Seq<Seq<u8>>, NodeV>, ps: Seq<Seq<Seq<u8>>>, depth: int)
    requires
        symlink_chain(m, ps),
        0 <= depth <= 9,
    ensures
        ps.len() - 1 + depth <= 8 ==> resolve_spec(m, ps[0], depth) == Ok::<Seq<Seq<u8>>, Error>(
            ps[ps.len() - 1],
        ),
        ps.len() - 1 + depth >= 9 ==> resolve_spec(m, ps[0], depth) == Err::<
            Seq<Seq<u8>>,
            Error,
        >(Error::TooManySymlinks),
    decreases ps.len(),
{
    if ps.len() == 1 {
        // the head is the file itself
        assert(ps[0] == ps[ps.len() - 1]);
    } else {
        if depth > 8 {
        } else {
            assert(m.dom().contains(ps[0]) && m[ps[0]] is Symlink);
            lemma_parse_display(ps[1]);
            let tail = ps.skip(1);
            assert(symlink_chain(m, tail)) by {
                assert forall|k: int| 0 <= k < tail.len() - 1 implies m.dom().contains(
                    #[trigger] tail[k],
                ) && m[tail[k]] is Symlink && m[tail[k]]->Symlink_target == display_spec(
                    tail[k + 1],
                ) && pathv_wf(tail[k + 1]) by {
                    assert(tail[k] == ps[k + 1]);
                    assert(tail[k + 1] == ps[k + 2]);
                }
                assert(tail[tail.len() - 1] == ps[ps.len() - 1]);
            }
            lemma_resolve_chain(m, tail, depth + 1);
            assert(tail[0] == ps[1]);
            assert(tail[tail.len() - 1] == ps[ps.len() - 1]);
        }
    }
}


/// Deterministic serialisation: whether a tarball production succeeds, and
/// the bytes it emits, are functions of the finished tree and the codec
/// alone, so two productions from equal trees agree in success and are
/// byte-identical; likewise two extractions of the same archive bytes
/// agree in success and describe the same tree. The producer and extractor
/// contracts pin their results to these spec-level functions, which is what
/// makes the statement provable in one step.
pub proof fn lemma_deterministic_serialisation(
    v1: Seq<(Seq<Seq<u8>>, NodeV)>,
    v2: Seq<(Seq<Seq<u8>>, NodeV)>,
    c: crate::compression::CompressionType,
    b1: Seq<u8>,
    b2: Seq<u8>,
)
    requires
        v1 == v2,
        b1 == b2,
    ensures
        crate::codec::tar_encode_ok(crate::codec::fs_to_tar_spec(v1))
            == crate::codec::tar_encode_ok(crate::codec::fs_to_tar_spec(v2)),
        crate::compression::compress_spec(
            c,
            crate::codec::tar_bytes_of(crate::codec::fs_to_tar_spec(v1)),
        ) == crate::compression::compress_spec(
            c,
            crate::codec::tar_bytes_of(crate::codec::fs_to_tar_spec(v2)),
        ),
        crate::artifact::tarball::tarball_extract_ok(b1)
            == crate::artifact::tarball::tarball_extract_ok(b2),
        crate::artifact::tarball::tarball_extract_spec(b1)
            == crate::artifact::tarball::tarball_extract_spec(b2),
{
}

} // verus!
