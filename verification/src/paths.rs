use vstd::prelude::*;

verus! {

/// A path inside the virtual filesystem: a sequence of byte segments, each
/// nonempty and free of `/` (byte 47). The empty sequence addresses the root
/// directory. Leading, trailing and doubled slashes in the textual form all
/// denote the same path, so `/a/b`, `a/b` and `a//b/` parse to one value.
#[derive(Debug)]
pub struct VfsPath {
    pub segs: Vec<Vec<u8>>,
}

/// The views of a sequence of byte vectors.
pub open spec fn segs_view(segs: Seq<Vec<u8>>) -> Seq<Seq<u8>> {
    Seq::new(segs.len(), |i: int| segs[i]@)
}

pub broadcast proof fn lemma_segs_view_push(s: Seq<Vec<u8>>, x: Vec<u8>)
    ensures
        #[trigger] segs_view(s.push(x)) =~= segs_view(s).push(x@),
{
}

/// One path segment is well formed: nonempty and without `/`.
pub open spec fn seg_wf(s: Seq<u8>) -> bool {
    0 < s.len() && forall|i: int| 0 <= i < s.len() ==> s[i] != 47u8
}

/// Every segment of the path is well formed.
pub open spec fn pathv_wf(p: Seq<Seq<u8>>) -> bool {
    forall|i: int| 0 <= i < p.len() ==> seg_wf(#[trigger] p[i])
}

/// Strict lexicographic order on byte strings.
pub open spec fn bytes_lt(a: Seq<u8>, b: Seq<u8>) -> bool
    decreases a.len(),
{
    if b.len() == 0 {
        false
    } else if a.len() == 0 {
        true
    } else if a[0] != b[0] {
        a[0] < b[0]
    } else {
        bytes_lt(a.skip(1), b.skip(1))
    }
}

/// Strict lexicographic order on paths: segment by segment, a proper prefix
/// ordered before its extensions. This is the canonical enumeration order of
/// the virtual filesystem, and it coincides with a depth-first walk that
/// visits the children of each directory in lexicographic order.
pub open spec fn path_lt(a: Seq<Seq<u8>>, b: Seq<Seq<u8>>) -> bool
    decreases a.len(),
{
    if b.len() == 0 {
        false
    } else if a.len() == 0 {
        true
    } else if a[0] != b[0] {
        bytes_lt(a[0], b[0])
    } else {
        path_lt(a.skip(1), b.skip(1))
    }
}

/// `a` is a proper ancestor of `b`.
pub open spec fn is_strict_prefix(a: Seq<Seq<u8>>, b: Seq<Seq<u8>>) -> bool {
    a.len() < b.len() && b.take(a.len() as int) == a
}

pub proof fn lemma_bytes_lt_irrefl(a: Seq<u8>)
    ensures
        !bytes_lt(a, a),
    decreases a.len(),
{
    if a.len() > 0 {
        lemma_bytes_lt_irrefl(a.skip(1));
    }
}

pub proof fn lemma_bytes_lt_connected(a: Seq<u8>, b: Seq<u8>)
    requires
        !bytes_lt(a, b),
        !bytes_lt(b, a),
    ensures
        a == b,
    decreases a.len(),
{
    if a.len() == 0 {
        assert(b.len() == 0);
        assert(a =~= b);
    } else {
        assert(b.len() > 0);
        assert(a[0] == b[0]);
        lemma_bytes_lt_connected(a.skip(1), b.skip(1));
        assert(a =~= seq![a[0]] + a.skip(1));
        assert(b =~= seq![b[0]] + b.skip(1));
    }
}

pub proof fn lemma_bytes_lt_trans(a: Seq<u8>, b: Seq<u8>, c: Seq<u8>)
    requires
        bytes_lt(a, b),
        bytes_lt(b, c),
    ensures
        bytes_lt(a, c),
    decreases a.len() + b.len() + c.len(),
{
    if a.len() == 0 {
        assert(c.len() > 0);
    } else {
        assert(b.len() > 0 && c.len() > 0);
        if a[0] == b[0] && b[0] == c[0] {
            lemma_bytes_lt_trans(a.skip(1), b.skip(1), c.skip(1));
        }
    }
}

/// If the first `i` bytes agree, the order is decided by the remainders.
pub proof fn lemma_bytes_lt_skip(a: Seq<u8>, b: Seq<u8>, i: int)
    requires
        0 <= i <= a.len(),
        i <= b.len(),
        a.take(i) =~= b.take(i),
    ensures
        bytes_lt(a, b) == bytes_lt(a.skip(i), b.skip(i)),
    decreases i,
{
    if i > 0 {
        assert(a.take(i)[0] == a[0]);
        assert(b.take(i)[0] == b[0]);
        assert(a.skip(1).take(i - 1) =~= a.take(i).skip(1));
        assert(b.skip(1).take(i - 1) =~= b.take(i).skip(1));
        lemma_bytes_lt_skip(a.skip(1), b.skip(1), i - 1);
        assert(a.skip(1).skip(i - 1) =~= a.skip(i));
        assert(b.skip(1).skip(i - 1) =~= b.skip(i));
    } else {
        assert(a.skip(0) =~= a);
        assert(b.skip(0) =~= b);
    }
}

pub proof fn lemma_path_lt_irrefl(a: Seq<Seq<u8>>)
    ensures
        !path_lt(a, a),
    decreases a.len(),
{
    if a.len() > 0 {
        lemma_path_lt_irrefl(a.skip(1));
    }
}

pub proof fn lemma_path_lt_connected(a: Seq<Seq<u8>>, b: Seq<Seq<u8>>)
    requires
        !path_lt(a, b),
        !path_lt(b, a),
    ensures
        a == b,
    decreases a.len(),
{
    if a.len() == 0 {
        assert(b.len() == 0);
        assert(a =~= b);
    } else {
        assert(b.len() > 0);
        if a[0] != b[0] {
            lemma_bytes_lt_connected(a[0], b[0]);
            assert(false);
        }
        lemma_path_lt_connected(a.skip(1), b.skip(1));
        assert(a =~= seq![a[0]] + a.skip(1));
        assert(b =~= seq![b[0]] + b.skip(1));
    }
}

pub proof fn lemma_path_lt_asymm(a: Seq<Seq<u8>>, b: Seq<Seq<u8>>)
    requires
        path_lt(a, b),
    ensures
        !path_lt(b, a),
{
    if path_lt(b, a) {
        lemma_path_lt_trans(a, b, a);
        lemma_path_lt_irrefl(a);
    }
}

pub proof fn lemma_path_lt_trans(a: Seq<Seq<u8>>, b: Seq<Seq<u8>>, c: Seq<Seq<u8>>)
    requires
        path_lt(a, b),
        path_lt(b, c),
    ensures
        path_lt(a, c),
    decreases a.len() + b.len() + c.len(),
{
    if a.len() == 0 {
        assert(c.len() > 0);
    } else {
        assert(b.len() > 0 && c.len() > 0);
        if a[0] == b[0] && b[0] == c[0] {
            lemma_path_lt_trans(a.skip(1), b.skip(1), c.skip(1));
        } else if a[0] == b[0] {
            // order decided between b[0] and c[0]
        } else if b[0] == c[0] {
            // order decided between a[0] and b[0]
        } else {
            lemma_bytes_lt_trans(a[0], b[0], c[0]);
            if a[0] == c[0] {
                lemma_bytes_lt_irrefl(a[0]);
            }
        }
    }
}

/// If the first `i` segments agree, the order is decided by the remainders.
pub proof fn lemma_path_lt_skip(a: Seq<Seq<u8>>, b: Seq<Seq<u8>>, i: int)
    requires
        0 <= i <= a.len(),
        i <= b.len(),
        a.take(i) =~= b.take(i),
    ensures
        path_lt(a, b) == path_lt(a.skip(i), b.skip(i)),
    decreases i,
{
    if i > 0 {
        assert(a.take(i)[0] == a[0]);
        assert(b.take(i)[0] == b[0]);
        assert(a.skip(1).take(i - 1) =~= a.take(i).skip(1));
        assert(b.skip(1).take(i - 1) =~= b.take(i).skip(1));
        lemma_path_lt_skip(a.skip(1), b.skip(1), i - 1);
        assert(a.skip(1).skip(i - 1) =~= a.skip(i));
        assert(b.skip(1).skip(i - 1) =~= b.skip(i));
    } else {
        assert(a.skip(0) =~= a);
        assert(b.skip(0) =~= b);
    }
}

/// A proper ancestor sorts strictly before its descendants.
pub proof fn lemma_prefix_lt(a: Seq<Seq<u8>>, b: Seq<Seq<u8>>)
    requires
        is_strict_prefix(a, b),
    ensures
        path_lt(a, b),
    decreases a.len(),
{
    if a.len() > 0 {
        assert(b.take(a.len() as int)[0] == b[0]);
        assert(a[0] == b[0]);
        assert(is_strict_prefix(a.skip(1), b.skip(1))) by {
            assert(b.skip(1).take(a.len() - 1) =~= b.take(a.len() as int).skip(1));
            assert(b.take(a.len() as int).skip(1) =~= a.skip(1));
        }
        lemma_prefix_lt(a.skip(1), b.skip(1));
    }
}

/// In the path order, everything strictly between an ancestor `p` and one of
/// its descendants is itself a descendant of `p`.
pub proof fn lemma_between_prefix(p: Seq<Seq<u8>>, r: Seq<Seq<u8>>, q: Seq<Seq<u8>>)
    requires
        path_lt(p, r),
        path_lt(r, q),
        is_strict_prefix(p, q),
    ensures
        is_strict_prefix(p, r),
    decreases p.len(),
{
    if p.len() == 0 {
        assert(r.len() > 0);
        assert(r.take(0) =~= p);
    } else {
        assert(q.take(p.len() as int)[0] == q[0]);
        assert(p[0] == q[0]);
        assert(r.len() > 0);
        // r[0] is forced to equal p[0]: p < r gives p[0] <= r[0], r < q gives
        // r[0] <= q[0] == p[0].
        if p[0] != r[0] {
            assert(bytes_lt(p[0], r[0]));
            if r[0] != q[0] {
                assert(bytes_lt(r[0], q[0]));
                lemma_bytes_lt_trans(p[0], r[0], q[0]);
                lemma_bytes_lt_irrefl(p[0]);
            } else {
                lemma_bytes_lt_irrefl(p[0]);
            }
            assert(false);
        }
        assert(is_strict_prefix(p.skip(1), q.skip(1))) by {
            assert(q.skip(1).take(p.len() - 1) =~= q.take(p.len() as int).skip(1));
            assert(q.take(p.len() as int).skip(1) =~= p.skip(1));
        }
        lemma_between_prefix(p.skip(1), r.skip(1), q.skip(1));
        assert(r.skip(1).take(p.len() - 1) == p.skip(1));
        assert(r.take(p.len() as int) =~= p) by {
            assert(r.take(p.len() as int) =~= seq![r[0]] + r.skip(1).take(p.len() - 1));
            assert(seq![p[0]] + p.skip(1) =~= p);
        }
    }
}

/// Compares two byte strings in the lexicographic order.
pub fn bytes_cmp_lt(a: &Vec<u8>, b: &Vec<u8>) -> (r: bool)
    ensures
        r == bytes_lt(a@, b@),
{
    let mut i: usize = 0;
    while i < a.len() && i < b.len()
        invariant
            i <= a.len(),
            i <= b.len(),
            a@.take(i as int) =~= b@.take(i as int),
        decreases a.len() - i,
    {
        if a[i] != b[i] {
            proof {
                lemma_bytes_lt_skip(a@, b@, i as int);
                assert(a@.skip(i as int)[0] == a@[i as int]);
                assert(b@.skip(i as int)[0] == b@[i as int]);
            }
            return a[i] < b[i];
        }
        proof {
            assert(a@.take(i + 1) =~= a@.take(i as int).push(a@[i as int]));
            assert(b@.take(i + 1) =~= b@.take(i as int).push(b@[i as int]));
            assert(a@.take(i + 1) =~= b@.take(i + 1));
        }
        i = i + 1;
    }
    proof {
        lemma_bytes_lt_skip(a@, b@, i as int);
    }
    a.len() < b.len()
}

/// Tests two byte strings for equality.
pub fn bytes_eq(a: &Vec<u8>, b: &Vec<u8>) -> (r: bool)
    ensures
        r == (a@ == b@),
{
    if a.len() != b.len() {
        return false;
    }
    let mut i: usize = 0;
    while i < a.len()
        invariant
            i <= a.len(),
            a.len() == b.len(),
            forall|j: int| 0 <= j < i ==> a@[j] == b@[j],
        decreases a.len() - i,
    {
        if a[i] != b[i] {
            return false;
        }
        i = i + 1;
    }
    proof {
        assert(a@ =~= b@);
    }
    true
}

/// Copies a byte string.
pub fn copy_bytes(v: &Vec<u8>) -> (r: Vec<u8>)
    ensures
        r@ == v@,
{
    let mut r: Vec<u8> = Vec::new();
    let mut i: usize = 0;
    while i < v.len()
        invariant
            i <= v.len(),
            r@ =~= v@.take(i as int),
        decreases v.len() - i,
    {
        r.push(v[i]);
        proof {
            assert(r@ =~= v@.take(i + 1));
        }
        i = i + 1;
    }
    proof {
        assert(r@ =~= v@);
    }
    r
}

/// Copies a byte slice into a fresh vector.
pub fn copy_bytes_slice(v: &[u8]) -> (r: Vec<u8>)
    ensures
        r@ == v@,
{
    let mut r: Vec<u8> = Vec::new();
    let mut i: usize = 0;
    while i < v.len()
        invariant
            i <= v@.len(),
            r@ =~= v@.take(i as int),
        decreases v@.len() - i,
    {
        r.push(v[i]);
        proof {
            assert(r@ =~= v@.take(i + 1));
        }
        i = i + 1;
    }
    proof {
        assert(r@ =~= v@);
    }
    r
}

/// Splitting a byte string at every `/`: the completed segments and the
/// partial segment still open at the end of the input.
pub open spec fn parse_acc(b: Seq<u8>) -> (Seq<Seq<u8>>, Seq<u8>)
    decreases b.len(),
{
    if b.len() == 0 {
        (Seq::empty(), Seq::empty())
    } else {
        let (segs, cur) = parse_acc(b.drop_last());
        if b.last() == 47u8 {
            if cur.len() > 0 {
                (segs.push(cur), Seq::empty())
            } else {
                (segs, Seq::empty())
            }
        } else {
            (segs, cur.push(b.last()))
        }
    }
}

/// The segments of a textual path: split at `/`, empty segments dropped.
pub open spec fn parse_spec(b: Seq<u8>) -> Seq<Seq<u8>> {
    let (segs, cur) = parse_acc(b);
    if cur.len() > 0 {
        segs.push(cur)
    } else {
        segs
    }
}

/// Each completed segment of a split is well formed, and the open partial
/// segment is free of slashes.
pub proof fn lemma_parse_acc_wf(b: Seq<u8>)
    ensures
        pathv_wf(parse_acc(b).0),
        forall|i: int| 0 <= i < parse_acc(b).1.len() ==> parse_acc(b).1[i] != 47u8,
    decreases b.len(),
{
    if b.len() > 0 {
        lemma_parse_acc_wf(b.drop_last());
        let (segs, cur) = parse_acc(b.drop_last());
        if b.last() == 47u8 {
            if cur.len() > 0 {
                assert forall|i: int| 0 <= i < segs.push(cur).len() implies seg_wf(
                    #[trigger] segs.push(cur)[i],
                ) by {
                    if i < segs.len() {
                        assert(segs.push(cur)[i] == segs[i]);
                    }
                }
            }
        }
    }
}

pub proof fn lemma_parse_wf(b: Seq<u8>)
    ensures
        pathv_wf(parse_spec(b)),
{
    lemma_parse_acc_wf(b);
    let (segs, cur) = parse_acc(b);
    if cur.len() > 0 {
        assert forall|i: int| 0 <= i < segs.push(cur).len() implies seg_wf(
            #[trigger] segs.push(cur)[i],
        ) by {
            if i < segs.len() {
                assert(segs.push(cur)[i] == segs[i]);
            }
        }
    }
}

/// The textual form of a path: a leading `/` before every segment.
pub open spec fn display_spec(p: Seq<Seq<u8>>) -> Seq<u8>
    decreases p.len(),
{
    if p.len() == 0 {
        Seq::empty()
    } else {
        display_spec(p.drop_last()) + seq![47u8] + p.last()
    }
}

/// Appending slash-free bytes to the input only extends the open segment.
pub proof fn lemma_parse_acc_append_seg(b: Seq<u8>, s: Seq<u8>)
    requires
        forall|i: int| 0 <= i < s.len() ==> s[i] != 47u8,
    ensures
        parse_acc(b + s).0 == parse_acc(b).0,
        parse_acc(b + s).1 == parse_acc(b).1 + s,
    decreases s.len(),
{
    if s.len() == 0 {
        assert(b + s =~= b);
        assert(parse_acc(b).1 + s =~= parse_acc(b).1);
    } else {
        assert((b + s).drop_last() =~= b + s.drop_last());
        assert((b + s).last() == s.last());
        lemma_parse_acc_append_seg(b, s.drop_last());
        assert(parse_acc(b).1 + s.drop_last() + seq![s.last()] =~= parse_acc(b).1 + s);
        assert(parse_acc(b + s).1 =~= parse_acc(b).1 + s);
    }
}

/// Appending a `/` closes the open segment.
pub proof fn lemma_parse_acc_append_slash(b: Seq<u8>)
    ensures
        parse_acc(b + seq![47u8]).0 == parse_spec(b),
        parse_acc(b + seq![47u8]).1 == Seq::<u8>::empty(),
{
    assert((b + seq![47u8]).drop_last() =~= b);
    assert((b + seq![47u8]).last() == 47u8);
}

/// Parsing inverts printing on well-formed paths.
pub proof fn lemma_parse_display(p: Seq<Seq<u8>>)
    requires
        pathv_wf(p),
    ensures
        parse_spec(display_spec(p)) == p,
    decreases p.len(),
{
    if p.len() == 0 {
        assert(parse_spec(display_spec(p)) =~= p);
    } else {
        let d = display_spec(p.drop_last());
        assert(pathv_wf(p.drop_last())) by {
            assert forall|i: int| 0 <= i < p.drop_last().len() implies seg_wf(
                #[trigger] p.drop_last()[i],
            ) by {
                assert(p.drop_last()[i] == p[i]);
            }
        }
        lemma_parse_display(p.drop_last());
        lemma_parse_acc_append_slash(d);
        assert(seg_wf(p.last()));
        lemma_parse_acc_append_seg(d + seq![47u8], p.last());
        assert(display_spec(p) =~= (d + seq![47u8]) + p.last());
        assert(parse_acc(display_spec(p)).0 == p.drop_last());
        assert(parse_acc(display_spec(p)).1 =~= p.last());
        assert(p.last().len() > 0);
        assert(parse_spec(display_spec(p)) =~= p.drop_last().push(p.last()));
        assert(p.drop_last().push(p.last()) =~= p);
    }
}

impl VfsPath {
    /// The path is well formed: every segment nonempty and slash-free.
    pub open spec fn wf(&self) -> bool {
        pathv_wf(self@)
    }

    /// The root path.
    pub fn root() -> (r: VfsPath)
        ensures
            r@ == Seq::<Seq<u8>>::empty(),
    {
        let r = VfsPath { segs: Vec::new() };
        proof {
            assert(r@ =~= Seq::<Seq<u8>>::empty());
        }
        r
    }

    /// Parses a textual path. Empty segments (leading, trailing or doubled
    /// slashes) are dropped.
    pub fn parse(b: &[u8]) -> (r: VfsPath)
        ensures
            r@ == parse_spec(b@),
            r.wf(),
    {
        let mut segs: Vec<Vec<u8>> = Vec::new();
        let mut cur: Vec<u8> = Vec::new();
        let mut i: usize = 0;
        while i < b.len()
            invariant
                i <= b.len(),
                segs_view(segs@) =~= parse_acc(b@.take(i as int)).0,
                cur@ =~= parse_acc(b@.take(i as int)).1,
            decreases b.len() - i,
        {
            proof {
                assert(b@.take(i + 1).drop_last() =~= b@.take(i as int));
                assert(b@.take(i + 1).last() == b@[i as int]);
            }
            if b[i] == 47u8 {
                if cur.len() > 0 {
                    segs.push(cur);
                    cur = Vec::new();
                    proof {
                        assert(segs_view(segs@) =~= parse_acc(b@.take(i + 1)).0);
                        assert(cur@ =~= parse_acc(b@.take(i + 1)).1);
                    }
                } else {
                    proof {
                        assert(cur@ =~= parse_acc(b@.take(i + 1)).1);
                    }
                }
            } else {
                cur.push(b[i]);
                proof {
                    assert(segs_view(segs@) =~= parse_acc(b@.take(i + 1)).0);
                }
            }
            i = i + 1;
        }
        proof {
            assert(b@.take(i as int) =~= b@);
        }
        if cur.len() > 0 {
            segs.push(cur);
            proof {
                assert(segs_view(segs@) =~= parse_spec(b@));
            }
        } else {
            proof {
                assert(segs_view(segs@) =~= parse_spec(b@));
            }
        }
        let r = VfsPath { segs };
        proof {
            lemma_parse_wf(b@);
        }
        r
    }

    /// The number of segments.
    pub fn depth(&self) -> (r: usize)
        ensures
            r == self@.len(),
    {
        self.segs.len()
    }

    pub fn is_root(&self) -> (r: bool)
        ensures
            r == (self@.len() == 0),
    {
        self.segs.len() == 0
    }

    /// The parent path: everything but the last segment.
    pub fn parent(&self) -> (r: VfsPath)
        requires
            self@.len() > 0,
        ensures
            r@ == self@.drop_last(),
    {
        self.take_prefix(self.segs.len() - 1)
    }

    /// The final segment.
    pub fn base(&self) -> (r: Vec<u8>)
        requires
            self@.len() > 0,
        ensures
            r@ == self@.last(),
    {
        copy_bytes(&self.segs[self.segs.len() - 1])
    }

    /// The first `n` segments.
    pub fn take_prefix(&self, n: usize) -> (r: VfsPath)
        requires
            n <= self@.len(),
        ensures
            r@ == self@.take(n as int),
    {
        let mut segs: Vec<Vec<u8>> = Vec::new();
        let mut i: usize = 0;
        while i < n
            invariant
                i <= n,
                n <= self.segs.len(),
                segs_view(segs@) =~= self@.take(i as int),
            decreases n - i,
        {
            segs.push(copy_bytes(&self.segs[i]));
            proof {
                broadcast use lemma_segs_view_push;

                assert(self@.take(i as int + 1) =~= self@.take(i as int).push(self@[i as int]));
                assert(segs_view(segs@) =~= self@.take(i + 1));
            }
            i = i + 1;
        }
        VfsPath { segs }
    }

    /// The path extended by one segment.
    pub fn child(&self, seg: Vec<u8>) -> (r: VfsPath)
        ensures
            r@ == self@.push(seg@),
    {
        let mut r = self.duplicate();
        r.segs.push(seg);
        proof {
            assert(r@ =~= self@.push(seg@));
        }
        r
    }

    /// An identical copy.
    pub fn duplicate(&self) -> (r: VfsPath)
        ensures
            r@ == self@,
    {
        let r = self.take_prefix(self.segs.len());
        proof {
            assert(self@.take(self@.len() as int) =~= self@);
        }
        r
    }

    /// Equality of paths.
    pub fn eq_path(&self, other: &VfsPath) -> (r: bool)
        ensures
            r == (self@ == other@),
    {
        if self.segs.len() != other.segs.len() {
            proof {
                if self@ == other@ {
                    assert(self@.len() == other@.len());
                }
            }
            return false;
        }
        let mut i: usize = 0;
        while i < self.segs.len()
            invariant
                i <= self.segs.len(),
                self.segs.len() == other.segs.len(),
                forall|j: int| 0 <= j < i ==> self@[j] == other@[j],
            decreases self.segs.len() - i,
        {
            if !bytes_eq(&self.segs[i], &other.segs[i]) {
                proof {
                    if self@ == other@ {
                        assert(self@[i as int] == other@[i as int]);
                    }
                }
                return false;
            }
            i = i + 1;
        }
        proof {
            assert(self@ =~= other@);
        }
        true
    }

    /// Strict order of paths.
    pub fn lt(&self, other: &VfsPath) -> (r: bool)
        ensures
            r == path_lt(self@, other@),
    {
        let mut i: usize = 0;
        while i < self.segs.len() && i < other.segs.len()
            invariant
                i <= self.segs.len(),
                i <= other.segs.len(),
                self@.take(i as int) =~= other@.take(i as int),
            decreases self.segs.len() - i,
        {
            if !bytes_eq(&self.segs[i], &other.segs[i]) {
                proof {
                    lemma_path_lt_skip(self@, other@, i as int);
                    assert(self@.skip(i as int)[0] == self@[i as int]);
                    assert(other@.skip(i as int)[0] == other@[i as int]);
                }
                return bytes_cmp_lt(&self.segs[i], &other.segs[i]);
            }
            proof {
                assert(self@.take(i + 1) =~= self@.take(i as int).push(self@[i as int]));
                assert(other@.take(i + 1) =~= other@.take(i as int).push(other@[i as int]));
                assert(self@.take(i + 1) =~= other@.take(i + 1));
            }
            i = i + 1;
        }
        proof {
            lemma_path_lt_skip(self@, other@, i as int);
        }
        self.segs.len() < other.segs.len()
    }

    /// Is `self` a proper ancestor of `other`?
    pub fn is_ancestor_of(&self, other: &VfsPath) -> (r: bool)
        ensures
            r == is_strict_prefix(self@, other@),
    {
        if self.segs.len() >= other.segs.len() {
            return false;
        }
        let pre = other.take_prefix(self.segs.len());
        self.eq_path(&pre)
    }


    /// The path re-rooted: `dest` followed by this path's segments beyond
    /// the first `src_depth`.
    pub fn rebase(&self, src_depth: usize, dest: &VfsPath) -> (r: VfsPath)
        requires
            src_depth <= self@.len(),
        ensures
            r@ == dest@ + self@.skip(src_depth as int),
    {
        let mut r = dest.duplicate();
        let mut i: usize = src_depth;
        while i < self.segs.len()
            invariant
                src_depth <= i <= self.segs.len(),
                self.segs@.len() == self@.len(),
                r@ =~= dest@ + self@.subrange(src_depth as int, i as int),
            decreases self.segs.len() - i,
        {
            r.segs.push(copy_bytes(&self.segs[i]));
            proof {
                broadcast use lemma_segs_view_push;

                assert(self@.subrange(src_depth as int, i + 1) =~= self@.subrange(
                    src_depth as int,
                    i as int,
                ).push(self@[i as int]));
                assert(r@ =~= dest@ + self@.subrange(src_depth as int, i + 1));
            }
            i = i + 1;
        }
        proof {
            assert(self@.subrange(src_depth as int, self@.len() as int) =~= self@.skip(
                src_depth as int,
            ));
        }
        r
    }

    /// The textual form: a leading `/` before every segment; the root prints
    /// as the empty string.
    pub fn to_bytes(&self) -> (r: Vec<u8>)
        ensures
            r@ == display_spec(self@),
    {
        let mut r: Vec<u8> = Vec::new();
        let mut i: usize = 0;
        while i < self.segs.len()
            invariant
                i <= self.segs.len(),
                r@ =~= display_spec(self@.take(i as int)),
            decreases self.segs.len() - i,
        {
            r.push(47u8);
            let mut j: usize = 0;
            while j < self.segs[i].len()
                invariant
                    i < self.segs.len(),
                    j <= self.segs@[i as int]@.len(),
                    r@ =~= display_spec(self@.take(i as int)) + seq![47u8] + self@[i as int].take(
                        j as int,
                    ),
                decreases self.segs@[i as int]@.len() - j,
            {
                r.push(self.segs[i][j]);
                proof {
                    assert(r@ =~= display_spec(self@.take(i as int)) + seq![47u8]
                        + self@[i as int].take(j + 1));
                }
                j = j + 1;
            }
            proof {
                assert(self@[i as int].take(self@[i as int].len() as int) =~= self@[i as int]);
                assert(self@.take(i + 1).drop_last() =~= self@.take(i as int));
                assert(self@.take(i + 1).last() == self@[i as int]);
                assert(r@ =~= display_spec(self@.take(i + 1)));
            }
            i = i + 1;
        }
        proof {
            assert(self@.take(self@.len() as int) =~= self@);
        }
        r
    }
}

impl View for VfsPath {
    type V = Seq<Seq<u8>>;

    open spec fn view(&self) -> Seq<Seq<u8>> {
        segs_view(self.segs@)
    }
}

} // verus!
