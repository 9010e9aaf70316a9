use vstd::prelude::*;

verus! {

/// Both separators that stored names may use.
pub open spec fn is_sep(b: u8) -> bool {
    b == 47 || b == 92
}

/// The bytes before the first NUL.
pub open spec fn before_nul(s: Seq<u8>) -> Seq<u8>
    decreases s.len(),
{
    if s.len() == 0 {
        s
    } else if s[0] == 0 {
        Seq::empty()
    } else {
        seq![s[0]] + before_nul(s.drop_first())
    }
}

/// The segments between separators, empty ones included; one more segment
/// than there are separators.
pub open spec fn split_segs(s: Seq<u8>) -> Seq<Seq<u8>>
    decreases s.len(),
{
    if s.len() == 0 {
        seq![Seq::empty()]
    } else if is_sep(s.last()) {
        split_segs(s.drop_last()).push(Seq::empty())
    } else {
        let p = split_segs(s.drop_last());
        p.update(p.len() - 1, p.last().push(s.last()))
    }
}

/// A segment that may appear in a destination path: not empty, not the
/// current directory, not the parent directory.
pub open spec fn keep_seg(c: Seq<u8>) -> bool {
    c.len() > 0 && c != seq![46u8] && c != seq![46u8, 46u8]
}

/// The segments that survive the filter, in order.
pub open spec fn kept(ps: Seq<Seq<u8>>) -> Seq<Seq<u8>>
    decreases ps.len(),
{
    if ps.len() == 0 {
        Seq::empty()
    } else {
        kept(ps.drop_last()) + if keep_seg(ps.last()) {
            seq![ps.last()]
        } else {
            Seq::empty()
        }
    }
}

/// The sanitized form of a stored entry name: cut at the first NUL, split
/// at separators, with empty, current- and parent-directory segments
/// dropped. Joining what remains under a root cannot escape the root.
pub open spec fn sanitize_spec(s: Seq<u8>) -> Seq<Seq<u8>> {
    kept(split_segs(before_nul(s)))
}

/// The views of a vector of segments.
pub open spec fn segs_of(v: Seq<Vec<u8>>) -> Seq<Seq<u8>> {
    v.map_values(|c: Vec<u8>| c@)
}

/// `before_nul` is the prefix up to the first NUL.
proof fn lemma_before_nul_take(s: Seq<u8>, j: int)
    requires
        0 <= j <= s.len(),
        forall|i: int| 0 <= i < j ==> s[i] != 0,
        j < s.len() ==> s[j] == 0,
    ensures
        before_nul(s) == s.take(j),
    decreases s.len(),
{
    if j == 0 {
        if s.len() == 0 {
            assert(before_nul(s) =~= s.take(0));
        } else {
            assert(before_nul(s) =~= s.take(0));
        }
    } else {
        assert(s[0] != 0);
        lemma_before_nul_take(s.drop_first(), j - 1);
        assert(seq![s[0]] + s.drop_first().take(j - 1) =~= s.take(j));
    }
}

/// `split_segs` always yields at least one segment.
proof fn lemma_split_nonempty(s: Seq<u8>)
    ensures
        split_segs(s).len() >= 1,
    decreases s.len(),
{
    if s.len() > 0 {
        lemma_split_nonempty(s.drop_last());
    }
}

/// No segment of `split_segs` holds a separator, and if the input holds no
/// NUL, none holds a NUL.
proof fn lemma_split_clean(s: Seq<u8>)
    requires
        forall|i: int| 0 <= i < s.len() ==> s[i] != 0,
    ensures
        forall|i: int, j: int|
            0 <= i < split_segs(s).len() && 0 <= j < split_segs(s)[i].len() ==> !is_sep(
                #[trigger] split_segs(s)[i][j],
            ) && split_segs(s)[i][j] != 0,
    decreases s.len(),
{
    lemma_split_nonempty(s);
    if s.len() == 0 {
    } else {
        assert(forall|i: int| 0 <= i < s.drop_last().len() ==> s.drop_last()[i] != 0);
        lemma_split_clean(s.drop_last());
        lemma_split_nonempty(s.drop_last());
        let p = split_segs(s.drop_last());
        if is_sep(s.last()) {
            let q = p.push(Seq::<u8>::empty());
            assert forall|i: int, j: int|
                0 <= i < q.len() && 0 <= j < q[i].len() implies !is_sep(#[trigger] q[i][j])
                && q[i][j] != 0 by {
                if i < p.len() {
                    assert(q[i] == p[i]);
                } else {
                    assert(q[i] =~= Seq::<u8>::empty());
                }
            }
        } else {
            assert(s.last() == s[s.len() - 1]);
            assert(s.last() != 0);
            let q = p.update(p.len() - 1, p.last().push(s.last()));
            assert forall|i: int, j: int|
                0 <= i < q.len() && 0 <= j < q[i].len() implies !is_sep(#[trigger] q[i][j])
                && q[i][j] != 0 by {
                if i < p.len() - 1 {
                    assert(q[i] == p[i]);
                } else {
                    assert(q[i] == p.last().push(s.last()));
                    if j < p.last().len() {
                        assert(q[i][j] == p.last()[j]);
                        assert(p[p.len() - 1][j] == p.last()[j]);
                    } else {
                        assert(q[i][j] == s.last());
                    }
                }
            }
        }
    }
}

/// Every kept segment is one of the segments offered.
proof fn lemma_kept_sub(ps: Seq<Seq<u8>>)
    ensures
        forall|i: int|
            0 <= i < kept(ps).len() ==> keep_seg(#[trigger] kept(ps)[i]) && exists|j: int|
                0 <= j < ps.len() && kept(ps)[i] == ps[j],
    decreases ps.len(),
{
    if ps.len() > 0 {
        lemma_kept_sub(ps.drop_last());
        assert forall|i: int| 0 <= i < kept(ps).len() implies keep_seg(#[trigger] kept(ps)[i])
            && exists|j: int| 0 <= j < ps.len() && kept(ps)[i] == ps[j] by {
            if i < kept(ps.drop_last()).len() {
                assert(kept(ps)[i] == kept(ps.drop_last())[i]);
                let j = choose|j: int|
                    0 <= j < ps.drop_last().len() && kept(ps.drop_last())[i] == ps.drop_last()[j];
                assert(ps.drop_last()[j] == ps[j]);
            } else {
                assert(keep_seg(ps.last()));
                assert(kept(ps)[i] == ps.last());
                assert(ps.last() == ps[ps.len() - 1]);
            }
        }
    }
}

/// What `sanitize_spec` yields is safe to join under a target directory:
/// every segment is a plain name, never empty, never `.` or `..`, and free
/// of separators and NUL bytes.
pub proof fn lemma_sanitize_safe(s: Seq<u8>)
    ensures
        forall|i: int|
            0 <= i < sanitize_spec(s).len() ==> {
                let c = #[trigger] sanitize_spec(s)[i];
                &&& c.len() > 0
                &&& c != seq![46u8]
                &&& c != seq![46u8, 46u8]
                &&& forall|j: int| 0 <= j < c.len() ==> !is_sep(#[trigger] c[j]) && c[j] != 0
            },
{
    let t = before_nul(s);
    let cut = lemma_before_nul_cut(s);
    assert(t == s.take(cut));
    assert(forall|i: int| 0 <= i < t.len() ==> t[i] != 0);
    lemma_split_clean(t);
    lemma_kept_sub(split_segs(t));
}

/// The cut point whose prefix `before_nul` takes.
proof fn lemma_before_nul_cut(s: Seq<u8>) -> (j: int)
    ensures
        0 <= j <= s.len(),
        forall|i: int| 0 <= i < j ==> s[i] != 0,
        before_nul(s) == s.take(j),
    decreases s.len(),
{
    if s.len() == 0 {
        assert(before_nul(s) =~= s.take(0));
        0
    } else if s[0] == 0 {
        assert(before_nul(s) =~= s.take(0));
        0
    } else {
        let j0 = lemma_before_nul_cut(s.drop_first());
        assert forall|i: int| 0 <= i < j0 + 1 implies s[i] != 0 by {
            if i > 0 {
                assert(s.drop_first()[i - 1] != 0);
            }
        }
        assert(seq![s[0]] + s.drop_first().take(j0) =~= s.take(j0 + 1));
        j0 + 1
    }
}

/// Split a stored name into safe path segments: cut at the first NUL,
/// split at `/` and `\`, and drop empty, `.` and `..` segments.
pub fn sanitize(name: &[u8]) -> (r: Vec<Vec<u8>>)
    ensures
        segs_of(r@) == sanitize_spec(name@),
{
    let len = name.len();
    // Find the cut point: the first NUL, or the end.
    let mut cut: usize = 0;
    while cut < len && name[cut] != 0
        invariant
            0 <= cut <= len,
            len == name@.len(),
            forall|i: int| 0 <= i < cut ==> name@[i] != 0,
        decreases len - cut,
    {
        cut = cut + 1;
    }
    proof {
        lemma_before_nul_take(name@, cut as int);
    }
    let ghost t = name@.take(cut as int);
    let mut out: Vec<Vec<u8>> = Vec::new();
    let mut cur: Vec<u8> = Vec::new();
    let mut p: usize = 0;
    proof {
        assert(t.take(0) =~= Seq::<u8>::empty());
        assert(segs_of(out@) =~= Seq::<Seq<u8>>::empty());
    }
    while p < cut
        invariant
            0 <= p <= cut <= len,
            len == name@.len(),
            t == name@.take(cut as int),
            before_nul(name@) == t,
            split_segs(t.take(p as int)).len() >= 1,
            segs_of(out@) == kept(split_segs(t.take(p as int)).drop_last()),
            cur@ == split_segs(t.take(p as int)).last(),
        decreases cut - p,
    {
        let b = name[p];
        proof {
            assert(t.take(p as int + 1).drop_last() =~= t.take(p as int));
            assert(t.take(p as int + 1).last() == t[p as int]);
            assert(t[p as int] == name@[p as int]);
            lemma_split_nonempty(t.take(p as int));
        }
        let ghost sp = split_segs(t.take(p as int));
        if b == 47 || b == 92 {
            // End of a segment: keep it if it is safe.
            let keep = seg_is_kept(&cur);
            if keep {
                let ghost out0 = out@;
                out.push(cur);
                proof {
                    assert(segs_of(out@) =~= segs_of(out0).push(sp.last()));
                    assert(kept(sp) =~= kept(sp.drop_last()) + seq![sp.last()]);
                }
            } else {
                proof {
                    assert(kept(sp) =~= kept(sp.drop_last()) + Seq::<Seq<u8>>::empty());
                    assert(kept(sp) =~= kept(sp.drop_last()));
                }
            }
            cur = Vec::new();
            proof {
                let spn = split_segs(t.take(p as int + 1));
                assert(spn =~= sp.push(Seq::<u8>::empty()));
                assert(spn.drop_last() =~= sp);
            }
        } else {
            cur.push(b);
            proof {
                let spn = split_segs(t.take(p as int + 1));
                assert(spn == sp.update(sp.len() - 1, sp.last().push(name@[p as int])));
                assert(spn.drop_last() =~= sp.drop_last());
                assert(spn.last() == sp.last().push(name@[p as int]));
            }
        }
        p = p + 1;
    }
    // Flush the final segment.
    proof {
        assert(t.take(cut as int) =~= t);
        lemma_split_nonempty(t);
    }
    let ghost sp = split_segs(t);
    let keep = seg_is_kept(&cur);
    if keep {
        let ghost out0 = out@;
        out.push(cur);
        proof {
            assert(segs_of(out@) =~= segs_of(out0).push(sp.last()));
            assert(kept(sp) =~= kept(sp.drop_last()) + seq![sp.last()]);
        }
    } else {
        proof {
            assert(kept(sp) =~= kept(sp.drop_last()) + Seq::<Seq<u8>>::empty());
            assert(kept(sp) =~= kept(sp.drop_last()));
        }
    }
    out
}

/// Whether a segment survives the filter, as `keep_seg` says.
fn seg_is_kept(c: &Vec<u8>) -> (r: bool)
    ensures
        r == keep_seg(c@),
{
    if c.len() == 0 {
        proof {
            assert(!keep_seg(c@));
        }
        return false;
    }
    if c.len() == 1 && c[0] == 46 {
        proof {
            assert(c@ =~= seq![46u8]);
        }
        return false;
    }
    if c.len() == 2 && c[0] == 46 && c[1] == 46 {
        proof {
            assert(c@ =~= seq![46u8, 46u8]);
        }
        return false;
    }
    proof {
        if c@ == seq![46u8] {
            assert(c@.len() == 1 && c@[0] == 46);
        }
        if c@ == seq![46u8, 46u8] {
            assert(c@.len() == 2 && c@[0] == 46 && c@[1] == 46);
        }
    }
    true
}

/// The name of `path` relative to `root`: the remainder after the root and
/// one separator, when `path` lies under `root`; nothing otherwise.
pub open spec fn strip_root_spec(root: Seq<u8>, path: Seq<u8>) -> Option<Seq<u8>> {
    if path.len() > root.len() + 1 && path.take(root.len() as int) == root && path[root.len() as int]
        == 47 {
        Some(path.skip(root.len() as int + 1))
    } else {
        None
    }
}

/// Compute the archive name of a filesystem path relative to the traversal
/// root, exactly as `strip_root_spec` says.
pub fn strip_root(root: &[u8], path: &[u8]) -> (r: Option<Vec<u8>>)
    ensures
        match r {
            Some(v) => strip_root_spec(root@, path@) == Some(v@),
            None => strip_root_spec(root@, path@) is None,
        },
{
    let rl = root.len();
    let pl = path.len();
    if pl < 2 || rl >= pl - 1 {
        return None;
    }
    let mut i: usize = 0;
    while i < rl
        invariant
            0 <= i <= rl,
            rl == root@.len(),
            pl == path@.len(),
            pl > rl + 1,
            forall|j: int| 0 <= j < i ==> path@[j] == root@[j],
        decreases rl - i,
    {
        if path[i] != root[i] {
            proof {
                assert(path@.take(rl as int)[i as int] != root@[i as int]);
            }
            return None;
        }
        i = i + 1;
    }
    proof {
        assert(path@.take(rl as int) =~= root@);
    }
    if path[rl] != 47 {
        return None;
    }
    let rest = vstd::slice::slice_subrange(path, rl + 1, pl);
    let v = vstd::slice::slice_to_vec(rest);
    proof {
        assert(v@ =~= path@.skip(rl as int + 1));
    }
    Some(v)
}


/// A segment as real directory trees produce them: kept by the filter and
/// free of separators and NUL bytes.
pub open spec fn plain_seg(c: Seq<u8>) -> bool {
    keep_seg(c) && forall|j: int| 0 <= j < c.len() ==> !is_sep(#[trigger] c[j]) && c[j] != 0
}

/// Segments joined with `/` into one relative name, as the archiver writes
/// them.
pub open spec fn joined(segs: Seq<Seq<u8>>) -> Seq<u8>
    decreases segs.len(),
{
    if segs.len() == 0 {
        Seq::empty()
    } else if segs.len() == 1 {
        segs[0]
    } else {
        joined(segs.drop_last()) + seq![47u8] + segs.last()
    }
}

/// A joined path of plain segments holds no NUL.
proof fn lemma_joined_no_nul(segs: Seq<Seq<u8>>)
    requires
        forall|i: int| 0 <= i < segs.len() ==> plain_seg(#[trigger] segs[i]),
    ensures
        forall|j: int| 0 <= j < joined(segs).len() ==> joined(segs)[j] != 0,
    decreases segs.len(),
{
    if segs.len() <= 1 {
    } else {
        assert(forall|i: int|
            0 <= i < segs.drop_last().len() ==> plain_seg(#[trigger] segs.drop_last()[i]));
        lemma_joined_no_nul(segs.drop_last());
        let a = joined(segs.drop_last());
        let w = a + seq![47u8] + segs.last();
        assert forall|j: int| 0 <= j < w.len() implies w[j] != 0 by {
            if j < a.len() {
                assert(w[j] == a[j]);
            } else if j == a.len() {
                assert(w[j] == 47);
            } else {
                assert(w[j] == segs.last()[j - a.len() - 1]);
                assert(plain_seg(segs[segs.len() - 1]));
            }
        }
    }
}

/// Appending separator-free bytes extends the final segment.
proof fn lemma_split_extend(a: Seq<u8>, b: Seq<u8>)
    requires
        forall|j: int| 0 <= j < b.len() ==> !is_sep(#[trigger] b[j]),
    ensures
        split_segs(a + b) == split_segs(a).update(
            split_segs(a).len() - 1,
            split_segs(a).last() + b,
        ),
    decreases b.len(),
{
    lemma_split_nonempty(a);
    let p = split_segs(a);
    if b.len() == 0 {
        assert(a + b =~= a);
        assert(p.last() + b =~= p.last());
        assert(p.update(p.len() - 1, p.last()) =~= p);
    } else {
        assert(forall|j: int|
            0 <= j < b.drop_last().len() ==> !is_sep(#[trigger] b.drop_last()[j]));
        lemma_split_extend(a, b.drop_last());
        let q = split_segs(a + b.drop_last());
        assert((a + b).drop_last() =~= a + b.drop_last());
        assert((a + b).last() == b.last());
        assert(b.last() == b[b.len() - 1]);
        assert(!is_sep((a + b).last()));
        assert(split_segs(a + b) == q.update(q.len() - 1, q.last().push((a + b).last())));
        assert(q.len() == p.len());
        assert(q.last() == p.last() + b.drop_last());
        assert((p.last() + b.drop_last()).push(b.last()) =~= p.last() + b);
        assert(q.update(q.len() - 1, q.last().push(b.last())) =~= p.update(
            p.len() - 1,
            p.last() + b,
        ));
    }
}

/// A separator opens a new, empty final segment.
proof fn lemma_split_sep(a: Seq<u8>)
    ensures
        split_segs(a + seq![47u8]) == split_segs(a).push(Seq::empty()),
{
    assert((a + seq![47u8]).drop_last() =~= a);
    assert((a + seq![47u8]).last() == 47);
}

/// Splitting a joined path of separator-free segments gives the segments.
proof fn lemma_split_joined(segs: Seq<Seq<u8>>)
    requires
        segs.len() > 0,
        forall|i: int, j: int|
            0 <= i < segs.len() && 0 <= j < segs[i].len() ==> !is_sep(#[trigger] segs[i][j]),
    ensures
        split_segs(joined(segs)) == segs,
    decreases segs.len(),
{
    if segs.len() == 1 {
        let b = segs[0];
        assert(forall|j: int| 0 <= j < b.len() ==> !is_sep(#[trigger] b[j]));
        lemma_split_extend(Seq::empty(), b);
        assert(Seq::<u8>::empty() + b =~= b);
        let p = split_segs(Seq::<u8>::empty());
        assert(p =~= seq![Seq::<u8>::empty()]);
        assert(p.last() + b =~= b);
        assert(p.update(0, b) =~= seq![b]);
        assert(seq![b] =~= segs);
    } else {
        let dl = segs.drop_last();
        assert(forall|i: int, j: int|
            0 <= i < dl.len() && 0 <= j < dl[i].len() ==> !is_sep(#[trigger] dl[i][j]));
        lemma_split_joined(dl);
        let a = joined(dl);
        lemma_split_sep(a);
        assert(split_segs(a + seq![47u8]) == dl.push(Seq::empty()));
        let b = segs.last();
        assert(b == segs[segs.len() - 1]);
        assert(forall|j: int| 0 <= j < b.len() ==> !is_sep(#[trigger] b[j]));
        lemma_split_extend(a + seq![47u8], b);
        let q = dl.push(Seq::<u8>::empty());
        assert(joined(segs) == (a + seq![47u8]) + b);
        assert(q.last() + b =~= b);
        assert(q.update(q.len() - 1, b) =~= segs);
    }
}

/// Segments the filter keeps pass through it unchanged.
proof fn lemma_kept_all(ps: Seq<Seq<u8>>)
    requires
        forall|i: int| 0 <= i < ps.len() ==> keep_seg(#[trigger] ps[i]),
    ensures
        kept(ps) == ps,
    decreases ps.len(),
{
    if ps.len() > 0 {
        assert(forall|i: int|
            0 <= i < ps.drop_last().len() ==> keep_seg(#[trigger] ps.drop_last()[i]));
        lemma_kept_all(ps.drop_last());
        assert(keep_seg(ps[ps.len() - 1]));
        assert(kept(ps.drop_last()) + seq![ps.last()] =~= ps);
    }
}

/// Sanitizing is the identity on the names the archiver writes: a name
/// joined from plain segments comes back as exactly those segments.
pub proof fn lemma_sanitize_plain(segs: Seq<Seq<u8>>)
    requires
        segs.len() > 0,
        forall|i: int| 0 <= i < segs.len() ==> plain_seg(#[trigger] segs[i]),
    ensures
        sanitize_spec(joined(segs)) == segs,
{
    let w = joined(segs);
    lemma_joined_no_nul(segs);
    lemma_before_nul_take(w, w.len() as int);
    assert(w.take(w.len() as int) =~= w);
    assert(forall|i: int, j: int|
        0 <= i < segs.len() && 0 <= j < segs[i].len() ==> !is_sep(#[trigger] segs[i][j]));
    lemma_split_joined(segs);
    lemma_kept_all(segs);
}

} // verus!
