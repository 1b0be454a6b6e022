use vstd::prelude::*;
use vstd::string::*;

verus! {

/// The character views of a list of strings.
pub open spec fn views(v: Seq<String>) -> Seq<Seq<char>> {
    v.map_values(|p: String| p@)
}

/// The pieces of `s` between occurrences of `sep`, in order; `s` without
/// `sep` is one piece, and each `sep` starts a new (possibly empty) piece.
pub open spec fn split_on(s: Seq<char>, sep: char) -> Seq<Seq<char>>
    decreases s.len(),
{
    if s.len() == 0 {
        seq![Seq::<char>::empty()]
    } else {
        let p = split_on(s.drop_last(), sep);
        if s.last() == sep {
            p.push(Seq::<char>::empty())
        } else {
            p.update(p.len() - 1, p.last().push(s.last()))
        }
    }
}

/// Splitting always gives at least one piece.
pub proof fn lemma_split_on_len(s: Seq<char>, sep: char)
    ensures
        split_on(s, sep).len() >= 1,
    decreases s.len(),
{
    if s.len() > 0 {
        lemma_split_on_len(s.drop_last(), sep);
    }
}

/// Whether no character of `s` is `c`.
pub open spec fn free_of(s: Seq<char>, c: char) -> bool {
    forall|i: int| 0 <= i < s.len() ==> s[i] != c
}

/// Characters without `sep` extend the last piece.
proof fn lemma_split_on_extend(a: Seq<char>, b: Seq<char>, sep: char)
    requires
        free_of(b, sep),
    ensures
        split_on(a + b, sep) == split_on(a, sep).update(
            split_on(a, sep).len() - 1,
            split_on(a, sep).last() + b,
        ),
    decreases b.len(),
{
    lemma_split_on_len(a, sep);
    let q = split_on(a, sep);
    if b.len() == 0 {
        assert(a + b =~= a);
        assert(q.last() + b =~= q.last());
        assert(q.update(q.len() - 1, q.last()) =~= q);
    } else {
        let b1 = b.drop_last();
        lemma_split_on_extend(a, b1, sep);
        assert((a + b).drop_last() =~= a + b1);
        assert((a + b).last() == b.last());
        assert((q.last() + b1).push(b.last()) =~= q.last() + b);
        assert(split_on(a + b, sep) =~= q.update(q.len() - 1, q.last() + b));
    }
}

/// A separator starts a new, empty piece.
proof fn lemma_split_on_sep(a: Seq<char>, sep: char)
    ensures
        split_on(a.push(sep), sep) == split_on(a, sep).push(Seq::<char>::empty()),
{
    assert(a.push(sep).drop_last() =~= a);
}

/// Three pieces free of `sep`, joined by `sep`, split back into those pieces.
pub proof fn lemma_split_three(a: Seq<char>, b: Seq<char>, c: Seq<char>, sep: char)
    requires
        free_of(a, sep),
        free_of(b, sep),
        free_of(c, sep),
    ensures
        split_on(a + seq![sep] + b + seq![sep] + c, sep) == seq![a, b, c],
{
    let e = Seq::<char>::empty();
    lemma_split_on_extend(e, a, sep);
    assert(e + a =~= a);
    assert(split_on(e, sep) =~= seq![e]);
    assert(split_on(a, sep) =~= seq![a]) by {
        assert(seq![e].update(0, e + a) =~= seq![a]);
    }
    lemma_split_on_sep(a, sep);
    let a1 = a.push(sep);
    lemma_split_on_len(a1, sep);
    lemma_split_on_extend(a1, b, sep);
    assert(split_on(a1 + b, sep) =~= seq![a, b]) by {
        assert(seq![a, e].update(1, e + b) =~= seq![a, b]);
    }
    let b1 = (a1 + b).push(sep);
    lemma_split_on_sep(a1 + b, sep);
    lemma_split_on_extend(b1, c, sep);
    assert(split_on(b1 + c, sep) =~= seq![a, b, c]) by {
        assert(seq![a, b, e].update(2, e + c) =~= seq![a, b, c]);
    }
    assert(a + seq![sep] + b + seq![sep] + c =~= b1 + c);
}

/// Text whose characters all differ from the first of `p` has nothing to replace.
pub proof fn lemma_replaced_none(s: Seq<char>, p: Seq<char>, r: Seq<char>)
    requires
        p.len() > 0,
        free_of(s, p[0]),
    ensures
        replaced(s, p, r) == s,
    decreases s.len(),
{
    if s.len() >= p.len() {
        assert(s.take(p.len() as int)[0] != p[0]);
        lemma_replaced_none(s.skip(1), p, r);
        assert(seq![s[0]] + s.skip(1) =~= s);
    }
}

/// Whether `s` begins with `p`.
pub open spec fn starts_with(s: Seq<char>, p: Seq<char>) -> bool {
    s.len() >= p.len() && s.take(p.len() as int) == p
}

/// `s` with every non-overlapping occurrence of `p`, taken from the left,
/// replaced by `r`.
pub open spec fn replaced(s: Seq<char>, p: Seq<char>, r: Seq<char>) -> Seq<char>
    decreases s.len(),
{
    if p.len() == 0 || s.len() < p.len() {
        s
    } else if s.take(p.len() as int) == p {
        r + replaced(s.skip(p.len() as int), p, r)
    } else {
        seq![s[0]] + replaced(s.skip(1), p, r)
    }
}

/// Splits `s` at every occurrence of `sep`.
pub fn split(s: &str, sep: char) -> (r: Vec<String>)
    ensures
        views(r@) == split_on(s@, sep),
{
    let n = s.unicode_len();
    let mut parts: Vec<String> = Vec::new();
    let mut start: usize = 0;
    let mut i: usize = 0;
    proof {
        assert(s@.take(0) =~= Seq::<char>::empty());
        assert(views(parts@).push(s@.subrange(0, 0)) =~= seq![Seq::<char>::empty()]);
    }
    while i < n
        invariant
            n == s@.len(),
            start <= i <= n,
            views(parts@).push(s@.subrange(start as int, i as int)) == split_on(
                s@.take(i as int),
                sep,
            ),
        decreases n - i,
    {
        let ch = s.get_char(i);
        let ghost before = views(parts@);
        proof {
            assert(s@.take(i + 1).drop_last() =~= s@.take(i as int));
            assert(s@.take(i + 1).last() == ch);
        }
        if ch == sep {
            let piece = String::from_str(s.substring_char(start, i));
            let ghost old_parts = parts@;
            parts.push(piece);
            proof {
                assert(parts@ == old_parts.push(piece));
                assert(views(parts@) =~= before.push(s@.subrange(start as int, i as int)));
            }
            start = i + 1;
            proof {
                assert(s@.subrange(start as int, i + 1) =~= Seq::<char>::empty());
            }
        } else {
            proof {
                assert(s@.subrange(start as int, i + 1) =~= s@.subrange(
                    start as int,
                    i as int,
                ).push(ch));
                assert(views(parts@).push(s@.subrange(start as int, i + 1)) =~= before.push(
                    s@.subrange(start as int, i as int),
                ).update(before.len() as int, s@.subrange(start as int, i as int).push(ch)));
            }
        }
        i = i + 1;
    }
    let ghost before = views(parts@);
    let ghost old_parts = parts@;
    let last = String::from_str(s.substring_char(start, n));
    parts.push(last);
    assert(parts@ == old_parts.push(last));
    proof {
        assert(s@.take(n as int) =~= s@);
        assert(views(parts@) =~= before.push(s@.subrange(start as int, n as int)));
    }
    parts
}

/// Whether the characters of `s` from `i` on begin with `p`.
fn matches_at(s: &str, i: usize, p: &str) -> (r: bool)
    requires
        i <= s@.len(),
    ensures
        r == starts_with(s@.skip(i as int), p@),
{
    let n = s.unicode_len();
    let m = p.unicode_len();
    if n - i < m {
        return false;
    }
    let mut k: usize = 0;
    while k < m
        invariant
            n == s@.len(),
            m == p@.len(),
            i + m <= n,
            k <= m,
            forall|j: int| 0 <= j < k ==> s@[i + j] == p@[j],
        decreases m - k,
    {
        if s.get_char(i + k) != p.get_char(k) {
            assert(s@.skip(i as int).take(m as int)[k as int] != p@[k as int]);
            return false;
        }
        k = k + 1;
    }
    assert(s@.skip(i as int).take(m as int) =~= p@);
    true
}

/// Whether `s` begins with `p`.
pub fn has_prefix(s: &str, p: &str) -> (r: bool)
    ensures
        r == starts_with(s@, p@),
{
    proof {
        assert(s@.skip(0) =~= s@);
    }
    matches_at(s, 0, p)
}

/// `s` with every occurrence of `p`, taken from the left, replaced by `r`.
pub fn replace_all(s: &str, p: &str, r: &str) -> (out: String)
    requires
        p@.len() > 0,
    ensures
        out@ == replaced(s@, p@, r@),
{
    let n = s.unicode_len();
    let m = p.unicode_len();
    let mut out = String::new();
    let mut i: usize = 0;
    proof {
        assert(s@.skip(0) =~= s@);
    }
    while i < n
        invariant
            n == s@.len(),
            m == p@.len(),
            m > 0,
            i <= n,
            out@ + replaced(s@.skip(i as int), p@, r@) == replaced(s@, p@, r@),
        decreases n - i,
    {
        let ghost rest = s@.skip(i as int);
        if n - i < m {
            out.append(s.substring_char(i, n));
            proof {
                assert(s@.subrange(i as int, n as int) =~= rest);
                assert(s@.skip(n as int) =~= Seq::<char>::empty());
            }
            i = n;
        } else if matches_at(s, i, p) {
            let ghost prev = out@;
            out.append(r);
            proof {
                assert(rest.skip(m as int) =~= s@.skip(i + m));
                assert(prev + (r@ + replaced(rest.skip(m as int), p@, r@)) =~= out@ + replaced(
                    s@.skip(i + m),
                    p@,
                    r@,
                ));
            }
            i = i + m;
        } else {
            let ghost prev = out@;
            out.append(s.substring_char(i, i + 1));
            proof {
                assert(rest.skip(1) =~= s@.skip(i + 1));
                assert(s@.subrange(i as int, i + 1) =~= seq![rest[0]]);
                assert(prev + (seq![rest[0]] + replaced(rest.skip(1), p@, r@)) =~= out@
                    + replaced(s@.skip(i + 1), p@, r@));
            }
            i = i + 1;
        }
    }
    proof {
        assert(s@.skip(n as int) =~= Seq::<char>::empty());
        assert(out@ + Seq::<char>::empty() =~= out@);
    }
    out
}

} // verus!
