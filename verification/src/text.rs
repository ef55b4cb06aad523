//! Character-level text operations: trimming, splitting and pattern
//! replacement, each with the mathematical meaning that the rest of the
//! library states its contracts in.
use vstd::prelude::*;

verus! {

/// `s` with every leading copy of `c` removed.
pub open spec fn strip_front(s: Seq<char>, c: char) -> Seq<char>
    decreases s.len(),
{
    if s.len() > 0 && s[0] == c {
        strip_front(s.drop_first(), c)
    } else {
        s
    }
}

/// `s` with every trailing copy of `c` removed.
pub open spec fn strip_back(s: Seq<char>, c: char) -> Seq<char>
    decreases s.len(),
{
    if s.len() > 0 && s.last() == c {
        strip_back(s.drop_last(), c)
    } else {
        s
    }
}

/// `s` with every leading and trailing copy of `c` removed (`str::trim_matches`
/// with a single character).
pub open spec fn trim_char(s: Seq<char>, c: char) -> Seq<char> {
    strip_back(strip_front(s, c), c)
}

/// The pieces of `s` between the occurrences of `c`, as `str::split` with a
/// one-character pattern gives them: one more piece than there are
/// occurrences, empty pieces included.
pub open spec fn split_on(s: Seq<char>, c: char) -> Seq<Seq<char>>
    decreases s.len(),
{
    if s.len() == 0 {
        seq![Seq::<char>::empty()]
    } else {
        let r = split_on(s.drop_last(), c);
        if s.last() == c {
            r.push(Seq::<char>::empty())
        } else {
            r.update(r.len() - 1, r.last().push(s.last()))
        }
    }
}

/// The number of occurrences of `c` in `s`.
pub open spec fn count_char(s: Seq<char>, c: char) -> nat
    decreases s.len(),
{
    if s.len() == 0 {
        0
    } else {
        count_char(s.drop_last(), c) + if s.last() == c {
            1nat
        } else {
            0nat
        }
    }
}

/// `s` with every occurrence of the non-empty pattern `pat` replaced by `rep`,
/// scanning from the left and never looking into an inserted `rep`
/// (`str::replace`).
pub open spec fn replace_all(s: Seq<char>, pat: Seq<char>, rep: Seq<char>) -> Seq<char>
    decreases s.len(),
{
    if pat.len() == 0 || s.len() < pat.len() {
        s
    } else if s.take(pat.len() as int) == pat {
        rep + replace_all(s.skip(pat.len() as int), pat, rep)
    } else {
        seq![s[0]] + replace_all(s.drop_first(), pat, rep)
    }
}

/// Whether `pat` occurs in `s` as a contiguous run.
pub open spec fn occurs_in(s: Seq<char>, pat: Seq<char>) -> bool {
    exists|i: int| 0 <= i && i + pat.len() <= s.len() && #[trigger] s.subrange(i, i + pat.len()) == pat
}

/// A split never yields an empty list of pieces, and it has one more piece
/// than there are separators.
pub proof fn lemma_split_len(s: Seq<char>, c: char)
    ensures
        split_on(s, c).len() == count_char(s, c) + 1,
    decreases s.len(),
{
    if s.len() > 0 {
        lemma_split_len(s.drop_last(), c);
    }
}

/// The pieces `ws` with `c` between each two of them.
pub open spec fn join(ws: Seq<Seq<char>>, c: char) -> Seq<char>
    decreases ws.len(),
{
    if ws.len() == 0 {
        Seq::<char>::empty()
    } else if ws.len() == 1 {
        ws[0]
    } else {
        join(ws.drop_last(), c) + seq![c] + ws.last()
    }
}

/// Joining the pieces of a split with the separator gives the text back.
pub proof fn lemma_join_split(s: Seq<char>, c: char)
    ensures
        join(split_on(s, c), c) == s,
    decreases s.len(),
{
    if s.len() > 0 {
        let s2 = s.drop_last();
        lemma_join_split(s2, c);
        lemma_split_len(s2, c);
        let r = split_on(s2, c);
        if s.last() == c {
            let u = r.push(Seq::<char>::empty());
            assert(u.drop_last() =~= r);
            assert(join(u, c) == join(r, c) + seq![c] + Seq::<char>::empty());
            assert(s =~= s2 + seq![c] + Seq::<char>::empty());
        } else {
            let u = r.update(r.len() - 1, r.last().push(s.last()));
            if r.len() == 1 {
                assert(join(u, c) == u[0]);
                assert(s =~= s2.push(s.last()));
            } else {
                assert(u.drop_last() =~= r.drop_last());
                assert(join(u, c) == join(r.drop_last(), c) + seq![c] + r.last().push(s.last()));
                assert(join(u, c) =~= join(r, c).push(s.last()));
                assert(s =~= s2.push(s.last()));
            }
        }
    }
}

proof fn lemma_replace_short_prefix(x: Seq<char>, b: Seq<char>, pat: Seq<char>, rep: Seq<char>, c: char)
    requires
        pat.len() > 0,
        !pat.contains(c),
        x.len() < pat.len(),
    ensures
        replace_all(x + seq![c] + b, pat, rep) == x + seq![c] + replace_all(b, pat, rep),
    decreases x.len(),
{
    let t = x + seq![c] + b;
    if t.len() < pat.len() {
        assert(b.len() < pat.len());
    } else {
        assert(t[x.len() as int] == c);
        if t.take(pat.len() as int) == pat {
            assert(pat[x.len() as int] == c);
        }
        if x.len() == 0 {
            assert(t.drop_first() =~= b);
            assert(x + seq![c] + replace_all(b, pat, rep) =~= seq![t[0]] + replace_all(b, pat, rep));
        } else {
            lemma_replace_short_prefix(x.drop_first(), b, pat, rep, c);
            assert(t.drop_first() =~= x.drop_first() + seq![c] + b);
            assert(x + seq![c] + replace_all(b, pat, rep) =~= seq![t[0]] + (x.drop_first() + seq![c]
                + replace_all(b, pat, rep)));
        }
    }
}

/// A pattern without `c` never spans a `c`: replacing in two texts joined by
/// `c` replaces in each of them.
pub proof fn lemma_replace_concat(a: Seq<char>, b: Seq<char>, pat: Seq<char>, rep: Seq<char>, c: char)
    requires
        pat.len() > 0,
        !pat.contains(c),
    ensures
        replace_all(a + seq![c] + b, pat, rep) == replace_all(a, pat, rep) + seq![c] + replace_all(b, pat, rep),
    decreases a.len(),
{
    let t = a + seq![c] + b;
    let n = pat.len() as int;
    if a.len() < pat.len() {
        lemma_replace_short_prefix(a, b, pat, rep, c);
    } else {
        assert(t.take(n) =~= a.take(n));
        if a.take(n) == pat {
            assert(t.skip(n) =~= a.skip(n) + seq![c] + b);
            lemma_replace_concat(a.skip(n), b, pat, rep, c);
        } else {
            assert(t.drop_first() =~= a.drop_first() + seq![c] + b);
            lemma_replace_concat(a.drop_first(), b, pat, rep, c);
            assert(t[0] == a[0]);
        }
    }
}

/// Replacing in pieces joined by `c` replaces in each piece, when the
/// pattern holds no `c`.
pub proof fn lemma_replace_join(ws: Seq<Seq<char>>, pat: Seq<char>, rep: Seq<char>, c: char)
    requires
        pat.len() > 0,
        !pat.contains(c),
    ensures
        replace_all(join(ws, c), pat, rep) == join(ws.map_values(|w: Seq<char>| replace_all(w, pat, rep)), c),
    decreases ws.len(),
{
    let m = ws.map_values(|w: Seq<char>| replace_all(w, pat, rep));
    if ws.len() == 0 {
    } else if ws.len() == 1 {
    } else {
        lemma_replace_join(ws.drop_last(), pat, rep, c);
        lemma_replace_concat(join(ws.drop_last(), c), ws.last(), pat, rep, c);
        assert(m.drop_last() =~= ws.drop_last().map_values(|w: Seq<char>| replace_all(w, pat, rep)));
    }
}

/// Replacing a pattern that does not occur leaves the text as it is.
pub proof fn lemma_replace_absent(s: Seq<char>, pat: Seq<char>, rep: Seq<char>)
    requires
        pat.len() > 0,
        !occurs_in(s, pat),
    ensures
        replace_all(s, pat, rep) == s,
    decreases s.len(),
{
    if s.len() >= pat.len() {
        assert(s.subrange(0, pat.len() as int) =~= s.take(pat.len() as int));
        assert(s.subrange(0, 0 + pat.len() as int) != pat);
        let t = s.drop_first();
        assert forall|i: int| 0 <= i && i + pat.len() <= t.len() implies #[trigger] t.subrange(i, i + pat.len()) != pat by {
            assert(t.subrange(i, i + pat.len()) =~= s.subrange(i + 1, i + 1 + pat.len()));
        }
        lemma_replace_absent(t, pat, rep);
        assert(seq![s[0]] + t =~= s);
    }
}

/// The characters of `s`, one per element.
pub fn chars_of(s: &str) -> (v: Vec<char>)
    ensures
        v@ == s@,
{
    let n = s.unicode_len();
    let mut v: Vec<char> = Vec::new();
    let mut i: usize = 0;
    while i < n
        invariant
            n == s@.len(),
            i <= n,
            v@ == s@.take(i as int),
        decreases n - i,
    {
        v.push(s.get_char(i));
        i = i + 1;
        assert(v@ =~= s@.take(i as int));
    }
    assert(s@.take(n as int) =~= s@);
    v
}

/// A copy of the characters of `s` from `from` up to `to`.
pub fn substring(s: &str, from: usize, to: usize) -> (r: String)
    requires
        from <= to <= s@.len(),
    ensures
        r@ == s@.subrange(from as int, to as int),
{
    String::from_str(s.substring_char(from, to))
}

proof fn lemma_strip_front_step(s: Seq<char>, i: int, c: char)
    requires
        0 <= i < s.len(),
        s[i] == c,
    ensures
        strip_front(s.skip(i), c) == strip_front(s.skip(i + 1), c),
{
    assert(s.skip(i).drop_first() =~= s.skip(i + 1));
}

proof fn lemma_strip_back_step(s: Seq<char>, a: int, b: int, c: char)
    requires
        0 <= a < b <= s.len(),
        s[b - 1] == c,
    ensures
        strip_back(s.subrange(a, b), c) == strip_back(s.subrange(a, b - 1), c),
{
    assert(s.subrange(a, b).drop_last() =~= s.subrange(a, b - 1));
}

/// `s` with every leading and trailing copy of `c` removed.
pub fn trim_matches_char(s: &str, c: char) -> (r: String)
    ensures
        r@ == trim_char(s@, c),
{
    let v = chars_of(s);
    let n = v.len();
    let mut start: usize = 0;
    assert(s@.skip(0) =~= s@);
    while start < n && v[start] == c
        invariant
            v@ == s@,
            n == s@.len(),
            start <= n,
            strip_front(s@, c) == strip_front(s@.skip(start as int), c),
        decreases n - start,
    {
        proof {
            lemma_strip_front_step(s@, start as int, c);
        }
        start = start + 1;
    }
    assert(strip_front(s@, c) == s@.subrange(start as int, n as int)) by {
        assert(s@.skip(start as int) =~= s@.subrange(start as int, n as int));
    }
    let mut end: usize = n;
    while end > start && v[end - 1] == c
        invariant
            v@ == s@,
            n == s@.len(),
            start <= end <= n,
            trim_char(s@, c) == strip_back(s@.subrange(start as int, end as int), c),
        decreases end - start,
    {
        proof {
            lemma_strip_back_step(s@, start as int, end as int, c);
        }
        end = end - 1;
    }
    assert(strip_back(s@.subrange(start as int, end as int), c) == s@.subrange(
        start as int,
        end as int,
    ));
    substring(s, start, end)
}

/// The pieces of `s` between the occurrences of `c` (`str::split`).
pub fn split_char(s: &str, c: char) -> (pieces: Vec<String>)
    ensures
        pieces.deep_view() == split_on(s@, c),
        pieces.len() >= 1,
{
    let v = chars_of(s);
    let n = v.len();
    let mut pieces: Vec<String> = Vec::new();
    let mut start: usize = 0;
    let mut i: usize = 0;
    assert(s@.take(0) =~= Seq::<char>::empty());
    assert(pieces.deep_view().push(s@.subrange(0, 0)) =~= split_on(s@.take(0), c));
    while i < n
        invariant
            v@ == s@,
            n == s@.len(),
            start <= i <= n,
            split_on(s@.take(i as int), c) == pieces.deep_view().push(
                s@.subrange(start as int, i as int),
            ),
        decreases n - i,
    {
        let ghost before = pieces.deep_view();
        assert(s@.take(i + 1).drop_last() =~= s@.take(i as int));
        assert(s@.take(i + 1).last() == s@[i as int]);
        let ghost r = split_on(s@.take(i as int), c);
        assert(r.len() == before.len() + 1);
        assert(r.last() == s@.subrange(start as int, i as int));
        if v[i] == c {
            let piece = substring(s, start, i);
            pieces.push(piece);
            start = i + 1;
            assert(pieces.deep_view() =~= before.push(piece@));
            assert(split_on(s@.take(i + 1), c) == r.push(Seq::<char>::empty()));
            assert(s@.subrange(start as int, i + 1) =~= Seq::<char>::empty());
            assert(r =~= before.push(piece@));
            assert(split_on(s@.take(i + 1), c) =~= pieces.deep_view().push(
                s@.subrange(start as int, i + 1),
            ));
        } else {
            assert(s@.subrange(start as int, i + 1) =~= s@.subrange(start as int, i as int).push(
                s@[i as int],
            ));
            assert(split_on(s@.take(i + 1), c) == r.update(
                r.len() - 1,
                r.last().push(s@[i as int]),
            ));
            assert(split_on(s@.take(i + 1), c) =~= pieces.deep_view().push(
                s@.subrange(start as int, i + 1),
            ));
        }
        i = i + 1;
    }
    let last = substring(s, start, n);
    let ghost before = pieces.deep_view();
    pieces.push(last);
    assert(pieces.deep_view() =~= before.push(last@));
    assert(s@.take(n as int) =~= s@);
    pieces
}

/// Whether `pv` occurs in `sv` at position `i`.
fn matches_at(sv: &Vec<char>, i: usize, pv: &Vec<char>) -> (b: bool)
    requires
        i + pv.len() <= sv.len(),
    ensures
        b == (sv@.subrange(i as int, i + pv.len()) == pv@),
{
    let m = pv.len();
    let mut k: usize = 0;
    while k < m
        invariant
            m == pv.len(),
            i + m <= sv.len(),
            k <= m,
            forall|j: int| 0 <= j < k ==> sv@[i + j] == pv@[j],
        decreases m - k,
    {
        if sv[i + k] != pv[k] {
            assert(sv@.subrange(i as int, i + m)[k as int] != pv@[k as int]);
            return false;
        }
        k = k + 1;
    }
    assert(sv@.subrange(i as int, i + m) =~= pv@);
    true
}

/// `s` with every occurrence of the non-empty `pat` replaced by `rep`
/// (`str::replace`).
pub fn replace_str(s: &str, pat: &str, rep: &str) -> (r: String)
    requires
        pat@.len() > 0,
    ensures
        r@ == replace_all(s@, pat@, rep@),
{
    let sv = chars_of(s);
    let pv = chars_of(pat);
    let n = sv.len();
    let m = pv.len();
    let mut out = String::new();
    let mut i: usize = 0;
    assert(s@.skip(0) =~= s@);
    while i < n
        invariant
            sv@ == s@,
            pv@ == pat@,
            n == s@.len(),
            m == pat@.len(),
            m > 0,
            i <= n,
            replace_all(s@, pat@, rep@) == out@ + replace_all(s@.skip(i as int), pat@, rep@),
        decreases n - i,
    {
        let ghost t = s@.skip(i as int);
        if n - i < m {
            let tail = substring(s, i, n);
            assert(tail@ =~= t);
            out.append(tail.as_str());
            i = n;
            assert(s@.skip(n as int) =~= Seq::<char>::empty());
        } else if matches_at(&sv, i, &pv) {
            assert(t.take(m as int) =~= s@.subrange(i as int, i + m));
            assert(t.skip(m as int) =~= s@.skip(i + m));
            out.append(rep);
            i = i + m;
        } else {
            assert(t.take(m as int) =~= s@.subrange(i as int, i + m));
            assert(t.drop_first() =~= s@.skip(i + 1));
            let one = substring(s, i, i + 1);
            assert(one@ =~= seq![t[0]]);
            out.append(one.as_str());
            i = i + 1;
        }
    }
    proof {
        assert(s@.skip(i as int) =~= Seq::<char>::empty());
    }
    out
}

} // verus!
