use vstd::prelude::*;

verus! {

/// Whether `s` begins with `p`.
pub open spec fn has_prefix(s: Seq<char>, p: Seq<char>) -> bool {
    p.len() <= s.len() && s.subrange(0, p.len() as int) == p
}

/// Whether `s` ends with `p`.
pub open spec fn has_suffix(s: Seq<char>, p: Seq<char>) -> bool {
    p.len() <= s.len() && s.subrange(s.len() - p.len(), s.len() as int) == p
}

/// Whether `a` and `b` hold the same characters.
pub fn str_eq(a: &str, b: &str) -> (r: bool)
    ensures
        r == (a@ == b@),
{
    let n = a.unicode_len();
    if n != b.unicode_len() {
        return false;
    }
    let mut i: usize = 0;
    while i < n
        invariant
            n == a@.len(),
            n == b@.len(),
            i <= n,
            forall|k: int| 0 <= k < i ==> a@[k] == b@[k],
        decreases n - i,
    {
        if a.get_char(i) != b.get_char(i) {
            return false;
        }
        i = i + 1;
    }
    assert(a@ == b@);
    true
}

/// Whether `s` holds `p` from position `at` on.
fn matches_at(s: &str, n: usize, p: &str, m: usize, at: usize) -> (r: bool)
    requires
        n == s@.len(),
        m == p@.len(),
        at + m <= n,
    ensures
        r == (s@.subrange(at as int, at + m) == p@),
{
    let mut k: usize = 0;
    while k < m
        invariant
            n == s@.len(),
            m == p@.len(),
            at + m <= n,
            k <= m,
            forall|j: int| 0 <= j < k ==> s@[at + j] == p@[j],
        decreases m - k,
    {
        if s.get_char(at + k) != p.get_char(k) {
            assert(s@.subrange(at as int, at + m)[k as int] != p@[k as int]);
            return false;
        }
        k = k + 1;
    }
    assert(s@.subrange(at as int, at + m) == p@);
    true
}

/// Whether `s` begins with `p`.
pub fn starts_with(s: &str, p: &str) -> (r: bool)
    ensures
        r == has_prefix(s@, p@),
{
    let n = s.unicode_len();
    let m = p.unicode_len();
    if m > n {
        return false;
    }
    matches_at(s, n, p, m, 0)
}

/// Whether `s` ends with `p`.
pub fn ends_with(s: &str, p: &str) -> (r: bool)
    ensures
        r == has_suffix(s@, p@),
{
    let n = s.unicode_len();
    let m = p.unicode_len();
    if m > n {
        return false;
    }
    matches_at(s, n, p, m, n - m)
}

/// `s` with every backslash turned into a forward slash.
pub open spec fn forward_slashes(s: Seq<char>) -> Seq<char> {
    s.map_values(|c: char| if c == '\\' { '/' } else { c })
}

/// Turns every backslash of `s` into a forward slash.
pub fn to_forward_slashes(s: &str) -> (r: String)
    ensures
        r@ == forward_slashes(s@),
{
    let n = s.unicode_len();
    let mut out = String::new();
    let mut i: usize = 0;
    while i < n
        invariant
            n == s@.len(),
            i <= n,
            out@ == forward_slashes(s@.subrange(0, i as int)),
        decreases n - i,
    {
        let c = s.get_char(i);
        let piece = if c == '\\' { "/" } else { s.substring_char(i, i + 1) };
        proof {
            reveal_strlit("/");
        }
        out.append(piece);
        assert(forward_slashes(s@.subrange(0, i + 1)) == forward_slashes(s@.subrange(0, i as int)).push(
            if c == '\\' { '/' } else { c },
        ));
        i = i + 1;
    }
    assert(s@.subrange(0, n as int) == s@);
    out
}

/// The pieces of `s` between occurrences of `sep`, scanning left to right:
/// `pieces` are the finished ones and `cur` the one being read.
pub open spec fn split_from(s: Seq<char>, sep: Seq<char>, i: int, cur: Seq<char>, pieces: Seq<Seq<char>>) -> Seq<Seq<char>>
    decreases s.len() - i,
{
    if i >= s.len() || sep.len() == 0 {
        pieces.push(cur + s.subrange(i, s.len() as int))
    } else if i + sep.len() <= s.len() && s.subrange(i, i + sep.len()) == sep {
        split_from(s, sep, i + sep.len(), Seq::empty(), pieces.push(cur))
    } else {
        split_from(s, sep, i + 1, cur.push(s[i]), pieces)
    }
}

/// The pieces of `s` between occurrences of `sep`, as `str::split` gives them.
pub open spec fn split_on(s: Seq<char>, sep: Seq<char>) -> Seq<Seq<char>> {
    split_from(s, sep, 0, Seq::empty(), Seq::empty())
}

/// Cuts `s` at every occurrence of a non-empty separator.
pub fn split_on_str(s: &str, sep: &str) -> (r: Vec<String>)
    requires
        sep@.len() > 0,
    ensures
        r@.map_values(|p: String| p@) == split_on(s@, sep@),
{
    let n = s.unicode_len();
    let m = sep.unicode_len();
    let mut pieces: Vec<String> = Vec::new();
    let mut start: usize = 0;
    let mut i: usize = 0;
    assert(s@.subrange(0, 0) == Seq::<char>::empty());
    assert(pieces@.map_values(|p: String| p@) == Seq::<Seq<char>>::empty());
    while i < n
        invariant
            n == s@.len(),
            m == sep@.len(),
            m > 0,
            start <= i <= n,
            split_on(s@, sep@) == split_from(
                s@,
                sep@,
                i as int,
                s@.subrange(start as int, i as int),
                pieces@.map_values(|p: String| p@),
            ),
        decreases n - i,
    {
        if m <= n - i && matches_at(s, n, sep, m, i) {
            let piece = s.substring_char(start, i).to_string();
            let ghost before = pieces@.map_values(|p: String| p@);
            pieces.push(piece);
            assert(pieces@.map_values(|p: String| p@) == before.push(s@.subrange(start as int, i as int)));
            i = i + m;
            start = i;
            assert(s@.subrange(start as int, i as int) == Seq::<char>::empty());
        } else {
            assert(s@.subrange(start as int, i + 1) == s@.subrange(start as int, i as int).push(s@[i as int]));
            i = i + 1;
        }
    }
    let last = s.substring_char(start, n).to_string();
    let ghost before = pieces@.map_values(|p: String| p@);
    pieces.push(last);
    assert(s@.subrange(start as int, n as int) + s@.subrange(n as int, n as int) == s@.subrange(start as int, n as int));
    assert(pieces@.map_values(|p: String| p@) == before.push(s@.subrange(start as int, n as int)));
    pieces
}

/// `s` with every occurrence of `m` replaced by `r`, scanning left to right
/// without overlap; an empty `m` replaces nothing.
pub open spec fn replaced(s: Seq<char>, m: Seq<char>, r: Seq<char>) -> Seq<char>
    decreases s.len(),
{
    if m.len() == 0 || s.len() < m.len() {
        s
    } else if s.subrange(0, m.len() as int) == m {
        r + replaced(s.subrange(m.len() as int, s.len() as int), m, r)
    } else {
        seq![s[0]] + replaced(s.drop_first(), m, r)
    }
}

/// Whether `m` occurs in `s`.
pub open spec fn occurs(s: Seq<char>, m: Seq<char>) -> bool {
    exists|i: int| 0 <= i && i + m.len() <= s.len() && #[trigger] s.subrange(i, i + m.len()) == m
}

/// Whether no occurrence of `m` in `s` begins before position `h`.
pub open spec fn none_begins_before(s: Seq<char>, m: Seq<char>, h: int) -> bool {
    forall|i: int| 0 <= i < h && i + m.len() <= s.len() ==> #[trigger] s.subrange(i, i + m.len()) != m
}

/// Whether replacing `m` by `r` in `s` forms no new occurrence of `m`: at
/// each piece the replacement writes (a substituted `r`, or a character
/// copied over), no occurrence of `m` begins in that piece. A copied
/// character can begin one only where it runs into a substituted `r`.
pub open spec fn no_new_occurrence(s: Seq<char>, m: Seq<char>, r: Seq<char>) -> bool
    decreases s.len(),
{
    if m.len() == 0 || s.len() < m.len() {
        true
    } else if s.subrange(0, m.len() as int) == m {
        let rest = s.subrange(m.len() as int, s.len() as int);
        none_begins_before(r + replaced(rest, m, r), m, r.len() as int) && no_new_occurrence(rest, m, r)
    } else {
        none_begins_before(seq![s[0]] + replaced(s.drop_first(), m, r), m, 1) && no_new_occurrence(
            s.drop_first(),
            m,
            r,
        )
    }
}

/// Replacing in a string where `m` does not occur changes nothing.
pub proof fn lemma_replaced_absent(s: Seq<char>, m: Seq<char>, r: Seq<char>)
    requires
        !occurs(s, m),
    ensures
        replaced(s, m, r) == s,
    decreases s.len(),
{
    if m.len() > 0 && s.len() >= m.len() {
        assert(s.subrange(0, m.len() as int) != m) by {
            if s.subrange(0, m.len() as int) == m {
                assert(s.subrange(0int, 0int + m.len()) == m);
            }
        }
        let t = s.drop_first();
        assert(!occurs(t, m)) by {
            if occurs(t, m) {
                let i = choose|i: int| 0 <= i && i + m.len() <= t.len() && #[trigger] t.subrange(i, i + m.len()) == m;
                assert(s.subrange(i + 1, i + 1 + m.len()) =~= t.subrange(i, i + m.len()));
            }
        }
        lemma_replaced_absent(t, m, r);
        assert(seq![s[0]] + t =~= s);
    }
}

/// Where the replacement forms no new occurrence, none is left.
pub proof fn lemma_replaced_leaves_none(s: Seq<char>, m: Seq<char>, r: Seq<char>)
    requires
        m.len() > 0,
        no_new_occurrence(s, m, r),
    ensures
        !occurs(replaced(s, m, r), m),
    decreases s.len(),
{
    let out = replaced(s, m, r);
    if s.len() >= m.len() {
        let (h, rest) = if s.subrange(0, m.len() as int) == m {
            (r.len() as int, s.subrange(m.len() as int, s.len() as int))
        } else {
            (1int, s.drop_first())
        };
        let tail = replaced(rest, m, r);
        lemma_replaced_leaves_none(rest, m, r);
        assert(out.len() == h + tail.len());
        assert forall|i: int| 0 <= i && i + m.len() <= out.len() implies #[trigger] out.subrange(i, i + m.len()) != m by {
            if i >= h {
                assert(out.subrange(i, i + m.len()) =~= tail.subrange(i - h, i - h + m.len()));
            }
        }
    }
}

/// Replaces every occurrence of `m` in `s` by `r`, left to right.
pub fn replace_all(s: &str, m: &str, r: &str) -> (out: String)
    ensures
        out@ == replaced(s@, m@, r@),
{
    let n = s.unicode_len();
    let k = m.unicode_len();
    if k == 0 {
        return s.to_string();
    }
    let mut out = String::new();
    let mut i: usize = 0;
    assert(s@.subrange(0, n as int) == s@);
    while i < n
        invariant
            n == s@.len(),
            k == m@.len(),
            k > 0,
            i <= n,
            replaced(s@, m@, r@) == out@ + replaced(s@.subrange(i as int, n as int), m@, r@),
        decreases n - i,
    {
        let ghost suf = s@.subrange(i as int, n as int);
        if k <= n - i && matches_at(s, n, m, k, i) {
            assert(suf.subrange(0, k as int) =~= s@.subrange(i as int, i + k));
            assert(suf.subrange(k as int, suf.len() as int) =~= s@.subrange(i + k, n as int));
            out.append(r);
            i = i + k;
        } else {
            let c = s.substring_char(i, i + 1);
            assert(suf.drop_first() =~= s@.subrange(i + 1, n as int));
            if k <= n - i {
                assert(suf.subrange(0, k as int) =~= s@.subrange(i as int, i + k));
            } else {
                let ghost t = suf.drop_first();
                assert(seq![suf[0]] + t =~= suf);
            }
            assert(c@ =~= seq![suf[0]]);
            out.append(c);
            i = i + 1;
        }
    }
    assert(s@.subrange(n as int, n as int) =~= Seq::<char>::empty());
    out
}

} // verus!
