//! Character-level text scanning: lines, substring search and field splitting,
//! with the meaning `str::lines`, `str::contains` and `str::split` give them.
use vstd::prelude::*;

verus! {

broadcast use vstd::string::group_string_axioms;

/// `pat` occurs in `hay` as a contiguous run.
pub open spec fn contains(hay: Seq<char>, pat: Seq<char>) -> bool {
    exists|i: int| 0 <= i <= hay.len() - pat.len() && #[trigger] hay.subrange(i, i + pat.len()) == pat
}

/// The index of the first `'\n'` at or after `i`, or the length when there is none.
pub open spec fn line_end(s: Seq<char>, i: int) -> int
    decreases s.len() - i,
{
    if i >= s.len() {
        s.len() as int
    } else if s[i] == '\n' {
        i
    } else {
        line_end(s, i + 1)
    }
}

/// The text of the line from `i` to its end `e`: a line ended by `"\r\n"` loses the `'\r'`;
/// the last line, which no `'\n'` ends, keeps all it holds.
pub open spec fn line_text(s: Seq<char>, i: int, e: int) -> Seq<char> {
    if e < s.len() && e > i && s[e - 1] == '\r' {
        s.subrange(i, e - 1)
    } else {
        s.subrange(i, e)
    }
}

/// The lines of `s` from index `i` on.
pub open spec fn lines_from(s: Seq<char>, i: int) -> Seq<Seq<char>>
    decreases s.len() - i,
{
    if i < 0 || i >= s.len() {
        Seq::empty()
    } else {
        let e = line_end(s, i);
        if e >= s.len() || e < i {
            seq![line_text(s, i, s.len() as int)]
        } else {
            seq![line_text(s, i, e)] + lines_from(s, e + 1)
        }
    }
}

/// The lines of `s`, as `str::lines` yields them.
pub open spec fn lines(s: Seq<char>) -> Seq<Seq<char>> {
    lines_from(s, 0)
}

/// The first of `ls` in which `pat` occurs.
pub open spec fn first_containing(ls: Seq<Seq<char>>, pat: Seq<char>) -> Option<Seq<char>>
    decreases ls.len(),
{
    if ls.len() == 0 {
        None
    } else if contains(ls[0], pat) {
        Some(ls[0])
    } else {
        first_containing(ls.drop_first(), pat)
    }
}

/// The index of the first `c` at or after `i`, or the length when there is none.
pub open spec fn piece_end(s: Seq<char>, i: int, c: char) -> int
    decreases s.len() - i,
{
    if i >= s.len() {
        s.len() as int
    } else if s[i] == c {
        i
    } else {
        piece_end(s, i + 1, c)
    }
}

/// The pieces of `s` from index `i` on, cut at every `c`.
pub open spec fn pieces_from(s: Seq<char>, i: int, c: char) -> Seq<Seq<char>>
    decreases s.len() + 1 - i,
{
    if i < 0 || i > s.len() {
        Seq::empty()
    } else {
        let e = piece_end(s, i, c);
        if e >= s.len() || e < i {
            seq![s.subrange(i, s.len() as int)]
        } else {
            seq![s.subrange(i, e)] + pieces_from(s, e + 1, c)
        }
    }
}

/// The pieces of `s` cut at every `c`, as `str::split` yields them.
pub open spec fn split_on(s: Seq<char>, c: char) -> Seq<Seq<char>> {
    pieces_from(s, 0, c)
}

/// The `n`-th piece of `s` cut at `c`, as `s.split(c).nth(n)` gives it.
pub open spec fn nth_piece(s: Seq<char>, c: char, n: nat) -> Option<Seq<char>> {
    if n < split_on(s, c).len() {
        Some(split_on(s, c)[n as int])
    } else {
        None
    }
}

/// `line_end` finds the first line break at or after `i`.
pub proof fn lemma_line_end(s: Seq<char>, i: int)
    requires
        0 <= i <= s.len(),
    ensures
        i <= line_end(s, i) <= s.len(),
        line_end(s, i) < s.len() ==> s[line_end(s, i)] == '\n',
        forall|j: int| i <= j < line_end(s, i) ==> s[j] != '\n',
    decreases s.len() - i,
{
    if i < s.len() && s[i] != '\n' {
        lemma_line_end(s, i + 1);
    }
}

/// The first line of `s` holds its first `k` characters when none of them is a line break
/// and the `k`-th is not a carriage return.
pub proof fn lemma_first_line_prefix(s: Seq<char>, k: int)
    requires
        0 < k <= s.len(),
        forall|j: int| 0 <= j < k ==> s[j] != '\n',
        s[k - 1] != '\r',
    ensures
        lines(s).len() > 0,
        lines(s)[0].len() >= k,
        lines(s)[0] == s.subrange(0, lines(s)[0].len() as int),
        lines(s)[0].len() == s.len() || s[lines(s)[0].len() as int] == '\n' || s[lines(s)[0].len() as int] == '\r',
{
    lemma_line_end(s, 0);
    let e = line_end(s, 0);
    if e < k {
        assert(s[e] == '\n');
    }
    assert(lines(s)[0] == line_text(s, 0, e));
}

/// `piece_end` stops at the first `c` at or after `i`.
pub proof fn lemma_piece_end_is(s: Seq<char>, i: int, j: int, c: char)
    requires
        0 <= i <= j < s.len(),
        s[j] == c,
        forall|k: int| i <= k < j ==> s[k] != c,
    ensures
        piece_end(s, i, c) == j,
    decreases j - i,
{
    if i < j {
        lemma_piece_end_is(s, i + 1, j, c);
    }
}

/// `pat` occurs in `hay` at `i`.
pub proof fn lemma_contains_at(hay: Seq<char>, pat: Seq<char>, i: int)
    requires
        0 <= i,
        i + pat.len() <= hay.len(),
        hay.subrange(i, i + pat.len()) =~= pat,
    ensures
        contains(hay, pat),
{
    assert(hay.subrange(i, i + pat.len()) == pat);
}

/// A run differs from `pat` where one of its characters does.
pub proof fn lemma_mismatch(s: Seq<char>, i: int, pat: Seq<char>, k: int)
    requires
        0 <= k < pat.len(),
        0 <= i,
        i + pat.len() <= s.len(),
        s[i + k] != pat[k],
    ensures
        s.subrange(i, i + pat.len()) != pat,
{
    assert(s.subrange(i, i + pat.len())[k] == s[i + k]);
}

/// The characters of `s`, in order.
pub fn chars_of(s: &str) -> (v: Vec<char>)
    ensures
        v@ == s@,
{
    let mut v: Vec<char> = Vec::new();
    for c in it: s.chars()
        invariant
            v@ == it.seq().take(it.index() as int),
            it.seq() == s@,
    {
        v.push(c);
    }
    v
}

/// Whether `a` and `b` hold the same text.
pub fn str_eq(a: &str, b: &str) -> (r: bool)
    ensures
        r == (a@ == b@),
{
    let x = chars_of(a);
    let y = chars_of(b);
    if x.len() != y.len() {
        return false;
    }
    let mut i: usize = 0;
    while i < x.len()
        invariant
            x@ == a@,
            y@ == b@,
            x.len() == y.len(),
            i <= x.len(),
            forall|j: int| 0 <= j < i ==> x@[j] == y@[j],
        decreases x.len() - i,
    {
        if x[i] != y[i] {
            return false;
        }
        i += 1;
    }
    assert(x@ =~= y@);
    true
}

/// Whether `pat` occurs in `hay[lo..hi]`.
pub fn contains_in(hay: &Vec<char>, lo: usize, hi: usize, pat: &Vec<char>) -> (r: bool)
    requires
        lo <= hi <= hay.len(),
    ensures
        r == contains(hay@.subrange(lo as int, hi as int), pat@),
{
    let ghost h = hay@.subrange(lo as int, hi as int);
    if pat.len() > hi - lo {
        return false;
    }
    let last = hi - lo - pat.len();
    let mut i: usize = 0;
    loop
        invariant
            h == hay@.subrange(lo as int, hi as int),
            lo <= hi <= hay.len(),
            pat.len() <= hi - lo,
            last == hi - lo - pat.len(),
            i <= last,
            forall|k: int| 0 <= k < i ==> #[trigger] h.subrange(k, k + pat.len()) != pat@,
        ensures
            forall|k: int| 0 <= k <= last ==> #[trigger] h.subrange(k, k + pat.len()) != pat@,
        decreases last - i,
    {
        let mut j: usize = 0;
        let mut same = true;
        while j < pat.len()
            invariant
                lo <= hi <= hay.len(),
                i <= last,
                last == hi - lo - pat.len(),
                j <= pat.len(),
                same ==> forall|m: int| 0 <= m < j ==> hay@[lo + i + m] == pat@[m],
                !same ==> exists|m: int| 0 <= m < pat.len() && hay@[lo + i + m] != pat@[m],
            decreases pat.len() - j,
        {
            if hay[lo + i + j] != pat[j] {
                same = false;
            }
            j += 1;
        }
        if same {
            assert(h.subrange(i as int, i + pat.len()) =~= pat@);
            return true;
        }
        proof {
            let m = choose|m: int| 0 <= m < pat.len() && hay@[lo + i + m] != pat@[m];
            assert(h.subrange(i as int, i + pat.len())[m] != pat@[m]);
        }
        if i == last {
            break;
        }
        i += 1;
    }
    false
}

/// Whether `pat` occurs in `hay` at `i`.
pub fn matches_at(hay: &Vec<char>, i: usize, pat: &Vec<char>) -> (r: bool)
    requires
        i + pat.len() <= hay.len(),
    ensures
        r == (hay@.subrange(i as int, i + pat.len()) == pat@),
{
    let mut j: usize = 0;
    while j < pat.len()
        invariant
            i + pat.len() <= hay.len(),
            j <= pat.len(),
            forall|m: int| 0 <= m < j ==> hay@[i + m] == pat@[m],
        decreases pat.len() - j,
    {
        if hay[i + j] != pat[j] {
            assert(hay@.subrange(i as int, i + pat.len())[j as int] != pat@[j as int]);
            return false;
        }
        j += 1;
    }
    assert(hay@.subrange(i as int, i + pat.len()) =~= pat@);
    true
}

/// The bounds `(a, b)` of the first line of `cs` in which `pat` occurs, if one does.
pub fn find_line_containing(cs: &Vec<char>, pat: &Vec<char>) -> (r: Option<(usize, usize)>)
    ensures
        match r {
            None => first_containing(lines(cs@), pat@) is None,
            Some((a, b)) => a <= b <= cs.len() && first_containing(lines(cs@), pat@) == Some(
                cs@.subrange(a as int, b as int),
            ),
        },
{
    let ghost s = cs@;
    let mut start: usize = 0;
    loop
        invariant
            s == cs@,
            start <= cs.len(),
            first_containing(lines_from(s, start as int), pat@) == first_containing(lines(s), pat@),
        decreases cs.len() - start,
    {
        if start >= cs.len() {
            return None;
        }
        let mut e = start;
        while e < cs.len() && cs[e] != '\n'
            invariant
                s == cs@,
                start <= e <= cs.len(),
                line_end(s, start as int) == line_end(s, e as int),
            decreases cs.len() - e,
        {
            e += 1;
        }
        let t = if e < cs.len() && e > start && cs[e - 1] == '\r' {
            e - 1
        } else {
            e
        };
        let ghost line = line_text(s, start as int, e as int);
        assert(line == s.subrange(start as int, t as int));
        let ghost rest = lines_from(s, start as int);
        if e >= cs.len() {
            assert(rest == seq![line]);
        } else {
            assert(rest == seq![line] + lines_from(s, e + 1));
            assert(rest.drop_first() =~= lines_from(s, e + 1));
        }
        if contains_in(cs, start, t, pat) {
            return Some((start, t));
        }
        assert(rest[0] == line);
        assert(first_containing(rest, pat@) == first_containing(rest.drop_first(), pat@));
        if e >= cs.len() {
            assert(rest.drop_first().len() == 0);
            assert(first_containing(rest.drop_first(), pat@) is None);
            return None;
        }
        start = e + 1;
    }
}

/// The bounds `(a, b)` in `cs` of the `n`-th piece of `cs[lo..hi]` cut at `c`, if it has one.
pub fn nth_piece_in(cs: &Vec<char>, lo: usize, hi: usize, c: char, n: usize) -> (r: Option<(usize, usize)>)
    requires
        lo <= hi <= cs.len(),
    ensures
        match r {
            None => nth_piece(cs@.subrange(lo as int, hi as int), c, n as nat) is None,
            Some((a, b)) => lo <= a <= b <= hi && nth_piece(cs@.subrange(lo as int, hi as int), c, n as nat)
                == Some(cs@.subrange(a as int, b as int)),
        },
{
    let ghost l = cs@.subrange(lo as int, hi as int);
    let mut i: usize = lo;
    let mut k: usize = 0;
    loop
        invariant
            l == cs@.subrange(lo as int, hi as int),
            lo <= i <= hi <= cs.len(),
            k <= n,
            split_on(l, c).len() == k + pieces_from(l, i - lo, c).len(),
            forall|m: int| 0 <= m < pieces_from(l, i - lo, c).len() ==> #[trigger] pieces_from(l, i - lo, c)[m] == split_on(l, c)[k + m],
        decreases hi - i,
    {
        let mut e = i;
        while e < hi && cs[e] != c
            invariant
                l == cs@.subrange(lo as int, hi as int),
                lo <= i <= e <= hi <= cs.len(),
                piece_end(l, i - lo, c) == piece_end(l, e - lo, c),
            decreases hi - e,
        {
            e += 1;
        }
        let ghost p = pieces_from(l, i - lo, c);
        let ghost piece = l.subrange(i - lo, e - lo);
        assert(piece =~= cs@.subrange(i as int, e as int));
        if e >= hi {
            assert(p == seq![piece]);
        } else {
            assert(p == seq![piece] + pieces_from(l, e + 1 - lo, c));
        }
        assert(p[0] == split_on(l, c)[k as int]);
        if k == n {
            return Some((i, e));
        }
        if e >= hi {
            return None;
        }
        proof {
            let q = pieces_from(l, e + 1 - lo, c);
            assert forall|m: int| 0 <= m < q.len() implies #[trigger] q[m] == split_on(l, c)[k + 1 + m] by {
                assert(p[m + 1] == q[m]);
            }
        }
        i = e + 1;
        k += 1;
    }
}

} // verus!
