//! Substring search, joining and line splitting over character sequences.
use vstd::prelude::*;

verus! {

/// `needle` occurs in `hay` starting at index `i`.
pub open spec fn occurs_at(hay: Seq<char>, needle: Seq<char>, i: int) -> bool {
    &&& 0 <= i
    &&& i + needle.len() <= hay.len()
    &&& hay.subrange(i, i + needle.len()) == needle
}

/// `needle` is a contiguous part of `hay` (the empty sequence is part of every sequence).
pub open spec fn contains_seq(hay: Seq<char>, needle: Seq<char>) -> bool {
    exists|i: int| occurs_at(hay, needle, i)
}

/// Index of the first line feed in `s`, or `s.len()` when there is none.
pub open spec fn newline_index(s: Seq<char>) -> nat
    decreases s.len(),
{
    if s.len() == 0 {
        0
    } else if s[0] == '\n' {
        0
    } else {
        1 + newline_index(s.drop_first())
    }
}

/// A line with one trailing carriage return removed, if it has one.
pub open spec fn strip_cr(line: Seq<char>) -> Seq<char> {
    if line.len() > 0 && line.last() == '\r' {
        line.drop_last()
    } else {
        line
    }
}

/// The lines of `s`: pieces separated by `\n`, each with a `\r` that stood
/// right before its `\n` removed; a final line ending adds no empty line.
pub open spec fn lines_of(s: Seq<char>) -> Seq<Seq<char>>
    decreases s.len(),
{
    if s.len() == 0 {
        seq![]
    } else {
        let i = newline_index(s);
        if i >= s.len() {
            seq![s]
        } else {
            seq![strip_cr(s.take(i as int))] + lines_of(s.skip(i as int + 1))
        }
    }
}

/// The pieces of `list` with `sep` between each two neighbours.
pub open spec fn seq_join(list: Seq<Seq<char>>, sep: Seq<char>) -> Seq<char>
    decreases list.len(),
{
    if list.len() == 0 {
        seq![]
    } else if list.len() == 1 {
        list[0]
    } else {
        seq_join(list.drop_last(), sep) + sep + list.last()
    }
}

proof fn lemma_newline_index_bound(s: Seq<char>)
    ensures
        newline_index(s) <= s.len(),
        newline_index(s) < s.len() ==> s[newline_index(s) as int] == '\n',
        forall|m: int| 0 <= m < newline_index(s) ==> s[m] != '\n',
    decreases s.len(),
{
    if s.len() > 0 && s[0] != '\n' {
        lemma_newline_index_bound(s.drop_first());
        assert forall|m: int| 0 <= m < newline_index(s) implies s[m] != '\n' by {
            if m > 0 {
                assert(s[m] == s.drop_first()[m - 1]);
            }
        }
    }
}

proof fn lemma_newline_index_is(s: Seq<char>, k: int)
    requires
        0 <= k <= s.len(),
        k < s.len() ==> s[k] == '\n',
        forall|m: int| 0 <= m < k ==> s[m] != '\n',
    ensures
        newline_index(s) == k,
    decreases k,
{
    if k > 0 {
        let t = s.drop_first();
        assert forall|m: int| 0 <= m < k - 1 implies t[m] != '\n' by {
            assert(t[m] == s[m + 1]);
        }
        if k < s.len() {
            assert(t[k - 1] == s[k]);
        }
        lemma_newline_index_is(t, k - 1);
    }
}

/// Law: the empty string is contained in every string.
pub proof fn lemma_contains_empty(hay: Seq<char>)
    ensures
        contains_seq(hay, Seq::<char>::empty()),
{
    assert(hay.subrange(0, 0) =~= Seq::<char>::empty());
    assert(occurs_at(hay, Seq::<char>::empty(), 0));
}

/// Law: only the empty string is contained in the empty string.
pub proof fn lemma_contained_in_empty(needle: Seq<char>)
    ensures
        contains_seq(Seq::<char>::empty(), needle) <==> needle.len() == 0,
{
    if needle.len() == 0 {
        lemma_contains_empty(Seq::<char>::empty());
        assert(needle =~= Seq::<char>::empty());
    }
}

/// Law: joining no strings gives the empty string, and joining one string gives it back.
pub proof fn lemma_join_short(sep: Seq<char>, x: Seq<char>)
    ensures
        seq_join(Seq::<Seq<char>>::empty(), sep) == Seq::<char>::empty(),
        seq_join(seq![x], sep) == x,
{
}

/// Law: no line holds a line feed.
pub proof fn lemma_lines_have_no_newline(s: Seq<char>)
    ensures
        forall|i: int, j: int|
            0 <= i < lines_of(s).len() && 0 <= j < lines_of(s)[i].len() ==> lines_of(s)[i][j] != '\n',
    decreases s.len(),
{
    if s.len() > 0 {
        let k = newline_index(s);
        lemma_newline_index_bound(s);
        if k < s.len() {
            lemma_lines_have_no_newline(s.skip(k as int + 1));
            let first = strip_cr(s.take(k as int));
            assert forall|j: int| 0 <= j < first.len() implies first[j] != '\n' by {
                assert(first[j] == s[j]);
            }
            let rest = lines_of(s.skip(k as int + 1));
            assert forall|i: int, j: int|
                0 <= i < lines_of(s).len() && 0 <= j < lines_of(s)[i].len() implies lines_of(s)[i][j] != '\n' by {
                if i > 0 {
                    assert(lines_of(s)[i] == rest[i - 1]);
                }
            }
        }
    }
}

/// Law: a final line ending (`\n` or `\r\n`) adds no line: a non-empty text
/// that does not end in `\n` or `\r` has the same lines with one appended.
pub proof fn lemma_lines_final_line_ending(t: Seq<char>)
    requires
        t.len() > 0,
        t.last() != '\n',
        t.last() != '\r',
    ensures
        lines_of(t + seq!['\n']) == lines_of(t),
        lines_of(t + seq!['\r', '\n']) == lines_of(t),
    decreases t.len(),
{
    lemma_lines_ending(t, seq!['\n']);
    lemma_lines_ending(t, seq!['\r', '\n']);
}

proof fn lemma_lines_ending(t: Seq<char>, e: Seq<char>)
    requires
        t.len() > 0,
        t.last() != '\n',
        t.last() != '\r',
        e == seq!['\n'] || e == seq!['\r', '\n'],
    ensures
        lines_of(t + e) == lines_of(t),
    decreases t.len(),
{
    let s = t + e;
    let k = newline_index(t);
    lemma_newline_index_bound(t);
    if k < t.len() {
        assert forall|m: int| 0 <= m < k implies s[m] != '\n' by {
            assert(s[m] == t[m]);
        }
        assert(s[k as int] == t[k as int]);
        lemma_newline_index_is(s, k as int);
        assert(s.take(k as int) =~= t.take(k as int));
        let rest = t.skip(k as int + 1);
        assert(s.skip(k as int + 1) =~= rest + e);
        assert(rest.len() > 0) by {
            if rest.len() == 0 {
                assert(t.last() == t[k as int]);
            }
        }
        assert(rest.last() == t.last());
        lemma_lines_ending(rest, e);
        assert(lines_of(s) == seq![strip_cr(s.take(k as int))] + lines_of(s.skip(k as int + 1)));
        assert(lines_of(t) == seq![strip_cr(t.take(k as int))] + lines_of(rest));
    } else {
        let j = e.len() - 1 + t.len();
        assert forall|m: int| 0 <= m < j implies s[m] != '\n' by {
            if m < t.len() {
                assert(s[m] == t[m]);
            } else {
                assert(s[m] == e[m - t.len()]);
            }
        }
        assert(s[j] == '\n');
        lemma_newline_index_is(s, j);
        assert(s.skip(j + 1) =~= Seq::<char>::empty());
        if e.len() == 1 {
            assert(s.take(j) =~= t);
            assert(strip_cr(s.take(j)) == t);
        } else {
            assert(s.take(j) =~= t.push('\r'));
            assert(t.push('\r').drop_last() =~= t);
            assert(strip_cr(s.take(j)) == t);
        }
        assert(lines_of(s) == seq![strip_cr(s.take(j))] + lines_of(s.skip(j + 1)));
        assert(lines_of(s.skip(j + 1)) == Seq::<Seq<char>>::empty());
        assert(lines_of(t) == seq![t]);
        assert(lines_of(s) =~= seq![t]);
    }
}

/// A line feed where `s` ends with one, else nothing.
pub open spec fn final_newline(s: Seq<char>) -> Seq<char> {
    if s.len() > 0 && s.last() == '\n' {
        seq!['\n']
    } else {
        Seq::<char>::empty()
    }
}

pub(crate) proof fn lemma_join_front(x: Seq<char>, rest: Seq<Seq<char>>, sep: Seq<char>)
    requires
        rest.len() > 0,
    ensures
        seq_join(seq![x] + rest, sep) == x + sep + seq_join(rest, sep),
    decreases rest.len(),
{
    let l = seq![x] + rest;
    if rest.len() == 1 {
        assert(l.drop_last() =~= seq![x]);
        assert(l.last() == rest[0]);
        assert(seq_join(l, sep) == seq_join(l.drop_last(), sep) + sep + l.last());
        assert(seq_join(rest, sep) == rest[0]);
        assert(seq_join(l, sep) =~= x + sep + seq_join(rest, sep));
    } else {
        assert(l.drop_last() =~= seq![x] + rest.drop_last());
        assert(l.last() == rest.last());
        lemma_join_front(x, rest.drop_last(), sep);
        assert(seq_join(l, sep) == seq_join(l.drop_last(), sep) + sep + l.last());
        assert(seq_join(rest, sep) == seq_join(rest.drop_last(), sep) + sep + rest.last());
        assert(seq_join(l, sep) =~= x + sep + seq_join(rest, sep));
    }
}

/// Law: a text without carriage returns is its lines joined by line feeds,
/// with its final line feed, if it has one, put back.
pub proof fn lemma_lines_round_trip(s: Seq<char>)
    requires
        !s.contains('\r'),
    ensures
        seq_join(lines_of(s), seq!['\n']) + final_newline(s) == s,
    decreases s.len(),
{
    if s.len() == 0 {
        assert(seq_join(lines_of(s), seq!['\n']) + final_newline(s) =~= s);
    } else {
        let k = newline_index(s);
        lemma_newline_index_bound(s);
        if k >= s.len() {
            assert(lines_of(s) == seq![s]);
            assert(s[s.len() - 1] != '\n');
            assert(seq_join(lines_of(s), seq!['\n']) + final_newline(s) =~= s);
        } else {
            let first = s.take(k as int);
            let rest = s.skip(k as int + 1);
            assert(strip_cr(first) == first) by {
                if first.len() > 0 {
                    assert(first.last() == s[k - 1]);
                    assert(s.contains(s[k - 1]));
                }
            }
            assert(lines_of(s) == seq![first] + lines_of(rest));
            if rest.len() == 0 {
                assert(lines_of(rest) == Seq::<Seq<char>>::empty());
                assert(seq![first] + lines_of(rest) =~= seq![first]);
                assert(k == s.len() - 1);
                assert(s =~= first + seq!['\n']);
                assert(seq_join(lines_of(s), seq!['\n']) + final_newline(s) =~= s);
            } else {
                assert(!rest.contains('\r')) by {
                    if rest.contains('\r') {
                        let j = choose|j: int| 0 <= j < rest.len() && rest[j] == '\r';
                        assert(s[k + 1 + j] == '\r');
                    }
                }
                lemma_lines_round_trip(rest);
                assert(lines_of(rest).len() > 0) by {
                    let kr = newline_index(rest);
                    if kr >= rest.len() {
                        assert(lines_of(rest) == seq![rest]);
                    } else {
                        assert(lines_of(rest) == seq![strip_cr(rest.take(kr as int))] + lines_of(
                            rest.skip(kr as int + 1),
                        ));
                    }
                }
                lemma_join_front(first, lines_of(rest), seq!['\n']);
                assert(final_newline(s) == final_newline(rest)) by {
                    assert(rest.last() == s.last());
                }
                assert(s =~= first + seq!['\n'] + rest);
                assert(seq_join(lines_of(s), seq!['\n']) + final_newline(s) =~= first + seq!['\n'] + (seq_join(
                    lines_of(rest),
                    seq!['\n'],
                ) + final_newline(rest)));
            }
        }
    }
}

/// Whether `needle` occurs in `hay` at position `i`.
fn matches_at(hay: &Vec<char>, i: usize, needle: &Vec<char>) -> (r: bool)
    requires
        i + needle.len() <= hay.len(),
    ensures
        r == (hay@.subrange(i as int, i + needle.len()) == needle@),
{
    let n = needle.len();
    let mut j: usize = 0;
    while j < n
        invariant
            j <= n,
            n == needle.len(),
            i + n <= hay.len(),
            forall|k: int| 0 <= k < j ==> hay@[i + k] == needle@[k],
        decreases n - j,
    {
        if hay[i + j] != needle[j] {
            assert(hay@.subrange(i as int, i + n)[j as int] != needle@[j as int]);
            return false;
        }
        j = j + 1;
    }
    assert(hay@.subrange(i as int, i + n) =~= needle@);
    true
}

/// Whether `needle` occurs in the part `lo..hi` of `hay`.
pub fn contains_in_range(hay: &Vec<char>, lo: usize, hi: usize, needle: &Vec<char>) -> (r: bool)
    requires
        lo <= hi <= hay.len(),
    ensures
        r == contains_seq(hay@.subrange(lo as int, hi as int), needle@),
{
    let n = needle.len();
    let ghost part = hay@.subrange(lo as int, hi as int);
    if n > hi - lo {
        assert forall|p: int| !occurs_at(part, needle@, p) by {}
        return false;
    }
    if n == 0 {
        assert(part.subrange(0, 0) =~= needle@);
        assert(occurs_at(part, needle@, 0));
        return true;
    }
    let last = hi - n;
    let mut i = lo;
    while i <= last
        invariant
            lo <= i <= last + 1,
            last + n == hi,
            hi <= hay.len(),
            n == needle.len(),
            n >= 1,
            part == hay@.subrange(lo as int, hi as int),
            forall|p: int| 0 <= p < i - lo ==> !occurs_at(part, needle@, p),
        decreases last + 1 - i,
    {
        if matches_at(hay, i, needle) {
            assert(part.subrange(i - lo, i - lo + n) =~= hay@.subrange(i as int, i + n));
            assert(occurs_at(part, needle@, i - lo));
            return true;
        }
        assert(part.subrange(i - lo, i - lo + n) =~= hay@.subrange(i as int, i + n));
        i = i + 1;
    }
    assert forall|p: int| !occurs_at(part, needle@, p) by {
        if 0 <= p && p + n <= part.len() {
            assert(p < i - lo);
        }
    }
    false
}

/// The characters of `s`, in order.
pub fn chars_of(s: &str) -> (v: Vec<char>)
    ensures
        v@ == s@,
{
    let mut v: Vec<char> = Vec::new();
    for c in it: s.chars()
        invariant
            v@ == it.seq().take(it.index()),
            it.seq() == s@,
    {
        v.push(c);
    }
    v
}

/// Whether `a` and `b` hold the same characters.
pub fn str_eq(a: &str, b: &str) -> (r: bool)
    ensures
        r == (a@ == b@),
{
    let x = chars_of(a);
    let y = chars_of(b);
    if x.len() != y.len() {
        return false;
    }
    let mut i: usize = 0;
    while i < x.len()
        invariant
            i <= x@.len(),
            x@.len() == y@.len(),
            x@ == a@,
            y@ == b@,
            forall|k: int| 0 <= k < i ==> x@[k] == y@[k],
        decreases x@.len() - i,
    {
        if x[i] != y[i] {
            assert(x@[i as int] != y@[i as int]);
            return false;
        }
        i = i + 1;
    }
    assert(x@ =~= y@);
    true
}

/// Whether `b` occurs in `a`.
pub fn is_contain(a: &str, b: &str) -> (r: bool)
    ensures
        r == contains_seq(a@, b@),
{
    let hay = chars_of(a);
    let needle = chars_of(b);
    let r = contains_in_range(&hay, 0, hay.len(), &needle);
    assert(hay@.subrange(0, hay@.len() as int) =~= a@);
    r
}

/// `String::push`: appends `c` to `s`.
#[verifier::external_body]
pub(crate) fn push_char(s: &mut String, c: char)
    ensures
        final(s)@ == old(s)@.push(c),
{
    s.push(c);
}

/// A string holding the characters `lo..hi` of `chars`.
pub fn string_from_range(chars: &Vec<char>, lo: usize, hi: usize) -> (r: String)
    requires
        lo <= hi <= chars.len(),
    ensures
        r@ == chars@.subrange(lo as int, hi as int),
{
    let mut r = String::new();
    let mut k = lo;
    while k < hi
        invariant
            lo <= k <= hi,
            hi <= chars.len(),
            r@ == chars@.subrange(lo as int, k as int),
        decreases hi - k,
    {
        push_char(&mut r, chars[k]);
        assert(chars@.subrange(lo as int, k + 1) =~= chars@.subrange(lo as int, k as int).push(chars@[k as int]));
        k = k + 1;
    }
    r
}

/// The bounds of the lines of `chars` (see `lines_of`), in order.
pub fn line_ranges(chars: &Vec<char>) -> (r: Vec<(usize, usize)>)
    ensures
        r@.len() == lines_of(chars@).len(),
        forall|i: int|
            0 <= i < r@.len() ==> {
                &&& (#[trigger] r@[i]).0 <= r@[i].1 <= chars@.len()
                &&& chars@.subrange(r@[i].0 as int, r@[i].1 as int) == lines_of(chars@)[i]
            },
{
    let len = chars.len();
    let mut r: Vec<(usize, usize)> = Vec::new();
    let ghost mut done: Seq<Seq<char>> = seq![];
    let mut start: usize = 0;
    let mut j: usize = 0;
    assert(chars@.skip(0) =~= chars@);
    assert(done + lines_of(chars@) =~= lines_of(chars@));
    while j < len
        invariant
            len == chars@.len(),
            start <= j <= len,
            forall|m: int| start <= m < j ==> chars@[m] != '\n',
            done.len() == r@.len(),
            lines_of(chars@) == done + lines_of(chars@.skip(start as int)),
            forall|i: int|
                0 <= i < r@.len() ==> {
                    &&& (#[trigger] r@[i]).0 <= r@[i].1 <= len
                    &&& chars@.subrange(r@[i].0 as int, r@[i].1 as int) == done[i]
                },
        decreases len - j,
    {
        if chars[j] == '\n' {
            let ghost t = chars@.skip(start as int);
            let ghost k = j - start;
            proof {
                assert forall|m: int| 0 <= m < k implies t[m] != '\n' by {
                    assert(t[m] == chars@[start + m]);
                }
                assert(t[k] == chars@[j as int]);
                lemma_newline_index_is(t, k);
                assert(t.skip(k + 1) =~= chars@.skip(j + 1));
            }
            let mut end = j;
            if end > start && chars[end - 1] == '\r' {
                end = end - 1;
            }
            proof {
                assert(t.take(k) =~= chars@.subrange(start as int, j as int));
                if j > start && chars@[j - 1] == '\r' {
                    assert(t.take(k).drop_last() =~= chars@.subrange(start as int, end as int));
                } else {
                    assert(t.take(k) =~= chars@.subrange(start as int, end as int));
                }
                assert(lines_of(t) == seq![strip_cr(t.take(k))] + lines_of(t.skip(k + 1)));
                assert(done.push(strip_cr(t.take(k))) + lines_of(chars@.skip(j + 1))
                    =~= done + (seq![strip_cr(t.take(k))] + lines_of(t.skip(k + 1))));
                done = done.push(strip_cr(t.take(k)));
            }
            r.push((start, end));
            start = j + 1;
        }
        j = j + 1;
    }
    let ghost t = chars@.skip(start as int);
    proof {
        assert forall|m: int| 0 <= m < t.len() implies t[m] != '\n' by {
            assert(t[m] == chars@[start + m]);
        }
        lemma_newline_index_is(t, t.len() as int);
    }
    if start < len {
        proof {
            assert(t =~= chars@.subrange(start as int, len as int));
            assert(lines_of(t) == seq![t]);
            assert(done.push(t) =~= done + lines_of(t));
            done = done.push(t);
        }
        r.push((start, len));
    } else {
        assert(done + lines_of(t) =~= done);
    }
    r
}

/// The lines of `s` (`str::lines`), each as an owned string.
pub fn lines_to_string_vec(s: &str) -> (r: Vec<String>)
    ensures
        r@.len() == lines_of(s@).len(),
        forall|i: int| 0 <= i < r@.len() ==> (#[trigger] r@[i])@ == lines_of(s@)[i],
{
    let chars = chars_of(s);
    let ranges = line_ranges(&chars);
    let mut r: Vec<String> = Vec::new();
    let mut i: usize = 0;
    while i < ranges.len()
        invariant
            i <= ranges@.len(),
            chars@ == s@,
            r@.len() == i,
            ranges@.len() == lines_of(chars@).len(),
            forall|q: int|
                0 <= q < ranges@.len() ==> {
                    &&& (#[trigger] ranges@[q]).0 <= ranges@[q].1 <= chars@.len()
                    &&& chars@.subrange(ranges@[q].0 as int, ranges@[q].1 as int) == lines_of(chars@)[q]
                },
            forall|q: int| 0 <= q < i ==> (#[trigger] r@[q])@ == lines_of(s@)[q],
        decreases ranges@.len() - i,
    {
        let (lo, hi) = ranges[i];
        let line = string_from_range(&chars, lo, hi);
        r.push(line);
        i = i + 1;
    }
    r
}

/// The strings of `v` with `s` between each two neighbours (`[T]::join`).
pub fn join_vec_string(v: Vec<&str>, s: &str) -> (r: String)
    ensures
        r@ == seq_join(v@.map_values(|x: &str| x@), s@),
{
    let ghost parts = v@.map_values(|x: &str| x@);
    let mut r = String::new();
    let mut i: usize = 0;
    while i < v.len()
        invariant
            i <= v@.len(),
            parts == v@.map_values(|x: &str| x@),
            r@ == seq_join(parts.take(i as int), s@),
        decreases v@.len() - i,
    {
        if i != 0 {
            r.append(s);
        }
        r.append(v[i]);
        proof {
            assert(parts.take(i + 1).drop_last() =~= parts.take(i as int));
            if i == 0 {
                assert(parts.take(1) =~= seq![parts[0]]);
            }
        }
        i = i + 1;
    }
    assert(parts.take(v@.len() as int) =~= parts);
    r
}

} // verus!
