//! Character-level text handling: splitting on a pattern, lines, joining.
use vstd::prelude::*;
use crate::hex::push_char;

verus! {

/// `pat` occurs in `s` at position `i`.
pub open spec fn matches_at(s: Seq<char>, pat: Seq<char>, i: int) -> bool {
    0 <= i && i + pat.len() <= s.len() && s.subrange(i, i + pat.len()) == pat
}

/// The first position `>= i` where `pat` occurs in `s`, or `-1`.
pub open spec fn find_from(s: Seq<char>, pat: Seq<char>, i: int) -> int
    decreases s.len() + 1 - i,
{
    if i < 0 || i + pat.len() > s.len() {
        -1
    } else if matches_at(s, pat, i) {
        i
    } else {
        find_from(s, pat, i + 1)
    }
}

/// `find_from` finds the first occurrence at or after `i`, if there is one.
pub proof fn lemma_find_from(s: Seq<char>, pat: Seq<char>, i: int)
    requires
        0 <= i,
    ensures
        find_from(s, pat, i) == -1 || (i <= find_from(s, pat, i) && matches_at(
            s,
            pat,
            find_from(s, pat, i),
        )),
        forall|j: int| i <= j && (find_from(s, pat, i) == -1 || j < find_from(s, pat, i))
            ==> !#[trigger] matches_at(s, pat, j),
    decreases s.len() + 1 - i,
{
    if i + pat.len() <= s.len() && !matches_at(s, pat, i) {
        lemma_find_from(s, pat, i + 1);
    }
}

/// The pieces of `s` between the non-overlapping occurrences of `pat`,
/// scanning left to right from position `pos`.
pub open spec fn split_from(s: Seq<char>, pat: Seq<char>, pos: int) -> Seq<Seq<char>>
    decreases s.len() - pos,
{
    if pat.len() == 0 || pos < 0 || pos > s.len() {
        seq![s.subrange(pos, s.len() as int)]
    } else {
        let k = find_from(s, pat, pos);
        if k < 0 {
            seq![s.subrange(pos, s.len() as int)]
        } else {
            proof {
                lemma_find_from(s, pat, pos);
            }
            seq![s.subrange(pos, k)] + split_from(s, pat, k + pat.len())
        }
    }
}

/// `s` split on the non-empty pattern `pat`, as `str::split` does.
pub open spec fn split_on(s: Seq<char>, pat: Seq<char>) -> Seq<Seq<char>> {
    split_from(s, pat, 0)
}

/// A split always has at least one piece.
pub proof fn lemma_split_nonempty(s: Seq<char>, pat: Seq<char>, pos: int)
    ensures
        split_from(s, pat, pos).len() >= 1,
{
}

/// A line with one trailing carriage return removed.
pub open spec fn strip_cr(l: Seq<char>) -> Seq<char> {
    if l.len() > 0 && l.last() == '\r' {
        l.drop_last()
    } else {
        l
    }
}

/// The lines of `s`, as `str::lines` gives them: split at `\n`, a final
/// `\n` ends the last line rather than starting an empty one, and a `\r`
/// right before a `\n` is removed.
pub open spec fn lines_of(s: Seq<char>) -> Seq<Seq<char>> {
    let parts = split_on(s, seq!['\n']);
    let ended = parts.drop_last().map_values(|l: Seq<char>| strip_cr(l));
    if s.len() == 0 {
        Seq::empty()
    } else if s.last() == '\n' {
        ended
    } else {
        ended.push(parts.last())
    }
}

/// The pieces joined with `sep` between consecutive ones, as `join` does.
pub open spec fn join(parts: Seq<Seq<char>>, sep: Seq<char>) -> Seq<char>
    decreases parts.len(),
{
    if parts.len() == 0 {
        Seq::empty()
    } else if parts.len() == 1 {
        parts[0]
    } else {
        join(parts.drop_last(), sep) + sep + parts.last()
    }
}

/// The characters of `s`.
pub fn chars_of(s: &str) -> (v: Vec<char>)
    ensures
        v@ == s@,
{
    let mut v: Vec<char> = Vec::new();
    for c in it: s.chars()
        invariant
            v@ == it.seq().take(it.index() as int),
    {
        v.push(c);
    }
    v
}

/// The string of the characters `v`.
pub fn string_of(v: &[char]) -> (s: String)
    ensures
        s@ == v@,
{
    let mut s = String::new();
    for i in 0..v.len()
        invariant
            s@ == v@.take(i as int),
    {
        push_char(&mut s, v[i]);
        assert(s@ =~= v@.take(i + 1));
    }
    assert(v@.take(v@.len() as int) =~= v@);
    s
}

/// Appends the characters `v` to `out`.
pub fn extend_chars(out: &mut Vec<char>, v: &[char])
    ensures
        final(out)@ == old(out)@ + v@,
{
    let ghost start = out@;
    for i in 0..v.len()
        invariant
            out@ == start + v@.take(i as int),
    {
        out.push(v[i]);
        assert(out@ =~= start + v@.take(i + 1));
    }
    assert(v@.take(v@.len() as int) =~= v@);
}

/// The characters `s[from..to]`.
pub fn slice_chars(s: &[char], from: usize, to: usize) -> (r: Vec<char>)
    requires
        from <= to <= s@.len(),
    ensures
        r@ == s@.subrange(from as int, to as int),
{
    let mut r: Vec<char> = Vec::new();
    for i in from..to
        invariant
            to <= s@.len(),
            r@ == s@.subrange(from as int, i as int),
    {
        r.push(s[i]);
        assert(r@ =~= s@.subrange(from as int, i + 1));
    }
    r
}

/// Whether two character sequences are equal.
pub fn chars_eq(a: &[char], b: &[char]) -> (r: bool)
    ensures
        r == (a@ == b@),
{
    if a.len() != b.len() {
        return false;
    }
    for i in 0..a.len()
        invariant
            a@.len() == b@.len(),
            forall|j: int| 0 <= j < i ==> a@[j] == b@[j],
    {
        if a[i] != b[i] {
            return false;
        }
    }
    assert(a@ =~= b@);
    true
}

/// Whether `pat` occurs in `s` at position `i`.
pub fn matches_at_exec(s: &[char], pat: &[char], i: usize) -> (r: bool)
    ensures
        r == matches_at(s@, pat@, i as int),
{
    let slen = s.len();
    if pat.len() > slen || i > slen - pat.len() {
        return false;
    }
    for j in 0..pat.len()
        invariant
            slen == s@.len(),
            i + pat@.len() <= slen,
            forall|l: int| 0 <= l < j ==> s@[i + l] == pat@[l],
    {
        if s[i + j] != pat[j] {
            assert(s@.subrange(i as int, i + pat@.len())[j as int] != pat@[j as int]);
            return false;
        }
    }
    assert(s@.subrange(i as int, i + pat@.len()) =~= pat@);
    true
}

/// The first position at or after `from` where `pat` occurs in `s`.
pub fn find_from_exec(s: &[char], pat: &[char], from: usize) -> (r: Option<usize>)
    ensures
        match r {
            Some(k) => find_from(s@, pat@, from as int) == k as int,
            None => find_from(s@, pat@, from as int) == -1,
        },
{
    if pat.len() > s.len() || from > s.len() - pat.len() {
        return None;
    }
    let last = s.len() - pat.len();
    let mut i = from;
    loop
        invariant
            from <= i <= last,
            last == s@.len() - pat@.len(),
            find_from(s@, pat@, from as int) == find_from(s@, pat@, i as int),
        decreases last - i,
    {
        if matches_at_exec(s, pat, i) {
            return Some(i);
        }
        if i == last {
            assert(find_from(s@, pat@, i + 1) == -1);
            return None;
        }
        i += 1;
    }
}

/// `s` split on the non-empty pattern `pat`.
pub fn split_chars(s: &[char], pat: &[char]) -> (parts: Vec<Vec<char>>)
    requires
        pat@.len() > 0,
    ensures
        parts@.len() == split_on(s@, pat@).len(),
        forall|i: int| 0 <= i < parts@.len() ==> #[trigger] parts@[i]@ == split_on(s@, pat@)[i],
{
    let mut parts: Vec<Vec<char>> = Vec::new();
    let mut pos: usize = 0;
    let slen = s.len();
    let ghost mut done: Seq<Seq<char>> = Seq::empty();
    loop
        invariant
            slen == s@.len(),
            pat@.len() > 0,
            pos <= s@.len(),
            done + split_from(s@, pat@, pos as int) == split_on(s@, pat@),
            parts@.len() == done.len(),
            forall|i: int| 0 <= i < parts@.len() ==> #[trigger] parts@[i]@ == done[i],
        decreases s@.len() - pos,
    {
        match find_from_exec(s, pat, pos) {
            None => {
                let piece = slice_chars(s, pos, slen);
                proof {
                    done = done.push(piece@);
                    assert(split_from(s@, pat@, pos as int) == seq![piece@]);
                    assert(done =~= split_on(s@, pat@));
                }
                parts.push(piece);
                return parts;
            },
            Some(k) => {
                proof {
                    lemma_find_from(s@, pat@, pos as int);
                }
                let piece = slice_chars(s, pos, k);
                proof {
                    let ghost old_done = done;
                    done = done.push(piece@);
                    assert(split_from(s@, pat@, pos as int) == seq![piece@] + split_from(
                        s@,
                        pat@,
                        k + pat@.len(),
                    ));
                    assert(old_done + (seq![piece@] + split_from(s@, pat@, k + pat@.len())) =~= done
                        + split_from(s@, pat@, k + pat@.len()));
                }
                parts.push(piece);
                pos = k + pat.len();
            },
        }
    }
}

/// The lines of `s`, as `str::lines` gives them.
pub fn lines_chars(s: &[char]) -> (lines: Vec<Vec<char>>)
    ensures
        lines@.len() == lines_of(s@).len(),
        forall|i: int| 0 <= i < lines@.len() ==> #[trigger] lines@[i]@ == lines_of(s@)[i],
{
    let mut lines: Vec<Vec<char>> = Vec::new();
    if s.len() == 0 {
        return lines;
    }
    let nl = ['\n'];
    let parts = split_chars(s, &nl);
    let ghost pv = split_on(s@, seq!['\n']);
    assert(nl@ =~= seq!['\n']);
    proof {
        lemma_split_nonempty(s@, seq!['\n'], 0);
    }
    let n = parts.len();
    for i in 0..n - 1
        invariant
            n == parts@.len(),
            n == pv.len(),
            n >= 1,
            forall|j: int| 0 <= j < n ==> #[trigger] parts@[j]@ == pv[j],
            lines@.len() == i,
            forall|j: int| 0 <= j < i ==> #[trigger] lines@[j]@ == strip_cr(pv[j]),
    {
        let part = &parts[i];
        let len = part.len();
        if len > 0 && part[len - 1] == '\r' {
            lines.push(slice_chars(part.as_slice(), 0, len - 1));
            assert(part@.drop_last() =~= part@.subrange(0, len - 1));
        } else {
            lines.push(slice_chars(part.as_slice(), 0, len));
            assert(part@ =~= part@.subrange(0, len as int));
        }
    }
    if s[s.len() - 1] != '\n' {
        let last = slice_chars(parts[n - 1].as_slice(), 0, parts[n - 1].len());
        assert(parts@[n - 1]@ =~= parts@[n - 1]@.subrange(0, parts@[n - 1]@.len() as int));
        lines.push(last);
    }
    lines
}

/// The pieces joined with `sep` between consecutive ones.
pub fn join_chars(parts: &Vec<Vec<char>>, sep: &[char]) -> (r: Vec<char>)
    ensures
        r@ == join(parts@.map_values(|p: Vec<char>| p@), sep@),
{
    let ghost pv = parts@.map_values(|p: Vec<char>| p@);
    let mut r: Vec<char> = Vec::new();
    for i in 0..parts.len()
        invariant
            pv == parts@.map_values(|p: Vec<char>| p@),
            r@ == join(pv.take(i as int), sep@),
    {
        if i > 0 {
            extend_chars(&mut r, sep);
        }
        extend_chars(&mut r, parts[i].as_slice());
        proof {
            let t = pv.take(i + 1);
            assert(t.drop_last() =~= pv.take(i as int));
            if i == 0 {
                assert(t.len() == 1);
            }
        }
    }
    assert(pv.take(parts@.len() as int) =~= pv);
    r
}

/// If `pat` first occurs at or after `i` at position `k`, `find_from` finds `k`.
pub proof fn lemma_find_from_at(s: Seq<char>, pat: Seq<char>, i: int, k: int)
    requires
        0 <= i <= k,
        matches_at(s, pat, k),
        forall|j: int| i <= j < k ==> !#[trigger] matches_at(s, pat, j),
    ensures
        find_from(s, pat, i) == k,
    decreases k - i,
{
    if i < k {
        lemma_find_from_at(s, pat, i + 1, k);
    }
}

/// If `pat` does not occur at or after `i`, `find_from` finds nothing.
pub proof fn lemma_find_from_none(s: Seq<char>, pat: Seq<char>, i: int)
    requires
        0 <= i,
        forall|j: int| i <= j ==> !#[trigger] matches_at(s, pat, j),
    ensures
        find_from(s, pat, i) == -1,
    decreases s.len() + 1 - i,
{
    if i + pat.len() <= s.len() {
        assert(!matches_at(s, pat, i));
        lemma_find_from_none(s, pat, i + 1);
    }
}

} // verus!
