//! Character-level text operations: the model (spec functions over
//! `Seq<char>`) and verified executable versions over character slices.

use vstd::prelude::*;

verus! {

// ---------------------------------------------------------------------------
// Conversions between `str`/`String` and character vectors
// ---------------------------------------------------------------------------

/// Trusted, not proved: std's `String::push` appends the character `ch` to
/// the end of `s` and changes nothing else (as its documentation states).
pub assume_specification[ String::push ](s: &mut String, ch: char)
    ensures
        final(s)@ == old(s)@.push(ch),
;

/// The characters of `s`, in order.
pub fn chars_of(s: &str) -> (res: Vec<char>)
    ensures
        res@ == s@,
{
    let mut res: Vec<char> = Vec::new();
    for c in it: s.chars()
        invariant
            res@ == it.seq().take(it.index() as int),
            it.seq() == s@,
    {
        res.push(c);
    }
    res
}

/// A `String` holding exactly the characters of `v`.
pub fn string_from(v: &[char]) -> (res: String)
    ensures
        res@ == v@,
{
    let mut res = String::new();
    push_chars(&mut res, v);
    res
}

/// Appends the characters of `v` to `out`.
pub fn push_chars(out: &mut String, v: &[char])
    ensures
        final(out)@ == old(out)@ + v@,
{
    let n = v.len();
    for i in 0..n
        invariant
            n == v@.len(),
            out@ == old(out)@ + v@.take(i as int),
    {
        out.push(v[i]);
        assert(v@.take(i + 1) == v@.take(i as int).push(v@[i as int]));
    }
    assert(v@.take(n as int) == v@);
}

/// Appends the characters of `v` to the vector `out`.
pub fn extend_chars(out: &mut Vec<char>, v: &[char])
    ensures
        final(out)@ == old(out)@ + v@,
{
    let n = v.len();
    for i in 0..n
        invariant
            n == v@.len(),
            out@ == old(out)@ + v@.take(i as int),
    {
        out.push(v[i]);
        assert(v@.take(i + 1) == v@.take(i as int).push(v@[i as int]));
    }
    assert(v@.take(n as int) == v@);
}

/// A copy of `s[lo..hi]`.
pub fn slice_copy(s: &[char], lo: usize, hi: usize) -> (res: Vec<char>)
    requires
        lo <= hi <= s@.len(),
    ensures
        res@ == s@.subrange(lo as int, hi as int),
{
    let mut res: Vec<char> = Vec::new();
    let mut i = lo;
    while i < hi
        invariant
            lo <= i <= hi <= s@.len(),
            res@ == s@.subrange(lo as int, i as int),
        decreases hi - i,
    {
        res.push(s[i]);
        assert(s@.subrange(lo as int, i + 1) == s@.subrange(lo as int, i as int).push(s@[i as int]));
        i = i + 1;
    }
    res
}

/// Whether two character sequences are equal.
pub fn same(a: &[char], b: &[char]) -> (res: bool)
    ensures
        res == (a@ == b@),
{
    if a.len() != b.len() {
        return false;
    }
    let n = a.len();
    for i in 0..n
        invariant
            n == a@.len() == b@.len(),
            forall|j: int| 0 <= j < i ==> a@[j] == b@[j],
    {
        if a[i] != b[i] {
            return false;
        }
    }
    assert(a@ =~= b@);
    true
}

// ---------------------------------------------------------------------------
// Whitespace and trimming
// ---------------------------------------------------------------------------

/// The Unicode `White_Space` property, which `char::is_whitespace` tests.
pub open spec fn is_space(c: char) -> bool {
    let x = c as u32;
    ||| 0x09 <= x <= 0x0d
    ||| x == 0x20
    ||| x == 0x85
    ||| x == 0xa0
    ||| x == 0x1680
    ||| 0x2000 <= x <= 0x200a
    ||| x == 0x2028
    ||| x == 0x2029
    ||| x == 0x202f
    ||| x == 0x205f
    ||| x == 0x3000
}

/// `s` without its leading whitespace.
pub open spec fn trim_start(s: Seq<char>) -> Seq<char>
    decreases s.len(),
{
    if s.len() > 0 && is_space(s[0]) {
        trim_start(s.drop_first())
    } else {
        s
    }
}

/// `s` without its trailing whitespace.
pub open spec fn trim_end(s: Seq<char>) -> Seq<char>
    decreases s.len(),
{
    if s.len() > 0 && is_space(s.last()) {
        trim_end(s.drop_last())
    } else {
        s
    }
}

/// `s` without leading and trailing whitespace (`str::trim`).
pub open spec fn trim(s: Seq<char>) -> Seq<char> {
    trim_end(trim_start(s))
}

/// `s` without any leading run of the character `c` (`str::trim_start_matches`
/// with a one-character pattern).
pub open spec fn trim_start_char(s: Seq<char>, c: char) -> Seq<char>
    decreases s.len(),
{
    if s.len() > 0 && s[0] == c {
        trim_start_char(s.drop_first(), c)
    } else {
        s
    }
}

pub fn is_space_char(c: char) -> (res: bool)
    ensures
        res == is_space(c),
{
    let x = c as u32;
    (0x09 <= x && x <= 0x0d) || x == 0x20 || x == 0x85 || x == 0xa0 || x == 0x1680 || (0x2000
        <= x && x <= 0x200a) || x == 0x2028 || x == 0x2029 || x == 0x202f || x == 0x205f || x
        == 0x3000
}

proof fn lemma_skip_drop_first(s: Seq<char>, i: int)
    requires
        0 <= i < s.len(),
    ensures
        s.skip(i).drop_first() == s.skip(i + 1),
        s.skip(i).len() > 0,
        s.skip(i)[0] == s[i],
{
    assert(s.skip(i).drop_first() =~= s.skip(i + 1));
}

proof fn lemma_take_drop_last(s: Seq<char>, j: int)
    requires
        0 < j <= s.len(),
    ensures
        s.take(j).drop_last() == s.take(j - 1),
        s.take(j).len() > 0,
        s.take(j).last() == s[j - 1],
{
    assert(s.take(j).drop_last() =~= s.take(j - 1));
}

/// `trim(s)` as a copy.
pub fn trim_vec(s: &[char]) -> (res: Vec<char>)
    ensures
        res@ == trim(s@),
{
    let n = s.len();
    let mut i: usize = 0;
    assert(s@.skip(0) =~= s@);
    while i < n && is_space_char(s[i])
        invariant
            n == s@.len(),
            i <= n,
            trim_start(s@) == trim_start(s@.skip(i as int)),
        decreases n - i,
    {
        proof {
            lemma_skip_drop_first(s@, i as int);
        }
        i = i + 1;
    }
    assert(trim_start(s@) == s@.skip(i as int));
    let ghost t = s@.skip(i as int);
    let mut j: usize = n;
    assert(t.take(n - i) =~= t);
    while j > i && is_space_char(s[j - 1])
        invariant
            n == s@.len(),
            i <= j <= n,
            t == s@.skip(i as int),
            trim_end(t) == trim_end(t.take(j - i)),
        decreases j,
    {
        proof {
            lemma_take_drop_last(t, j - i);
        }
        j = j - 1;
    }
    assert(t.take(j - i) =~= s@.subrange(i as int, j as int));
    slice_copy(s, i, j)
}

/// `trim_start_char(s, c)` as a copy.
pub fn trim_start_char_vec(s: &[char], c: char) -> (res: Vec<char>)
    ensures
        res@ == trim_start_char(s@, c),
{
    let n = s.len();
    let mut i: usize = 0;
    assert(s@.skip(0) =~= s@);
    while i < n && s[i] == c
        invariant
            n == s@.len(),
            i <= n,
            trim_start_char(s@, c) == trim_start_char(s@.skip(i as int), c),
        decreases n - i,
    {
        proof {
            lemma_skip_drop_first(s@, i as int);
        }
        i = i + 1;
    }
    assert(s@.skip(i as int) =~= s@.subrange(i as int, n as int));
    slice_copy(s, i, n)
}

// ---------------------------------------------------------------------------
// Prefixes, suffixes and searching
// ---------------------------------------------------------------------------

/// `s` begins with `p` (`str::starts_with`).
pub open spec fn starts_with(s: Seq<char>, p: Seq<char>) -> bool {
    p.len() <= s.len() && s.take(p.len() as int) == p
}

/// `s` ends with `p` (`str::ends_with`).
pub open spec fn ends_with(s: Seq<char>, p: Seq<char>) -> bool {
    p.len() <= s.len() && s.skip(s.len() - p.len()) == p
}

/// `p` occurs in `s` starting at position `i`.
pub open spec fn matches_at(s: Seq<char>, p: Seq<char>, i: int) -> bool {
    0 <= i && i + p.len() <= s.len() && s.subrange(i, i + p.len()) == p
}

/// The first position at or after `i` where `p` occurs in `s`.
pub open spec fn find_from(s: Seq<char>, p: Seq<char>, i: int) -> Option<int>
    decreases s.len() + 1 - i,
{
    if i < 0 || i + p.len() > s.len() {
        None
    } else if matches_at(s, p, i) {
        Some(i)
    } else {
        find_from(s, p, i + 1)
    }
}

/// The first position where `p` occurs in `s` (`str::find`).
pub open spec fn find(s: Seq<char>, p: Seq<char>) -> Option<int> {
    find_from(s, p, 0)
}

/// The last position below `i` where `p` occurs in `s`.
pub open spec fn rfind_below(s: Seq<char>, p: Seq<char>, i: int) -> Option<int>
    decreases i,
{
    if i <= 0 {
        None
    } else if matches_at(s, p, i - 1) {
        Some(i - 1)
    } else {
        rfind_below(s, p, i - 1)
    }
}

/// The last position where `p` occurs in `s` (`str::rfind`).
pub open spec fn rfind(s: Seq<char>, p: Seq<char>) -> Option<int> {
    rfind_below(s, p, s.len() + 1int)
}

/// `p` occurs in `s` (`str::contains`).
pub open spec fn contains(s: Seq<char>, p: Seq<char>) -> bool {
    find(s, p) is Some
}

/// The parts of `s` before and after the first `p` (`str::split_once`).
pub open spec fn split_once(s: Seq<char>, p: Seq<char>) -> Option<(Seq<char>, Seq<char>)> {
    match find(s, p) {
        Some(i) => Some((s.take(i), s.skip(i + p.len()))),
        None => None,
    }
}

/// The parts of `s` before and after the last `p` (`str::rsplit_once`).
pub open spec fn rsplit_once(s: Seq<char>, p: Seq<char>) -> Option<(Seq<char>, Seq<char>)> {
    match rfind(s, p) {
        Some(i) => Some((s.take(i), s.skip(i + p.len()))),
        None => None,
    }
}

/// Whether `p` occurs in `s` at position `i`.
pub fn matches_at_pos(s: &[char], p: &[char], i: usize) -> (res: bool)
    ensures
        res == matches_at(s@, p@, i as int),
{
    if i > s.len() || p.len() > s.len() - i {
        return false;
    }
    let m = p.len();
    let n = s.len();
    for k in 0..m
        invariant
            m == p@.len(),
            n == s@.len(),
            i + m <= n,
            forall|j: int| 0 <= j < k ==> s@[i + j] == p@[j],
    {
        if s[i + k] != p[k] {
            assert(s@.subrange(i as int, i + m)[k as int] != p@[k as int]);
            return false;
        }
    }
    assert(s@.subrange(i as int, i + m) =~= p@);
    true
}

/// `starts_with(s, p)`.
pub fn has_prefix(s: &[char], p: &[char]) -> (res: bool)
    ensures
        res == starts_with(s@, p@),
{
    let r = matches_at_pos(s, p, 0);
    assert(s@.subrange(0, p@.len() as int) == s@.take(p@.len() as int));
    r
}

/// `ends_with(s, p)`.
pub fn has_suffix(s: &[char], p: &[char]) -> (res: bool)
    ensures
        res == ends_with(s@, p@),
{
    if p.len() > s.len() {
        return false;
    }
    let i = s.len() - p.len();
    let r = matches_at_pos(s, p, i);
    assert(s@.subrange(i as int, s@.len() as int) == s@.skip(i as int));
    r
}

/// `find(s, p)`.
pub fn find_pos(s: &[char], p: &[char]) -> (res: Option<usize>)
    ensures
        match res {
            Some(i) => find(s@, p@) == Some(i as int),
            None => find(s@, p@) is None,
        },
{
    let n = s.len();
    let m = p.len();
    if m > n {
        return None;
    }
    if m == 0 {
        assert(s@.subrange(0, 0) =~= p@);
        return Some(0);
    }
    let mut i: usize = 0;
    while i <= n - m
        invariant
            n == s@.len(),
            m == p@.len(),
            0 < m <= n,
            i <= n - m + 1,
            find(s@, p@) == find_from(s@, p@, i as int),
        decreases n - m + 1 - i,
    {
        if matches_at_pos(s, p, i) {
            return Some(i);
        }
        i = i + 1;
    }
    None
}

/// `rfind(s, p)`.
pub fn rfind_pos(s: &[char], p: &[char]) -> (res: Option<usize>)
    ensures
        match res {
            Some(i) => rfind(s@, p@) == Some(i as int),
            None => rfind(s@, p@) is None,
        },
{
    let n = s.len();
    let m = p.len();
    if m > n {
        assert forall|i: int| 0 <= i <= n + 1 implies rfind_below(s@, p@, i) is None by {
            lemma_rfind_below_short(s@, p@, i);
        }
        return None;
    }
    if m == 0 {
        assert(s@.subrange(n as int, n as int) =~= p@);
        return Some(n);
    }
    let mut i: usize = n - m + 1;
    proof {
        lemma_rfind_below_skip(s@, p@, n + 1, i as int);
    }
    while i > 0
        invariant
            n == s@.len(),
            m == p@.len(),
            m <= n,
            i <= n - m + 1,
            rfind(s@, p@) == rfind_below(s@, p@, i as int),
        decreases i,
    {
        if matches_at_pos(s, p, i - 1) {
            return Some(i - 1);
        }
        i = i - 1;
    }
    None
}

proof fn lemma_rfind_below_short(s: Seq<char>, p: Seq<char>, i: int)
    requires
        p.len() > s.len(),
    ensures
        rfind_below(s, p, i) is None,
    decreases i,
{
    if i > 0 {
        lemma_rfind_below_short(s, p, i - 1);
    }
}

/// Positions at or above `j` can hold no occurrence of `p`.
proof fn lemma_rfind_below_skip(s: Seq<char>, p: Seq<char>, i: int, j: int)
    requires
        p.len() <= s.len(),
        j == s.len() - p.len() + 1,
        j <= i,
    ensures
        rfind_below(s, p, i) == rfind_below(s, p, j),
    decreases i - j,
{
    if i > j {
        lemma_rfind_below_skip(s, p, i - 1, j);
    }
}

/// `split_once(s, p)`, with the parts copied.
pub fn split_once_vec(s: &[char], p: &[char]) -> (res: Option<(Vec<char>, Vec<char>)>)
    ensures
        match res {
            Some((a, b)) => split_once(s@, p@) == Some((a@, b@)),
            None => split_once(s@, p@) is None,
        },
{
    match find_pos(s, p) {
        Some(i) => {
            proof {
                lemma_find_from_bounds(s@, p@, 0);
            }
            let n = s.len();
            let a = slice_copy(s, 0, i);
            let b = slice_copy(s, i + p.len(), n);
            assert(a@ == s@.take(i as int));
            assert(b@ == s@.skip(i + p@.len()));
            Some((a, b))
        },
        None => None,
    }
}

/// `rsplit_once(s, p)`, with the parts copied.
pub fn rsplit_once_vec(s: &[char], p: &[char]) -> (res: Option<(Vec<char>, Vec<char>)>)
    ensures
        match res {
            Some((a, b)) => rsplit_once(s@, p@) == Some((a@, b@)),
            None => rsplit_once(s@, p@) is None,
        },
{
    match rfind_pos(s, p) {
        Some(i) => {
            proof {
                lemma_rfind_below_bounds(s@, p@, s@.len() + 1int);
            }
            let n = s.len();
            let a = slice_copy(s, 0, i);
            let b = slice_copy(s, i + p.len(), n);
            assert(a@ == s@.take(i as int));
            assert(b@ == s@.skip(i + p@.len()));
            Some((a, b))
        },
        None => None,
    }
}

/// `contains(s, p)`.
pub fn contains_seq(s: &[char], p: &[char]) -> (res: bool)
    ensures
        res == contains(s@, p@),
{
    find_pos(s, p).is_some()
}

/// A position found by `find_from` is an occurrence.
pub proof fn lemma_find_from_bounds(s: Seq<char>, p: Seq<char>, i: int)
    ensures
        find_from(s, p, i) matches Some(k) ==> i <= k && matches_at(s, p, k),
    decreases s.len() + 1 - i,
{
    if !(i < 0 || i + p.len() > s.len()) && !matches_at(s, p, i) {
        lemma_find_from_bounds(s, p, i + 1);
    }
}

/// A position found by `rfind_below` is an occurrence.
pub proof fn lemma_rfind_below_bounds(s: Seq<char>, p: Seq<char>, i: int)
    ensures
        rfind_below(s, p, i) matches Some(k) ==> k < i && matches_at(s, p, k),
    decreases i,
{
    if i > 0 && !matches_at(s, p, i - 1) {
        lemma_rfind_below_bounds(s, p, i - 1);
    }
}

// ---------------------------------------------------------------------------
// Counting, replacing, repeating
// ---------------------------------------------------------------------------

/// How many times `c` occurs in `s`.
pub open spec fn count_char(s: Seq<char>, c: char) -> nat
    decreases s.len(),
{
    if s.len() == 0 {
        0
    } else {
        count_char(s.drop_last(), c) + if s.last() == c { 1nat } else { 0nat }
    }
}

/// `s` with every occurrence of `from` replaced by `to`, scanning from the
/// left without overlaps (`str::replace` with a non-empty pattern).
pub open spec fn replace(s: Seq<char>, from: Seq<char>, to: Seq<char>) -> Seq<char>
    decreases s.len(),
{
    if s.len() == 0 {
        s
    } else if from.len() > 0 && starts_with(s, from) {
        to + replace(s.skip(from.len() as int), from, to)
    } else {
        seq![s[0]] + replace(s.drop_first(), from, to)
    }
}

/// `n` copies of `c` (`str::repeat` on a one-character string).
pub open spec fn repeat_char(c: char, n: nat) -> Seq<char> {
    Seq::new(n, |i: int| c)
}

/// `count_char(s, c)`.
pub fn count_of(s: &[char], c: char) -> (res: usize)
    ensures
        res == count_char(s@, c),
        res <= s@.len(),
{
    let n = s.len();
    let mut k: usize = 0;
    for i in 0..n
        invariant
            n == s@.len(),
            k == count_char(s@.take(i as int), c),
            k <= i,
    {
        assert(s@.take(i + 1).drop_last() == s@.take(i as int));
        if s[i] == c {
            k = k + 1;
        }
    }
    assert(s@.take(n as int) == s@);
    k
}

/// `replace(s, from, to)`.
pub fn replace_vec(s: &[char], from: &[char], to: &[char]) -> (res: Vec<char>)
    requires
        from@.len() > 0,
    ensures
        res@ == replace(s@, from@, to@),
{
    let n = s.len();
    let mut out: Vec<char> = Vec::new();
    let mut i: usize = 0;
    assert(s@.skip(0) =~= s@);
    while i < n
        invariant
            n == s@.len(),
            from@.len() > 0,
            i <= n,
            replace(s@, from@, to@) == out@ + replace(s@.skip(i as int), from@, to@),
        decreases n - i,
    {
        let ghost rest = s@.skip(i as int);
        if matches_at_pos(s, from, i) {
            assert(rest.take(from@.len() as int) =~= s@.subrange(i as int, i + from@.len()));
            assert(rest.skip(from@.len() as int) =~= s@.skip(i + from@.len()));
            extend_chars(&mut out, to);
            i = i + from.len();
        } else {
            assert(!starts_with(rest, from@)) by {
                if starts_with(rest, from@) {
                    assert(rest.take(from@.len() as int) =~= s@.subrange(i as int, i + from@.len()));
                }
            }
            proof {
                lemma_skip_drop_first(s@, i as int);
            }
            out.push(s[i]);
            i = i + 1;
        }
        assert(replace(s@, from@, to@) == out@ + replace(s@.skip(i as int), from@, to@));
    }
    assert(s@.skip(n as int) =~= Seq::<char>::empty());
    out
}

/// `repeat_char(c, n)`.
pub fn repeat_vec(c: char, n: usize) -> (res: Vec<char>)
    ensures
        res@ == repeat_char(c, n as nat),
{
    let mut res: Vec<char> = Vec::new();
    for i in 0..n
        invariant
            res@ == repeat_char(c, i as nat),
    {
        res.push(c);
        assert(res@ =~= repeat_char(c, (i + 1) as nat));
    }
    res
}

// ---------------------------------------------------------------------------
// Lines
// ---------------------------------------------------------------------------

/// `s` without one trailing carriage return.
pub open spec fn strip_cr(s: Seq<char>) -> Seq<char> {
    if s.len() > 0 && s.last() == '\r' {
        s.drop_last()
    } else {
        s
    }
}

/// Splitting `s` at line feeds: the lines that a line feed has ended (each
/// without one trailing carriage return), and the text after the last line feed.
pub open spec fn line_split(s: Seq<char>) -> (Seq<Seq<char>>, Seq<char>)
    decreases s.len(),
{
    if s.len() == 0 {
        (Seq::empty(), Seq::empty())
    } else {
        let (done, cur) = line_split(s.drop_last());
        if s.last() == '\n' {
            (done.push(strip_cr(cur)), Seq::empty())
        } else {
            (done, cur.push(s.last()))
        }
    }
}

/// The lines of `s` (`str::lines`): the text is split at each line feed, a
/// carriage return just before a line feed is dropped, and a final empty line
/// after a trailing line feed is not a line.
pub open spec fn lines(s: Seq<char>) -> Seq<Seq<char>> {
    let (done, cur) = line_split(s);
    if cur.len() > 0 {
        done.push(cur)
    } else {
        done
    }
}

/// The character sequences held by a sequence of character vectors.
pub open spec fn seqs_of(v: Seq<Vec<char>>) -> Seq<Seq<char>> {
    Seq::new(v.len(), |i: int| v[i]@)
}

/// `lines(s)`, each line copied.
pub fn split_lines(s: &[char]) -> (res: Vec<Vec<char>>)
    ensures
        seqs_of(res@) == lines(s@),
{
    let n = s.len();
    let mut done: Vec<Vec<char>> = Vec::new();
    let mut cur: Vec<char> = Vec::new();
    for i in 0..n
        invariant
            n == s@.len(),
            (seqs_of(done@), cur@) == line_split(s@.take(i as int)),
    {
        assert(s@.take(i + 1).drop_last() == s@.take(i as int));
        let c = s[i];
        if c == '\n' {
            let k = cur.len();
            let ghost old_done = seqs_of(done@);
            if k > 0 && cur[k - 1] == '\r' {
                cur.pop();
            }
            done.push(cur);
            assert(seqs_of(done@) =~= old_done.push(cur@));
            cur = Vec::new();
        } else {
            cur.push(c);
        }
    }
    assert(s@.take(n as int) == s@);
    if cur.len() > 0 {
        let ghost old_done = seqs_of(done@);
        done.push(cur);
        assert(seqs_of(done@) =~= old_done.push(cur@));
    }
    done
}

// ---------------------------------------------------------------------------
// Decimal numerals
// ---------------------------------------------------------------------------

/// The decimal digit for `d < 10`.
pub open spec fn digit(d: nat) -> char {
    (d + 48) as char
}

/// The decimal numeral of `n`, without leading zeros (`usize::to_string`).
pub open spec fn decimal(n: nat) -> Seq<char>
    decreases n,
{
    if n < 10 {
        seq![digit(n)]
    } else {
        decimal(n / 10).push(digit(n % 10))
    }
}

/// Appends `decimal(n)` to `out`.
pub fn push_decimal(out: &mut Vec<char>, n: usize)
    ensures
        final(out)@ == old(out)@ + decimal(n as nat),
    decreases n,
{
    if n >= 10 {
        push_decimal(out, n / 10);
    }
    let d = (n % 10) as u8;
    let c = (48u8 + d) as char;
    assert(c == digit((n % 10) as nat));
    out.push(c);
    assert(out@ =~= old(out)@ + decimal(n as nat));
}

// ---------------------------------------------------------------------------
// Byte offsets
// ---------------------------------------------------------------------------

/// The number of bytes that UTF-8 takes for `c`.
pub open spec fn utf8_len(c: char) -> nat {
    let x = c as u32;
    if x < 0x80 {
        1
    } else if x < 0x800 {
        2
    } else if x < 0x10000 {
        3
    } else {
        4
    }
}

/// `s` without its first `k` bytes, or `None` when byte `k` is not the start
/// of a character or lies beyond the end (where `&s[k..]` panics).
pub open spec fn drop_front_bytes(s: Seq<char>, k: nat) -> Option<Seq<char>>
    decreases s.len(),
{
    if k == 0 {
        Some(s)
    } else if s.len() == 0 || utf8_len(s[0]) > k {
        None
    } else {
        drop_front_bytes(s.drop_first(), (k - utf8_len(s[0])) as nat)
    }
}

/// `s` without its last `k` bytes, or `None` when that cut is not at a
/// character boundary or lies before the start (where `&s[..len - k]` panics).
pub open spec fn drop_back_bytes(s: Seq<char>, k: nat) -> Option<Seq<char>>
    decreases s.len(),
{
    if k == 0 {
        Some(s)
    } else if s.len() == 0 || utf8_len(s.last()) > k {
        None
    } else {
        drop_back_bytes(s.drop_last(), (k - utf8_len(s.last())) as nat)
    }
}

pub fn utf8_len_of(c: char) -> (res: usize)
    ensures
        res == utf8_len(c),
{
    let x = c as u32;
    if x < 0x80 {
        1
    } else if x < 0x800 {
        2
    } else if x < 0x10000 {
        3
    } else {
        4
    }
}

/// `drop_front_bytes(s, k)`, as the number of characters dropped.
pub fn front_bytes_cut(s: &[char], k: usize) -> (res: Option<usize>)
    ensures
        match res {
            Some(i) => i <= s@.len() && drop_front_bytes(s@, k as nat) == Some(s@.skip(i as int)),
            None => drop_front_bytes(s@, k as nat) is None,
        },
{
    let n = s.len();
    let mut i: usize = 0;
    let mut rem: usize = k;
    assert(s@.skip(0) =~= s@);
    while rem > 0
        invariant
            n == s@.len(),
            i <= n,
            drop_front_bytes(s@, k as nat) == drop_front_bytes(s@.skip(i as int), rem as nat),
        decreases rem,
    {
        if i == n {
            return None;
        }
        let l = utf8_len_of(s[i]);
        proof {
            lemma_skip_drop_first(s@, i as int);
        }
        if l > rem {
            return None;
        }
        rem = rem - l;
        i = i + 1;
    }
    Some(i)
}

/// `drop_back_bytes(s, k)`, as the number of characters kept.
pub fn back_bytes_cut(s: &[char], k: usize) -> (res: Option<usize>)
    ensures
        match res {
            Some(j) => j <= s@.len() && drop_back_bytes(s@, k as nat) == Some(s@.take(j as int)),
            None => drop_back_bytes(s@, k as nat) is None,
        },
{
    let n = s.len();
    let mut j: usize = n;
    let mut rem: usize = k;
    assert(s@.take(n as int) =~= s@);
    while rem > 0
        invariant
            n == s@.len(),
            j <= n,
            drop_back_bytes(s@, k as nat) == drop_back_bytes(s@.take(j as int), rem as nat),
        decreases rem,
    {
        if j == 0 {
            return None;
        }
        let l = utf8_len_of(s[j - 1]);
        proof {
            lemma_take_drop_last(s@, j as int);
        }
        if l > rem {
            return None;
        }
        rem = rem - l;
        j = j - 1;
    }
    Some(j)
}

// ---------------------------------------------------------------------------
// Splitting at a character
// ---------------------------------------------------------------------------

/// Splitting `s` at each `c`: the pieces that a `c` has ended, and the text
/// after the last `c`.
pub open spec fn split_acc(s: Seq<char>, c: char) -> (Seq<Seq<char>>, Seq<char>)
    decreases s.len(),
{
    if s.len() == 0 {
        (Seq::empty(), Seq::empty())
    } else {
        let (done, cur) = split_acc(s.drop_last(), c);
        if s.last() == c {
            (done.push(cur), Seq::empty())
        } else {
            (done, cur.push(s.last()))
        }
    }
}

/// The pieces of `s` between occurrences of `c`, empty pieces included
/// (`str::split` with a one-character pattern).
pub open spec fn split_char(s: Seq<char>, c: char) -> Seq<Seq<char>> {
    let (done, cur) = split_acc(s, c);
    done.push(cur)
}

/// `split_char(s, c)`, each piece copied.
pub fn split_on(s: &[char], c: char) -> (res: Vec<Vec<char>>)
    ensures
        seqs_of(res@) == split_char(s@, c),
{
    let n = s.len();
    let mut done: Vec<Vec<char>> = Vec::new();
    let mut cur: Vec<char> = Vec::new();
    for i in 0..n
        invariant
            n == s@.len(),
            (seqs_of(done@), cur@) == split_acc(s@.take(i as int), c),
    {
        assert(s@.take(i + 1).drop_last() == s@.take(i as int));
        let x = s[i];
        if x == c {
            let ghost old_done = seqs_of(done@);
            done.push(cur);
            assert(seqs_of(done@) =~= old_done.push(cur@));
            cur = Vec::new();
        } else {
            cur.push(x);
        }
    }
    assert(s@.take(n as int) == s@);
    let ghost old_done = seqs_of(done@);
    done.push(cur);
    assert(seqs_of(done@) =~= old_done.push(cur@));
    done
}

// ---------------------------------------------------------------------------
// Laws
// ---------------------------------------------------------------------------

/// The number that a string of decimal digits denotes.
pub open spec fn digits_value(s: Seq<char>) -> int
    decreases s.len(),
{
    if s.len() == 0 {
        0
    } else {
        digits_value(s.drop_last()) * 10 + (s.last() as int - 48)
    }
}

/// A numeral is made of decimal digits and denotes the number it was made
/// from.
pub proof fn law_decimal_round_trip(n: nat)
    ensures
        forall|i: int| 0 <= i < decimal(n).len() ==> '0' <= #[trigger] decimal(n)[i] <= '9',
        digits_value(decimal(n)) == n,
    decreases n,
{
    if n >= 10 {
        law_decimal_round_trip(n / 10);
        let d = decimal(n / 10);
        let s = d.push(digit(n % 10));
        assert(s.drop_last() =~= d);
        assert(digit(n % 10) as int == n % 10 + 48);
        assert(n == (n / 10) * 10 + n % 10) by (nonlinear_arith);
        assert(s.last() == digit(n % 10));
        assert(digits_value(s) == digits_value(d) * 10 + (s.last() as int - 48));
        assert(decimal(n) == s);
        assert(digits_value(d) == n / 10);
        assert(digits_value(s) == (n / 10) * 10 + n % 10);
        assert forall|i: int| 0 <= i < s.len() implies '0' <= #[trigger] s[i] <= '9' by {
            if i < d.len() {
                assert(s[i] == d[i]);
            }
        }
    } else {
        assert(digit(n) as int == n + 48);
        assert(decimal(n).drop_last() =~= Seq::<char>::empty());
        assert(digits_value(decimal(n).drop_last()) == 0);
    }
}

// ---------------------------------------------------------------------------
// Facts about searching and trimming concrete shapes of text
// ---------------------------------------------------------------------------

proof fn lemma_find_from_char(a: Seq<char>, c: char, b: Seq<char>, i: int)
    requires
        0 <= i <= a.len(),
        forall|k: int| 0 <= k < a.len() ==> a[k] != c,
    ensures
        find_from(a + seq![c] + b, seq![c], i) == Some(a.len() as int),
    decreases a.len() - i,
{
    let s = a + seq![c] + b;
    if i < a.len() {
        assert(s.subrange(i, i + 1)[0] == s[i]);
        assert(!matches_at(s, seq![c], i));
        lemma_find_from_char(a, c, b, i + 1);
    } else {
        assert(s.subrange(i, i + 1) =~= seq![c]);
    }
}

/// The first `c` in `a + [c] + b`, where `a` holds no `c`, is right after `a`.
pub proof fn lemma_find_char(a: Seq<char>, c: char, b: Seq<char>)
    requires
        forall|k: int| 0 <= k < a.len() ==> a[k] != c,
    ensures
        find(a + seq![c] + b, seq![c]) == Some(a.len() as int),
        split_once(a + seq![c] + b, seq![c]) == Some((a, b)),
{
    lemma_find_from_char(a, c, b, 0);
    let s = a + seq![c] + b;
    assert(s.take(a.len() as int) =~= a);
    assert(s.skip(a.len() + 1int) =~= b);
}

proof fn lemma_rfind_below_char(a: Seq<char>, c: char, b: Seq<char>, i: int)
    requires
        a.len() + 1 <= i <= a.len() + 1 + b.len() + 1,
        forall|k: int| 0 <= k < b.len() ==> b[k] != c,
    ensures
        rfind_below(a + seq![c] + b, seq![c], i) == Some(a.len() as int),
    decreases i,
{
    let s = a + seq![c] + b;
    if i > a.len() + 1 {
        if i - 1 < s.len() {
            assert(s[i - 1] == b[i - 1 - a.len() - 1]);
            assert(s.subrange(i - 1, i)[0] == s[i - 1]);
        }
        assert(!matches_at(s, seq![c], i - 1));
        lemma_rfind_below_char(a, c, b, i - 1);
    } else {
        assert(s.subrange(a.len() as int, a.len() + 1int) =~= seq![c]);
    }
}

/// The last `c` in `a + [c] + b`, where `b` holds no `c`, is right after `a`.
pub proof fn lemma_rfind_char(a: Seq<char>, c: char, b: Seq<char>)
    requires
        forall|k: int| 0 <= k < b.len() ==> b[k] != c,
    ensures
        rfind(a + seq![c] + b, seq![c]) == Some(a.len() as int),
        rsplit_once(a + seq![c] + b, seq![c]) == Some((a, b)),
{
    let s = a + seq![c] + b;
    lemma_rfind_below_char(a, c, b, s.len() + 1int);
    assert(s.take(a.len() as int) =~= a);
    assert(s.skip(a.len() + 1int) =~= b);
}

/// A text without `c` holds no `c`.
pub proof fn lemma_count_absent(s: Seq<char>, c: char)
    requires
        forall|k: int| 0 <= k < s.len() ==> s[k] != c,
    ensures
        count_char(s, c) == 0,
    decreases s.len(),
{
    if s.len() > 0 {
        lemma_count_absent(s.drop_last(), c);
    }
}

/// Text that starts and ends with non-whitespace is its own trim.
pub proof fn lemma_trim_trimmed(s: Seq<char>)
    requires
        s.len() > 0,
        !is_space(s[0]),
        !is_space(s.last()),
    ensures
        trim(s) == s,
{
}

/// Text that does not start with `c` has no leading run of `c` to remove.
pub proof fn lemma_trim_start_char_none(s: Seq<char>, c: char)
    requires
        s.len() > 0,
        s[0] != c,
    ensures
        trim_start_char(s, c) == s,
{
}

} // verus!
