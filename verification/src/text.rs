//! Character-sequence helpers shared by the rest of the library.
use vstd::prelude::*;

verus! {

/// `String::push` appends one character.
pub assume_specification[ String::push ](s: &mut String, ch: char)
    ensures
        final(s)@ == old(s)@.push(ch),
;

/// The characters of a string slice, in order.
pub fn chars_of(s: &str) -> (v: Vec<char>)
    ensures
        v@ == s@,
{
    let mut v: Vec<char> = Vec::new();
    for c in it: s.chars()
        invariant
            v@ == it.seq().take(it.index() as int),
    {
        v.push(c);
    }
    v
}

/// A string made of the given characters.
pub fn string_of(v: &[char]) -> (s: String)
    ensures
        s@ == v@,
{
    let mut s = String::new();
    for i in 0..v.len()
        invariant
            s@ == v@.take(i as int),
    {
        s.push(v[i]);
        assert(v@.take(i + 1) =~= v@.take(i as int).push(v@[i as int]));
    }
    assert(v@.take(v.len() as int) =~= v@);
    s
}

} // verus!

verus! {

/// Unicode `White_Space` characters, the set that `str::trim` removes.
pub open spec fn is_ws(c: char) -> bool {
    ||| c == '\t' || c == '\n' || c == '\u{0B}' || c == '\u{0C}' || c == '\r' || c == ' '
    ||| c == '\u{85}' || c == '\u{A0}' || c == '\u{1680}'
    ||| ('\u{2000}' <= c && c <= '\u{200A}')
    ||| c == '\u{2028}' || c == '\u{2029}' || c == '\u{202F}' || c == '\u{205F}' || c == '\u{3000}'
}

pub fn is_whitespace(c: char) -> (b: bool)
    ensures
        b == is_ws(c),
{
    c == '\t' || c == '\n' || c == '\u{0B}' || c == '\u{0C}' || c == '\r' || c == ' '
        || c == '\u{85}' || c == '\u{A0}' || c == '\u{1680}'
        || ('\u{2000}' <= c && c <= '\u{200A}')
        || c == '\u{2028}' || c == '\u{2029}' || c == '\u{202F}' || c == '\u{205F}' || c == '\u{3000}'
}

/// `s` without its leading white space.
pub open spec fn trim_start(s: Seq<char>) -> Seq<char>
    decreases s.len(),
{
    if s.len() > 0 && is_ws(s[0]) {
        trim_start(s.drop_first())
    } else {
        s
    }
}

/// `s` without its trailing white space.
pub open spec fn trim_end(s: Seq<char>) -> Seq<char>
    decreases s.len(),
{
    if s.len() > 0 && is_ws(s.last()) {
        trim_end(s.drop_last())
    } else {
        s
    }
}

/// `s` without leading and trailing white space, as `str::trim` gives it.
pub open spec fn trim(s: Seq<char>) -> Seq<char> {
    trim_end(trim_start(s))
}

/// Whether `s` holds nothing but white space.
pub open spec fn is_blank(s: Seq<char>) -> bool {
    trim(s).len() == 0
}

proof fn lemma_trim_start_skip(s: Seq<char>, i: int)
    requires
        0 <= i <= s.len(),
        forall|j: int| 0 <= j < i ==> is_ws(#[trigger] s[j]),
    ensures
        trim_start(s) == trim_start(s.subrange(i, s.len() as int)),
    decreases i,
{
    if i > 0 {
        assert(s.drop_first() =~= s.subrange(1, s.len() as int));
        lemma_trim_start_skip(s.drop_first(), i - 1);
        assert(s.drop_first().subrange(i - 1, s.drop_first().len() as int) =~= s.subrange(i, s.len() as int));
    } else {
        assert(s.subrange(0, s.len() as int) =~= s);
    }
}

proof fn lemma_trim_end_skip(s: Seq<char>, e: int)
    requires
        0 <= e <= s.len(),
        forall|j: int| e <= j < s.len() ==> is_ws(#[trigger] s[j]),
    ensures
        trim_end(s) == trim_end(s.subrange(0, e)),
    decreases s.len() - e,
{
    if e < s.len() {
        lemma_trim_end_skip(s.drop_last(), e);
        assert(s.drop_last().subrange(0, e) =~= s.subrange(0, e));
    } else {
        assert(s.subrange(0, e) =~= s);
    }
}

/// The bounds of `trim(s)` inside `s`.
pub fn trim_bounds(s: &[char]) -> (r: (usize, usize))
    ensures
        r.0 <= r.1 <= s@.len(),
        s@.subrange(r.0 as int, r.1 as int) == trim(s@),
        trim_start(s@) == s@.subrange(r.0 as int, s@.len() as int),
{
    let mut i: usize = 0;
    while i < s.len() && is_whitespace(s[i])
        invariant
            i <= s@.len(),
            forall|j: int| 0 <= j < i ==> is_ws(#[trigger] s@[j]),
        decreases s.len() - i,
    {
        i = i + 1;
    }
    proof {
        lemma_trim_start_skip(s@, i as int);
        let t = s@.subrange(i as int, s@.len() as int);
        if t.len() > 0 {
            assert(t[0] == s@[i as int]);
        }
        assert(trim_start(t) == t);
    }
    let mut e: usize = s.len();
    while e > i && is_whitespace(s[e - 1])
        invariant
            i <= e <= s@.len(),
            forall|j: int| e <= j < s@.len() ==> is_ws(#[trigger] s@[j]),
        decreases e,
    {
        e = e - 1;
    }
    proof {
        let t = s@.subrange(i as int, s@.len() as int);
        lemma_trim_end_skip(t, (e - i) as int);
        assert(t.subrange(0, (e - i) as int) =~= s@.subrange(i as int, e as int));
        let u = s@.subrange(i as int, e as int);
        if u.len() > 0 {
            assert(u.last() == s@[e - 1]);
        }
        assert(trim_end(u) == u);
    }
    (i, e)
}

/// The characters of `s` from `a` up to `b`.
pub fn slice_chars(s: &[char], a: usize, b: usize) -> (v: Vec<char>)
    requires
        a <= b <= s@.len(),
    ensures
        v@ == s@.subrange(a as int, b as int),
{
    let mut v: Vec<char> = Vec::new();
    let mut i = a;
    while i < b
        invariant
            a <= i <= b <= s@.len(),
            v@ == s@.subrange(a as int, i as int),
        decreases b - i,
    {
        v.push(s[i]);
        assert(s@.subrange(a as int, i + 1) =~= s@.subrange(a as int, i as int).push(s@[i as int]));
        i = i + 1;
    }
    v
}

pub fn trim_chars(s: &[char]) -> (v: Vec<char>)
    ensures
        v@ == trim(s@),
{
    let (a, b) = trim_bounds(s);
    slice_chars(s, a, b)
}

} // verus!

verus! {

/// The pieces of `s` between occurrences of `c`, as `str::split` gives them.
pub open spec fn split(s: Seq<char>, c: char) -> Seq<Seq<char>>
    decreases s.len(),
{
    if s.len() == 0 {
        seq![Seq::<char>::empty()]
    } else {
        let p = split(s.drop_last(), c);
        if s.last() == c {
            p.push(Seq::<char>::empty())
        } else {
            p.update(p.len() - 1, p.last().push(s.last()))
        }
    }
}

pub proof fn lemma_split_nonempty(s: Seq<char>, c: char)
    ensures
        split(s, c).len() >= 1,
    decreases s.len(),
{
    if s.len() > 0 {
        lemma_split_nonempty(s.drop_last(), c);
    }
}

/// A line without the carriage return that ended it.
pub open spec fn strip_cr(l: Seq<char>) -> Seq<char> {
    if l.len() > 0 && l.last() == '\r' {
        l.drop_last()
    } else {
        l
    }
}

/// The lines of `s`, as `str::lines` gives them: split at `\n`, a `\r`
/// right before a `\n` dropped, and no empty line after a final line
/// ending. A `\r` at the very end, with no `\n` after it, stays.
pub open spec fn lines(s: Seq<char>) -> Seq<Seq<char>> {
    if s.len() == 0 {
        Seq::empty()
    } else {
        let p = split(s, '\n');
        let ended = p.drop_last().map_values(|l: Seq<char>| strip_cr(l));
        if p.last().len() == 0 { ended } else { ended.push(p.last()) }
    }
}

/// `parts` joined with `sep` between neighbours.
pub open spec fn join(parts: Seq<Seq<char>>, sep: Seq<char>) -> Seq<char>
    decreases parts.len(),
{
    if parts.len() == 0 {
        Seq::empty()
    } else if parts.len() == 1 {
        parts[0]
    } else {
        join(parts.drop_last(), sep) + sep + parts.last()
    }
}

/// Whether `s` begins with `p`.
pub open spec fn starts_with(s: Seq<char>, p: Seq<char>) -> bool {
    p.len() <= s.len() && s.subrange(0, p.len() as int) == p
}

/// The character sequences held by a vector of character vectors.
pub open spec fn views(v: Seq<Vec<char>>) -> Seq<Seq<char>> {
    v.map_values(|x: Vec<char>| x@)
}

/// The pieces of `s` split at `c`.
pub fn split_chars(s: &[char], c: char) -> (parts: Vec<Vec<char>>)
    ensures
        views(parts@) == split(s@, c),
{
    let mut parts: Vec<Vec<char>> = Vec::new();
    let mut cur: Vec<char> = Vec::new();
    for i in 0..s.len()
        invariant
            views(parts@).push(cur@) == split(s@.take(i as int), c),
    {
        proof {
            assert(s@.take(i + 1).drop_last() =~= s@.take(i as int));
        }
        if s[i] == c {
            let ghost old_dv = views(parts@);
            let done = cur;
            let ghost done_v = done@;
            parts.push(done);
            cur = Vec::new();
            proof {
                assert(views(parts@) =~= old_dv.push(done_v));
                assert(views(parts@) =~= split(s@.take(i as int), c));
                assert(views(parts@).push(cur@) =~= split(s@.take(i + 1), c));
            }
        } else {
            let ghost before = views(parts@).push(cur@);
            cur.push(s[i]);
            proof {
                assert(views(parts@).push(cur@) =~= before.update(before.len() - 1, before.last().push(s@[i as int])));
            }
        }
    }
    proof {
        assert(s@.take(s@.len() as int) =~= s@);
    }
    let ghost old_dv = views(parts@);
    let ghost cur_v = cur@;
    parts.push(cur);
    assert(views(parts@) =~= old_dv.push(cur_v));
    parts
}

/// The lines of `s`.
pub fn lines_of(s: &[char]) -> (ls: Vec<Vec<char>>)
    ensures
        views(ls@) == lines(s@),
{
    if s.len() == 0 {
        return Vec::new();
    }
    let parts = split_chars(s, '\n');
    proof {
        lemma_split_nonempty(s@, '\n');
    }
    let n = parts.len();
    let ghost p = views(parts@);
    let ghost q = p.drop_last();
    let mut ls: Vec<Vec<char>> = Vec::new();
    for i in 0..n - 1
        invariant
            n == parts@.len(),
            n >= 1,
            p == views(parts@),
            q == p.drop_last(),
            views(ls@) == q.take(i as int).map_values(|l: Seq<char>| strip_cr(l)),
    {
        let l = &parts[i];
        let mut m = l.clone();
        if m.len() > 0 && m[m.len() - 1] == '\r' {
            m.pop();
        }
        assert(m@ == strip_cr(q[i as int]));
        let ghost old_dv = views(ls@);
        let ghost m_v = m@;
        ls.push(m);
        assert(views(ls@) =~= old_dv.push(m_v));
        assert(views(ls@) =~= q.take(i + 1).map_values(|l: Seq<char>| strip_cr(l)));
    }
    assert(q.take(q.len() as int) =~= q);
    if parts[n - 1].len() > 0 {
        let ghost before = views(ls@);
        let last = parts[n - 1].clone();
        assert(last@ == p.last());
        ls.push(last);
        assert(views(ls@) =~= before.push(p.last()));
    }
    ls
}

/// `parts` joined with `sep`.
pub fn join_chars(parts: &Vec<Vec<char>>, sep: &[char]) -> (v: Vec<char>)
    ensures
        v@ == join(views(parts@), sep@),
{
    let mut v: Vec<char> = Vec::new();
    for i in 0..parts.len()
        invariant
            v@ == join(views(parts@).take(i as int), sep@),
    {
        let ghost before = v@;
        if i > 0 {
            let mut k: usize = 0;
            while k < sep.len()
                invariant
                    k <= sep@.len(),
                    v@ == before + sep@.take(k as int),
                decreases sep.len() - k,
            {
                v.push(sep[k]);
                assert(sep@.take(k + 1) =~= sep@.take(k as int).push(sep@[k as int]));
                k = k + 1;
            }
        }
        let ghost mid = v@;
        let part = &parts[i];
        let mut k: usize = 0;
        while k < part.len()
            invariant
                k <= part@.len(),
                v@ == mid + part@.take(k as int),
            decreases part.len() - k,
        {
            v.push(part[k]);
            assert(part@.take(k + 1) =~= part@.take(k as int).push(part@[k as int]));
            k = k + 1;
        }
        proof {
            let t = views(parts@).take(i + 1);
            assert(t.drop_last() =~= views(parts@).take(i as int));
            assert(part@.take(part@.len() as int) =~= part@);
            assert(sep@.take(sep@.len() as int) =~= sep@);
            if i == 0 {
                assert(v@ =~= join(t, sep@));
            } else {
                assert(v@ =~= join(t, sep@));
            }
        }
    }
    assert(views(parts@).take(parts.len() as int) =~= views(parts@));
    v
}

/// Whether the characters of `a` and `b` agree.
pub fn chars_eq(a: &[char], b: &[char]) -> (r: bool)
    ensures
        r == (a@ == b@),
{
    if a.len() != b.len() {
        return false;
    }
    for i in 0..a.len()
        invariant
            a@.len() == b@.len(),
            forall|j: int| 0 <= j < i ==> a@[j] == b@[j],
    {
        if a[i] != b[i] {
            return false;
        }
    }
    assert(a@ =~= b@);
    true
}

/// Whether `s` begins with `p`.
pub fn starts_with_chars(s: &[char], p: &[char]) -> (r: bool)
    ensures
        r == starts_with(s@, p@),
{
    if p.len() > s.len() {
        return false;
    }
    for i in 0..p.len()
        invariant
            p@.len() <= s@.len(),
            forall|j: int| 0 <= j < i ==> s@[j] == p@[j],
    {
        if s[i] != p[i] {
            assert(s@.subrange(0, p@.len() as int)[i as int] != p@[i as int]);
            return false;
        }
    }
    assert(s@.subrange(0, p@.len() as int) =~= p@);
    true
}

} // verus!

verus! {

/// The number of bytes that UTF-8 takes for `c`.
pub open spec fn utf8_width(c: char) -> nat {
    if (c as u32) < 0x80 {
        1
    } else if (c as u32) < 0x800 {
        2
    } else if (c as u32) < 0x10000 {
        3
    } else {
        4
    }
}

/// The number of bytes that UTF-8 takes for `s`: what `str::len` reports.
pub open spec fn utf8_len(s: Seq<char>) -> nat
    decreases s.len(),
{
    if s.len() == 0 {
        0
    } else {
        utf8_len(s.drop_last()) + utf8_width(s.last())
    }
}

pub proof fn lemma_utf8_len_bounds(s: Seq<char>)
    ensures
        s.len() <= utf8_len(s) <= 4 * s.len(),
    decreases s.len(),
{
    if s.len() > 0 {
        lemma_utf8_len_bounds(s.drop_last());
    }
}

pub fn utf8_width_of(c: char) -> (n: usize)
    ensures
        n == utf8_width(c),
        1 <= n <= 4,
{
    let v = c as u32;
    if v < 0x80 {
        1
    } else if v < 0x800 {
        2
    } else if v < 0x10000 {
        3
    } else {
        4
    }
}

/// The UTF-8 length of `s`, in bytes.
pub fn utf8_len_of(s: &[char]) -> (n: usize)
    requires
        s@.len() <= usize::MAX / 4,
    ensures
        n == utf8_len(s@),
{
    let mut n: usize = 0;
    for i in 0..s.len()
        invariant
            s@.len() <= usize::MAX / 4,
            n == utf8_len(s@.take(i as int)),
            n <= 4 * i,
    {
        proof {
            assert(s@.take(i + 1).drop_last() =~= s@.take(i as int));
        }
        n = n + utf8_width_of(s[i]);
    }
    assert(s@.take(s@.len() as int) =~= s@);
    n
}

/// The decimal digit `d` as a character.
pub open spec fn digit_char(d: nat) -> char {
    ((48 + d) as u8) as char
}

/// The decimal representation of `n`, without leading zeros.
pub open spec fn decimal(n: nat) -> Seq<char>
    decreases n,
{
    if n < 10 {
        seq![digit_char(n)]
    } else {
        decimal(n / 10).push(digit_char(n % 10))
    }
}

/// The decimal representation of `n`, as `to_string` writes it.
pub fn decimal_of(n: u64) -> (v: Vec<char>)
    ensures
        v@ == decimal(n as nat),
    decreases n,
{
    let d = ((n % 10) as u8 + 48u8) as char;
    if n < 10 {
        let mut v = Vec::new();
        v.push(d);
        assert(v@ =~= seq![digit_char(n as nat)]);
        v
    } else {
        let mut v = decimal_of(n / 10);
        v.push(d);
        v
    }
}

/// Appends the characters of `t` to `v`.
pub fn push_all(v: &mut Vec<char>, t: &[char])
    ensures
        final(v)@ == old(v)@ + t@,
{
    for i in 0..t.len()
        invariant
            v@ == old(v)@ + t@.take(i as int),
    {
        v.push(t[i]);
        assert(t@.take(i + 1) =~= t@.take(i as int).push(t@[i as int]));
    }
    assert(t@.take(t@.len() as int) =~= t@);
}

/// Appends the characters of a string slice to `v`.
pub fn push_str(v: &mut Vec<char>, t: &str)
    ensures
        final(v)@ == old(v)@ + t@,
{
    let tc = chars_of(t);
    push_all(v, tc.as_slice());
}

} // verus!

verus! {

pub proof fn lemma_split_parts_short(s: Seq<char>, c: char)
    ensures
        forall|i: int| 0 <= i < split(s, c).len() ==> (#[trigger] split(s, c)[i]).len() <= s.len(),
    decreases s.len(),
{
    if s.len() > 0 {
        lemma_split_parts_short(s.drop_last(), c);
        lemma_split_nonempty(s.drop_last(), c);
    }
}

} // verus!

verus! {

/// Whether `p` occurs in `s` starting at index `i`.
pub open spec fn occurs_at(s: Seq<char>, p: Seq<char>, i: int) -> bool {
    0 <= i && i + p.len() <= s.len() && s.subrange(i, i + p.len()) == p
}

/// The greatest index below `k` at which `p` occurs in `s`, or -1.
pub open spec fn last_occurrence_below(s: Seq<char>, p: Seq<char>, k: int) -> int
    decreases k,
{
    if k <= 0 {
        -1
    } else if occurs_at(s, p, k - 1) {
        k - 1
    } else {
        last_occurrence_below(s, p, k - 1)
    }
}

/// The index of the last occurrence of `p` in `s`, or -1 (as `str::rfind`,
/// counted in characters).
pub open spec fn last_occurrence(s: Seq<char>, p: Seq<char>) -> int {
    last_occurrence_below(s, p, s.len() + 1int)
}

/// Whether `p` occurs in `s` at index `i`.
pub fn occurs_at_exec(s: &[char], p: &[char], i: usize) -> (r: bool)
    ensures
        r == occurs_at(s@, p@, i as int),
{
    if i > s.len() || p.len() > s.len() - i {
        return false;
    }
    let mut k: usize = 0;
    while k < p.len()
        invariant
            k <= p@.len(),
            i + p@.len() <= s@.len(),
            s@.len() == s.len(),
            forall|j: int| 0 <= j < k ==> s@[i + j] == p@[j],
        decreases p.len() - k,
    {
        if s[i + k] != p[k] {
            assert(s@.subrange(i as int, i + p@.len())[k as int] != p@[k as int]);
            return false;
        }
        k = k + 1;
    }
    assert(s@.subrange(i as int, i + p@.len()) =~= p@);
    true
}

/// The index of the last occurrence of `p` in `s`.
pub fn last_occurrence_of(s: &[char], p: &[char]) -> (r: Option<usize>)
    ensures
        match r {
            Some(i) => last_occurrence(s@, p@) == i as int,
            None => last_occurrence(s@, p@) == -1,
        },
{
    if p.len() == 0 {
        assert(occurs_at(s@, p@, s@.len() as int)) by {
            assert(s@.subrange(s@.len() as int, s@.len() as int) =~= p@);
        }
        return Some(s.len());
    }
    let mut k: usize = s.len();
    assert(!occurs_at(s@, p@, s@.len() as int));
    while k > 0
        invariant
            k <= s@.len() + 1,
            last_occurrence(s@, p@) == last_occurrence_below(s@, p@, k as int),
        decreases k,
    {
        if occurs_at_exec(s, p, k - 1) {
            return Some(k - 1);
        }
        k = k - 1;
    }
    None
}

} // verus!

verus! {

/// Every `usize` fits in a `u64`.
pub proof fn lemma_usize_fits_u64(n: usize)
    ensures
        n <= u64::MAX,
{
    assert(n <= u64::MAX) by (bit_vector);
}

} // verus!

verus! {

/// `s` without the trailing run of `c` (as `str::trim_end_matches` with a char).
pub open spec fn trim_end_char(s: Seq<char>, c: char) -> Seq<char>
    decreases s.len(),
{
    if s.len() > 0 && s.last() == c {
        trim_end_char(s.drop_last(), c)
    } else {
        s
    }
}

pub fn trim_end_char_of(s: &[char], c: char) -> (v: Vec<char>)
    ensures
        v@ == trim_end_char(s@, c),
{
    let mut e = s.len();
    assert(s@.subrange(0, e as int) =~= s@);
    while e > 0 && s[e - 1] == c
        invariant
            e <= s@.len(),
            trim_end_char(s@, c) == trim_end_char(s@.subrange(0, e as int), c),
        decreases e,
    {
        assert(s@.subrange(0, e as int).drop_last() =~= s@.subrange(0, e - 1));
        e = e - 1;
    }
    let v = slice_chars(s, 0, e);
    proof {
        let u = s@.subrange(0, e as int);
        if u.len() > 0 {
            assert(u.last() == s@[e - 1]);
        }
        assert(s@.subrange(0, s@.len() as int) =~= s@);
    }
    v
}

/// The first piece of `s` before `c` and everything after it, when `c`
/// occurs (as `str::split_once`).
pub open spec fn split_once(s: Seq<char>, c: char) -> Option<(Seq<char>, Seq<char>)> {
    let p = split(s, c);
    if p.len() < 2 {
        None
    } else {
        Some((p[0], s.subrange(p[0].len() + 1int, s.len() as int)))
    }
}

pub proof fn lemma_split_first(s: Seq<char>, c: char)
    ensures
        split(s, c).len() >= 1,
        split(s, c)[0].len() <= s.len(),
        split(s, c)[0] == s.subrange(0, split(s, c)[0].len() as int),
        split(s, c).len() == 1 ==> split(s, c)[0] == s,
        split(s, c).len() >= 2 ==> split(s, c)[0].len() < s.len() && s[split(s, c)[0].len() as int] == c,
    decreases s.len(),
{
    if s.len() == 0 {
        assert(split(s, c)[0] =~= s.subrange(0, 0));
    } else {
        lemma_split_first(s.drop_last(), c);
        let p = split(s.drop_last(), c);
        if s.last() == c {
            assert(split(s, c)[0] == p[0]);
            if p.len() == 1 {
                assert(p[0] == s.drop_last());
            }
        } else {
            if p.len() == 1 {
                assert(p[0] == s.drop_last());
                assert(split(s, c)[0] =~= s);
                assert(split(s, c)[0] =~= s.subrange(0, s.len() as int));
            } else {
                assert(split(s, c)[0] == p[0]);
                assert(s.drop_last().subrange(0, p[0].len() as int) =~= s.subrange(0, p[0].len() as int));
            }
        }
    }
}

pub fn split_once_of(s: &[char], c: char) -> (r: Option<(Vec<char>, Vec<char>)>)
    ensures
        match r {
            Some((a, b)) => split_once(s@, c) == Some((a@, b@)),
            None => split_once(s@, c) is None,
        },
{
    let parts = split_chars(s, c);
    proof {
        lemma_split_first(s@, c);
    }
    if parts.len() < 2 {
        return None;
    }
    let first = parts[0].clone();
    assert(first@ == split(s@, c)[0]);
    assert(split(s@, c).len() >= 2);
    assert(first@.len() < s@.len());
    let n = s.len();
    assert(first.len() < n);
    let rest = slice_chars(s, first.len() + 1, s.len());
    Some((first, rest))
}

/// The value paired with the first occurrence of `name` among `pairs`.
pub open spec fn first_value(pairs: Seq<(Seq<char>, Seq<char>)>, name: Seq<char>) -> Option<Seq<char>>
    decreases pairs.len(),
{
    if pairs.len() == 0 {
        None
    } else if pairs[0].0 == name {
        Some(pairs[0].1)
    } else {
        first_value(pairs.drop_first(), name)
    }
}

/// The views of pairs of character vectors.
pub open spec fn pair_views(v: Seq<(Vec<char>, Vec<char>)>) -> Seq<(Seq<char>, Seq<char>)> {
    v.map_values(|p: (Vec<char>, Vec<char>)| (p.0@, p.1@))
}

/// The value paired with the first occurrence of `name`.
pub fn first_value_of(pairs: &Vec<(Vec<char>, Vec<char>)>, name: &[char]) -> (r: Option<Vec<char>>)
    ensures
        match r {
            Some(v) => first_value(pair_views(pairs@), name@) == Some(v@),
            None => first_value(pair_views(pairs@), name@) is None,
        },
{
    let ghost all = pair_views(pairs@);
    assert(all.skip(0) =~= all);
    for i in 0..pairs.len()
        invariant
            all == pair_views(pairs@),
            first_value(all, name@) == first_value(all.skip(i as int), name@),
    {
        let ghost rest = all.skip(i as int);
        assert(rest[0] == all[i as int]);
        assert(rest.drop_first() =~= all.skip(i + 1));
        if chars_eq(pairs[i].0.as_slice(), name) {
            return Some(pairs[i].1.clone());
        }
    }
    assert(all.skip(pairs@.len() as int).len() == 0);
    None
}

/// Whether `s` holds a character of the CJK Unified Ideographs block.
pub open spec fn has_cjk(s: Seq<char>) -> bool {
    exists|i: int| 0 <= i < s.len() && '\u{4e00}' <= #[trigger] s[i] && s[i] <= '\u{9fff}'
}

pub fn has_cjk_of(s: &[char]) -> (r: bool)
    ensures
        r == has_cjk(s@),
{
    for i in 0..s.len()
        invariant
            forall|j: int| 0 <= j < i ==> !('\u{4e00}' <= #[trigger] s@[j] && s@[j] <= '\u{9fff}'),
    {
        if '\u{4e00}' <= s[i] && s[i] <= '\u{9fff}' {
            return true;
        }
    }
    false
}

} // verus!

verus! {

pub fn trim_end_of(s: &[char]) -> (v: Vec<char>)
    ensures
        v@ == trim_end(s@),
{
    let mut e = s.len();
    assert(s@.subrange(0, e as int) =~= s@);
    while e > 0 && is_whitespace(s[e - 1])
        invariant
            e <= s@.len(),
            trim_end(s@) == trim_end(s@.subrange(0, e as int)),
        decreases e,
    {
        assert(s@.subrange(0, e as int).drop_last() =~= s@.subrange(0, e - 1));
        e = e - 1;
    }
    let v = slice_chars(s, 0, e);
    proof {
        let u = s@.subrange(0, e as int);
        if u.len() > 0 {
            assert(u.last() == s@[e - 1]);
        }
    }
    v
}

/// The characters of `s`, as a new vector.
pub fn copy_chars(s: &[char]) -> (v: Vec<char>)
    ensures
        v@ == s@,
{
    let v = slice_chars(s, 0, s.len());
    assert(s@.subrange(0, s@.len() as int) =~= s@);
    v
}

} // verus!

verus! {

/// The pieces of `s` between occurrences of `a` or `b` (as `str::split`
/// with a pair of characters).
pub open spec fn split2(s: Seq<char>, a: char, b: char) -> Seq<Seq<char>>
    decreases s.len(),
{
    if s.len() == 0 {
        seq![Seq::<char>::empty()]
    } else {
        let p = split2(s.drop_last(), a, b);
        if s.last() == a || s.last() == b {
            p.push(Seq::<char>::empty())
        } else {
            p.update(p.len() - 1, p.last().push(s.last()))
        }
    }
}

pub proof fn lemma_split2_nonempty(s: Seq<char>, a: char, b: char)
    ensures
        split2(s, a, b).len() >= 1,
    decreases s.len(),
{
    if s.len() > 0 {
        lemma_split2_nonempty(s.drop_last(), a, b);
    }
}

/// A text holding neither separator is one piece.
pub proof fn lemma_split2_none(w: Seq<char>, a: char, b: char)
    requires
        !w.contains(a),
        !w.contains(b),
    ensures
        split2(w, a, b) == seq![w],
    decreases w.len(),
{
    if w.len() == 0 {
        assert(w =~= Seq::<char>::empty());
    } else {
        assert(w.drop_last().push(w.last()) =~= w);
        assert(!w.drop_last().contains(a) && !w.drop_last().contains(b)) by {
            if w.drop_last().contains(a) {
                let i = choose|i: int| 0 <= i < w.drop_last().len() && w.drop_last()[i] == a;
                assert(w[i] == a);
            }
            if w.drop_last().contains(b) {
                let i = choose|i: int| 0 <= i < w.drop_last().len() && w.drop_last()[i] == b;
                assert(w[i] == b);
            }
        }
        lemma_split2_none(w.drop_last(), a, b);
        assert(w.last() != a && w.last() != b) by {
            assert(w[w.len() - 1] == w.last());
        }
        assert(seq![w.drop_last()].update(0, w.drop_last().push(w.last())) =~= seq![w]);
    }
}

/// Splitting at either separator, where it joins two texts, splits each of
/// them: with `lemma_split2_none` this fixes the pieces as the maximal runs
/// of `s` that hold neither `a` nor `b`.
pub proof fn lemma_split2_concat(x: Seq<char>, y: Seq<char>, a: char, b: char, sep: char)
    requires
        sep == a || sep == b,
    ensures
        split2(x + seq![sep] + y, a, b) == split2(x, a, b) + split2(y, a, b),
    decreases y.len(),
{
    lemma_split2_nonempty(x, a, b);
    if y.len() == 0 {
        assert(x + seq![sep] + y =~= x.push(sep));
        assert((x.push(sep)).drop_last() =~= x);
        assert(split2(y, a, b) =~= seq![Seq::<char>::empty()]);
        assert(split2(x, a, b).push(Seq::<char>::empty()) =~= split2(x, a, b) + split2(y, a, b));
    } else {
        let s = x + seq![sep] + y;
        assert(s.drop_last() =~= x + seq![sep] + y.drop_last());
        assert(s.last() == y.last());
        lemma_split2_concat(x, y.drop_last(), a, b, sep);
        lemma_split2_nonempty(y.drop_last(), a, b);
        let p = split2(x, a, b);
        let q = split2(y.drop_last(), a, b);
        if y.last() == a || y.last() == b {
            assert((p + q).push(Seq::<char>::empty()) =~= p + q.push(Seq::<char>::empty()));
        } else {
            assert((p + q).update((p + q).len() - 1, (p + q).last().push(y.last()))
                =~= p + q.update(q.len() - 1, q.last().push(y.last())));
        }
    }
}

/// The pieces of `s` split at `a` or `b`.
pub fn split2_chars(s: &[char], a: char, b: char) -> (parts: Vec<Vec<char>>)
    ensures
        views(parts@) == split2(s@, a, b),
{
    let mut parts: Vec<Vec<char>> = Vec::new();
    let mut cur: Vec<char> = Vec::new();
    for i in 0..s.len()
        invariant
            views(parts@).push(cur@) == split2(s@.take(i as int), a, b),
    {
        proof {
            assert(s@.take(i + 1).drop_last() =~= s@.take(i as int));
            lemma_split2_nonempty(s@.take(i as int), a, b);
        }
        if s[i] == a || s[i] == b {
            let ghost old_dv = views(parts@);
            let done = cur;
            let ghost done_v = done@;
            parts.push(done);
            cur = Vec::new();
            proof {
                assert(views(parts@) =~= old_dv.push(done_v));
                assert(views(parts@).push(cur@) =~= split2(s@.take(i + 1), a, b));
            }
        } else {
            let ghost before = views(parts@).push(cur@);
            cur.push(s[i]);
            proof {
                assert(views(parts@).push(cur@) =~= before.update(before.len() - 1, before.last().push(s@[i as int])));
            }
        }
    }
    proof {
        assert(s@.take(s@.len() as int) =~= s@);
    }
    let ghost old_dv = views(parts@);
    let ghost cur_v = cur@;
    parts.push(cur);
    assert(views(parts@) =~= old_dv.push(cur_v));
    parts
}

} // verus!

verus! {

/// The UTF-8 length of `s`, counted wide enough that no length of `s`
/// overflows it.
pub fn utf8_len_wide(s: &[char]) -> (n: u128)
    ensures
        n == utf8_len(s@),
{
    let mut n: u128 = 0;
    proof {
        lemma_usize_fits_u64(s.len());
    }
    for i in 0..s.len()
        invariant
            n == utf8_len(s@.take(i as int)),
            n <= 4 * i,
            s@.len() <= u64::MAX,
    {
        proof {
            assert(s@.take(i + 1).drop_last() =~= s@.take(i as int));
        }
        n = n + utf8_width_of(s[i]) as u128;
    }
    assert(s@.take(s@.len() as int) =~= s@);
    n
}

/// Whether `c` occurs in `s`.
pub fn contains_char(s: &[char], c: char) -> (r: bool)
    ensures
        r == s@.contains(c),
{
    for i in 0..s.len()
        invariant
            forall|j: int| 0 <= j < i ==> s@[j] != c,
    {
        if s[i] == c {
            assert(s@[i as int] == c);
            return true;
        }
    }
    false
}

} // verus!

verus! {

/// The contents of an optional string.
pub open spec fn opt_view(o: Option<String>) -> Option<Seq<char>> {
    match o {
        Some(s) => Some(s@),
        None => None,
    }
}

/// The contents of a vector of strings.
pub open spec fn string_views(v: Seq<String>) -> Seq<Seq<char>> {
    v.map_values(|s: String| s@)
}

} // verus!

verus! {

/// Splitting at a separator that joins two texts splits each of them.
pub proof fn lemma_split_concat(a: Seq<char>, b: Seq<char>, c: char)
    ensures
        split(a + seq![c] + b, c) == split(a, c) + split(b, c),
    decreases b.len(),
{
    lemma_split_nonempty(a, c);
    if b.len() == 0 {
        assert(a + seq![c] + b =~= a.push(c));
        assert((a.push(c)).drop_last() =~= a);
        assert(split(b, c) =~= seq![Seq::<char>::empty()]);
        assert(split(a, c).push(Seq::<char>::empty()) =~= split(a, c) + split(b, c));
    } else {
        let s = a + seq![c] + b;
        assert(s.drop_last() =~= a + seq![c] + b.drop_last());
        assert(s.last() == b.last());
        lemma_split_concat(a, b.drop_last(), c);
        lemma_split_nonempty(b.drop_last(), c);
        let p = split(a, c);
        let q = split(b.drop_last(), c);
        if b.last() == c {
            assert((p + q).push(Seq::<char>::empty()) =~= p + q.push(Seq::<char>::empty()));
        } else {
            assert((p + q).update((p + q).len() - 1, (p + q).last().push(b.last()))
                =~= p + q.update(q.len() - 1, q.last().push(b.last())));
        }
    }
}

/// A text without the separator is one piece.
pub proof fn lemma_split_none(w: Seq<char>, c: char)
    requires
        !w.contains(c),
    ensures
        split(w, c) == seq![w],
    decreases w.len(),
{
    if w.len() == 0 {
        assert(w =~= Seq::<char>::empty());
    } else {
        assert(w.drop_last().push(w.last()) =~= w);
        assert(!w.drop_last().contains(c)) by {
            if w.drop_last().contains(c) {
                let i = choose|i: int| 0 <= i < w.drop_last().len() && w.drop_last()[i] == c;
                assert(w[i] == c);
            }
        }
        lemma_split_none(w.drop_last(), c);
        assert(w.last() != c) by {
            assert(w[w.len() - 1] == w.last());
        }
        assert(seq![w.drop_last()].update(0, w.drop_last().push(w.last())) =~= seq![w]);
    }
}

/// Splitting a join at its separator gives back the pieces, when no piece
/// holds the separator.
pub proof fn lemma_split_join(segs: Seq<Seq<char>>, c: char)
    requires
        segs.len() > 0,
        forall|i: int| 0 <= i < segs.len() ==> !(#[trigger] segs[i]).contains(c),
    ensures
        split(join(segs, seq![c]), c) == segs,
    decreases segs.len(),
{
    if segs.len() == 1 {
        lemma_split_none(segs[0], c);
        assert(seq![segs[0]] =~= segs);
    } else {
        let d = segs.drop_last();
        assert forall|i: int| 0 <= i < d.len() implies !(#[trigger] d[i]).contains(c) by {
            assert(d[i] == segs[i]);
        }
        lemma_split_join(d, c);
        lemma_split_none(segs.last(), c);
        lemma_split_concat(join(d, seq![c]), segs.last(), c);
        assert(d + seq![segs.last()] =~= segs);
    }
}

} // verus!

verus! {

/// Positions with no occurrence may be skipped when looking for the last one.
pub proof fn lemma_last_occurrence_skip(s: Seq<char>, p: Seq<char>, m: int, k: int)
    requires
        m <= k,
        forall|i: int| m <= i < k ==> !occurs_at(s, p, i),
    ensures
        last_occurrence_below(s, p, k) == last_occurrence_below(s, p, m),
    decreases k - m,
{
    if m < k {
        lemma_last_occurrence_skip(s, p, m, k - 1);
    }
}

/// The last occurrence below `k` lies below `k`.
pub proof fn lemma_last_occurrence_below_bound(s: Seq<char>, p: Seq<char>, k: int)
    ensures
        -1 <= last_occurrence_below(s, p, k) < (if k > 0 { k } else { 0 }),
    decreases k,
{
    if k > 0 {
        lemma_last_occurrence_below_bound(s, p, k - 1);
    }
}

} // verus!

verus! {

/// `trim_end_char` removes exactly the trailing run of `c`: what is left
/// is a prefix of `s` that does not end with `c`, and everything after it is `c`.
pub proof fn lemma_trim_end_char_law(s: Seq<char>, c: char)
    ensures
        ({
            let r = trim_end_char(s, c);
            &&& r.len() <= s.len()
            &&& r == s.subrange(0, r.len() as int)
            &&& forall|j: int| r.len() <= j < s.len() ==> s[j] == c
            &&& r.len() > 0 ==> r.last() != c
        }),
    decreases s.len(),
{
    if s.len() > 0 && s.last() == c {
        lemma_trim_end_char_law(s.drop_last(), c);
        let r = trim_end_char(s, c);
        assert(s.drop_last().subrange(0, r.len() as int) =~= s.subrange(0, r.len() as int));
        assert forall|j: int| r.len() <= j < s.len() implies s[j] == c by {
            if j < s.len() - 1 {
                assert(s.drop_last()[j] == s[j]);
            }
        }
    } else {
        assert(s.subrange(0, s.len() as int) =~= s);
    }
}

/// `trim_start` removes exactly the leading white space.
pub proof fn lemma_trim_start_law(s: Seq<char>)
    ensures
        ({
            let r = trim_start(s);
            &&& r.len() <= s.len()
            &&& r == s.subrange(s.len() - r.len(), s.len() as int)
            &&& forall|j: int| 0 <= j < s.len() - r.len() ==> is_ws(s[j])
            &&& r.len() > 0 ==> !is_ws(r[0])
        }),
    decreases s.len(),
{
    if s.len() > 0 && is_ws(s[0]) {
        lemma_trim_start_law(s.drop_first());
        let r = trim_start(s);
        assert(s.drop_first().subrange(s.len() - 1 - r.len(), s.len() - 1) =~= s.subrange(s.len() - r.len(), s.len() as int));
        assert forall|j: int| 0 <= j < s.len() - r.len() implies is_ws(s[j]) by {
            if j > 0 {
                assert(s.drop_first()[j - 1] == s[j]);
            }
        }
    } else {
        assert(s.subrange(0, s.len() as int) =~= s);
    }
}

/// `trim_end` removes exactly the trailing white space.
pub proof fn lemma_trim_end_law(s: Seq<char>)
    ensures
        ({
            let r = trim_end(s);
            &&& r.len() <= s.len()
            &&& r == s.subrange(0, r.len() as int)
            &&& forall|j: int| r.len() <= j < s.len() ==> is_ws(s[j])
            &&& r.len() > 0 ==> !is_ws(r.last())
        }),
    decreases s.len(),
{
    if s.len() > 0 && is_ws(s.last()) {
        lemma_trim_end_law(s.drop_last());
        let r = trim_end(s);
        assert(s.drop_last().subrange(0, r.len() as int) =~= s.subrange(0, r.len() as int));
        assert forall|j: int| r.len() <= j < s.len() implies is_ws(s[j]) by {
            if j < s.len() - 1 {
                assert(s.drop_last()[j] == s[j]);
            }
        }
    } else {
        assert(s.subrange(0, s.len() as int) =~= s);
    }
}

/// `trim` keeps a middle part of `s`, starting after the leading white
/// space, that neither starts nor ends with white space, and removes only
/// white space around it (as `str::trim`).
pub proof fn lemma_trim_law(s: Seq<char>)
    ensures
        ({
            let r = trim(s);
            let a = s.len() - trim_start(s).len();
            &&& 0 <= a && a + r.len() <= s.len()
            &&& r == s.subrange(a, a + r.len())
            &&& forall|j: int| 0 <= j < a ==> is_ws(#[trigger] s[j])
            &&& forall|j: int| a + r.len() <= j < s.len() ==> is_ws(#[trigger] s[j])
            &&& r.len() > 0 ==> !is_ws(r[0]) && !is_ws(r.last())
        }),
{
    let u = trim_start(s);
    lemma_trim_start_law(s);
    lemma_trim_end_law(u);
    let r = trim_end(u);
    let a = s.len() - u.len();
    assert(r =~= s.subrange(a, a + r.len()));
    assert forall|j: int| a + r.len() <= j < s.len() implies is_ws(#[trigger] s[j]) by {
        assert(u[j - a] == s[j]);
    }
    if r.len() > 0 {
        assert(r[0] == u[0]);
    }
}

/// `lines` undoes joining lines with `\n`, with or without a final `\n`,
/// when no line holds `\n` and none ends with `\r`, and the last is not empty.
pub proof fn lemma_lines_of_joined(ls: Seq<Seq<char>>)
    requires
        ls.len() > 0,
        ls.last().len() > 0,
        forall|i: int| 0 <= i < ls.len() ==> !(#[trigger] ls[i]).contains('\n')
            && (ls[i].len() == 0 || ls[i].last() != '\r'),
    ensures
        lines(join(ls, "\n"@)) == ls,
        lines(join(ls, "\n"@) + "\n"@) == ls,
{
    reveal_strlit("\n");
    assert("\n"@ =~= seq!['\n']);
    lemma_split_join(ls, '\n');
    let s = join(ls, "\n"@);
    lemma_split_concat(s, Seq::<char>::empty(), '\n');
    assert(s + seq!['\n'] + Seq::<char>::empty() =~= s + "\n"@);
    assert(split(Seq::<char>::empty(), '\n') =~= seq![Seq::<char>::empty()]);
    assert(s.len() > 0) by {
        lemma_join_len(ls);
    }
    assert(ls.drop_last().map_values(|l: Seq<char>| strip_cr(l)) =~= ls.drop_last());
    assert(ls.drop_last().push(ls.last()) =~= ls);
    let p2 = split(s + "\n"@, '\n');
    assert(p2 =~= ls + seq![Seq::<char>::empty()]);
    assert(p2.drop_last() =~= ls);
    assert(ls.map_values(|l: Seq<char>| strip_cr(l)) =~= ls);
}

proof fn lemma_join_len(ls: Seq<Seq<char>>)
    requires
        ls.len() > 0,
    ensures
        join(ls, "\n"@).len() >= ls.last().len(),
    decreases ls.len(),
{
}

} // verus!

verus! {

/// Joining the pieces of a split with the separator gives the text back.
pub proof fn lemma_join_split(s: Seq<char>, c: char)
    ensures
        join(split(s, c), seq![c]) == s,
    decreases s.len(),
{
    if s.len() == 0 {
        assert(split(s, c) =~= seq![Seq::<char>::empty()]);
        assert(s =~= Seq::<char>::empty());
    } else {
        let p = split(s.drop_last(), c);
        lemma_join_split(s.drop_last(), c);
        lemma_split_nonempty(s.drop_last(), c);
        if s.last() == c {
            let q = p.push(Seq::<char>::empty());
            assert(q.drop_last() =~= p);
            assert(join(q, seq![c]) == join(p, seq![c]) + seq![c] + Seq::<char>::empty());
            assert(s =~= s.drop_last() + seq![c] + Seq::<char>::empty());
        } else {
            let q = p.update(p.len() - 1, p.last().push(s.last()));
            if p.len() == 1 {
                assert(join(q, seq![c]) == q[0]);
                assert(s =~= s.drop_last().push(s.last()));
            } else {
                assert(q.drop_last() =~= p.drop_last());
                assert(join(q, seq![c]) == join(p.drop_last(), seq![c]) + seq![c] + p.last().push(s.last()));
                assert(join(p, seq![c]) == join(p.drop_last(), seq![c]) + seq![c] + p.last());
                assert(s =~= s.drop_last().push(s.last()));
                assert(join(q, seq![c]) =~= join(p, seq![c]).push(s.last()));
            }
        }
    }
}

} // verus!

verus! {

/// Every character of a piece of a split occurs in the text.
pub proof fn lemma_split_chars(s: Seq<char>, c: char)
    ensures
        forall|i: int, k: int| 0 <= i < split(s, c).len() && 0 <= k < split(s, c)[i].len()
            ==> s.contains(#[trigger] split(s, c)[i][k]),
    decreases s.len(),
{
    if s.len() > 0 {
        lemma_split_chars(s.drop_last(), c);
        lemma_split_nonempty(s.drop_last(), c);
        let p = split(s.drop_last(), c);
        assert forall|i: int, k: int| 0 <= i < split(s, c).len() && 0 <= k < split(s, c)[i].len()
            implies s.contains(#[trigger] split(s, c)[i][k]) by {
            let x = split(s, c)[i][k];
            if i < p.len() && !(i == p.len() - 1 && s.last() != c && k == p.last().len()) {
                assert(x == p[i][k]);
                assert(s.drop_last().contains(x));
                let j = choose|j: int| 0 <= j < s.drop_last().len() && s.drop_last()[j] == x;
                assert(s[j] == x);
            } else {
                assert(x == s.last());
                assert(s[s.len() - 1] == x);
            }
        }
    }
}

} // verus!

verus! {

/// No piece of a split holds the separator.
pub proof fn lemma_split_no_sep(s: Seq<char>, c: char)
    ensures
        forall|i: int| 0 <= i < split(s, c).len() ==> !(#[trigger] split(s, c)[i]).contains(c),
    decreases s.len(),
{
    if s.len() > 0 {
        lemma_split_no_sep(s.drop_last(), c);
        lemma_split_nonempty(s.drop_last(), c);
        let p = split(s.drop_last(), c);
        assert forall|i: int| 0 <= i < split(s, c).len() implies !(#[trigger] split(s, c)[i]).contains(c) by {
            let q = split(s, c);
            if q[i].contains(c) {
                let k = choose|k: int| 0 <= k < q[i].len() && q[i][k] == c;
                if s.last() == c {
                    if i < p.len() {
                        assert(q[i] == p[i]);
                    }
                } else if i < p.len() - 1 {
                    assert(q[i] == p[i]);
                } else {
                    if k < p.last().len() {
                        assert(q[i][k] == p.last()[k]);
                        assert(p.last().contains(c));
                        assert(p[p.len() - 1] == p.last());
                    }
                }
            }
        }
    }
}

} // verus!
