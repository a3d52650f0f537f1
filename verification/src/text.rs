use vstd::prelude::*;
use vstd::utf8::{char_is_scalar, encode_scalar, encode_utf8};

verus! {

/// The characters of `s`, one element per `char`.
pub fn chars_of(s: &str) -> (r: Vec<char>)
    ensures
        r@ == s@,
{
    let mut r: Vec<char> = Vec::new();
    for c in it: s.chars()
        invariant
            r@ == it.seq().take(it.index() as int),
    {
        r.push(c);
    }
    r
}

/// Appends one character to a string (`String::push`).
#[verifier::external_body]
pub(crate) fn push_char(s: &mut String, c: char)
    ensures
        final(s)@ == old(s)@.push(c),
{
    s.push(c);
}

/// A string holding the characters `cs[lo..hi]`.
pub fn string_from_range(cs: &Vec<char>, lo: usize, hi: usize) -> (r: String)
    requires
        lo <= hi <= cs.len(),
    ensures
        r@ == cs@.subrange(lo as int, hi as int),
{
    let mut r = String::new();
    let mut i = lo;
    while i < hi
        invariant
            lo <= i <= hi <= cs.len(),
            r@ == cs@.subrange(lo as int, i as int),
        decreases hi - i,
    {
        push_char(&mut r, cs[i]);
        i = i + 1;
        assert(r@ =~= cs@.subrange(lo as int, i as int));
    }
    r
}

/// A string holding exactly the characters of `cs`.
pub fn string_from_chars(cs: &Vec<char>) -> (r: String)
    ensures
        r@ == cs@,
{
    let r = string_from_range(cs, 0, cs.len());
    assert(cs@.subrange(0, cs@.len() as int) =~= cs@);
    r
}

/// `needle` occurs in `hay` starting at index `i`.
pub open spec fn occurs_at(hay: Seq<char>, needle: Seq<char>, i: int) -> bool {
    &&& 0 <= i
    &&& i + needle.len() <= hay.len()
    &&& hay.subrange(i, i + needle.len()) == needle
}

/// `needle` occurs somewhere in `hay` (`str::contains` with a string pattern).
pub open spec fn spec_contains(hay: Seq<char>, needle: Seq<char>) -> bool {
    exists|i: int| occurs_at(hay, needle, i)
}

/// `i` is the first index at which `needle` occurs in `hay`.
pub open spec fn is_first_occurrence(hay: Seq<char>, needle: Seq<char>, i: int) -> bool {
    &&& occurs_at(hay, needle, i)
    &&& forall|j: int| 0 <= j < i ==> !occurs_at(hay, needle, j)
}

/// The index of the first occurrence of `needle` in `hay`, if any (`str::find`, counted in
/// characters).
pub open spec fn spec_find(hay: Seq<char>, needle: Seq<char>) -> Option<int> {
    if spec_contains(hay, needle) {
        Some(choose|i: int| is_first_occurrence(hay, needle, i))
    } else {
        None
    }
}

/// The first occurrence is unique, so `spec_find` picks it.
pub proof fn lemma_first_occurrence_unique(hay: Seq<char>, needle: Seq<char>, i: int)
    requires
        is_first_occurrence(hay, needle, i),
    ensures
        spec_find(hay, needle) == Some(i),
{
    assert(spec_contains(hay, needle));
    let k = choose|k: int| is_first_occurrence(hay, needle, k);
    assert(is_first_occurrence(hay, needle, k));
    if k < i {
        assert(!occurs_at(hay, needle, k));
    } else if i < k {
        assert(!occurs_at(hay, needle, i));
    }
}

/// Whether `needle` occurs in `hay` at index `i`.
fn matches_at(hay: &Vec<char>, needle: &Vec<char>, i: usize) -> (r: bool)
    ensures
        r == occurs_at(hay@, needle@, i as int),
{
    if i > hay.len() || needle.len() > hay.len() - i {
        return false;
    }
    let n = needle.len();
    let mut k: usize = 0;
    while k < n
        invariant
            n == needle.len(),
            i + n <= hay.len(),
            k <= n,
            forall|t: int| 0 <= t < k ==> hay@[i + t] == needle@[t],
        decreases n - k,
    {
        if hay[i + k] != needle[k] {
            assert(hay@.subrange(i as int, i + n)[k as int] != needle@[k as int]);
            return false;
        }
        k = k + 1;
    }
    assert(hay@.subrange(i as int, i + n) =~= needle@);
    true
}

/// The first index at which `needle` occurs in `hay`, counted in characters.
pub fn find_chars(hay: &Vec<char>, needle: &Vec<char>) -> (r: Option<usize>)
    ensures
        r.is_some() == spec_contains(hay@, needle@),
        r matches Some(i) ==> is_first_occurrence(hay@, needle@, i as int),
        r matches Some(i) ==> spec_find(hay@, needle@) == Some(i as int),
        r is None ==> spec_find(hay@, needle@) is None,
{
    if needle.len() > hay.len() {
        return None;
    }
    let last = hay.len() - needle.len();
    let mut i: usize = 0;
    while i < last
        invariant
            i <= last,
            last + needle.len() == hay.len(),
            forall|j: int| 0 <= j < i ==> !occurs_at(hay@, needle@, j),
        decreases last - i,
    {
        if matches_at(hay, needle, i) {
            proof {
                lemma_first_occurrence_unique(hay@, needle@, i as int);
            }
            return Some(i);
        }
        i = i + 1;
    }
    if matches_at(hay, needle, last) {
        proof {
            lemma_first_occurrence_unique(hay@, needle@, last as int);
        }
        return Some(last);
    }
    assert forall|j: int| !occurs_at(hay@, needle@, j) by {
        if 0 <= j < last {
        }
    }
    None
}

/// Whether `needle` occurs in `hay` (`str::contains`).
pub fn contains_str(hay: &str, needle: &str) -> (r: bool)
    ensures
        r == spec_contains(hay@, needle@),
{
    let h = chars_of(hay);
    let n = chars_of(needle);
    find_chars(&h, &n).is_some()
}

/// `s` with every non-overlapping occurrence of `from`, taken from left to right, replaced by
/// `to` (`str::replace`). An empty `from` matches before every character and at the end.
pub open spec fn spec_replace(s: Seq<char>, from: Seq<char>, to: Seq<char>) -> Seq<char>
    decreases s.len(),
{
    if from.len() == 0 {
        if s.len() == 0 {
            to
        } else {
            to + seq![s[0]] + spec_replace(s.skip(1), from, to)
        }
    } else if s.len() == 0 {
        Seq::empty()
    } else if occurs_at(s, from, 0) {
        to + spec_replace(s.skip(from.len() as int), from, to)
    } else {
        seq![s[0]] + spec_replace(s.skip(1), from, to)
    }
}

/// Text that holds no first character of `from` passes through a replacement unchanged,
/// whatever follows it.
pub proof fn lemma_replace_passes_prefix(x: Seq<char>, b: Seq<char>, from: Seq<char>, to: Seq<char>)
    requires
        from.len() > 0,
        forall|i: int| 0 <= i < x.len() ==> #[trigger] x[i] != from[0],
    ensures
        spec_replace(x + b, from, to) == x + spec_replace(b, from, to),
    decreases x.len(),
{
    let s = x + b;
    if x.len() == 0 {
        assert(s =~= b);
    } else {
        assert(s[0] == x[0]);
        if occurs_at(s, from, 0) {
            assert(s.subrange(0, from.len() as int)[0] == s[0]);
        }
        assert(s.skip(1) =~= x.skip(1) + b);
        lemma_replace_passes_prefix(x.skip(1), b, from, to);
        assert(s =~= seq![s[0]] + s.skip(1));
        assert(x =~= seq![x[0]] + x.skip(1));
    }
}

/// A replacement of `a + b` is the replacement of `a` followed by that of `b` when no
/// occurrence of `from` can start in `a` and run into `b`: the first character of `b` is not
/// among the characters of `from` after its first.
pub proof fn lemma_replace_append(a: Seq<char>, b: Seq<char>, from: Seq<char>, to: Seq<char>)
    requires
        from.len() > 0,
        b.len() > 0,
        forall|k: int| 1 <= k < from.len() ==> #[trigger] from[k] != b[0],
    ensures
        spec_replace(a + b, from, to) == spec_replace(a, from, to) + spec_replace(b, from, to),
    decreases a.len(),
{
    let s = a + b;
    let n = from.len() as int;
    if a.len() == 0 {
        assert(s =~= b);
        assert(spec_replace(a, from, to) =~= Seq::<char>::empty());
    } else if occurs_at(s, from, 0) {
        if n > a.len() {
            assert(s.subrange(0, n)[a.len() as int] == s[a.len() as int]);
            assert(from[a.len() as int] == b[0]);
        }
        assert(a.subrange(0, n) =~= s.subrange(0, n));
        assert(occurs_at(a, from, 0));
        assert(s.skip(n) =~= a.skip(n) + b);
        lemma_replace_append(a.skip(n), b, from, to);
    } else {
        if occurs_at(a, from, 0) {
            assert(a.subrange(0, n) =~= s.subrange(0, n));
        }
        assert(s[0] == a[0]);
        assert(s.skip(1) =~= a.skip(1) + b);
        lemma_replace_append(a.skip(1), b, from, to);
    }
}

/// Appends the characters of `cs` to `out`.
pub fn push_all(out: &mut String, cs: &Vec<char>)
    ensures
        final(out)@ == old(out)@ + cs@,
{
    let mut k: usize = 0;
    while k < cs.len()
        invariant
            k <= cs.len(),
            out@ == old(out)@ + cs@.take(k as int),
        decreases cs.len() - k,
    {
        push_char(out, cs[k]);
        k = k + 1;
        assert(out@ =~= old(out)@ + cs@.take(k as int));
    }
    assert(cs@.take(cs.len() as int) =~= cs@);
}

/// `s` with `from` replaced by `to` (`str::replace`).
pub fn replace_str(s: &str, from: &str, to: &str) -> (r: String)
    ensures
        r@ == spec_replace(s@, from@, to@),
{
    let cs = chars_of(s);
    let f = chars_of(from);
    let t = chars_of(to);
    let mut out = String::new();
    let mut i: usize = 0;
    assert(cs@.skip(0) =~= cs@);
    while i < cs.len()
        invariant
            i <= cs.len(),
            cs@ == s@,
            f@ == from@,
            t@ == to@,
            spec_replace(s@, from@, to@) == out@ + spec_replace(cs@.skip(i as int), f@, t@),
        decreases cs.len() - i,
    {
        let ghost rest = cs@.skip(i as int);
        if f.len() == 0 {
            let ghost before = out@;
            push_all(&mut out, &t);
            push_char(&mut out, cs[i]);
            assert(rest.skip(1) =~= cs@.skip(i + 1));
            assert(spec_replace(rest, f@, t@) == t@ + seq![rest[0]] + spec_replace(rest.skip(1), f@, t@));
            assert(before + spec_replace(rest, f@, t@) =~= out@ + spec_replace(cs@.skip(i + 1), f@, t@));
            i = i + 1;
        } else if matches_at(&cs, &f, i) {
            assert(occurs_at(rest, f@, 0)) by {
                assert(rest.subrange(0, f@.len() as int) =~= cs@.subrange(i as int, i + f@.len()));
            }
            push_all(&mut out, &t);
            assert(rest.skip(f@.len() as int) =~= cs@.skip(i + f@.len()));
            i = i + f.len();
        } else {
            assert(!occurs_at(rest, f@, 0)) by {
                if occurs_at(rest, f@, 0) {
                    assert(rest.subrange(0, f@.len() as int) =~= cs@.subrange(
                        i as int,
                        i + f@.len(),
                    ));
                }
            }
            push_char(&mut out, cs[i]);
            assert(rest.skip(1) =~= cs@.skip(i + 1));
            i = i + 1;
        }
    }
    assert(cs@.skip(i as int) =~= Seq::<char>::empty());
    if f.len() == 0 {
        push_all(&mut out, &t);
    }
    out
}

/// `c` has the Unicode `White_Space` property (`char::is_whitespace`).
pub open spec fn is_whitespace(c: char) -> bool {
    let u = c as u32;
    ||| 0x09 <= u <= 0x0D
    ||| u == 0x20
    ||| u == 0x85
    ||| u == 0xA0
    ||| u == 0x1680
    ||| 0x2000 <= u <= 0x200A
    ||| u == 0x2028
    ||| u == 0x2029
    ||| u == 0x202F
    ||| u == 0x205F
    ||| u == 0x3000
}

/// `char::is_whitespace`.
pub fn whitespace(c: char) -> (r: bool)
    ensures
        r == is_whitespace(c),
{
    let u = c as u32;
    (0x09 <= u && u <= 0x0D) || u == 0x20 || u == 0x85 || u == 0xA0 || u == 0x1680 || (0x2000
        <= u && u <= 0x200A) || u == 0x2028 || u == 0x2029 || u == 0x202F || u == 0x205F || u
        == 0x3000
}

/// `s` without its leading whitespace.
pub open spec fn spec_trim_start(s: Seq<char>) -> Seq<char>
    decreases s.len(),
{
    if s.len() > 0 && is_whitespace(s[0]) {
        spec_trim_start(s.skip(1))
    } else {
        s
    }
}

/// `s` without its trailing whitespace.
pub open spec fn spec_trim_end(s: Seq<char>) -> Seq<char>
    decreases s.len(),
{
    if s.len() > 0 && is_whitespace(s.last()) {
        spec_trim_end(s.drop_last())
    } else {
        s
    }
}

/// `s` without leading and trailing whitespace (`str::trim`).
pub open spec fn spec_trim(s: Seq<char>) -> Seq<char> {
    spec_trim_end(spec_trim_start(s))
}

/// `str::trim`.
pub fn trim_chars(s: &Vec<char>) -> (r: Vec<char>)
    ensures
        r@ == spec_trim(s@),
{
    let mut a: usize = 0;
    assert(s@.skip(0) =~= s@);
    while a < s.len() && whitespace(s[a])
        invariant
            a <= s.len(),
            spec_trim_start(s@) == spec_trim_start(s@.skip(a as int)),
        decreases s.len() - a,
    {
        assert(s@.skip(a as int).skip(1) =~= s@.skip(a + 1));
        a = a + 1;
    }
    let ghost t = s@.skip(a as int);
    assert(spec_trim_start(s@) == t);
    let mut b: usize = s.len();
    assert(t.take(t.len() as int) =~= t);
    while b > a && whitespace(s[b - 1])
        invariant
            a <= b <= s.len(),
            t == s@.skip(a as int),
            spec_trim_end(t) == spec_trim_end(s@.subrange(a as int, b as int)),
        decreases b,
    {
        assert(s@.subrange(a as int, b as int).drop_last() =~= s@.subrange(a as int, b - 1));
        b = b - 1;
    }
    let mut r: Vec<char> = Vec::new();
    let mut i = a;
    while i < b
        invariant
            a <= i <= b <= s.len(),
            r@ == s@.subrange(a as int, i as int),
        decreases b - i,
    {
        r.push(s[i]);
        i = i + 1;
        assert(r@ =~= s@.subrange(a as int, i as int));
    }
    r
}

/// The index of the first `c` in `s`, or `s.len()` when there is none.
pub open spec fn first_index_of(s: Seq<char>, c: char) -> int
    decreases s.len(),
{
    if s.len() == 0 {
        0
    } else if s[0] == c {
        0
    } else {
        1 + first_index_of(s.skip(1), c)
    }
}

pub proof fn lemma_first_index_of(s: Seq<char>, c: char)
    ensures
        0 <= first_index_of(s, c) <= s.len(),
        forall|j: int| 0 <= j < first_index_of(s, c) ==> s[j] != c,
        first_index_of(s, c) < s.len() ==> s[first_index_of(s, c)] == c,
    decreases s.len(),
{
    if s.len() > 0 && s[0] != c {
        lemma_first_index_of(s.skip(1), c);
        assert forall|j: int| 0 <= j < first_index_of(s, c) implies s[j] != c by {
            if j > 0 {
                assert(s[j] == s.skip(1)[j - 1]);
            }
        }
    }
}

/// The first index `k >= i` with `s[k] == c` (or `s.len()`), found by a scan.
fn index_of_from(s: &Vec<char>, c: char, i: usize) -> (k: usize)
    requires
        i <= s.len(),
    ensures
        k == i + first_index_of(s@.skip(i as int), c),
{
    let mut k = i;
    proof {
        lemma_first_index_of(s@.skip(i as int), c);
    }
    while k < s.len() && s[k] != c
        invariant
            i <= k <= s.len(),
            forall|j: int| i <= j < k ==> s@[j] != c,
        decreases s.len() - k,
    {
        k = k + 1;
    }
    proof {
        let t = s@.skip(i as int);
        let f = first_index_of(t, c);
        if i + f < k {
            assert(t[f] == s@[i + f]);
        } else if k < i + f {
            assert(t[k - i] == s@[k as int]);
        }
    }
    k
}

/// `s.splitn(2, c)`: the part before the first `c`, and the part after it when there is one.
pub open spec fn spec_split_once(s: Seq<char>, c: char) -> (Seq<char>, Option<Seq<char>>) {
    let k = first_index_of(s, c);
    if k < s.len() {
        (s.take(k), Some(s.skip(k + 1)))
    } else {
        (s, None)
    }
}

/// `s.splitn(2, c)`, the parts as strings.
pub fn split_once(s: &Vec<char>, c: char) -> (r: (Vec<char>, Option<Vec<char>>))
    ensures
        r.0@ == spec_split_once(s@, c).0,
        r.1.is_some() == spec_split_once(s@, c).1.is_some(),
        r.1 matches Some(t) ==> t@ == spec_split_once(s@, c).1.unwrap(),
{
    assert(s@.skip(0) =~= s@);
    let k = index_of_from(s, c, 0);
    proof {
        lemma_first_index_of(s@, c);
    }
    let head = sub_chars(s, 0, k);
    if k < s.len() {
        let tail = sub_chars(s, k + 1, s.len());
        assert(head@ =~= s@.take(k as int));
        assert(tail@ =~= s@.skip(k + 1));
        (head, Some(tail))
    } else {
        assert(head@ =~= s@);
        (head, None)
    }
}

/// `cs[lo..hi]` as a vector.
pub fn sub_chars(cs: &Vec<char>, lo: usize, hi: usize) -> (r: Vec<char>)
    requires
        lo <= hi <= cs.len(),
    ensures
        r@ == cs@.subrange(lo as int, hi as int),
{
    let mut r: Vec<char> = Vec::new();
    let mut i = lo;
    while i < hi
        invariant
            lo <= i <= hi <= cs.len(),
            r@ == cs@.subrange(lo as int, i as int),
        decreases hi - i,
    {
        r.push(cs[i]);
        i = i + 1;
        assert(r@ =~= cs@.subrange(lo as int, i as int));
    }
    r
}

/// A line without the `\r` of a `\r\n` ending.
pub open spec fn strip_cr(l: Seq<char>) -> Seq<char> {
    if l.len() > 0 && l.last() == '\r' {
        l.drop_last()
    } else {
        l
    }
}

/// The lines of `t` (`str::lines`): split at each `\n`, a `\r` just before it dropped; a
/// final line ending adds no empty line.
pub open spec fn spec_lines(t: Seq<char>) -> Seq<Seq<char>>
    decreases t.len(),
{
    if t.len() == 0 {
        Seq::empty()
    } else {
        let k = first_index_of(t, '\n');
        if k < t.len() {
            proof {
                lemma_first_index_of(t, '\n');
            }
            seq![strip_cr(t.take(k))] + spec_lines(t.skip(k + 1))
        } else {
            seq![t]
        }
    }
}

/// The views of a sequence of strings.
pub open spec fn views(v: Seq<String>) -> Seq<Seq<char>> {
    v.map_values(|s: String| s@)
}

/// `str::lines`, each line as a string.
pub fn split_lines(text: &str) -> (r: Vec<String>)
    ensures
        views(r@) == spec_lines(text@),
{
    let t = chars_of(text);
    let mut r: Vec<String> = Vec::new();
    let mut i: usize = 0;
    assert(t@.skip(0) =~= t@);
    while i < t.len()
        invariant
            i <= t.len(),
            t@ == text@,
            spec_lines(text@) =~= views(r@) + spec_lines(t@.skip(i as int)),
        decreases t.len() - i,
    {
        let ghost rest = t@.skip(i as int);
        let k = index_of_from(&t, '\n', i);
        proof {
            lemma_first_index_of(rest, '\n');
        }
        if k < t.len() {
            let hi = if k > i && t[k - 1] == '\r' {
                k - 1
            } else {
                k
            };
            let line = string_from_range(&t, i, hi);
            assert(line@ =~= strip_cr(rest.take(k - i)));
            let ghost old_r = r@;
            r.push(line);
            assert(rest.skip(k - i + 1) =~= t@.skip(k + 1));
            assert(views(r@) =~= views(old_r) + seq![strip_cr(rest.take(k - i))]);
            i = k + 1;
        } else {
            let line = string_from_range(&t, i, t.len());
            assert(line@ =~= rest);
            let ghost old_r = r@;
            r.push(line);
            assert(views(r@) =~= views(old_r) + seq![rest]);
            i = t.len();
        }
    }
    assert(t@.skip(i as int) =~= Seq::<char>::empty());
    r
}

/// Appends `s` to `out` (`String::push_str`).
pub fn push_str(out: &mut String, s: &str)
    ensures
        final(out)@ == old(out)@ + s@,
{
    let cs = chars_of(s);
    push_all(out, &cs);
}

/// The number of UTF-8 bytes of the first `k` characters of `s`.
pub open spec fn prefix_bytes(s: Seq<char>, k: int) -> int {
    encode_utf8(s.take(k)).len() as int
}

/// The characters of `s` after its first `n` UTF-8 bytes (`&s[n..]`), `None` when byte `n` is
/// past the end or inside a character.
pub open spec fn spec_skip_bytes(s: Seq<char>, n: int) -> Option<Seq<char>> {
    if exists|k: int| 0 <= k <= s.len() && prefix_bytes(s, k) == n {
        Some(s.skip(choose|k: int| 0 <= k <= s.len() && prefix_bytes(s, k) == n))
    } else {
        None
    }
}

proof fn lemma_encode_utf8_push(a: Seq<char>, c: char)
    ensures
        encode_utf8(a.push(c)) == encode_utf8(a) + encode_scalar(c as u32),
    decreases a.len(),
{
    if a.len() == 0 {
        assert(a.push(c).drop_first() =~= Seq::<char>::empty());
        assert(encode_utf8(a.push(c)) =~= encode_scalar(c as u32) + encode_utf8(Seq::<char>::empty()));
    } else {
        lemma_encode_utf8_push(a.drop_first(), c);
        assert(a.push(c).drop_first() =~= a.drop_first().push(c));
        assert(encode_utf8(a.push(c)) =~= encode_scalar(a[0] as u32) + encode_utf8(
            a.drop_first().push(c),
        ));
        assert(encode_utf8(a) =~= encode_scalar(a[0] as u32) + encode_utf8(a.drop_first()));
    }
}

/// One more character adds its own UTF-8 width, between one and four bytes.
proof fn lemma_prefix_bytes_step(s: Seq<char>, k: int)
    requires
        0 <= k < s.len(),
    ensures
        prefix_bytes(s, k + 1) == prefix_bytes(s, k) + encode_scalar(s[k] as u32).len(),
        1 <= encode_scalar(s[k] as u32).len() <= 4,
{
    assert(s.take(k + 1) =~= s.take(k).push(s[k]));
    lemma_encode_utf8_push(s.take(k), s[k]);
}

proof fn lemma_prefix_bytes_mono(s: Seq<char>, a: int, b: int)
    requires
        0 <= a <= b <= s.len(),
    ensures
        prefix_bytes(s, a) + (b - a) <= prefix_bytes(s, b),
    decreases b - a,
{
    if a < b {
        lemma_prefix_bytes_mono(s, a, b - 1);
        lemma_prefix_bytes_step(s, b - 1);
    }
}

/// The number of UTF-8 bytes of `c` (`char::len_utf8`).
pub fn utf8_width(c: char) -> (r: usize)
    ensures
        r == encode_scalar(c as u32).len(),
{
    proof {
        char_is_scalar(c);
    }
    let u = c as u32;
    if u < 0x80 {
        1
    } else if u < 0x800 {
        2
    } else if u < 0x10000 {
        3
    } else {
        4
    }
}

/// `&s[n..]` for a string given by its characters: the characters after the first `n` UTF-8
/// bytes, `None` where `&s[n..]` would panic.
pub fn skip_bytes(s: &Vec<char>, n: usize) -> (r: Option<Vec<char>>)
    ensures
        r is Some <==> spec_skip_bytes(s@, n as int) is Some,
        r matches Some(t) ==> Some(t@) == spec_skip_bytes(s@, n as int),
{
    let mut k: usize = 0;
    let mut total: u128 = 0;
    assert(s@.take(0) =~= Seq::<char>::empty());
    while total < n as u128 && k < s.len()
        invariant
            k <= s.len(),
            total == prefix_bytes(s@, k as int),
            forall|j: int| 0 <= j < k ==> prefix_bytes(s@, j) < n,
        decreases s.len() - k,
    {
        proof {
            lemma_prefix_bytes_step(s@, k as int);
        }
        total = total + utf8_width(s[k]) as u128;
        k = k + 1;
    }
    if total == n as u128 {
        proof {
            assert(0 <= k <= s@.len() && prefix_bytes(s@, k as int) == n);
            let c = choose|c: int| 0 <= c <= s@.len() && prefix_bytes(s@, c) == n;
            if c < k {
                assert(prefix_bytes(s@, c) < n);
            } else if c > k {
                lemma_prefix_bytes_mono(s@, k as int, c);
            }
        }
        let t = sub_chars(s, k, s.len());
        assert(t@ =~= s@.skip(k as int));
        Some(t)
    } else {
        proof {
            assert forall|c: int| 0 <= c <= s@.len() implies prefix_bytes(s@, c) != n by {
                if c < k {
                } else if c > k {
                    lemma_prefix_bytes_mono(s@, k as int, c);
                }
            }
        }
        None
    }
}

proof fn lemma_trim_start_cut(s: Seq<char>)
    ensures
        exists|a: int|
            0 <= a <= s.len() && spec_trim_start(s) == s.skip(a) && (forall|i: int|
                0 <= i < a ==> is_whitespace(#[trigger] s[i])) && (a < s.len() ==> !is_whitespace(
                s[a],
            )),
    decreases s.len(),
{
    if s.len() > 0 && is_whitespace(s[0]) {
        lemma_trim_start_cut(s.skip(1));
        let a = choose|a: int|
            0 <= a <= s.skip(1).len() && spec_trim_start(s.skip(1)) == s.skip(1).skip(a) && (forall|
                i: int,
            | 0 <= i < a ==> is_whitespace(#[trigger] s.skip(1)[i])) && (a < s.skip(1).len()
                ==> !is_whitespace(s.skip(1)[a]));
        assert(s.skip(1).skip(a) =~= s.skip(a + 1));
        assert forall|i: int| 0 <= i < a + 1 implies is_whitespace(#[trigger] s[i]) by {
            if i > 0 {
                assert(s[i] == s.skip(1)[i - 1]);
            }
        }
        if a + 1 < s.len() {
            assert(s[a + 1] == s.skip(1)[a]);
        }
    } else {
        assert(s.skip(0) =~= s);
    }
}

proof fn lemma_trim_end_cut(s: Seq<char>)
    ensures
        exists|b: int|
            0 <= b <= s.len() && spec_trim_end(s) == s.take(b) && (forall|i: int|
                b <= i < s.len() ==> is_whitespace(#[trigger] s[i])) && (b > 0 ==> !is_whitespace(
                s[b - 1],
            )),
    decreases s.len(),
{
    if s.len() > 0 && is_whitespace(s.last()) {
        let d = s.drop_last();
        lemma_trim_end_cut(d);
        let b = choose|b: int|
            0 <= b <= d.len() && spec_trim_end(d) == d.take(b) && (forall|i: int|
                b <= i < d.len() ==> is_whitespace(#[trigger] d[i])) && (b > 0 ==> !is_whitespace(
                d[b - 1],
            ));
        assert(d.take(b) =~= s.take(b));
        assert forall|i: int| b <= i < s.len() implies is_whitespace(#[trigger] s[i]) by {
            if i < s.len() - 1 {
                assert(s[i] == d[i]);
            }
        }
        if b > 0 {
            assert(s[b - 1] == d[b - 1]);
        }
    } else {
        assert(s.take(s.len() as int) =~= s);
    }
}

/// Trimming keeps the part of `s` from its first to its last character that is not
/// whitespace: what it drops at either end is all whitespace, and what it keeps neither
/// starts nor ends with whitespace.
pub proof fn law_trim_shape(s: Seq<char>)
    ensures
        exists|a: int, b: int|
            #![trigger s.subrange(a, b)]
            0 <= a <= b <= s.len() && spec_trim(s) == s.subrange(a, b) && (forall|i: int|
                0 <= i < a ==> is_whitespace(#[trigger] s[i])) && (forall|i: int|
                b <= i < s.len() ==> is_whitespace(#[trigger] s[i])) && (a < b ==> !is_whitespace(
                s[a],
            ) && !is_whitespace(s[b - 1])),
{
    lemma_trim_start_cut(s);
    let a = choose|a: int|
        0 <= a <= s.len() && spec_trim_start(s) == s.skip(a) && (forall|i: int|
            0 <= i < a ==> is_whitespace(#[trigger] s[i])) && (a < s.len() ==> !is_whitespace(s[a]));
    let u = s.skip(a);
    lemma_trim_end_cut(u);
    let c = choose|c: int|
        0 <= c <= u.len() && spec_trim_end(u) == u.take(c) && (forall|i: int|
            c <= i < u.len() ==> is_whitespace(#[trigger] u[i])) && (c > 0 ==> !is_whitespace(
            u[c - 1],
        ));
    let b = a + c;
    assert(u.take(c) =~= s.subrange(a, b));
    assert forall|i: int| b <= i < s.len() implies is_whitespace(#[trigger] s[i]) by {
        assert(s[i] == u[i - a]);
    }
    if a < b {
        assert(s[b - 1] == u[c - 1]);
    }
}

/// Splitting at the first `c`: when `c` occurs, `s` is the part before it, `c`, and the part
/// after it, and the part before holds no `c`; when it does not, the whole of `s` comes back.
pub proof fn law_split_once(s: Seq<char>, c: char)
    ensures
        spec_split_once(s, c).1 matches Some(rest) ==> s == spec_split_once(s, c).0 + seq![c]
            + rest,
        spec_split_once(s, c).1 is None ==> spec_split_once(s, c).0 == s,
        forall|i: int|
            0 <= i < spec_split_once(s, c).0.len() ==> #[trigger] spec_split_once(s, c).0[i] != c,
{
    lemma_first_index_of(s, c);
    let k = first_index_of(s, c);
    if k < s.len() {
        assert(s =~= s.take(k) + seq![c] + s.skip(k + 1));
    }
}

proof fn lemma_lines_first(a: Seq<char>, b: Seq<char>)
    requires
        forall|i: int| 0 <= i < a.len() ==> #[trigger] a[i] != '\n',
    ensures
        spec_lines(a + seq!['\n'] + b) == seq![strip_cr(a)] + spec_lines(b),
{
    let t = a + seq!['\n'] + b;
    lemma_first_index_of(t, '\n');
    let k = first_index_of(t, '\n');
    assert(t[a.len() as int] == '\n');
    if k < a.len() {
        assert(t[k] == a[k]);
    }
    assert(k == a.len());
    assert(t.take(k) =~= a);
    assert(t.skip(k + 1) =~= b);
}

/// Splitting text into lines: a first line without a line break comes out as it is, ended
/// by `\n` or by `\r\n`, and the rest of the text is split the same way; text without a line
/// break is one line.
pub proof fn law_lines(a: Seq<char>, b: Seq<char>)
    requires
        forall|i: int| 0 <= i < a.len() ==> #[trigger] a[i] != '\n',
    ensures
        (a.len() == 0 || a.last() != '\r') ==> spec_lines(a + seq!['\n'] + b) == seq![a]
            + spec_lines(b),
        spec_lines(a + seq!['\r', '\n'] + b) == seq![a] + spec_lines(b),
        a.len() > 0 ==> spec_lines(a) == seq![a],
{
    lemma_first_index_of(a, '\n');
    lemma_lines_first(a, b);
    let ar = a.push('\r');
    assert forall|i: int| 0 <= i < ar.len() implies #[trigger] ar[i] != '\n' by {
        if i < a.len() {
            assert(ar[i] == a[i]);
        }
    }
    lemma_lines_first(ar, b);
    assert(a + seq!['\r', '\n'] + b =~= ar + seq!['\n'] + b);
    assert(ar.drop_last() =~= a);
    if a.len() > 0 {
        if first_index_of(a, '\n') < a.len() {
            assert(a[first_index_of(a, '\n')] == '\n');
        }
    }
}

} // verus!
