use vstd::prelude::*;

verus! {

// ---------------------------------------------------------------------------
// Character-level model of strings
// ---------------------------------------------------------------------------

/// The Unicode `White_Space` characters, which is what `char::is_whitespace`
/// and `str::trim` go by.
pub open spec fn is_ws(c: char) -> bool {
    let u = c as u32;
    ||| 0x09 <= u <= 0x0D
    ||| u == 0x20
    ||| u == 0x85
    ||| u == 0xA0
    ||| u == 0x1680
    ||| 0x2000 <= u <= 0x200A
    ||| u == 0x2028
    ||| u == 0x2029
    ||| u == 0x202F
    ||| u == 0x205F
    ||| u == 0x3000
}

/// `s` without its leading white space.
pub open spec fn trim_start(s: Seq<char>) -> Seq<char>
    decreases s.len(),
{
    if s.len() > 0 && is_ws(s[0]) {
        trim_start(s.drop_first())
    } else {
        s
    }
}

/// `s` without its trailing white space.
pub open spec fn trim_end(s: Seq<char>) -> Seq<char>
    decreases s.len(),
{
    if s.len() > 0 && is_ws(s.last()) {
        trim_end(s.drop_last())
    } else {
        s
    }
}

/// `s` without leading and trailing white space (`str::trim`).
pub open spec fn trim(s: Seq<char>) -> Seq<char> {
    trim_end(trim_start(s))
}

/// The index of the first `c` in `s`, or `s.len()` where there is none.
pub open spec fn first_index_of(s: Seq<char>, c: char) -> int {
    if exists|k: int| 0 <= k < s.len() && s[k] == c {
        choose|k: int| 0 <= k < s.len() && s[k] == c && forall|j: int| 0 <= j < k ==> s[j] != c
    } else {
        s.len() as int
    }
}

/// The summary line of a note's body: the body trimmed, cut at its first line
/// break, and trimmed again.
pub open spec fn first_line_of(s: Seq<char>) -> Seq<char> {
    let t = trim(s);
    let i = first_index_of(t, '\n');
    if i < t.len() {
        trim(t.take(i))
    } else {
        t
    }
}

/// `s` shortened to at most `max` characters, the last of which is then an
/// ellipsis; a string that fits is kept whole.
pub open spec fn truncated(s: Seq<char>, max: nat) -> Seq<char> {
    if s.len() <= max {
        s
    } else {
        let keep: nat = if max >= 1 { (max - 1) as nat } else { 0 };
        s.take(keep as int).push('…')
    }
}

/// `needle` occurs in `hay` as a run of consecutive characters
/// (`str::contains` with a string pattern).
pub open spec fn contains_seq(hay: Seq<char>, needle: Seq<char>) -> bool {
    exists|i: int| 0 <= i && i + needle.len() <= hay.len()
        && #[trigger] hay.subrange(i, i + needle.len()) == needle
}

// ---------------------------------------------------------------------------
// Laws of trimming, first lines and truncation
// ---------------------------------------------------------------------------

/// Trimming the start keeps a suffix whose first character, if any, is not
/// white space.
proof fn lemma_trim_start(s: Seq<char>)
    ensures
        exists|a: int| 0 <= a <= s.len() && trim_start(s) == s.skip(a),
        trim_start(s).len() > 0 ==> !is_ws(trim_start(s)[0]),
    decreases s.len(),
{
    if s.len() > 0 && is_ws(s[0]) {
        lemma_trim_start(s.drop_first());
        let a = choose|a: int|
            0 <= a <= s.drop_first().len() && trim_start(s.drop_first()) == s.drop_first().skip(a);
        assert(s.drop_first().skip(a) =~= s.skip(a + 1));
    } else {
        assert(s.skip(0) =~= s);
    }
}

/// Trimming the end keeps a prefix whose last character, if any, is not
/// white space.
proof fn lemma_trim_end(s: Seq<char>)
    ensures
        exists|b: int| 0 <= b <= s.len() && trim_end(s) == s.take(b),
        trim_end(s).len() > 0 ==> !is_ws(trim_end(s).last()),
    decreases s.len(),
{
    if s.len() > 0 && is_ws(s.last()) {
        lemma_trim_end(s.drop_last());
        let b = choose|b: int|
            0 <= b <= s.drop_last().len() && trim_end(s.drop_last()) == s.drop_last().take(b);
        assert(s.drop_last().take(b) =~= s.take(b));
    } else {
        assert(s.take(s.len() as int) =~= s);
    }
}

/// A trimmed text is a run of consecutive characters of the text that neither
/// starts nor ends with white space.
pub proof fn law_trim(s: Seq<char>)
    ensures
        exists|a: int, b: int| 0 <= a <= b <= s.len() && trim(s) == s.subrange(a, b),
        trim(s).len() > 0 ==> !is_ws(trim(s)[0]) && !is_ws(trim(s).last()),
{
    lemma_trim_start(s);
    let t = trim_start(s);
    let a = choose|a: int| 0 <= a <= s.len() && t == s.skip(a);
    lemma_trim_end(t);
    let b = choose|b: int| 0 <= b <= t.len() && trim_end(t) == t.take(b);
    assert(t.take(b) =~= s.subrange(a, a + b));
    if trim(s).len() > 0 {
        assert(trim(s)[0] == t[0]);
    }
}

/// Where some element satisfies `p`, a first one does.
pub proof fn lemma_first_match<A>(s: Seq<A>, p: spec_fn(A) -> bool, w: int)
    requires
        0 <= w < s.len(),
        p(s[w]),
    ensures
        exists|k: int| 0 <= k < s.len() && p(s[k]) && forall|j: int| 0 <= j < k ==> !p(s[j]),
    decreases w,
{
    if exists|j: int| 0 <= j < w && p(s[j]) {
        let j = choose|j: int| 0 <= j < w && p(s[j]);
        lemma_first_match(s, p, j);
    } else {
        assert(0 <= w < s.len() && p(s[w]) && forall|j: int| 0 <= j < w ==> !p(s[j]));
    }
}

/// `first_index_of` is the first occurrence, or the length where there is none.
pub proof fn lemma_first_index_of(s: Seq<char>, c: char)
    ensures
        0 <= first_index_of(s, c) <= s.len(),
        first_index_of(s, c) < s.len() ==> s[first_index_of(s, c)] == c,
        forall|j: int| 0 <= j < first_index_of(s, c) ==> s[j] != c,
{
    if exists|k: int| 0 <= k < s.len() && s[k] == c {
        let w = choose|k: int| 0 <= k < s.len() && s[k] == c;
        let p = |x: char| x == c;
        lemma_first_match(s, p, w);
        let k = choose|k: int| 0 <= k < s.len() && p(s[k]) && forall|j: int| 0 <= j < k ==> !p(s[j]);
        assert(0 <= k < s.len() && s[k] == c && forall|j: int| 0 <= j < k ==> s[j] != c);
    }
}

/// No character of `trim(s)` is a line break where `s` holds none.
proof fn lemma_trim_no_newline(s: Seq<char>)
    requires
        forall|j: int| 0 <= j < s.len() ==> s[j] != '\n',
    ensures
        forall|j: int| 0 <= j < trim(s).len() ==> trim(s)[j] != '\n',
{
    law_trim(s);
    let (a, b) = choose|a: int, b: int| 0 <= a <= b <= s.len() && trim(s) == s.subrange(a, b);
    assert forall|j: int| 0 <= j < trim(s).len() implies trim(s)[j] != '\n' by {
        assert(trim(s)[j] == s[a + j]);
    }
}

/// The summary line of a note is one line: it holds no line break, and it
/// neither starts nor ends with white space.
pub proof fn law_first_line_is_one_trimmed_line(s: Seq<char>)
    ensures
        forall|j: int| 0 <= j < first_line_of(s).len() ==> first_line_of(s)[j] != '\n',
        first_line_of(s).len() > 0 ==> !is_ws(first_line_of(s)[0]) && !is_ws(first_line_of(s).last()),
{
    let t = trim(s);
    law_trim(s);
    lemma_first_index_of(t, '\n');
    let i = first_index_of(t, '\n');
    if i < t.len() {
        let h = t.take(i);
        law_trim(h);
        lemma_trim_no_newline(h);
    }
}

/// The preview is the whole first line of the trimmed body: the trimmed body
/// itself where it holds no line break, else the trimmed part before its first
/// line break.
pub proof fn law_first_line_is_whole_first_line(s: Seq<char>)
    ensures
        (forall|j: int| 0 <= j < trim(s).len() ==> trim(s)[j] != '\n') ==> first_line_of(s) == trim(s),
        forall|i: int|
            0 <= i < trim(s).len() && trim(s)[i] == '\n' && (forall|j: int|
                0 <= j < i ==> trim(s)[j] != '\n') ==> first_line_of(s) == trim(#[trigger] trim(s).take(i)),
{
    let t = trim(s);
    lemma_first_index_of(t, '\n');
    let k = first_index_of(t, '\n');
    assert forall|i: int|
        0 <= i < t.len() && t[i] == '\n' && (forall|j: int| 0 <= j < i ==> t[j] != '\n') implies first_line_of(s)
        == trim(#[trigger] t.take(i)) by {
        if k < i {
            assert(t[k] == '\n');
        }
        if i < k {
            assert(t[i] != '\n');
        }
    }
    if forall|j: int| 0 <= j < t.len() ==> t[j] != '\n' {
        if k < t.len() {
            assert(t[k] == '\n');
        }
    }
}

/// A truncated text has at most `max` characters (one, the ellipsis, where
/// `max` is zero); a text that fits is left as it is.
pub proof fn law_truncate_length(s: Seq<char>, max: nat)
    ensures
        truncated(s, max).len() <= if max == 0 { 1 } else { max },
        s.len() <= max ==> truncated(s, max) == s,
        s.len() > max ==> truncated(s, max).last() == '…',
{
}

// ---------------------------------------------------------------------------
// Conversions between strings and character vectors
// ---------------------------------------------------------------------------

/// The characters of a string slice, one by one.
pub fn chars_of(s: &str) -> (v: Vec<char>)
    ensures
        v@ == s@,
{
    let mut v: Vec<char> = Vec::new();
    for c in it: s.chars()
        invariant
            it.seq() == s@,
            v@ == it.seq().take(it.index() as int),
    {
        v.push(c);
    }
    v
}

/// Collects characters into a `String` (`FromIterator<char>` for `String`).
/// Trusted: the string holds exactly the given characters, in order.
#[verifier::external_body]
pub(crate) fn string_of(v: &Vec<char>) -> (s: String)
    ensures
        s@ == v@,
{
    v.iter().collect()
}

/// Appends the characters of `src` to `out`.
pub fn push_all(out: &mut Vec<char>, src: &Vec<char>)
    ensures
        final(out)@ == old(out)@ + src@,
{
    let n = src.len();
    for i in 0..n
        invariant
            n == src@.len(),
            out@ == old(out)@ + src@.take(i as int),
    {
        out.push(src[i]);
        assert(src@.take(i + 1) =~= src@.take(i as int).push(src@[i as int]));
    }
    assert(src@.take(n as int) =~= src@);
}

/// Appends the characters of a string slice to `out`.
pub fn push_str(out: &mut Vec<char>, s: &str)
    ensures
        final(out)@ == old(out)@ + s@,
{
    let v = chars_of(s);
    push_all(out, &v);
}

/// The characters of `v` from index `a` up to, not including, `b`.
pub fn slice_chars(v: &Vec<char>, a: usize, b: usize) -> (r: Vec<char>)
    requires
        a <= b <= v@.len(),
    ensures
        r@ == v@.subrange(a as int, b as int),
{
    let mut r: Vec<char> = Vec::new();
    let mut i = a;
    while i < b
        invariant
            a <= i <= b <= v@.len(),
            r@ == v@.subrange(a as int, i as int),
        decreases b - i,
    {
        r.push(v[i]);
        assert(v@.subrange(a as int, i + 1) =~= v@.subrange(a as int, i as int).push(v@[i as int]));
        i = i + 1;
    }
    r
}

// ---------------------------------------------------------------------------
// White space and trimming
// ---------------------------------------------------------------------------

/// `char::is_whitespace`.
pub fn is_whitespace(c: char) -> (b: bool)
    ensures
        b == is_ws(c),
{
    let u = c as u32;
    (0x09 <= u && u <= 0x0D) || u == 0x20 || u == 0x85 || u == 0xA0 || u == 0x1680 || (0x2000
        <= u && u <= 0x200A) || u == 0x2028 || u == 0x2029 || u == 0x202F || u == 0x205F || u
        == 0x3000
}

/// The bounds of the trimmed part of `v`: `v[start..end]` is `trim(v)`.
pub fn trim_bounds(v: &Vec<char>) -> (r: (usize, usize))
    ensures
        r.0 <= r.1 <= v@.len(),
        v@.subrange(r.0 as int, r.1 as int) == trim(v@),
{
    let n = v.len();
    let mut a: usize = 0;
    assert(v@.skip(0) =~= v@);
    while a < n && is_whitespace(v[a])
        invariant
            a <= n == v@.len(),
            trim_start(v@) == trim_start(v@.skip(a as int)),
        decreases n - a,
    {
        assert(v@.skip(a as int).drop_first() =~= v@.skip(a + 1));
        a = a + 1;
    }
    let ghost ts = v@.skip(a as int);
    assert(trim_start(ts) == ts);
    assert(trim_start(v@) =~= v@.subrange(a as int, n as int));
    let mut b: usize = n;
    while b > a && is_whitespace(v[b - 1])
        invariant
            a <= b <= n == v@.len(),
            trim_start(v@) =~= v@.subrange(a as int, n as int),
            trim(v@) == trim_end(v@.subrange(a as int, b as int)),
        decreases b - a,
    {
        assert(v@.subrange(a as int, b as int).drop_last() =~= v@.subrange(a as int, b - 1));
        b = b - 1;
    }
    (a, b)
}

/// `s.trim()`, as characters.
pub fn trim_chars(v: &Vec<char>) -> (r: Vec<char>)
    ensures
        r@ == trim(v@),
{
    let (a, b) = trim_bounds(v);
    slice_chars(v, a, b)
}

/// `s.trim().is_empty()`.
pub fn is_blank(s: &str) -> (b: bool)
    ensures
        b == (trim(s@).len() == 0),
{
    let v = chars_of(s);
    let (a, b) = trim_bounds(&v);
    a == b
}

// ---------------------------------------------------------------------------
// Card text
// ---------------------------------------------------------------------------

/// Shortens `s` to at most `max_chars` characters, an ellipsis standing for
/// what was cut.
pub fn truncate(s: &str, max_chars: usize) -> (r: String)
    ensures
        r@ == truncated(s@, max_chars as nat),
{
    let v = chars_of(s);
    if v.len() <= max_chars {
        string_of(&v)
    } else {
        let keep = max_chars.saturating_sub(1);
        let mut out = slice_chars(&v, 0, keep);
        out.push('…');
        assert(v@.subrange(0, keep as int) =~= v@.take(keep as int));
        string_of(&out)
    }
}

/// The index of the first `c` in `v`, or its length.
pub fn find_char(v: &Vec<char>, c: char) -> (i: usize)
    ensures
        i == first_index_of(v@, c),
{
    let n = v.len();
    let mut i: usize = 0;
    while i < n && v[i] != c
        invariant
            i <= n == v@.len(),
            forall|j: int| 0 <= j < i ==> v@[j] != c,
        decreases n - i,
    {
        i = i + 1;
    }
    proof {
        if i < n {
            let k = choose|k: int|
                0 <= k < v@.len() && v@[k] == c && forall|j: int| 0 <= j < k ==> v@[j] != c;
            assert(v@[i as int] == c);
            if k < i {
                assert(v@[k] != c);
            }
            if i < k {
                assert(v@[i as int] != c);
            }
        } else {
            assert(!exists|k: int| 0 <= k < v@.len() && v@[k] == c);
        }
    }
    i
}

/// The first line of a note's body, for the card's preview.
pub fn first_line(s: &str) -> (r: String)
    ensures
        r@ == first_line_of(s@),
{
    let v = chars_of(s);
    let t = trim_chars(&v);
    let i = find_char(&t, '\n');
    if i < t.len() {
        let head = slice_chars(&t, 0, i);
        assert(t@.subrange(0, i as int) =~= t@.take(i as int));
        let r = trim_chars(&head);
        string_of(&r)
    } else {
        string_of(&t)
    }
}

/// The title shown on a note's card: the title itself, or "无标题" (untitled)
/// where it is blank.
pub open spec fn card_title_of(title: Seq<char>) -> Seq<char> {
    if trim(title).len() == 0 {
        "无标题"@
    } else {
        title
    }
}

/// The title shown on a note's card.
pub fn card_title(title: &str) -> (r: String)
    ensures
        r@ == card_title_of(title@),
{
    if is_blank(title) {
        String::from_str("无标题")
    } else {
        String::from_str(title)
    }
}

// ---------------------------------------------------------------------------
// Search
// ---------------------------------------------------------------------------

/// Whether `needle` occurs in `hay` starting at index `i`.
fn occurs_at(hay: &Vec<char>, needle: &Vec<char>, i: usize) -> (b: bool)
    requires
        i + needle@.len() <= hay@.len(),
    ensures
        b == (hay@.subrange(i as int, i + needle@.len()) == needle@),
{
    let m = needle.len();
    let n = hay.len();
    let mut k: usize = 0;
    while k < m
        invariant
            m == needle@.len(),
            n == hay@.len(),
            i + m <= hay@.len(),
            k <= m,
            forall|j: int| 0 <= j < k ==> hay@[i + j] == needle@[j],
        decreases m - k,
    {
        if hay[i + k] != needle[k] {
            proof {
                let sub = hay@.subrange(i as int, i + m);
                assert(sub[k as int] != needle@[k as int]);
            }
            return false;
        }
        k = k + 1;
    }
    assert(hay@.subrange(i as int, i + m) =~= needle@);
    true
}

/// `hay.contains(needle)` for character sequences.
pub fn contains_chars(hay: &Vec<char>, needle: &Vec<char>) -> (b: bool)
    ensures
        b == contains_seq(hay@, needle@),
{
    let n = hay.len();
    let m = needle.len();
    if m > n {
        return false;
    }
    if m == 0 {
        assert(hay@.subrange(0int, 0int + needle@.len()) =~= needle@);
        return true;
    }
    let mut i: usize = 0;
    while i <= n - m
        invariant
            n == hay@.len(),
            m == needle@.len(),
            1 <= m <= n,
            i <= n - m + 1,
            forall|j: int| 0 <= j < i ==> #[trigger] hay@.subrange(j, j + m) != needle@,
        decreases n - m + 1 - i,
    {
        if occurs_at(hay, needle, i) {
            return true;
        }
        i = i + 1;
    }
    proof {
        assert forall|j: int| 0 <= j && j + needle@.len() <= hay@.len() implies #[trigger] hay@.subrange(
            j,
            j + needle@.len(),
        ) != needle@ by {
            assert(j < i);
        }
    }
    false
}

} // verus!
