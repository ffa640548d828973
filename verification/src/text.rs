//! Text as sequences of characters: searching, splitting, trimming, decimal
//! numbers and padding. Every other module states its output over the
//! specification functions of this one.
use vstd::prelude::*;

verus! {

/// `String::push` appends one character to the end of the string.
pub assume_specification[ String::push ](s: &mut String, c: char)
    ensures
        final(s)@ == old(s)@.push(c),
;

// ── Characters in and out of strings ─────────────────────────────────────────

/// The characters of a list of strings.
pub open spec fn texts(v: Seq<String>) -> Seq<Seq<char>> {
    v.map_values(|s: String| s@)
}

/// The range of a character's code.
pub proof fn char_range(c: char)
    ensures
        0 <= c as int <= 0x10ffff,
        c as u32 == c as int,
{
}

/// Concatenation associates.
pub broadcast proof fn concat_assoc<T>(s: Seq<T>, a: Seq<T>, b: Seq<T>)
    ensures
        #[trigger] (s + (a + b)) == s + a + b,
{
    assert(s + (a + b) =~= s + a + b);
}

/// The characters of `s`, in order.
pub fn chars_of(s: &str) -> (v: Vec<char>)
    ensures
        v@ == s@,
{
    let mut v: Vec<char> = Vec::new();
    for c in it: s.chars()
        invariant
            v@ == it.seq().take(it.index() as int),
            it.seq() == s@,
    {
        v.push(c);
    }
    v
}

/// The characters `from..to` as an owned string.
pub fn text_of(v: &Vec<char>, from: usize, to: usize) -> (s: String)
    requires
        from <= to <= v.len(),
    ensures
        s@ == v@.subrange(from as int, to as int),
{
    let mut s: String = String::new();
    let mut i: usize = from;
    while i < to
        invariant
            from <= i <= to <= v.len(),
            s@ == v@.subrange(from as int, i as int),
        decreases to - i,
    {
        s.push(v[i]);
        i += 1;
        assert(v@.subrange(from as int, i as int) == v@.subrange(from as int, i - 1).push(v@[i - 1]));
    }
    s
}

/// Whether two strings hold the same characters.
pub fn same(a: &str, b: &str) -> (r: bool)
    ensures
        r == (a@ == b@),
{
    let x = chars_of(a);
    let y = chars_of(b);
    if x.len() != y.len() {
        return false;
    }
    let mut i: usize = 0;
    while i < x.len()
        invariant
            x@ == a@,
            y@ == b@,
            x.len() == y.len(),
            i <= x.len(),
            forall|k: int| 0 <= k < i ==> x@[k] == y@[k],
        decreases x.len() - i,
    {
        if x[i] != y[i] {
            assert(a@[i as int] != b@[i as int]);
            return false;
        }
        i += 1;
    }
    assert(a@ =~= b@);
    true
}

// ── Searching ────────────────────────────────────────────────────────────────

/// The first index at or after `i` that holds `c`, or the length if none does.
pub open spec fn find<T>(s: Seq<T>, i: int, c: T) -> int
    decreases s.len() - i,
{
    if i >= s.len() {
        s.len() as int
    } else if s[i] == c {
        i
    } else {
        find(s, i + 1, c)
    }
}

/// What makes an index the result of [`find`].
pub proof fn lemma_find<T>(s: Seq<T>, i: int, c: T)
    requires
        0 <= i <= s.len(),
    ensures
        i <= find(s, i, c) <= s.len(),
        forall|k: int| i <= k < find(s, i, c) ==> s[k] != c,
        find(s, i, c) < s.len() ==> s[find(s, i, c)] == c,
    decreases s.len() - i,
{
    if i < s.len() && s[i] != c {
        lemma_find(s, i + 1, c);
    }
}

/// An index that holds `c` with no `c` before it is the one [`find`] gives.
pub proof fn lemma_find_is<T>(s: Seq<T>, i: int, c: T, j: int)
    requires
        0 <= i <= j <= s.len(),
        forall|k: int| i <= k < j ==> s[k] != c,
        j < s.len() ==> s[j] == c,
    ensures
        find(s, i, c) == j,
    decreases j - i,
{
    if i < j {
        lemma_find_is(s, i + 1, c, j);
    }
}

/// First index at or after `from` that holds `c`, or the length.
pub fn find_char(v: &Vec<char>, from: usize, c: char) -> (r: usize)
    requires
        from <= v.len(),
    ensures
        r == find(v@, from as int, c),
        from <= r <= v.len(),
{
    let mut i: usize = from;
    while i < v.len() && v[i] != c
        invariant
            from <= i <= v.len(),
            find(v@, from as int, c) == find(v@, i as int, c),
        decreases v.len() - i,
    {
        i += 1;
    }
    i
}

/// Whether `pat` stands in `s` at index `i`.
pub open spec fn occurs_at<T>(s: Seq<T>, i: int, pat: Seq<T>) -> bool {
    &&& 0 <= i
    &&& i + pat.len() <= s.len()
    &&& s.subrange(i, i + pat.len()) == pat
}

/// Whether `s` begins with `pat`.
pub open spec fn begins<T>(s: Seq<T>, pat: Seq<T>) -> bool {
    occurs_at(s, 0, pat)
}

/// Whether `s` ends with `pat`.
pub open spec fn ends<T>(s: Seq<T>, pat: Seq<T>) -> bool {
    occurs_at(s, s.len() - pat.len(), pat)
}

/// The first index at or after `i` at which `pat` stands, if any.
pub open spec fn find_seq<T>(s: Seq<T>, i: int, pat: Seq<T>) -> Option<int>
    decreases s.len() - i + 1,
{
    if i > s.len() {
        None
    } else if occurs_at(s, i, pat) {
        Some(i)
    } else {
        find_seq(s, i + 1, pat)
    }
}

/// Whether `pat` stands anywhere in `s`.
pub open spec fn contains<T>(s: Seq<T>, pat: Seq<T>) -> bool {
    exists|i: int| occurs_at(s, i, pat)
}

/// [`find_seq`] gives the least index at which the pattern stands.
pub proof fn lemma_find_seq<T>(s: Seq<T>, i: int, pat: Seq<T>)
    requires
        0 <= i,
    ensures
        match find_seq(s, i, pat) {
            Some(j) => i <= j && occurs_at(s, j, pat) && forall|k: int|
                i <= k < j ==> !occurs_at(s, k, pat),
            None => forall|k: int| i <= k ==> !occurs_at(s, k, pat),
        },
    decreases s.len() - i + 1,
{
    if i <= s.len() && !occurs_at(s, i, pat) {
        lemma_find_seq(s, i + 1, pat);
    }
}

/// The least index at which the pattern stands is the one [`find_seq`] gives.
pub proof fn lemma_find_seq_is<T>(s: Seq<T>, i: int, pat: Seq<T>, j: int)
    requires
        0 <= i <= j,
        occurs_at(s, j, pat),
        forall|k: int| i <= k < j ==> !occurs_at(s, k, pat),
    ensures
        find_seq(s, i, pat) == Some(j),
    decreases j - i,
{
    if i < j {
        lemma_find_seq_is(s, i + 1, pat, j);
    }
}

/// Whether `pat` stands in `v` at index `i`.
pub fn stands_at(v: &Vec<char>, i: usize, pat: &Vec<char>) -> (r: bool)
    requires
        i <= v.len(),
    ensures
        r == occurs_at(v@, i as int, pat@),
{
    if pat.len() > v.len() - i {
        return false;
    }
    let mut k: usize = 0;
    while k < pat.len()
        invariant
            pat.len() <= v.len() - i,
            i <= v.len(),
            k <= pat.len(),
            forall|m: int| 0 <= m < k ==> v@[i + m] == pat@[m],
        decreases pat.len() - k,
    {
        if v[i + k] != pat[k] {
            assert(v@.subrange(i as int, i + pat@.len())[k as int] != pat@[k as int]);
            return false;
        }
        k += 1;
    }
    assert(v@.subrange(i as int, i + pat@.len()) =~= pat@);
    true
}

/// First index at or after `from` at which `pat` stands.
pub fn find_text(v: &Vec<char>, from: usize, pat: &Vec<char>) -> (r: Option<usize>)
    requires
        from <= v.len(),
    ensures
        match r {
            Some(j) => find_seq(v@, from as int, pat@) == Some(j as int) && j + pat.len() <= v.len(),
            None => find_seq(v@, from as int, pat@) is None,
        },
{
    let mut i: usize = from;
    loop
        invariant
            from <= i <= v.len(),
            find_seq(v@, from as int, pat@) == find_seq(v@, i as int, pat@),
        decreases v.len() - i,
    {
        if stands_at(v, i, pat) {
            return Some(i);
        }
        if i == v.len() {
            assert(find_seq(v@, i + 1, pat@) is None);
            return None;
        }
        i += 1;
    }
}

/// Whether `s` begins with `pat`.
pub fn has_prefix(s: &str, pat: &str) -> (r: bool)
    ensures
        r == begins(s@, pat@),
{
    let v = chars_of(s);
    let p = chars_of(pat);
    stands_at(&v, 0, &p)
}

/// Whether `s` ends with `pat`.
pub fn has_suffix(s: &str, pat: &str) -> (r: bool)
    ensures
        r == ends(s@, pat@),
{
    let v = chars_of(s);
    let p = chars_of(pat);
    if p.len() > v.len() {
        return false;
    }
    stands_at(&v, v.len() - p.len(), &p)
}

// ── White space ──────────────────────────────────────────────────────────────

/// The characters with the Unicode property `White_Space`.
pub open spec fn white(c: char) -> bool {
    let n = c as u32;
    ||| 0x9 <= n <= 0xd
    ||| n == 0x20
    ||| n == 0x85
    ||| n == 0xa0
    ||| n == 0x1680
    ||| 0x2000 <= n <= 0x200a
    ||| n == 0x2028
    ||| n == 0x2029
    ||| n == 0x202f
    ||| n == 0x205f
    ||| n == 0x3000
}

/// Whether `c` is white space.
pub fn is_white(c: char) -> (r: bool)
    ensures
        r == white(c),
{
    let n: u32 = c as u32;
    (0x9 <= n && n <= 0xd) || n == 0x20 || n == 0x85 || n == 0xa0 || n == 0x1680 || (0x2000 <= n
        && n <= 0x200a) || n == 0x2028 || n == 0x2029 || n == 0x202f || n == 0x205f || n == 0x3000
}

/// The first index at or after `i` whose character is not white space.
pub open spec fn skip_white(s: Seq<char>, i: int) -> int
    decreases s.len() - i,
{
    if i < s.len() && white(s[i]) {
        skip_white(s, i + 1)
    } else {
        i
    }
}

/// The first index at or after `i` whose character is white space, or the length.
pub open spec fn skip_ink(s: Seq<char>, i: int) -> int
    decreases s.len() - i,
{
    if i < s.len() && !white(s[i]) {
        skip_ink(s, i + 1)
    } else {
        i
    }
}

/// The end of what is left of `s[..i]` without its trailing white space.
pub open spec fn back_over_white(s: Seq<char>, i: int) -> int
    decreases i,
{
    if 0 < i <= s.len() && white(s[i - 1]) {
        back_over_white(s, i - 1)
    } else {
        i
    }
}

/// `s` without leading and trailing white space.
pub open spec fn trimmed(s: Seq<char>) -> Seq<char> {
    let a = skip_white(s, 0);
    if a == s.len() {
        Seq::empty()
    } else {
        s.subrange(a, back_over_white(s, s.len() as int))
    }
}

/// What is skipped is white space, and what is behind it is not.
pub proof fn lemma_skip_white(s: Seq<char>, i: int)
    requires
        0 <= i <= s.len(),
    ensures
        i <= skip_white(s, i) <= s.len(),
        forall|k: int| i <= k < skip_white(s, i) ==> white(s[k]),
        skip_white(s, i) < s.len() ==> !white(s[skip_white(s, i)]),
    decreases s.len() - i,
{
    if i < s.len() && white(s[i]) {
        lemma_skip_white(s, i + 1);
    }
}

/// What is skipped is no white space, and what is behind it is.
pub proof fn lemma_skip_ink(s: Seq<char>, i: int)
    requires
        0 <= i <= s.len(),
    ensures
        i <= skip_ink(s, i) <= s.len(),
        forall|k: int| i <= k < skip_ink(s, i) ==> !white(s[k]),
        skip_ink(s, i) < s.len() ==> white(s[skip_ink(s, i)]),
    decreases s.len() - i,
{
    if i < s.len() && !white(s[i]) {
        lemma_skip_ink(s, i + 1);
    }
}

/// Skipping backwards ends behind a character that is no white space.
pub proof fn lemma_back_over_white(s: Seq<char>, i: int, a: int)
    requires
        0 <= a < i <= s.len(),
        !white(s[a]),
    ensures
        a < back_over_white(s, i) <= i,
        !white(s[back_over_white(s, i) - 1]),
        forall|k: int| back_over_white(s, i) <= k < i ==> white(#[trigger] s[k]),
    decreases i,
{
    if white(s[i - 1]) {
        lemma_back_over_white(s, i - 1, a);
    }
}

/// First index at or after `from` whose character is not white space.
pub fn past_white(v: &Vec<char>, from: usize) -> (r: usize)
    requires
        from <= v.len(),
    ensures
        r == skip_white(v@, from as int),
        from <= r <= v.len(),
{
    let mut i: usize = from;
    while i < v.len() && is_white(v[i])
        invariant
            from <= i <= v.len(),
            skip_white(v@, from as int) == skip_white(v@, i as int),
        decreases v.len() - i,
    {
        i += 1;
    }
    i
}

/// First index at or after `from` whose character is white space, or the length.
pub fn past_ink(v: &Vec<char>, from: usize) -> (r: usize)
    requires
        from <= v.len(),
    ensures
        r == skip_ink(v@, from as int),
        from <= r <= v.len(),
{
    let mut i: usize = from;
    while i < v.len() && !is_white(v[i])
        invariant
            from <= i <= v.len(),
            skip_ink(v@, from as int) == skip_ink(v@, i as int),
        decreases v.len() - i,
    {
        i += 1;
    }
    i
}

/// `s` without leading and trailing white space.
pub fn trim(s: &str) -> (r: String)
    ensures
        r@ == trimmed(s@),
{
    let v = chars_of(s);
    let a: usize = past_white(&v, 0);
    if a == v.len() {
        return String::new();
    }
    proof {
        lemma_skip_white(v@, 0);
        lemma_back_over_white(v@, v@.len() as int, a as int);
    }
    let mut b: usize = v.len();
    while is_white(v[b - 1])
        invariant
            a < b <= v.len(),
            !white(v@[a as int]),
            back_over_white(v@, v@.len() as int) == back_over_white(v@, b as int),
        decreases b,
    {
        b -= 1;
    }
    text_of(&v, a, b)
}

// ── Splitting ────────────────────────────────────────────────────────────────

/// The pieces of `s` between the occurrences of `c`; there is always one more
/// piece than there are occurrences.
pub open spec fn split(s: Seq<char>, c: char) -> Seq<Seq<char>>
    decreases s.len(),
{
    let j = find(s, 0, c);
    if 0 <= j < s.len() {
        seq![s.take(j)] + split(s.skip(j + 1), c)
    } else {
        seq![s]
    }
}

/// The maximal runs of characters that are not white space.
pub open spec fn words(s: Seq<char>) -> Seq<Seq<char>>
    decreases s.len(),
{
    let a = skip_white(s, 0);
    let b = skip_ink(s, a);
    if 0 <= a < b <= s.len() {
        seq![s.subrange(a, b)] + words(s.skip(b))
    } else {
        Seq::empty()
    }
}

/// `s` without one trailing carriage return.
pub open spec fn without_cr(s: Seq<char>) -> Seq<char> {
    if s.len() > 0 && s.last() == '\r' {
        s.drop_last()
    } else {
        s
    }
}

/// The lines of `s`: each ends at a line feed, of which a preceding carriage
/// return is part; a last line need not end in one.
pub open spec fn lines(s: Seq<char>) -> Seq<Seq<char>>
    decreases s.len(),
{
    let j = find(s, 0, '\n');
    if s.len() == 0 {
        Seq::empty()
    } else if 0 <= j < s.len() {
        seq![without_cr(s.take(j))] + lines(s.skip(j + 1))
    } else {
        seq![s]
    }
}

/// Finding from an index on is finding in what follows it.
pub proof fn lemma_find_skip<T>(s: Seq<T>, i: int, c: T)
    requires
        0 <= i <= s.len(),
    ensures
        find(s, i, c) == i + find(s.skip(i), 0, c),
{
    lemma_find(s.skip(i), 0, c);
    let k = find(s.skip(i), 0, c);
    assert forall|m: int| i <= m < i + k implies s[m] != c by {
        assert(s.skip(i)[m - i] == s[m]);
    }
    if k < s.skip(i).len() {
        assert(s.skip(i)[k] == s[i + k]);
    }
    lemma_find_is(s, i, c, i + k);
}

/// Skipping white space commutes with dropping what is before.
pub proof fn lemma_skip_white_skip(s: Seq<char>, i: int)
    requires
        0 <= i <= s.len(),
    ensures
        skip_white(s, i) == i + skip_white(s.skip(i), 0),
    decreases s.len() - i,
{
    if i < s.len() && white(s[i]) {
        lemma_skip_white_skip(s, i + 1);
        lemma_skip_white_skip(s.skip(i), 1);
        assert(s.skip(i).skip(1) == s.skip(i + 1));
        assert(s.skip(i)[0] == s[i]);
    } else if i < s.len() {
        assert(s.skip(i)[0] == s[i]);
    }
}

/// Skipping ink commutes with dropping what is before.
pub proof fn lemma_skip_ink_skip(s: Seq<char>, i: int, j: int)
    requires
        0 <= i <= j <= s.len(),
    ensures
        skip_ink(s, j) == i + skip_ink(s.skip(i), j - i),
    decreases s.len() - j,
{
    if j < s.len() {
        assert(s.skip(i)[j - i] == s[j]);
        if !white(s[j]) {
            lemma_skip_ink_skip(s, i, j + 1);
        }
    }
}

/// Leading white space does not change the words.
pub proof fn lemma_words_after_white(w: char, rest: Seq<char>)
    requires
        white(w),
    ensures
        words(seq![w] + rest) == words(rest),
{
    let s = seq![w] + rest;
    assert(s.skip(1) == rest);
    lemma_skip_white_skip(s, 1);
    assert(skip_white(s, 0) == skip_white(s, 1));
    lemma_skip_white(rest, 0);
    let a = skip_white(rest, 0);
    lemma_skip_ink_skip(s, 1, a + 1);
    lemma_skip_ink(rest, a);
    let b = skip_ink(rest, a);
    if a < b {
        assert(s.subrange(a + 1, b + 1) == rest.subrange(a, b));
        assert(s.skip(b + 1) == rest.skip(b));
    }
}

/// A run without white space, then white space, then the rest: the run is the
/// first word, and the words of the rest follow.
pub proof fn lemma_words_cons(a: Seq<char>, w: char, rest: Seq<char>)
    requires
        a.len() > 0,
        forall|k: int| 0 <= k < a.len() ==> !white(#[trigger] a[k]),
        white(w),
    ensures
        words(a + seq![w] + rest) == seq![a] + words(rest),
{
    let s = a + seq![w] + rest;
    assert(s[0] == a[0]);
    assert(skip_white(s, 0) == 0);
    lemma_ink_run(s, 0, a.len() as int);
    assert(s.subrange(0, a.len() as int) == a);
    assert(s.skip(a.len() as int) == seq![w] + rest);
    lemma_words_after_white(w, rest);
}

/// A run without white space is its only word.
pub proof fn lemma_words_single(a: Seq<char>)
    requires
        a.len() > 0,
        forall|k: int| 0 <= k < a.len() ==> !white(#[trigger] a[k]),
    ensures
        words(a) == seq![a],
{
    assert(!white(a[0]));
    assert(skip_white(a, 0) == 0);
    lemma_ink_run(a, 0, a.len() as int);
    assert(a.subrange(0, a.len() as int) == a);
    let rest = a.skip(a.len() as int);
    assert(words(rest) =~= Seq::<Seq<char>>::empty());
}

proof fn lemma_ink_run(s: Seq<char>, i: int, j: int)
    requires
        0 <= i <= j <= s.len(),
        forall|k: int| i <= k < j ==> !white(#[trigger] s[k]),
        j < s.len() ==> white(s[j]),
    ensures
        skip_ink(s, i) == j,
    decreases j - i,
{
    if i < j {
        assert(!white(s[i]));
        lemma_ink_run(s, i + 1, j);
    }
}

/// Text that neither starts nor ends with white space is trimmed already.
pub proof fn lemma_trimmed_is_kept(s: Seq<char>)
    requires
        s.len() > 0,
        !white(s[0]),
        !white(s.last()),
    ensures
        trimmed(s) == s,
{
    assert(skip_white(s, 0) == 0);
    assert(back_over_white(s, s.len() as int) == s.len());
    assert(s.subrange(0, s.len() as int) == s);
}

/// The pieces of `s` between the occurrences of `c`.
pub fn split_char(s: &str, c: char) -> (r: Vec<String>)
    ensures
        texts(r@) == split(s@, c),
{
    let v = chars_of(s);
    let mut r: Vec<String> = Vec::new();
    let mut i: usize = 0;
    proof {
        assert(s@.skip(0) == s@);
    }
    loop
        invariant
            v@ == s@,
            i <= v.len(),
            texts(r@) + split(s@.skip(i as int), c) == split(s@, c),
        decreases v.len() - i,
    {
        let j: usize = find_char(&v, i, c);
        proof {
            lemma_find_skip(v@, i as int, c);
        }
        let piece = text_of(&v, i, j);
        let ghost before = texts(r@);
        r.push(piece);
        proof {
            assert(texts(r@) == before.push(v@.subrange(i as int, j as int)));
        }
        if j == v.len() {
            proof {
                assert(v@.subrange(i as int, j as int) == s@.skip(i as int));
                assert(texts(r@) == before + seq![s@.skip(i as int)]);
            }
            return r;
        }
        proof {
            assert(s@.skip(i as int).take(j - i) == v@.subrange(i as int, j as int));
            assert(s@.skip(i as int).skip(j - i + 1) == s@.skip(j + 1));
            assert(before + (seq![v@.subrange(i as int, j as int)] + split(s@.skip(j + 1), c))
                == texts(r@) + split(s@.skip(j + 1), c));
        }
        i = j + 1;
    }
}

/// The maximal runs of characters that are not white space.
pub fn split_words(s: &str) -> (r: Vec<String>)
    ensures
        texts(r@) == words(s@),
{
    let v = chars_of(s);
    let mut r: Vec<String> = Vec::new();
    let mut i: usize = 0;
    proof {
        assert(s@.skip(0) == s@);
    }
    loop
        invariant
            v@ == s@,
            i <= v.len(),
            texts(r@) + words(s@.skip(i as int)) == words(s@),
        decreases v.len() - i,
    {
        let a: usize = past_white(&v, i);
        proof {
            lemma_skip_white(v@, i as int);
            lemma_skip_white_skip(v@, i as int);
        }
        if a == v.len() {
            proof {
                assert(words(s@.skip(i as int)) == Seq::<Seq<char>>::empty());
            }
            return r;
        }
        let b: usize = past_ink(&v, a);
        proof {
            lemma_skip_ink(v@, a as int);
            lemma_skip_ink_skip(v@, i as int, a as int);
        }
        let piece = text_of(&v, a, b);
        let ghost before = texts(r@);
        r.push(piece);
        proof {
            let t = s@.skip(i as int);
            assert(texts(r@) == before.push(v@.subrange(a as int, b as int)));
            assert(t.subrange(a - i, b - i) == v@.subrange(a as int, b as int));
            assert(t.skip(b - i) == s@.skip(b as int));
            assert(before + (seq![v@.subrange(a as int, b as int)] + words(s@.skip(b as int)))
                == texts(r@) + words(s@.skip(b as int)));
        }
        i = b;
    }
}

/// The lines of `s`, without their ends.
pub fn split_lines(s: &str) -> (r: Vec<String>)
    ensures
        texts(r@) == lines(s@),
{
    let v = chars_of(s);
    let mut r: Vec<String> = Vec::new();
    let mut i: usize = 0;
    proof {
        assert(s@.skip(0) == s@);
    }
    while i < v.len()
        invariant
            v@ == s@,
            i <= v.len(),
            texts(r@) + lines(s@.skip(i as int)) == lines(s@),
        decreases v.len() - i,
    {
        let j: usize = find_char(&v, i, '\n');
        proof {
            lemma_find_skip(v@, i as int, '\n');
        }
        let ghost before = texts(r@);
        if j == v.len() {
            r.push(text_of(&v, i, j));
            proof {
                assert(texts(r@) == before.push(v@.subrange(i as int, j as int)));
                assert(v@.subrange(i as int, j as int) == s@.skip(i as int));
                assert(texts(r@) == before + seq![s@.skip(i as int)]);
            }
            return r;
        }
        let end: usize = if j > i && v[j - 1] == '\r' {
            j - 1
        } else {
            j
        };
        r.push(text_of(&v, i, end));
        proof {
            let t = s@.skip(i as int);
            assert(texts(r@) == before.push(v@.subrange(i as int, end as int)));
            assert(without_cr(t.take(j - i)) == v@.subrange(i as int, end as int));
            assert(t.skip(j - i + 1) == s@.skip(j + 1));
            assert(before + (seq![v@.subrange(i as int, end as int)] + lines(s@.skip(j + 1)))
                == texts(r@) + lines(s@.skip(j + 1)));
        }
        i = j + 1;
    }
    proof {
        assert(lines(s@.skip(i as int)) == Seq::<Seq<char>>::empty());
    }
    r
}

// ── Decimal numbers ──────────────────────────────────────────────────────────

/// The decimal digit of value `d`.
pub open spec fn digit(d: int) -> char {
    (48 + d) as char
}

/// `n` in decimal, without leading zeros.
pub open spec fn dec(n: nat) -> Seq<char>
    decreases n,
{
    if n < 10 {
        seq![digit(n as int)]
    } else {
        dec(n / 10).push(digit((n % 10) as int))
    }
}

/// `n` times the character `c`.
pub open spec fn repeated(c: char, n: int) -> Seq<char> {
    Seq::new(if n < 0 { 0 } else { n as nat }, |i: int| c)
}

/// `s` with `c` in front until it is `width` characters long.
pub open spec fn pad_left(s: Seq<char>, c: char, width: int) -> Seq<char> {
    repeated(c, width - s.len()) + s
}

/// `s` with spaces behind until it is `width` characters long.
pub open spec fn pad_right(s: Seq<char>, width: int) -> Seq<char> {
    s + repeated(' ', width - s.len())
}

/// Whether a character is a decimal digit.
pub open spec fn is_digit(c: char) -> bool {
    '0' <= c <= '9'
}

/// What is wrong with the text of a number.
#[derive(Clone, Copy, Debug, PartialEq, Eq, Structural)]
pub enum IntError {
    Empty,
    InvalidDigit,
    TooLarge,
}

impl IntError {
    /// The error in words.
    pub open spec fn text(self) -> Seq<char> {
        match self {
            IntError::Empty => "cannot parse integer from empty string"@,
            IntError::InvalidDigit => "invalid digit found in string"@,
            IntError::TooLarge => "number too large to fit in target type"@,
        }
    }

    /// The error in words.
    pub fn message(self) -> (r: String)
        ensures
            r@ == self.text(),
    {
        match self {
            IntError::Empty => "cannot parse integer from empty string".to_string(),
            IntError::InvalidDigit => "invalid digit found in string".to_string(),
            IntError::TooLarge => "number too large to fit in target type".to_string(),
        }
    }
}

/// The number that the digits of `s` from index `i` on write behind `acc`, if
/// they are digits and it stays at most `max`; else what is wrong first.
pub open spec fn digits_from(s: Seq<char>, i: int, acc: nat, max: nat) -> Result<nat, IntError>
    decreases s.len() - i,
{
    if i >= s.len() {
        Ok(acc)
    } else if !is_digit(s[i]) {
        Err(IntError::InvalidDigit)
    } else {
        let next = acc * 10 + (s[i] as nat - 48) as nat;
        if next > max {
            Err(IntError::TooLarge)
        } else {
            digits_from(s, i + 1, next, max)
        }
    }
}

/// The unsigned number at most `max` that `s` writes in decimal, with at most
/// one plus sign in front.
pub open spec fn parsed_uint(s: Seq<char>, max: nat) -> Result<nat, IntError> {
    if s.len() == 0 {
        Err(IntError::Empty)
    } else if s.len() == 1 && s[0] == '+' {
        Err(IntError::InvalidDigit)
    } else if s[0] == '+' {
        digits_from(s, 1, 0, max)
    } else {
        digits_from(s, 0, 0, max)
    }
}

/// Every number is read back from its decimal digits.
pub proof fn dec_parses_back(n: nat, max: nat)
    requires
        n <= max,
    ensures
        parsed_uint(dec(n), max) == Ok::<nat, IntError>(n),
{
    lemma_dec(n);
    lemma_dec_value(n, max, Seq::empty());
    assert(dec(n) + Seq::<char>::empty() == dec(n));
}

/// A decimal number is a nonempty run of digits.
pub proof fn lemma_dec(n: nat)
    ensures
        dec(n).len() > 0,
        forall|k: int| 0 <= k < dec(n).len() ==> is_digit(#[trigger] dec(n)[k]),
    decreases n,
{
    if n >= 10 {
        lemma_dec(n / 10);
    }
}

/// Ten to the power of `k`.
pub open spec fn ten_to(k: nat) -> nat
    decreases k,
{
    if k == 0 {
        1
    } else {
        10 * ten_to((k - 1) as nat)
    }
}

/// A number below ten to the power of `k` has at most `k` digits.
pub proof fn lemma_dec_len(n: nat, k: nat)
    requires
        k > 0,
        n < ten_to(k),
    ensures
        dec(n).len() <= k,
    decreases k,
{
    if n >= 10 {
        if k == 1 {
            reveal_with_fuel(ten_to, 2);
        } else {
            lemma_dec_len(n / 10, (k - 1) as nat);
        }
    }
}

proof fn lemma_dec_value(n: nat, max: nat, rest: Seq<char>)
    requires
        n <= max,
    ensures
        digits_from(dec(n) + rest, 0, 0, max) == digits_from(dec(n) + rest, dec(n).len() as int, n, max),
    decreases n,
{
    let s = dec(n) + rest;
    if n < 10 {
        assert(s[0] == digit(n as int));
    } else {
        let last = seq![digit((n % 10) as int)];
        lemma_dec_value(n / 10, max, last + rest);
        assert(dec(n / 10) + (last + rest) == s);
        assert(s[dec(n / 10).len() as int] == digit((n % 10) as int));
    }
}

/// Appends `n` in decimal.
pub fn push_dec(out: &mut String, n: u64)
    ensures
        final(out)@ == old(out)@ + dec(n as nat),
    decreases n,
{
    if n >= 10 {
        push_dec(out, n / 10);
    }
    let ghost before = out@;
    out.push((48u8 + (n % 10) as u8) as char);
    proof {
        assert(out@ == before + seq![digit((n % 10) as int)]);
        if n >= 10 {
            assert(old(out)@ + dec((n / 10) as nat) + seq![digit((n % 10) as int)] == old(out)@ + dec(
                n as nat,
            ));
        }
    }
}

/// `n` in decimal.
pub fn decimal(n: u64) -> (r: String)
    ensures
        r@ == dec(n as nat),
{
    let mut s: String = String::new();
    push_dec(&mut s, n);
    s
}

/// Appends `n` times `c`.
pub fn push_repeated(out: &mut String, c: char, n: usize)
    ensures
        final(out)@ == old(out)@ + repeated(c, n as int),
{
    let mut i: usize = 0;
    let ghost before = out@;
    while i < n
        invariant
            i <= n,
            out@ == before + repeated(c, i as int),
        decreases n - i,
    {
        out.push(c);
        i += 1;
        assert(repeated(c, i as int) == repeated(c, i - 1).push(c));
    }
}

/// Appends `s` with `c` in front until it is `width` characters wide.
pub fn push_padded(out: &mut String, s: &str, c: char, width: usize)
    ensures
        final(out)@ == old(out)@ + pad_left(s@, c, width as int),
{
    let v = chars_of(s);
    let ghost before = out@;
    if v.len() < width {
        push_repeated(out, c, width - v.len());
    }
    out.append(s);
    proof {
        if v.len() >= width {
            assert(repeated(c, width - v.len()) == Seq::<char>::empty());
        }
        assert(out@ == before + pad_left(s@, c, width as int));
    }
}

/// Appends `s` with spaces behind until it is `width` characters wide.
pub fn push_padded_right(out: &mut String, s: &str, width: usize)
    ensures
        final(out)@ == old(out)@ + pad_right(s@, width as int),
{
    let v = chars_of(s);
    let ghost before = out@;
    out.append(s);
    if v.len() < width {
        push_repeated(out, ' ', width - v.len());
    }
    proof {
        if v.len() >= width {
            assert(repeated(' ', width - v.len()) == Seq::<char>::empty());
        }
        assert(out@ == before + pad_right(s@, width as int));
    }
}

/// The unsigned number at most `max` that `s` writes in decimal.
pub fn parse_uint(s: &str, max: u64) -> (r: Result<u64, IntError>)
    ensures
        match r {
            Ok(n) => parsed_uint(s@, max as nat) == Ok::<nat, IntError>(n as nat) && n <= max,
            Err(e) => parsed_uint(s@, max as nat) == Err::<nat, IntError>(e),
        },
{
    let v = chars_of(s);
    if v.len() == 0 {
        return Err(IntError::Empty);
    }
    if v.len() == 1 && v[0] == '+' {
        return Err(IntError::InvalidDigit);
    }
    let start: usize = if v[0] == '+' {
        1
    } else {
        0
    };
    let mut i: usize = start;
    let mut acc: u64 = 0;
    while i < v.len()
        invariant
            v@ == s@,
            start <= i <= v.len(),
            acc <= max,
            parsed_uint(s@, max as nat) == digits_from(s@, i as int, acc as nat, max as nat),
        decreases v.len() - i,
    {
        let c: char = v[i];
        if c < '0' || '9' < c {
            return Err(IntError::InvalidDigit);
        }
        let d: u64 = (c as u32 - 48) as u64;
        let next: u128 = (acc as u128) * 10 + (d as u128);
        if next > max as u128 {
            return Err(IntError::TooLarge);
        }
        acc = next as u64;
        i += 1;
    }
    Ok(acc)
}

// ── How texts are taken apart ────────────────────────────────────────────────

/// Among the ASCII characters the white ones are the tab, the line feed, the vertical
/// tab, the form feed, the carriage return and the space.
pub proof fn ascii_white_space(c: char)
    requires
        c <= '\x7f',
    ensures
        white(c) <==> c == '\t' || c == '\n' || c == '\x0b' || c == '\x0c' || c == '\r' || c == ' ',
{
}

/// Trimming takes white space away at both ends, all of it and nothing else.
pub proof fn trimming_takes_white_space_at_the_ends(s: Seq<char>)
    ensures
        trimmed(s).len() > 0 ==> !white(trimmed(s)[0]) && !white(trimmed(s).last()),
        trimmed(s).len() == 0 ==> forall|k: int| 0 <= k < s.len() ==> white(#[trigger] s[k]),
        exists|a: int, b: int|
            0 <= a <= b <= s.len() && trimmed(s) == #[trigger] s.subrange(a, b) && (forall|k: int|
                0 <= k < a || b <= k < s.len() ==> white(#[trigger] s[k])),
{
    lemma_skip_white(s, 0);
    let a = skip_white(s, 0);
    if a == s.len() {
        assert(s.subrange(a, a) =~= Seq::<char>::empty());
        assert(trimmed(s) == s.subrange(a, a));
    } else {
        lemma_back_over_white(s, s.len() as int, a);
        let b = back_over_white(s, s.len() as int);
        assert(trimmed(s) == s.subrange(a, b));
        assert(trimmed(s)[0] == s[a] && trimmed(s).last() == s[b - 1]);
    }
}

/// A text up to a separator and what follows it are split apart; a text without one is
/// left whole.
pub proof fn separators_split(a: Seq<char>, c: char, rest: Seq<char>)
    requires
        !a.contains(c),
    ensures
        split(a + seq![c] + rest, c) == seq![a] + split(rest, c),
        split(a, c) == seq![a],
{
    assert forall|k: int| 0 <= k < a.len() implies a[k] != c by {
        assert(a.contains(a[k]));
    }
    let s = a + seq![c] + rest;
    lemma_find_is(s, 0, c, a.len() as int);
    assert(s.take(a.len() as int) =~= a);
    assert(s.skip(a.len() as int + 1) =~= rest);
    lemma_find_is(a, 0, c, a.len() as int);
}

/// A line ends at a line feed, with or without a carriage return before it; a last line
/// needs none.
pub proof fn line_feeds_end_lines(a: Seq<char>, rest: Seq<char>)
    requires
        !a.contains('\n'),
        !a.contains('\r'),
    ensures
        lines(a + "\n"@ + rest) == seq![a] + lines(rest),
        lines(a + "\r\n"@ + rest) == seq![a] + lines(rest),
        a.len() > 0 ==> lines(a) == seq![a],
        lines(Seq::empty()).len() == 0,
{
    reveal_strlit("\n");
    reveal_strlit("\r\n");
    assert forall|k: int| 0 <= k < a.len() implies a[k] != '\n' && a[k] != '\r' by {
        assert(a.contains(a[k]));
    }
    let n = a.len() as int;
    let s = a + "\n"@ + rest;
    lemma_find_is(s, 0, '\n', n);
    assert(s.take(n) =~= a);
    assert(s.skip(n + 1) =~= rest);
    assert(without_cr(a) =~= a);
    let t = a + "\r\n"@ + rest;
    lemma_find_is(t, 0, '\n', n + 1);
    assert(t.take(n + 1) =~= a.push('\r'));
    assert(without_cr(a.push('\r')) =~= a);
    assert(t.skip(n + 2) =~= rest);
    lemma_find_is(a, 0, '\n', n);
}

proof fn lemma_digits_push(s: Seq<char>, i: int, acc: nat, max: nat, c: char)
    requires
        0 <= i <= s.len(),
        digits_from(s, i, acc, max) is Ok,
    ensures
        digits_from(s.push(c), i, acc, max) == digits_from(
            s.push(c),
            s.len() as int,
            digits_from(s, i, acc, max)->Ok_0,
            max,
        ),
        acc <= max ==> digits_from(s, i, acc, max)->Ok_0 <= max,
        forall|k: int| i <= k < s.len() ==> is_digit(#[trigger] s[k]),
    decreases s.len() - i,
{
    if i < s.len() {
        let next = acc * 10 + (s[i] as nat - 48) as nat;
        assert(s.push(c)[i] == s[i]);
        lemma_digits_push(s, i + 1, next, max, c);
    }
}

/// A further digit makes ten times the number and the digit of it, as long as that does
/// not exceed the greatest number; a character that is no digit makes it none. A number
/// that is read is no greater than the greatest, and consists of digits but for a plus
/// sign in front, which may stand there or not.
pub proof fn digits_add_up(s: Seq<char>, max: nat, c: char)
    requires
        parsed_uint(s, max) is Ok,
    ensures
        ({
            let n = parsed_uint(s, max)->Ok_0;
            &&& n <= max
            &&& forall|k: int| 0 <= k < s.len() && (k > 0 || s[0] != '+') ==> is_digit(#[trigger] s[k])
            &&& '0' <= c <= '9' && n * 10 + (c as int - 48) <= max ==> parsed_uint(s.push(c), max)
                == Ok::<nat, IntError>((n * 10 + (c as int - 48)) as nat)
            &&& '0' <= c <= '9' && n * 10 + (c as int - 48) > max ==> parsed_uint(s.push(c), max)
                == Err::<nat, IntError>(IntError::TooLarge)
            &&& !('0' <= c <= '9') ==> parsed_uint(s.push(c), max) == Err::<nat, IntError>(
                IntError::InvalidDigit,
            )
            &&& s[0] != '+' ==> parsed_uint(seq!['+'] + s, max) == parsed_uint(s, max)
        }),
{
    let i: int = if s[0] == '+' {
        1
    } else {
        0
    };
    lemma_digits_push(s, i, 0, max, c);
    assert(s.push(c)[0] == s[0]);
    let t = s.push(c);
    let n = parsed_uint(s, max)->Ok_0;
    assert(t[s.len() as int] == c);
    assert(is_digit(c) ==> c as nat - 48 >= 0);
    reveal_with_fuel(digits_from, 2);
    let plus = seq!['+'] + s;
    assert(plus[0] == '+');
    lemma_digits_shift(s, plus, 0, 0, max);
}

proof fn lemma_digits_shift(s: Seq<char>, t: Seq<char>, i: int, acc: nat, max: nat)
    requires
        0 <= i <= s.len(),
        t == seq!['+'] + s,
    ensures
        digits_from(t, i + 1, acc, max) == digits_from(s, i, acc, max),
    decreases s.len() - i,
{
    if i < s.len() {
        assert(t[i + 1] == s[i]);
        if is_digit(s[i]) {
            lemma_digits_shift(s, t, i + 1, acc * 10 + (s[i] as nat - 48) as nat, max);
        }
    }
}

/// The digits of a number are those of its tenth and its remainder by ten.
pub proof fn numbers_are_written_in_tens(n: nat, d: nat)
    requires
        d < 10,
    ensures
        n > 0 ==> dec(n * 10 + d) == dec(n).push((48 + d) as char),
        dec(d) == seq![(48 + d) as char],
{
    assert((n * 10 + d) / 10 == n && (n * 10 + d) % 10 == d);
    assert(dec(d) =~= seq![(48 + d) as char]);
}

/// Padding fills a text up to a width, on its left or on its right, and leaves a wider
/// one as it is.
pub proof fn padding_fills_up(s: Seq<char>, c: char, width: int)
    ensures
        pad_left(s, c, width).len() == if s.len() < width { width } else { s.len() as int },
        pad_left(s, c, width).skip(pad_left(s, c, width).len() - s.len()) == s,
        forall|k: int| 0 <= k < width - s.len() ==> #[trigger] pad_left(s, c, width)[k] == c,
        pad_right(s, width).len() == if s.len() < width { width } else { s.len() as int },
        pad_right(s, width).take(s.len() as int) == s,
        forall|k: int| s.len() <= k < width ==> #[trigger] pad_right(s, width)[k] == ' ',
{
    let l = pad_left(s, c, width);
    assert(l.skip(l.len() - s.len()) =~= s);
    assert(pad_right(s, width).take(s.len() as int) =~= s);
}

} // verus!
