//! Text primitives shared by the whole library, with their meaning stated
//! over `Seq<char>`: trimming, line and field splitting, searching, joining.
//!
//! Every spec function here describes the behaviour of the corresponding
//! `str` method of Rust's standard library (`trim`, `lines`,
//! `split_whitespace`, `split_once`, `find`, `join`, ...), and every
//! executable function is proved to compute it.

use vstd::prelude::*;

verus! {

// ---------------------------------------------------------------------------
// Characters
// ---------------------------------------------------------------------------

/// Unicode `White_Space` property, as used by `char::is_whitespace`,
/// `str::trim` and `str::split_whitespace`.
pub open spec fn is_ws(c: char) -> bool {
    let u = c as u32;
    (9 <= u && u <= 13) || u == 32 || u == 0x85 || u == 0xA0 || u == 0x1680 || (0x2000 <= u
        && u <= 0x200A) || u == 0x2028 || u == 0x2029 || u == 0x202F || u == 0x205F || u
        == 0x3000
}

/// Executable `char::is_whitespace`.
pub fn is_whitespace(c: char) -> (b: bool)
    ensures
        b == is_ws(c),
{
    let u = c as u32;
    (9 <= u && u <= 13) || u == 32 || u == 0x85 || u == 0xA0 || u == 0x1680 || (0x2000 <= u
        && u <= 0x200A) || u == 0x2028 || u == 0x2029 || u == 0x202F || u == 0x205F || u
        == 0x3000
}

/// The views of a sequence of strings.
pub open spec fn views(v: Seq<String>) -> Seq<Seq<char>> {
    v.map_values(|x: String| x@)
}

/// The text of an optional string.
pub open spec fn opt_view(o: Option<String>) -> Option<Seq<char>> {
    match o {
        Some(s) => Some(s@),
        None => None,
    }
}

// ---------------------------------------------------------------------------
// Trimming
// ---------------------------------------------------------------------------

/// `str::trim_start`.
pub open spec fn trim_start(s: Seq<char>) -> Seq<char>
    decreases s.len(),
{
    if s.len() > 0 && is_ws(s[0]) {
        trim_start(s.drop_first())
    } else {
        s
    }
}

/// `str::trim_end`.
pub open spec fn trim_end(s: Seq<char>) -> Seq<char>
    decreases s.len(),
{
    if s.len() > 0 && is_ws(s.last()) {
        trim_end(s.drop_last())
    } else {
        s
    }
}

/// `str::trim`.
pub open spec fn trim(s: Seq<char>) -> Seq<char> {
    trim_end(trim_start(s))
}

/// `str::trim_start_matches(c)` for a single character `c`.
pub open spec fn trim_start_char(s: Seq<char>, c: char) -> Seq<char>
    decreases s.len(),
{
    if s.len() > 0 && s[0] == c {
        trim_start_char(s.drop_first(), c)
    } else {
        s
    }
}

/// `str::trim_end_matches(c)` for a single character `c`.
pub open spec fn trim_end_char(s: Seq<char>, c: char) -> Seq<char>
    decreases s.len(),
{
    if s.len() > 0 && s.last() == c {
        trim_end_char(s.drop_last(), c)
    } else {
        s
    }
}

/// `str::trim_matches(c)` for a single character `c`.
pub open spec fn trim_char(s: Seq<char>, c: char) -> Seq<char> {
    trim_end_char(trim_start_char(s, c), c)
}

// ---------------------------------------------------------------------------
// Searching
// ---------------------------------------------------------------------------

/// `p` is a prefix of `s` (`str::starts_with`).
pub open spec fn starts_with(s: Seq<char>, p: Seq<char>) -> bool {
    p.len() <= s.len() && s.take(p.len() as int) == p
}

/// `p` is a suffix of `s` (`str::ends_with`).
pub open spec fn ends_with(s: Seq<char>, p: Seq<char>) -> bool {
    p.len() <= s.len() && s.skip(s.len() - p.len()) == p
}

/// Index of the first occurrence of `c` in `s` (`str::find` with a char).
pub open spec fn index_of_char(s: Seq<char>, c: char) -> Option<int>
    decreases s.len(),
{
    if s.len() == 0 {
        None
    } else if s[0] == c {
        Some(0)
    } else {
        match index_of_char(s.drop_first(), c) {
            Some(i) => Some(i + 1),
            None => None,
        }
    }
}

/// `p` occurs in `s` at index `i`.
pub open spec fn occurs_at(s: Seq<char>, p: Seq<char>, i: int) -> bool {
    0 <= i && i + p.len() <= s.len() && s.subrange(i, i + p.len()) == p
}

/// Index of the first occurrence of `p` in `s` at or after `from`
/// (`str::find` with a string pattern, when `from` is 0).
pub open spec fn find_from(s: Seq<char>, p: Seq<char>, from: int) -> Option<int>
    decreases s.len() + 1 - from,
{
    if from < 0 || from + p.len() > s.len() {
        None
    } else if occurs_at(s, p, from) {
        Some(from)
    } else {
        find_from(s, p, from + 1)
    }
}

/// Lemma: a pattern whose first character does not occur in `s` is not
/// found in it.
pub proof fn lemma_find_absent(s: Seq<char>, p: Seq<char>, from: int)
    requires
        p.len() > 0,
        forall|i: int| 0 <= i < s.len() ==> s[i] != p[0],
    ensures
        find_from(s, p, from) is None,
    decreases s.len() + 1 - from,
{
    if from < 0 || from + p.len() > s.len() {
    } else {
        assert(s.subrange(from, from + p.len())[0] == s[from]);
        lemma_find_absent(s, p, from + 1);
    }
}

/// Lemma: `find_from` finds the first occurrence at or after its start.
pub proof fn lemma_find_first(s: Seq<char>, p: Seq<char>, from: int, k: int)
    requires
        0 <= from <= k,
        occurs_at(s, p, k),
        forall|j: int| from <= j < k ==> !occurs_at(s, p, j),
    ensures
        find_from(s, p, from) == Some(k),
    decreases k - from,
{
    if from < k {
        lemma_find_first(s, p, from + 1, k);
    }
}

/// Lemma: where `find_from` finds nothing, the pattern occurs nowhere at or
/// after the start.
pub proof fn lemma_find_none(s: Seq<char>, p: Seq<char>, from: int, j: int)
    requires
        0 <= from <= j,
        find_from(s, p, from) is None,
    ensures
        !occurs_at(s, p, j),
    decreases j - from,
{
    if from < j && from + p.len() <= s.len() {
        lemma_find_none(s, p, from + 1, j);
    }
}

/// `str::find` with a string pattern.
pub open spec fn find(s: Seq<char>, p: Seq<char>) -> Option<int> {
    find_from(s, p, 0)
}

/// `str::contains` with a string pattern.
pub open spec fn contains_sub(s: Seq<char>, p: Seq<char>) -> bool {
    find(s, p) is Some
}

/// Lemma: a found pattern occurs where it is found, at or after the start.
pub proof fn lemma_find_occurs(s: Seq<char>, p: Seq<char>, from: int)
    ensures
        find_from(s, p, from) matches Some(k) ==> from <= k && occurs_at(s, p, k),
    decreases s.len() + 1 - from,
{
    if !(from < 0 || from + p.len() > s.len()) && !occurs_at(s, p, from) {
        lemma_find_occurs(s, p, from + 1);
    }
}

/// Lemma: text that holds a pattern still holds it with text added before
/// and after.
pub proof fn lemma_contains_sub_within(pre: Seq<char>, a: Seq<char>, post: Seq<char>, p: Seq<char>)
    requires
        contains_sub(a, p),
    ensures
        contains_sub(pre + a + post, p),
{
    lemma_find_occurs(a, p, 0);
    let k = find(a, p).unwrap();
    let s = pre + a + post;
    let m = pre.len() + k;
    assert(s.subrange(m, m + p.len()) =~= a.subrange(k, k + p.len()));
    if find(s, p) is None {
        lemma_find_none(s, p, 0, m);
    }
}

/// `str::split_once` with a char separator.
pub open spec fn split_once(s: Seq<char>, c: char) -> Option<(Seq<char>, Seq<char>)> {
    match index_of_char(s, c) {
        Some(i) => Some((s.take(i), s.skip(i + 1))),
        None => None,
    }
}

/// Lemma: text `r`, then `c`, then `t`, with no `c` in `r`, splits once at
/// that `c` into `r` and `t`.
pub proof fn lemma_split_once_at(r: Seq<char>, t: Seq<char>, c: char)
    requires
        !r.contains(c),
    ensures
        split_once(r + seq![c] + t, c) == Some((r, t)),
{
    lemma_index_of_char_prefix(r, seq![c] + t, c);
    let s = r + seq![c] + t;
    assert(s =~= r + (seq![c] + t));
    assert(s.take(r.len() as int) =~= r);
    assert(s.skip(r.len() as int + 1) =~= t);
}

/// Lemma: with no `c` in `r`, the first `c` of `r + u` starting with `c`
/// is at `r.len()`.
proof fn lemma_index_of_char_prefix(r: Seq<char>, u: Seq<char>, c: char)
    requires
        !r.contains(c),
        u.len() > 0,
        u[0] == c,
    ensures
        index_of_char(r + u, c) == Some(r.len() as int),
    decreases r.len(),
{
    if r.len() > 0 {
        assert(r[0] != c);
        let r1 = r.drop_first();
        assert(!r1.contains(c)) by {
            if r1.contains(c) {
                let k = choose|k: int| 0 <= k < r1.len() && r1[k] == c;
                assert(r[k + 1] == c);
            }
        }
        lemma_index_of_char_prefix(r1, u, c);
        assert((r + u).drop_first() =~= r1 + u);
    } else {
        assert(r + u =~= u);
    }
}

// ---------------------------------------------------------------------------
// Splitting
// ---------------------------------------------------------------------------

/// Pieces of `s` between occurrences of `c`, where `cur` is the piece read so
/// far (`str::split` with a char separator, when `cur` is empty).
pub open spec fn split_acc(s: Seq<char>, c: char, cur: Seq<char>) -> Seq<Seq<char>>
    decreases s.len(),
{
    if s.len() == 0 {
        seq![cur]
    } else if s[0] == c {
        seq![cur] + split_acc(s.drop_first(), c, Seq::empty())
    } else {
        split_acc(s.drop_first(), c, cur.push(s[0]))
    }
}

/// `str::split` with a char separator.
pub open spec fn split_char(s: Seq<char>, c: char) -> Seq<Seq<char>> {
    split_acc(s, c, Seq::empty())
}

/// The kinds of separators used to cut text into fields.
pub enum Sep {
    /// Unicode whitespace (`str::split_whitespace`).
    Whitespace,
    /// Whitespace or a comma (how tag lists are written).
    WhitespaceOrComma,
}

/// `c` separates fields under `sep`.
pub open spec fn is_sep(sep: Sep, c: char) -> bool {
    match sep {
        Sep::Whitespace => is_ws(c),
        Sep::WhitespaceOrComma => is_ws(c) || c == ',',
    }
}

/// Non-empty maximal runs of non-separator characters of `s`, where `cur` is
/// the run read so far.
pub open spec fn fields_acc(s: Seq<char>, sep: Sep, cur: Seq<char>) -> Seq<Seq<char>>
    decreases s.len(),
{
    if s.len() == 0 {
        if cur.len() > 0 {
            seq![cur]
        } else {
            seq![]
        }
    } else if is_sep(sep, s[0]) {
        (if cur.len() > 0 {
            seq![cur]
        } else {
            seq![]
        }) + fields_acc(s.drop_first(), sep, Seq::empty())
    } else {
        fields_acc(s.drop_first(), sep, cur.push(s[0]))
    }
}

/// Non-empty fields of `s` separated by `sep` (`str::split_whitespace` for
/// `Sep::Whitespace`).
pub open spec fn fields(s: Seq<char>, sep: Sep) -> Seq<Seq<char>> {
    fields_acc(s, sep, Seq::empty())
}

/// A line without its `\r` if it ends with one.
pub open spec fn strip_cr(l: Seq<char>) -> Seq<char> {
    if l.len() > 0 && l.last() == '\r' {
        l.drop_last()
    } else {
        l
    }
}

/// Lines of `s` where `cur` is the line read so far (`str::lines`, when `cur`
/// is empty): split at `\n`, a `\r` before the `\n` dropped, and no line after
/// a final `\n`.
pub open spec fn lines_acc(s: Seq<char>, cur: Seq<char>) -> Seq<Seq<char>>
    decreases s.len(),
{
    if s.len() == 0 {
        if cur.len() > 0 {
            seq![cur]
        } else {
            seq![]
        }
    } else if s[0] == '\n' {
        seq![strip_cr(cur)] + lines_acc(s.drop_first(), Seq::empty())
    } else {
        lines_acc(s.drop_first(), cur.push(s[0]))
    }
}

/// `str::lines`.
pub open spec fn lines(s: Seq<char>) -> Seq<Seq<char>> {
    lines_acc(s, Seq::empty())
}

/// `[String]::join(sep)`.
pub open spec fn join(parts: Seq<Seq<char>>, sep: Seq<char>) -> Seq<char>
    decreases parts.len(),
{
    if parts.len() == 0 {
        Seq::empty()
    } else if parts.len() == 1 {
        parts[0]
    } else {
        join(parts.drop_last(), sep) + sep + parts.last()
    }
}

// ---------------------------------------------------------------------------
// Case mapping
// ---------------------------------------------------------------------------

/// What `str::to_lowercase` returns on a string (Unicode case mapping).
pub uninterp spec fn lowercase(s: Seq<char>) -> Seq<char>;

/// What `str::to_uppercase` returns on a string (Unicode case mapping).
pub uninterp spec fn uppercase(s: Seq<char>) -> Seq<char>;

/// ASCII lower-casing of one character.
pub open spec fn ascii_lower_char(c: char) -> char {
    if 'A' <= c && c <= 'Z' {
        ((c as u32) + 32) as char
    } else {
        c
    }
}

/// ASCII upper-casing of one character.
pub open spec fn ascii_upper_char(c: char) -> char {
    if 'a' <= c && c <= 'z' {
        ((c as u32) - 32) as char
    } else {
        c
    }
}

/// Every character of `s` is ASCII.
pub open spec fn all_ascii(s: Seq<char>) -> bool {
    forall|i: int| 0 <= i < s.len() ==> (s[i] as u32) < 128
}

/// `str::to_lowercase`. Verus does not know the Unicode case tables: the
/// result is named `lowercase`; on ASCII input it is the ASCII lower-casing.
#[verifier::external_body]
pub fn to_lowercase(s: &str) -> (r: String)
    ensures
        r@ == lowercase(s@),
        all_ascii(s@) ==> r@ == s@.map_values(|c: char| ascii_lower_char(c)),
{
    s.to_lowercase()
}

/// `str::to_uppercase`. Verus does not know the Unicode case tables: the
/// result is named `uppercase`; on ASCII input it is the ASCII upper-casing.
#[verifier::external_body]
pub fn to_uppercase(s: &str) -> (r: String)
    ensures
        r@ == uppercase(s@),
        all_ascii(s@) ==> r@ == s@.map_values(|c: char| ascii_upper_char(c)),
{
    s.to_uppercase()
}

// ---------------------------------------------------------------------------
// Building strings
// ---------------------------------------------------------------------------

/// Appends one character to a string (`String::push`).
#[verifier::external_body]
pub fn push_char(s: &mut String, c: char)
    ensures
        final(s)@ == old(s)@.push(c),
{
    s.push(c);
}

/// The characters of `s`, in order.
pub fn chars_of(s: &str) -> (v: Vec<char>)
    ensures
        v@ == s@,
{
    let mut v: Vec<char> = Vec::new();
    for c in it: s.chars()
        invariant
            v@ == it.seq().take(it.index() as int),
    {
        v.push(c);
    }
    v
}

/// The string made of `v[lo..hi]`.
pub fn string_of(v: &Vec<char>, lo: usize, hi: usize) -> (s: String)
    requires
        lo <= hi <= v.len(),
    ensures
        s@ == v@.subrange(lo as int, hi as int),
{
    let mut s = String::new();
    let mut i = lo;
    while i < hi
        invariant
            lo <= i <= hi <= v.len(),
            s@ == v@.subrange(lo as int, i as int),
        decreases hi - i,
    {
        push_char(&mut s, v[i]);
        i = i + 1;
        assert(s@ =~= v@.subrange(lo as int, i as int));
    }
    s
}

/// The string made of all of `v`.
pub fn string_of_all(v: &Vec<char>) -> (s: String)
    ensures
        s@ == v@,
{
    let s = string_of(v, 0, v.len());
    assert(v@.subrange(0, v@.len() as int) =~= v@);
    s
}

/// Copy of a string slice.
pub fn own(s: &str) -> (r: String)
    ensures
        r@ == s@,
{
    s.to_owned()
}

/// Copy of a string.
pub fn copy(s: &String) -> (r: String)
    ensures
        r@ == s@,
{
    s.clone()
}

/// `a + b`.
pub fn concat(a: &str, b: &str) -> (r: String)
    ensures
        r@ == a@ + b@,
{
    let mut r = a.to_owned();
    r.append(b);
    r
}

/// Copies of a list of strings.
pub fn copy_all(v: &Vec<String>) -> (r: Vec<String>)
    ensures
        views(r@) == views(v@),
{
    let mut r: Vec<String> = Vec::new();
    let mut i: usize = 0;
    while i < v.len()
        invariant
            i <= v.len(),
            views(r@) == views(v@).take(i as int),
        decreases v.len() - i,
    {
        let ghost before = views(r@);
        let x = v[i].clone();
        r.push(x);
        assert(views(r@) =~= before.push(v@[i as int]@));
        i = i + 1;
        assert(views(r@) =~= views(v@).take(i as int));
    }
    assert(views(v@).take(v.len() as int) =~= views(v@));
    r
}

// ---------------------------------------------------------------------------
// Comparisons and searches
// ---------------------------------------------------------------------------

/// `a == b` on character vectors.
pub fn chars_eq(a: &Vec<char>, b: &Vec<char>) -> (r: bool)
    ensures
        r == (a@ == b@),
{
    if a.len() != b.len() {
        return false;
    }
    let mut i: usize = 0;
    while i < a.len()
        invariant
            a.len() == b.len(),
            i <= a.len(),
            a@.take(i as int) == b@.take(i as int),
        decreases a.len() - i,
    {
        if a[i] != b[i] {
            assert(a@[i as int] != b@[i as int]);
            return false;
        }
        assert(a@.take(i + 1) =~= a@.take(i as int).push(a@[i as int]));
        assert(b@.take(i + 1) =~= b@.take(i as int).push(b@[i as int]));
        i = i + 1;
    }
    assert(a@ =~= a@.take(a.len() as int));
    assert(b@ =~= b@.take(b.len() as int));
    true
}

/// `a == b` on string slices.
pub fn str_eq(a: &str, b: &str) -> (r: bool)
    ensures
        r == (a@ == b@),
{
    let va = chars_of(a);
    let vb = chars_of(b);
    chars_eq(&va, &vb)
}

/// `p` occurs in `v` at index `i`.
pub fn occurs_at_exec(v: &Vec<char>, p: &Vec<char>, i: usize) -> (r: bool)
    ensures
        r == occurs_at(v@, p@, i as int),
{
    if i > v.len() || p.len() > v.len() - i {
        return false;
    }
    let mut k: usize = 0;
    while k < p.len()
        invariant
            i + p.len() <= v.len(),
            k <= p.len(),
            forall|j: int| 0 <= j < k ==> v@[i + j] == p@[j],
        decreases p.len() - k,
    {
        if v[i + k] != p[k] {
            assert(v@.subrange(i as int, i + p.len())[k as int] != p@[k as int]);
            return false;
        }
        k = k + 1;
    }
    assert(v@.subrange(i as int, i + p.len()) =~= p@);
    true
}

/// `s.starts_with(p)`.
pub fn starts_with_exec(v: &Vec<char>, p: &Vec<char>) -> (r: bool)
    ensures
        r == starts_with(v@, p@),
{
    let r = occurs_at_exec(v, p, 0);
    assert(v@.subrange(0, p@.len() as int) == v@.take(p@.len() as int));
    r
}

/// `s.starts_with(p)` on string slices.
pub fn str_starts_with(s: &str, p: &str) -> (r: bool)
    ensures
        r == starts_with(s@, p@),
{
    let vs = chars_of(s);
    let vp = chars_of(p);
    starts_with_exec(&vs, &vp)
}

/// `s.ends_with(p)` on string slices.
pub fn str_ends_with(s: &str, p: &str) -> (r: bool)
    ensures
        r == ends_with(s@, p@),
{
    let vs = chars_of(s);
    let vp = chars_of(p);
    if vp.len() > vs.len() {
        return false;
    }
    let r = occurs_at_exec(&vs, &vp, vs.len() - vp.len());
    assert(vs@.subrange(vs@.len() - vp@.len(), vs@.len() as int) == vs@.skip(
        vs@.len() - vp@.len(),
    ));
    r
}

/// Lemma: stepping `find_from` past a non-occurrence.
proof fn lemma_find_from_step(s: Seq<char>, p: Seq<char>, from: int)
    requires
        0 <= from,
        from + p.len() <= s.len(),
        !occurs_at(s, p, from),
    ensures
        find_from(s, p, from) == find_from(s, p, from + 1),
{
}

/// First occurrence of `p` in `v` at or after `from` (`str::find`).
pub fn find_exec(v: &Vec<char>, p: &Vec<char>, from: usize) -> (r: Option<usize>)
    ensures
        match r {
            Some(i) => find_from(v@, p@, from as int) == Some(i as int),
            None => find_from(v@, p@, from as int) is None,
        },
{
    if from > v.len() || p.len() > v.len() - from {
        return None;
    }
    let last = v.len() - p.len();
    let mut i = from;
    loop
        invariant
            from <= i <= last,
            last + p.len() == v.len(),
            find_from(v@, p@, from as int) == find_from(v@, p@, i as int),
        decreases last - i,
    {
        if occurs_at_exec(v, p, i) {
            return Some(i);
        }
        proof {
            lemma_find_from_step(v@, p@, i as int);
        }
        if i == last {
            return None;
        }
        i = i + 1;
    }
}

/// `str::find` on string slices.
pub fn str_find(s: &str, p: &str) -> (r: Option<usize>)
    ensures
        match r {
            Some(i) => find(s@, p@) == Some(i as int),
            None => find(s@, p@) is None,
        },
{
    let vs = chars_of(s);
    let vp = chars_of(p);
    find_exec(&vs, &vp, 0)
}

/// `str::contains` on string slices.
pub fn str_contains(s: &str, p: &str) -> (r: bool)
    ensures
        r == contains_sub(s@, p@),
{
    str_find(s, p).is_some()
}

/// Lemma: `index_of_char` relative to a suffix that starts before the first
/// occurrence.
proof fn lemma_index_of_char_skip(s: Seq<char>, c: char, i: int)
    requires
        0 <= i <= s.len(),
        forall|j: int| 0 <= j < i ==> s[j] != c,
    ensures
        index_of_char(s, c) == (match index_of_char(s.skip(i), c) {
            Some(k) => Some(k + i),
            None => None,
        }),
    decreases i,
{
    if i > 0 {
        assert(s.drop_first().skip(i - 1) =~= s.skip(i));
        lemma_index_of_char_skip(s.drop_first(), c, i - 1);
    } else {
        assert(s.skip(0) =~= s);
    }
}

/// Index of the first `c` in `v`.
pub fn index_of_char_exec(v: &Vec<char>, c: char) -> (r: Option<usize>)
    ensures
        match r {
            Some(i) => index_of_char(v@, c) == Some(i as int) && i < v.len(),
            None => index_of_char(v@, c) is None,
        },
{
    let mut i: usize = 0;
    while i < v.len()
        invariant
            i <= v.len(),
            forall|j: int| 0 <= j < i ==> v@[j] != c,
        decreases v.len() - i,
    {
        if v[i] == c {
            proof {
                lemma_index_of_char_skip(v@, c, i as int);
            }
            return Some(i);
        }
        i = i + 1;
    }
    proof {
        lemma_index_of_char_skip(v@, c, i as int);
    }
    None
}

/// `s.split_once(c)`.
pub fn str_split_once(s: &str, c: char) -> (r: Option<(String, String)>)
    ensures
        match r {
            Some((a, b)) => split_once(s@, c) == Some((a@, b@)),
            None => split_once(s@, c) is None,
        },
{
    let v = chars_of(s);
    match index_of_char_exec(&v, c) {
        Some(i) => {
            let a = string_of(&v, 0, i);
            let b = string_of(&v, i + 1, v.len());
            assert(v@.subrange(0, i as int) == v@.take(i as int));
            assert(v@.subrange(i + 1, v@.len() as int) == v@.skip(i + 1));
            Some((a, b))
        },
        None => None,
    }
}

/// Lemma: one step of `trim_start` at an index.
proof fn lemma_trim_start_step(s: Seq<char>, i: int)
    requires
        0 <= i < s.len(),
        is_ws(s[i]),
    ensures
        trim_start(s.skip(i)) == trim_start(s.skip(i + 1)),
{
    assert(s.skip(i).drop_first() =~= s.skip(i + 1));
}

/// Lemma: one step of `trim_end` at an index.
proof fn lemma_trim_end_step(s: Seq<char>, i: int)
    requires
        0 < i <= s.len(),
        is_ws(s[i - 1]),
    ensures
        trim_end(s.take(i)) == trim_end(s.take(i - 1)),
{
    assert(s.take(i).drop_last() =~= s.take(i - 1));
}

/// Bounds `[lo, hi)` of `trim(v)` inside `v`.
pub fn trim_bounds(v: &Vec<char>) -> (r: (usize, usize))
    ensures
        r.0 <= r.1 <= v.len(),
        trim(v@) == v@.subrange(r.0 as int, r.1 as int),
        trim_start(v@) == v@.skip(r.0 as int),
{
    let mut lo: usize = 0;
    assert(v@.skip(0) =~= v@);
    while lo < v.len() && is_whitespace(v[lo])
        invariant
            lo <= v.len(),
            trim_start(v@) == trim_start(v@.skip(lo as int)),
        decreases v.len() - lo,
    {
        proof {
            lemma_trim_start_step(v@, lo as int);
        }
        lo = lo + 1;
    }
    let ghost t = v@.skip(lo as int);
    assert(trim_start(t) == t);
    let mut hi: usize = v.len();
    assert(t.take(t.len() as int) =~= t);
    while hi > lo && is_whitespace(v[hi - 1])
        invariant
            lo <= hi <= v.len(),
            t == v@.skip(lo as int),
            trim_end(t) == trim_end(t.take(hi - lo)),
        decreases hi,
    {
        proof {
            lemma_trim_end_step(t, (hi - lo) as int);
        }
        hi = hi - 1;
    }
    assert(t.take(hi - lo) =~= v@.subrange(lo as int, hi as int));
    (lo, hi)
}

/// `str::trim`.
pub fn str_trim(s: &str) -> (r: String)
    ensures
        r@ == trim(s@),
{
    let v = chars_of(s);
    let (lo, hi) = trim_bounds(&v);
    string_of(&v, lo, hi)
}

/// `str::trim_start`.
pub fn str_trim_start(s: &str) -> (r: String)
    ensures
        r@ == trim_start(s@),
{
    let v = chars_of(s);
    let (lo, _hi) = trim_bounds(&v);
    let r = string_of(&v, lo, v.len());
    assert(v@.subrange(lo as int, v@.len() as int) == v@.skip(lo as int));
    r
}

/// Lemma: one step of `trim_start_char` at an index.
proof fn lemma_trim_start_char_step(s: Seq<char>, c: char, i: int)
    requires
        0 <= i < s.len(),
        s[i] == c,
    ensures
        trim_start_char(s.skip(i), c) == trim_start_char(s.skip(i + 1), c),
{
    assert(s.skip(i).drop_first() =~= s.skip(i + 1));
}

/// Lemma: one step of `trim_end_char` at an index.
proof fn lemma_trim_end_char_step(s: Seq<char>, c: char, i: int)
    requires
        0 < i <= s.len(),
        s[i - 1] == c,
    ensures
        trim_end_char(s.take(i), c) == trim_end_char(s.take(i - 1), c),
{
    assert(s.take(i).drop_last() =~= s.take(i - 1));
}

/// Start of `trim_start_char(v[from..], c)` inside `v`.
pub fn skip_char_run(v: &Vec<char>, from: usize, c: char) -> (lo: usize)
    requires
        from <= v.len(),
    ensures
        from <= lo <= v.len(),
        trim_start_char(v@.skip(from as int), c) == v@.skip(lo as int),
{
    let mut lo = from;
    while lo < v.len() && v[lo] == c
        invariant
            from <= lo <= v.len(),
            trim_start_char(v@.skip(from as int), c) == trim_start_char(v@.skip(lo as int), c),
        decreases v.len() - lo,
    {
        proof {
            lemma_trim_start_char_step(v@, c, lo as int);
        }
        lo = lo + 1;
    }
    lo
}

/// End of `trim_end_char(v[..to], c)` inside `v`.
pub fn back_char_run(v: &Vec<char>, to: usize, c: char) -> (hi: usize)
    requires
        to <= v.len(),
    ensures
        hi <= to,
        trim_end_char(v@.take(to as int), c) == v@.take(hi as int),
{
    let mut hi = to;
    while hi > 0 && v[hi - 1] == c
        invariant
            hi <= to <= v.len(),
            trim_end_char(v@.take(to as int), c) == trim_end_char(v@.take(hi as int), c),
        decreases hi,
    {
        proof {
            lemma_trim_end_char_step(v@, c, hi as int);
        }
        hi = hi - 1;
    }
    hi
}

/// `s.trim_start_matches(c)`.
pub fn str_trim_start_char(s: &str, c: char) -> (r: String)
    ensures
        r@ == trim_start_char(s@, c),
{
    let v = chars_of(s);
    assert(v@.skip(0) =~= v@);
    let lo = skip_char_run(&v, 0, c);
    let r = string_of(&v, lo, v.len());
    assert(v@.subrange(lo as int, v@.len() as int) == v@.skip(lo as int));
    r
}

/// `s.trim_end_matches(c)`.
pub fn str_trim_end_char(s: &str, c: char) -> (r: String)
    ensures
        r@ == trim_end_char(s@, c),
{
    let v = chars_of(s);
    assert(v@.take(v@.len() as int) =~= v@);
    let hi = back_char_run(&v, v.len(), c);
    let r = string_of(&v, 0, hi);
    assert(v@.subrange(0, hi as int) == v@.take(hi as int));
    r
}

/// `s.trim_matches(c)`.
pub fn str_trim_char(s: &str, c: char) -> (r: String)
    ensures
        r@ == trim_char(s@, c),
{
    let a = str_trim_start_char(s, c);
    str_trim_end_char(a.as_str(), c)
}

// ---------------------------------------------------------------------------
// Splitting, executable
// ---------------------------------------------------------------------------

/// `s.split(c)`, every piece kept.
pub fn str_split_char(s: &str, c: char) -> (r: Vec<String>)
    ensures
        views(r@) == split_char(s@, c),
{
    let v = chars_of(s);
    let mut out: Vec<String> = Vec::new();
    let mut cur = String::new();
    let mut i: usize = 0;
    assert(v@.skip(0) =~= v@);
    while i < v.len()
        invariant
            i <= v.len(),
            views(out@) + split_acc(v@.skip(i as int), c, cur@) == split_char(v@, c),
        decreases v.len() - i,
    {
        assert(v@.skip(i as int).drop_first() =~= v@.skip(i + 1));
        if v[i] == c {
            let ghost before = views(out@);
            out.push(cur);
            assert(views(out@) =~= before.push(cur@));
            assert(before + (seq![cur@] + split_acc(v@.skip(i + 1), c, Seq::empty()))
                =~= views(out@) + split_acc(v@.skip(i + 1), c, Seq::empty()));
            cur = String::new();
        } else {
            push_char(&mut cur, v[i]);
        }
        i = i + 1;
    }
    let ghost before = views(out@);
    out.push(cur);
    assert(views(out@) =~= before.push(cur@));
    assert(views(out@) =~= before + seq![cur@]);
    out
}

/// Fields of `s` under `sep` (`str::split_whitespace` for whitespace).
pub fn str_fields(s: &str, sep: Sep) -> (r: Vec<String>)
    ensures
        views(r@) == fields(s@, sep),
{
    let v = chars_of(s);
    let mut out: Vec<String> = Vec::new();
    let mut cur: Vec<char> = Vec::new();
    let mut i: usize = 0;
    assert(v@.skip(0) =~= v@);
    while i < v.len()
        invariant
            i <= v.len(),
            views(out@) + fields_acc(v@.skip(i as int), sep, cur@) == fields(v@, sep),
        decreases v.len() - i,
    {
        assert(v@.skip(i as int).drop_first() =~= v@.skip(i + 1));
        let c = v[i];
        let is_s = match sep {
            Sep::Whitespace => is_whitespace(c),
            Sep::WhitespaceOrComma => is_whitespace(c) || c == ',',
        };
        if is_s {
            if cur.len() > 0 {
                let w = string_of_all(&cur);
                let ghost before = views(out@);
                out.push(w);
                assert(views(out@) =~= before.push(cur@));
                assert(before + (seq![cur@] + fields_acc(v@.skip(i + 1), sep, Seq::empty()))
                    =~= views(out@) + fields_acc(v@.skip(i + 1), sep, Seq::empty()));
            } else {
                assert(Seq::<Seq<char>>::empty() + fields_acc(v@.skip(i + 1), sep, Seq::empty())
                    =~= fields_acc(v@.skip(i + 1), sep, Seq::empty()));
            }
            cur = Vec::new();
            assert(cur@ =~= Seq::<char>::empty());
        } else {
            cur.push(c);
        }
        i = i + 1;
    }
    if cur.len() > 0 {
        let w = string_of_all(&cur);
        let ghost before = views(out@);
        out.push(w);
        assert(views(out@) =~= before + seq![cur@]);
    } else {
        assert(views(out@) + Seq::<Seq<char>>::empty() =~= views(out@));
    }
    out
}

/// `str::lines`.
pub fn str_lines(s: &str) -> (r: Vec<String>)
    ensures
        views(r@) == lines(s@),
{
    let v = chars_of(s);
    let mut out: Vec<String> = Vec::new();
    let mut cur: Vec<char> = Vec::new();
    let mut i: usize = 0;
    assert(v@.skip(0) =~= v@);
    while i < v.len()
        invariant
            i <= v.len(),
            views(out@) + lines_acc(v@.skip(i as int), cur@) == lines(v@),
        decreases v.len() - i,
    {
        assert(v@.skip(i as int).drop_first() =~= v@.skip(i + 1));
        let c = v[i];
        if c == '\n' {
            let n = cur.len();
            let line = if n > 0 && cur[n - 1] == '\r' {
                let l = string_of(&cur, 0, n - 1);
                assert(cur@.subrange(0, n - 1) =~= cur@.drop_last());
                l
            } else {
                string_of_all(&cur)
            };
            assert(line@ == strip_cr(cur@));
            let ghost before = views(out@);
            out.push(line);
            assert(views(out@) =~= before.push(line@));
            assert(before + (seq![strip_cr(cur@)] + lines_acc(v@.skip(i + 1), Seq::empty()))
                =~= views(out@) + lines_acc(v@.skip(i + 1), Seq::empty()));
            cur = Vec::new();
            assert(cur@ =~= Seq::<char>::empty());
        } else {
            cur.push(c);
        }
        i = i + 1;
    }
    if cur.len() > 0 {
        let line = string_of_all(&cur);
        let ghost before = views(out@);
        out.push(line);
        assert(views(out@) =~= before + seq![cur@]);
    } else {
        assert(views(out@) + Seq::<Seq<char>>::empty() =~= views(out@));
    }
    out
}

/// `parts.join(sep)`.
pub fn join_exec(parts: &Vec<String>, sep: &str) -> (r: String)
    ensures
        r@ == join(views(parts@), sep@),
{
    let mut r = String::new();
    let mut i: usize = 0;
    while i < parts.len()
        invariant
            i <= parts.len(),
            r@ == join(views(parts@).take(i as int), sep@),
        decreases parts.len() - i,
    {
        let ghost before = views(parts@).take(i as int);
        if i > 0 {
            r.append(sep);
        }
        r.append(parts[i].as_str());
        proof {
            let now = views(parts@).take(i + 1);
            assert(now.drop_last() =~= before);
            assert(now.last() == parts@[i as int]@);
            if i == 0 {
                assert(before =~= Seq::<Seq<char>>::empty());
                assert(r@ =~= parts@[0]@);
            }
        }
        i = i + 1;
    }
    assert(views(parts@).take(parts.len() as int) =~= views(parts@));
    r
}


// ---------------------------------------------------------------------------
// UTF-8 lengths
// ---------------------------------------------------------------------------

/// The number of bytes UTF-8 takes for `c`.
pub open spec fn char_width(c: char) -> int {
    let u = c as u32;
    if u < 0x80 {
        1
    } else if u < 0x800 {
        2
    } else if u < 0x10000 {
        3
    } else {
        4
    }
}

/// The number of bytes UTF-8 takes for `s` (`str::len`).
pub open spec fn utf8_len(s: Seq<char>) -> int
    decreases s.len(),
{
    if s.len() == 0 {
        0
    } else {
        utf8_len(s.drop_last()) + char_width(s.last())
    }
}

/// `n` bytes from the start of `s` end on a character boundary, or `s` is
/// no longer than that.
pub open spec fn fits_or_boundary(s: Seq<char>, n: int) -> bool {
    utf8_len(s) <= n || exists|k: int| 0 <= k <= s.len() && utf8_len(s.take(k)) == n
}

/// The first `n` bytes of `s` (`&s[..n]`), or all of `s` when it is no
/// longer.
pub open spec fn byte_prefix(s: Seq<char>, n: int) -> Seq<char> {
    if utf8_len(s) <= n {
        s
    } else {
        s.take(choose|k: int| 0 <= k <= s.len() && utf8_len(s.take(k)) == n)
    }
}

/// The number of bytes UTF-8 takes for `c`.
pub fn char_width_exec(c: char) -> (w: usize)
    ensures
        w == char_width(c),
{
    let u = c as u32;
    if u < 0x80 {
        1
    } else if u < 0x800 {
        2
    } else if u < 0x10000 {
        3
    } else {
        4
    }
}

/// Lemma: each character takes at least one byte, so longer prefixes take
/// more bytes.
pub proof fn lemma_utf8_prefix_increasing(s: Seq<char>, i: int, j: int)
    requires
        0 <= i < j <= s.len(),
    ensures
        utf8_len(s.take(i)) < utf8_len(s.take(j)),
    decreases j - i,
{
    assert(s.take(j).drop_last() =~= s.take(j - 1));
    if i < j - 1 {
        lemma_utf8_prefix_increasing(s, i, j - 1);
    }
}

/// `&s[..n]` where that ends on a character boundary, else all of `s`
/// when it is no longer than `n` bytes. The crate cuts ids to a few bytes
/// with it; the bound on `n` keeps the byte count clear of overflow.
pub(crate) fn byte_prefix_exec(s: &str, n: usize) -> (r: String)
    requires
        n <= 16,
        fits_or_boundary(s@, n as int),
    ensures
        r@ == byte_prefix(s@, n as int),
{
    let v = chars_of(s);
    let mut i: usize = 0;
    let mut b: usize = 0;
    assert(v@.take(0) =~= Seq::<char>::empty());
    while i < v.len() && b < n
        invariant
            i <= v.len(),
            v@ == s@,
            b == utf8_len(v@.take(i as int)),
            b <= n <= 16,
            fits_or_boundary(s@, n as int),
        decreases v.len() - i,
    {
        let w = char_width_exec(v[i]);
        assert(v@.take(i + 1).drop_last() =~= v@.take(i as int));
        proof {
            if b + w > n && utf8_len(v@) > n {
                let k = choose|k: int| 0 <= k <= v@.len() && utf8_len(v@.take(k)) == n;
                if k <= i {
                    if k < i {
                        lemma_utf8_prefix_increasing(v@, k, i as int);
                    }
                } else {
                    if k > i + 1 {
                        lemma_utf8_prefix_increasing(v@, i + 1, k);
                    }
                }
            }
            if b + w > n && utf8_len(v@) <= n {
                if i + 1 < v.len() {
                    lemma_utf8_prefix_increasing(v@, i + 1, v@.len() as int);
                }
                assert(v@.take(v@.len() as int) =~= v@);
            }
        }
        b = b + w;
        i = i + 1;
    }
    assert(v@.take(v@.len() as int) =~= v@);
    if i == v.len() {
        return own(s);
    }
    proof {
        lemma_utf8_prefix_increasing(v@, i as int, v@.len() as int);
        let k = choose|k: int| 0 <= k <= v@.len() && utf8_len(v@.take(k)) == n;
        if k < i {
            lemma_utf8_prefix_increasing(v@, k, i as int);
        } else if k > i {
            lemma_utf8_prefix_increasing(v@, i as int, k);
        }
    }
    string_of(&v, 0, i)
}


// ---------------------------------------------------------------------------
// Lemmas on splitting and joining
// ---------------------------------------------------------------------------

/// Lemma: text without the separator is one piece.
pub proof fn lemma_split_no_sep(x: Seq<char>, c: char, cur: Seq<char>)
    requires
        !x.contains(c),
    ensures
        split_acc(x, c, cur) == seq![cur + x],
    decreases x.len(),
{
    if x.len() == 0 {
        assert(cur + x =~= cur);
    } else {
        assert(x[0] != c) by {
            assert(x.contains(x[0]) || true);
            if x[0] == c {
                assert(x.contains(c));
            }
        }
        assert(!x.drop_first().contains(c)) by {
            if x.drop_first().contains(c) {
                let k = choose|k: int| 0 <= k < x.drop_first().len() && x.drop_first()[k] == c;
                assert(x[k + 1] == c);
            }
        }
        lemma_split_no_sep(x.drop_first(), c, cur.push(x[0]));
        assert(cur.push(x[0]) + x.drop_first() =~= cur + x);
    }
}

/// Lemma: a separator after text without one ends a piece.
pub proof fn lemma_split_sep(x: Seq<char>, c: char, rest: Seq<char>, cur: Seq<char>)
    requires
        !x.contains(c),
    ensures
        split_acc(x + seq![c] + rest, c, cur) == seq![cur + x] + split_acc(rest, c, Seq::empty()),
    decreases x.len(),
{
    let s = x + seq![c] + rest;
    if x.len() == 0 {
        assert(s[0] == c);
        assert(s.drop_first() =~= rest);
        assert(cur + x =~= cur);
    } else {
        assert(x[0] != c) by {
            if x[0] == c {
                assert(x.contains(c));
            }
        }
        assert(!x.drop_first().contains(c)) by {
            if x.drop_first().contains(c) {
                let k = choose|k: int| 0 <= k < x.drop_first().len() && x.drop_first()[k] == c;
                assert(x[k + 1] == c);
            }
        }
        assert(s[0] == x[0]);
        assert(s.drop_first() =~= x.drop_first() + seq![c] + rest);
        lemma_split_sep(x.drop_first(), c, rest, cur.push(x[0]));
        assert(cur.push(x[0]) + x.drop_first() =~= cur + x);
    }
}

/// The run read so far, as a field list.
pub open spec fn pending(cur: Seq<char>) -> Seq<Seq<char>> {
    if cur.len() > 0 {
        seq![cur]
    } else {
        Seq::empty()
    }
}

/// No character of `t` separates fields.
pub open spec fn no_sep(t: Seq<char>, sep: Sep) -> bool {
    forall|i: int| 0 <= i < t.len() ==> !is_sep(sep, #[trigger] t[i])
}

/// Lemma: text without separators extends the run being read.
pub proof fn lemma_fields_no_sep(t: Seq<char>, sep: Sep, cur: Seq<char>)
    requires
        no_sep(t, sep),
    ensures
        fields_acc(t, sep, cur) == pending(cur + t),
    decreases t.len(),
{
    if t.len() == 0 {
        assert(cur + t =~= cur);
    } else {
        assert(!is_sep(sep, t[0]));
        assert(no_sep(t.drop_first(), sep)) by {
            assert forall|i: int| 0 <= i < t.drop_first().len() implies !is_sep(sep, #[trigger] t.drop_first()[i]) by {
                assert(t.drop_first()[i] == t[i + 1]);
            }
        }
        lemma_fields_no_sep(t.drop_first(), sep, cur.push(t[0]));
        assert(cur.push(t[0]) + t.drop_first() =~= cur + t);
    }
}

/// Lemma: a separator and a word after `a` add that word to the fields.
pub proof fn lemma_fields_append_word(a: Seq<char>, w: char, t: Seq<char>, sep: Sep, cur: Seq<char>)
    requires
        is_sep(sep, w),
        t.len() > 0,
        no_sep(t, sep),
    ensures
        fields_acc(a + seq![w] + t, sep, cur) == fields_acc(a, sep, cur) + seq![t],
    decreases a.len(),
{
    let s = a + seq![w] + t;
    if a.len() == 0 {
        assert(s[0] == w);
        assert(s.drop_first() =~= t);
        lemma_fields_no_sep(t, sep, Seq::empty());
        assert(Seq::<char>::empty() + t =~= t);
    } else {
        assert(s[0] == a[0]);
        assert(s.drop_first() =~= a.drop_first() + seq![w] + t);
        if is_sep(sep, a[0]) {
            lemma_fields_append_word(a.drop_first(), w, t, sep, Seq::empty());
        } else {
            lemma_fields_append_word(a.drop_first(), w, t, sep, cur.push(a[0]));
        }
    }
}

/// Every part is non-empty and holds no separator.
pub open spec fn words_ok(ts: Seq<Seq<char>>, sep: Sep) -> bool {
    forall|i: int| 0 <= i < ts.len() ==> #[trigger] ts[i].len() > 0 && no_sep(ts[i], sep)
}

/// Lemma: non-empty words joined by a separator are read back as the same
/// words.
pub proof fn lemma_fields_join(ts: Seq<Seq<char>>, w: char, sep: Sep)
    requires
        is_sep(sep, w),
        words_ok(ts, sep),
    ensures
        fields(join(ts, seq![w]), sep) == ts,
    decreases ts.len(),
{
    if ts.len() == 0 {
        assert(fields(Seq::empty(), sep) =~= ts);
    } else if ts.len() == 1 {
        assert(ts[0].len() > 0 && no_sep(ts[0], sep));
        lemma_fields_no_sep(ts[0], sep, Seq::empty());
        assert(Seq::<char>::empty() + ts[0] =~= ts[0]);
        assert(seq![ts[0]] =~= ts);
    } else {
        let init = ts.drop_last();
        assert(words_ok(init, sep)) by {
            assert forall|i: int| 0 <= i < init.len() implies #[trigger] init[i].len() > 0 && no_sep(init[i], sep) by {
                assert(init[i] == ts[i]);
            }
        }
        lemma_fields_join(init, w, sep);
        assert(ts.last() == ts[ts.len() - 1]);
        assert(ts.last().len() > 0 && no_sep(ts.last(), sep));
        lemma_fields_append_word(join(init, seq![w]), w, ts.last(), sep, Seq::empty());
        assert(join(ts, seq![w]) == join(init, seq![w]) + seq![w] + ts.last());
        assert(init + seq![ts.last()] =~= ts);
    }
}


/// Lemma: a separator ends the fields read before it; the fields after it
/// follow.
pub proof fn lemma_fields_split(a: Seq<char>, w: char, b: Seq<char>, sep: Sep, cur: Seq<char>)
    requires
        is_sep(sep, w),
    ensures
        fields_acc(a + seq![w] + b, sep, cur) == fields_acc(a, sep, cur) + fields(b, sep),
    decreases a.len(),
{
    let s = a + seq![w] + b;
    if a.len() == 0 {
        assert(s[0] == w);
        assert(s.drop_first() =~= b);
        assert(fields_acc(a, sep, cur) == pending(cur));
    } else {
        assert(s[0] == a[0]);
        assert(s.drop_first() =~= a.drop_first() + seq![w] + b);
        if is_sep(sep, a[0]) {
            lemma_fields_split(a.drop_first(), w, b, sep, Seq::empty());
            assert(pending(cur) + (fields_acc(a.drop_first(), sep, Seq::empty()) + fields(b, sep)) =~= (pending(cur) + fields_acc(a.drop_first(), sep, Seq::empty())) + fields(b, sep));
        } else {
            lemma_fields_split(a.drop_first(), w, b, sep, cur.push(a[0]));
        }
    }
}

/// Lemma: fields are non-empty and hold no separator.
pub proof fn lemma_fields_words_ok(s: Seq<char>, sep: Sep, cur: Seq<char>)
    requires
        no_sep(cur, sep),
    ensures
        words_ok(fields_acc(s, sep, cur), sep),
    decreases s.len(),
{
    if s.len() == 0 {
    } else if is_sep(sep, s[0]) {
        lemma_fields_words_ok(s.drop_first(), sep, Seq::empty());
        let r = fields_acc(s.drop_first(), sep, Seq::empty());
        assert forall|i: int| 0 <= i < (pending(cur) + r).len() implies #[trigger] (pending(cur) + r)[i].len() > 0 && no_sep((pending(cur) + r)[i], sep) by {
            if i < pending(cur).len() {
                assert((pending(cur) + r)[i] == cur);
            } else {
                assert((pending(cur) + r)[i] == r[i - pending(cur).len()]);
            }
        }
    } else {
        assert(no_sep(cur.push(s[0]), sep)) by {
            assert forall|i: int| 0 <= i < cur.push(s[0]).len() implies !is_sep(sep, #[trigger] cur.push(s[0])[i]) by {
                if i < cur.len() {
                    assert(cur.push(s[0])[i] == cur[i]);
                }
            }
        }
        lemma_fields_words_ok(s.drop_first(), sep, cur.push(s[0]));
    }
}

/// Lemma: a character in no part and not in the separator is not in the
/// joined text.
pub proof fn lemma_join_lacks(ws: Seq<Seq<char>>, sep: Seq<char>, c: char)
    requires
        forall|i: int| 0 <= i < ws.len() ==> !(#[trigger] ws[i]).contains(c),
        !sep.contains(c),
    ensures
        !join(ws, sep).contains(c),
    decreases ws.len(),
{
    if ws.len() > 1 {
        lemma_join_lacks(ws.drop_last(), sep, c);
        let a = join(ws.drop_last(), sep);
        let l = ws.last();
        assert(!l.contains(c)) by {
            assert(l == ws[ws.len() - 1]);
        }
        let j = a + sep + l;
        if j.contains(c) {
            let k = choose|k: int| 0 <= k < j.len() && j[k] == c;
            if k < a.len() {
                assert(a[k] == c);
            } else if k < a.len() + sep.len() {
                assert(sep[k - a.len()] == c);
            } else {
                assert(l[k - a.len() - sep.len()] == c);
            }
        }
    } else if ws.len() == 1 {
        assert(!ws[0].contains(c));
    }
}

/// Lemma: the last character of joined parts is that of the last part.
pub proof fn lemma_join_last(ws: Seq<Seq<char>>, sep: Seq<char>)
    requires
        ws.len() > 0,
        ws.last().len() > 0,
    ensures
        join(ws, sep).len() > 0,
        join(ws, sep).last() == ws.last().last(),
{
    if ws.len() > 1 {
        let a = join(ws.drop_last(), sep);
        assert((a + sep + ws.last()).last() == ws.last().last());
    }
}

/// Lemma: a line without line breaks is the only line, or none when empty.
pub proof fn lemma_lines_no_nl(t: Seq<char>, cur: Seq<char>)
    requires
        !t.contains('\n'),
    ensures
        lines_acc(t, cur) == pending(cur + t),
    decreases t.len(),
{
    if t.len() == 0 {
        assert(cur + t =~= cur);
    } else {
        assert(t[0] != '\n') by {
            if t[0] == '\n' {
                assert(t.contains('\n'));
            }
        }
        assert(!t.drop_first().contains('\n')) by {
            if t.drop_first().contains('\n') {
                let k = choose|k: int| 0 <= k < t.drop_first().len() && t.drop_first()[k] == '\n';
                assert(t[k + 1] == '\n');
            }
        }
        lemma_lines_no_nl(t.drop_first(), cur.push(t[0]));
        assert(cur.push(t[0]) + t.drop_first() =~= cur + t);
    }
}

/// Lemma: a line break splits the lines before it from those after it.
pub proof fn lemma_lines_split(a: Seq<char>, t: Seq<char>, cur: Seq<char>)
    ensures
        lines_acc(a + seq!['\n'] + t, cur) == lines_acc(a + seq!['\n'], cur) + lines_acc(t, Seq::empty()),
    decreases a.len(),
{
    let s = a + seq!['\n'] + t;
    let s2 = a + seq!['\n'];
    if a.len() == 0 {
        assert(s[0] == '\n');
        assert(s.drop_first() =~= t);
        assert(s2[0] == '\n');
        assert(s2.drop_first() =~= Seq::<char>::empty());
        assert(lines_acc(Seq::<char>::empty(), Seq::empty()) =~= Seq::<Seq<char>>::empty());
        assert(lines_acc(s2, cur) =~= seq![strip_cr(cur)]);
        assert(lines_acc(s, cur) =~= seq![strip_cr(cur)] + lines_acc(t, Seq::empty()));
    } else {
        assert(s[0] == a[0]);
        assert(s2[0] == a[0]);
        assert(s.drop_first() =~= a.drop_first() + seq!['\n'] + t);
        assert(s2.drop_first() =~= a.drop_first() + seq!['\n']);
        if a[0] == '\n' {
            lemma_lines_split(a.drop_first(), t, Seq::empty());
            assert(seq![strip_cr(cur)] + (lines_acc(a.drop_first() + seq!['\n'], Seq::empty()) + lines_acc(t, Seq::empty())) =~= (seq![strip_cr(cur)] + lines_acc(a.drop_first() + seq!['\n'], Seq::empty())) + lines_acc(t, Seq::empty()));
        } else {
            lemma_lines_split(a.drop_first(), t, cur.push(a[0]));
        }
    }
}

/// Lines fit to be joined and read back: non-empty, without line breaks,
/// not ending in `\r`.
pub open spec fn lines_ok(ls: Seq<Seq<char>>) -> bool {
    forall|i: int| 0 <= i < ls.len() ==> (#[trigger] ls[i]).len() > 0 && !ls[i].contains('\n') && ls[i].last() != '\r'
}

/// Lemma: joined lines followed by a line break read back as the lines.
pub proof fn lemma_lines_join_closed(ls: Seq<Seq<char>>)
    requires
        ls.len() > 0,
        lines_ok(ls),
    ensures
        lines_acc(join(ls, "\n"@) + seq!['\n'], Seq::empty()) == ls,
    decreases ls.len(),
{
    reveal_strlit("\n");
    assert("\n"@ =~= seq!['\n']);
    let l = ls.last();
    assert(l == ls[ls.len() - 1]);
    assert(l.len() > 0 && !l.contains('\n') && l.last() != '\r');
    if ls.len() == 1 {
        lemma_lines_split(l, Seq::empty(), Seq::empty());
        assert(l + seq!['\n'] + Seq::<char>::empty() =~= l + seq!['\n']);
        lemma_lines_no_nl(l, Seq::empty());
        // lines_acc(l + ['\n'], []) == [strip_cr(l)]
        lemma_lines_closed_one(l);
        assert(seq![l] =~= ls);
    } else {
        let init = ls.drop_last();
        assert(lines_ok(init)) by {
            assert forall|i: int| 0 <= i < init.len() implies (#[trigger] init[i]).len() > 0 && !init[i].contains('\n') && init[i].last() != '\r' by {
                assert(init[i] == ls[i]);
            }
        }
        lemma_lines_join_closed(init);
        let a = join(init, "\n"@);
        assert(join(ls, "\n"@) + seq!['\n'] =~= a + seq!['\n'] + (l + seq!['\n']));
        lemma_lines_split(a, l + seq!['\n'], Seq::empty());
        lemma_lines_closed_one(l);
        assert(init + seq![l] =~= ls);
    }
}

/// Lemma: one line followed by a line break reads back as that line.
pub proof fn lemma_lines_closed_one(l: Seq<char>)
    requires
        !l.contains('\n'),
        l.len() > 0,
        l.last() != '\r',
    ensures
        lines_acc(l + seq!['\n'], Seq::empty()) == seq![l],
{
    lemma_lines_closed_acc(l, Seq::empty());
    assert(Seq::<char>::empty() + l =~= l);
}

/// Lemma: a final line break after text that does not end with a line
/// break or `\r` adds no line.
pub proof fn lemma_lines_close(t: Seq<char>, cur: Seq<char>)
    requires
        (cur + t).len() > 0,
        (cur + t).last() != '\n',
        (cur + t).last() != '\r',
    ensures
        lines_acc(t + seq!['\n'], cur) == lines_acc(t, cur),
    decreases t.len(),
{
    let s = t + seq!['\n'];
    if t.len() == 0 {
        assert(cur + t =~= cur);
        assert(s[0] == '\n');
        assert(s.drop_first() =~= Seq::<char>::empty());
        assert(lines_acc(s, cur) =~= seq![strip_cr(cur)] + lines_acc(Seq::<char>::empty(), Seq::empty()));
        assert(lines_acc(Seq::<char>::empty(), Seq::empty()) =~= Seq::<Seq<char>>::empty());
    } else if t[0] == '\n' {
        assert(s[0] == '\n');
        assert(s.drop_first() =~= t.drop_first() + seq!['\n']);
        assert(t.drop_first().len() > 0) by {
            if t.len() == 1 {
                assert((cur + t).last() == t[0]);
            }
        }
        assert((Seq::<char>::empty() + t.drop_first()) =~= t.drop_first());
        assert(t.drop_first().last() == (cur + t).last());
        lemma_lines_close(t.drop_first(), Seq::empty());
    } else {
        assert(s[0] == t[0]);
        assert(s.drop_first() =~= t.drop_first() + seq!['\n']);
        assert(cur.push(t[0]) + t.drop_first() =~= cur + t);
        lemma_lines_close(t.drop_first(), cur.push(t[0]));
    }
}

/// Lemma: the lines of `d`, an empty line, and the lines of `x`, when `d`
/// is not empty and ends with neither a line break nor `\r`.
pub proof fn lemma_lines_paragraph(d: Seq<char>, x: Seq<char>)
    requires
        d.len() > 0,
        d.last() != '\n',
        d.last() != '\r',
    ensures
        lines(d + "\n\n"@ + x) == lines(d) + seq![Seq::<char>::empty()] + lines(x),
{
    reveal_strlit("\n\n");
    let nl = seq!['\n'];
    assert(d + "\n\n"@ + x =~= (d + nl) + nl + x);
    lemma_lines_split(d + nl, x, Seq::empty());
    assert((d + nl) + nl =~= d + nl + Seq::<char>::empty().push('\n'));
    lemma_lines_split(d, nl, Seq::empty());
    assert(d + nl + nl =~= d + seq!['\n'] + nl);
    assert(nl[0] == '\n');
    assert(nl.drop_first() =~= Seq::<char>::empty());
    assert(lines_acc(nl, Seq::empty()) =~= seq![strip_cr(Seq::<char>::empty())] + lines_acc(Seq::<char>::empty(), Seq::empty()));
    assert(lines_acc(Seq::<char>::empty(), Seq::empty()) =~= Seq::<Seq<char>>::empty());
    assert(strip_cr(Seq::<char>::empty()) =~= Seq::<char>::empty());
    assert(Seq::<char>::empty() + d =~= d);
    lemma_lines_close(d, Seq::empty());
}

/// Lemma: trimming the start never lengthens.
pub proof fn lemma_trim_start_len(s: Seq<char>)
    ensures
        trim_start(s).len() <= s.len(),
    decreases s.len(),
{
    if s.len() > 0 && is_ws(s[0]) {
        lemma_trim_start_len(s.drop_first());
    }
}

/// Lemma: trimming the end never lengthens.
pub proof fn lemma_trim_end_len(s: Seq<char>)
    ensures
        trim_end(s).len() <= s.len(),
    decreases s.len(),
{
    if s.len() > 0 && is_ws(s.last()) {
        lemma_trim_end_len(s.drop_last());
    }
}

/// Lemma: text that trimming leaves as it is starts and ends with a
/// character that is not whitespace, and a line break after it is trimmed
/// away.
pub proof fn lemma_trimmed_newline(d: Seq<char>)
    requires
        d.len() > 0,
        trim(d) == d,
    ensures
        !is_ws(d[0]),
        !is_ws(d.last()),
        trim(d + seq!['\n']) == d,
{
    lemma_trim_start_len(d);
    if is_ws(d[0]) {
        lemma_trim_start_len(d.drop_first());
        lemma_trim_end_len(trim_start(d));
        assert(false);
    }
    assert(trim_start(d) == d);
    if is_ws(d.last()) {
        lemma_trim_end_len(d.drop_last());
        assert(false);
    }
    let e = d + seq!['\n'];
    assert(e[0] == d[0]);
    assert(trim_start(e) == e);
    assert(is_ws(e.last()));
    assert(e.drop_last() =~= d);
}

/// Lemma: text without line breaks, then one, is one line.
proof fn lemma_lines_closed_acc(t: Seq<char>, cur: Seq<char>)
    requires
        !t.contains('\n'),
    ensures
        lines_acc(t + seq!['\n'], cur) == seq![strip_cr(cur + t)],
    decreases t.len(),
{
    let s = t + seq!['\n'];
    if t.len() == 0 {
        assert(s[0] == '\n');
        assert(s.drop_first() =~= Seq::<char>::empty());
        assert(cur + t =~= cur);
        assert(lines_acc(Seq::<char>::empty(), Seq::empty()) =~= Seq::<Seq<char>>::empty());
        assert(lines_acc(s, cur) =~= seq![strip_cr(cur)]);
    } else {
        assert(t[0] != '\n') by {
            if t[0] == '\n' {
                assert(t.contains('\n'));
            }
        }
        assert(!t.drop_first().contains('\n')) by {
            if t.drop_first().contains('\n') {
                let k = choose|k: int| 0 <= k < t.drop_first().len() && t.drop_first()[k] == '\n';
                assert(t[k + 1] == '\n');
            }
        }
        assert(s[0] == t[0]);
        assert(s.drop_first() =~= t.drop_first() + seq!['\n']);
        lemma_lines_closed_acc(t.drop_first(), cur.push(t[0]));
        assert(cur.push(t[0]) + t.drop_first() =~= cur + t);
    }
}

/// Lemma: joined lines read back as the lines.
pub proof fn lemma_lines_join(ls: Seq<Seq<char>>)
    requires
        lines_ok(ls),
    ensures
        lines(join(ls, "\n"@)) == ls,
{
    reveal_strlit("\n");
    assert("\n"@ =~= seq!['\n']);
    if ls.len() == 0 {
        assert(lines(Seq::empty()) =~= ls);
    } else if ls.len() == 1 {
        assert(ls[0].len() > 0 && !ls[0].contains('\n'));
        lemma_lines_no_nl(ls[0], Seq::empty());
        assert(Seq::<char>::empty() + ls[0] =~= ls[0]);
        assert(seq![ls[0]] =~= ls);
    } else {
        let init = ls.drop_last();
        let l = ls.last();
        assert(l == ls[ls.len() - 1]);
        assert(lines_ok(init)) by {
            assert forall|i: int| 0 <= i < init.len() implies (#[trigger] init[i]).len() > 0 && !init[i].contains('\n') && init[i].last() != '\r' by {
                assert(init[i] == ls[i]);
            }
        }
        lemma_lines_join_closed(init);
        let a = join(init, "\n"@);
        assert(join(ls, "\n"@) =~= a + seq!['\n'] + l);
        lemma_lines_split(a, l, Seq::empty());
        lemma_lines_no_nl(l, Seq::empty());
        assert(Seq::<char>::empty() + l =~= l);
        assert(init + seq![l] =~= ls);
    }
}

} // verus!
