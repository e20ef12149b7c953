//! Text as sequences of characters: searching, trimming, splitting.
//!
//! Every function works on a slice of characters and is specified by a
//! function on `Seq<char>` of the same name with the suffix `_of`.

use vstd::prelude::*;
use vstd::slice::slice_subrange;

verus! {

/// `String::push` appends one character at the end.
pub assume_specification[ String::push ](s: &mut String, c: char)
    ensures
        final(s)@ == old(s)@.push(c),
;

/// The characters of the Unicode property `White_Space`.
pub open spec fn is_space_of(c: char) -> bool {
    let n = c as u32;
    ||| 0x9 <= n <= 0xD
    ||| n == 0x20
    ||| n == 0x85
    ||| n == 0xA0
    ||| n == 0x1680
    ||| 0x2000 <= n <= 0x200A
    ||| n == 0x2028
    ||| n == 0x2029
    ||| n == 0x202F
    ||| n == 0x205F
    ||| n == 0x3000
}

/// Whether `c` is white space.
pub fn is_space(c: char) -> (r: bool)
    ensures
        r == is_space_of(c),
{
    let n = c as u32;
    (0x9 <= n && n <= 0xD) || n == 0x20 || n == 0x85 || n == 0xA0 || n == 0x1680 || (0x2000 <= n
        && n <= 0x200A) || n == 0x2028 || n == 0x2029 || n == 0x202F || n == 0x205F || n == 0x3000
}

pub open spec fn is_digit_of(c: char) -> bool {
    '0' <= c && c <= '9'
}

/// Whether `c` is an ASCII digit.
pub fn is_digit(c: char) -> (r: bool)
    ensures
        r == is_digit_of(c),
{
    '0' <= c && c <= '9'
}

/// The characters of `s`, in order.
pub fn chars_of(s: &str) -> (r: Vec<char>)
    ensures
        r@ == s@,
{
    let mut v: Vec<char> = Vec::new();
    for c in it: s.chars()
        invariant
            it.seq() == s@,
            v@ == s@.take(it.index() as int),
    {
        v.push(c);
    }
    v
}

/// The string of the characters of `v`.
pub fn string_of(v: &[char]) -> (r: String)
    ensures
        r@ == v@,
{
    let mut s = String::new();
    let mut i: usize = 0;
    while i < v.len()
        invariant
            i <= v.len(),
            s@ == v@.take(i as int),
        decreases v.len() - i,
    {
        s.push(v[i]);
        i = i + 1;
        assert(v@.take(i as int) =~= v@.take(i - 1).push(v@[i - 1]));
    }
    assert(v@.take(v@.len() as int) =~= v@);
    s
}

/// Whether two slices hold the same characters.
pub fn same(a: &[char], b: &[char]) -> (r: bool)
    ensures
        r == (a@ == b@),
{
    if a.len() != b.len() {
        return false;
    }
    let mut i: usize = 0;
    while i < a.len()
        invariant
            i <= a.len(),
            a@.len() == b@.len(),
            a@.take(i as int) == b@.take(i as int),
        decreases a.len() - i,
    {
        if a[i] != b[i] {
            return false;
        }
        i = i + 1;
        assert(a@.take(i as int) =~= a@.take(i - 1).push(a@[i - 1]));
        assert(b@.take(i as int) =~= b@.take(i - 1).push(b@[i - 1]));
    }
    assert(a@.take(a@.len() as int) =~= a@);
    assert(b@.take(b@.len() as int) =~= b@);
    true
}

/// Whether two strings hold the same characters.
pub fn same_str(a: &str, b: &str) -> (r: bool)
    ensures
        r == (a@ == b@),
{
    let x = chars_of(a);
    let y = chars_of(b);
    same(x.as_slice(), y.as_slice())
}

// ---------------------------------------------------------------------------
// Searching
// ---------------------------------------------------------------------------

/// `n` stands in `h` at position `i`.
pub open spec fn occurs_at(h: Seq<char>, n: Seq<char>, i: int) -> bool {
    0 <= i && i + n.len() <= h.len() && h.subrange(i, i + n.len()) == n
}

/// The first position at or after `from` where `n` stands in `h`.
pub open spec fn find_from(h: Seq<char>, n: Seq<char>, from: int) -> Option<int>
    decreases h.len() - from + 1,
{
    if from < 0 || from + n.len() > h.len() {
        None
    } else if occurs_at(h, n, from) {
        Some(from)
    } else {
        find_from(h, n, from + 1)
    }
}

/// The first position where `n` stands in `h`.
pub open spec fn find_of(h: Seq<char>, n: Seq<char>) -> Option<int> {
    find_from(h, n, 0)
}

/// The last position at or before `upto` where `n` stands in `h`.
pub open spec fn rfind_upto(h: Seq<char>, n: Seq<char>, upto: int) -> Option<int>
    decreases upto + 1,
{
    if upto < 0 {
        None
    } else if occurs_at(h, n, upto) {
        Some(upto)
    } else {
        rfind_upto(h, n, upto - 1)
    }
}

/// The last position where `n` stands in `h`.
pub open spec fn rfind_of(h: Seq<char>, n: Seq<char>) -> Option<int> {
    rfind_upto(h, n, h.len() - n.len())
}

pub open spec fn contains_of(h: Seq<char>, n: Seq<char>) -> bool {
    find_of(h, n) is Some
}

pub open spec fn starts_of(h: Seq<char>, p: Seq<char>) -> bool {
    occurs_at(h, p, 0)
}

pub open spec fn ends_of(h: Seq<char>, p: Seq<char>) -> bool {
    occurs_at(h, p, h.len() - p.len())
}

/// What follows the prefix `p`, where `h` has it.
pub open spec fn strip_prefix_of(h: Seq<char>, p: Seq<char>) -> Option<Seq<char>> {
    if starts_of(h, p) {
        Some(h.skip(p.len() as int))
    } else {
        None
    }
}

/// What precedes the suffix `p`, where `h` has it.
pub open spec fn strip_suffix_of(h: Seq<char>, p: Seq<char>) -> Option<Seq<char>> {
    if ends_of(h, p) {
        Some(h.take(h.len() - p.len()))
    } else {
        None
    }
}

/// The text before and after the first `n`.
pub open spec fn split_once_of(h: Seq<char>, n: Seq<char>) -> Option<(Seq<char>, Seq<char>)> {
    match find_of(h, n) {
        Some(i) => Some((h.take(i), h.skip(i + n.len()))),
        None => None,
    }
}

/// The text before and after the last `n`.
pub open spec fn rsplit_once_of(h: Seq<char>, n: Seq<char>) -> Option<(Seq<char>, Seq<char>)> {
    match rfind_of(h, n) {
        Some(i) => Some((h.take(i), h.skip(i + n.len()))),
        None => None,
    }
}

/// `find_from` gives the least position, and `None` only where there is none.
pub proof fn lemma_find_from(h: Seq<char>, n: Seq<char>, from: int)
    requires
        0 <= from,
    ensures
        match find_from(h, n, from) {
            Some(i) => from <= i && occurs_at(h, n, i) && forall|j: int|
                from <= j < i ==> !#[trigger] occurs_at(h, n, j),
            None => forall|j: int| from <= j ==> !#[trigger] occurs_at(h, n, j),
        },
    decreases h.len() - from + 1,
{
    if from + n.len() <= h.len() && !occurs_at(h, n, from) {
        lemma_find_from(h, n, from + 1);
    }
}

/// `rfind_upto` gives the greatest position, and `None` only where there is none.
pub proof fn lemma_rfind_upto(h: Seq<char>, n: Seq<char>, upto: int)
    ensures
        match rfind_upto(h, n, upto) {
            Some(i) => i <= upto && occurs_at(h, n, i) && forall|j: int|
                i < j <= upto ==> !#[trigger] occurs_at(h, n, j),
            None => forall|j: int| j <= upto ==> !#[trigger] occurs_at(h, n, j),
        },
    decreases upto + 1,
{
    if 0 <= upto && !occurs_at(h, n, upto) {
        lemma_rfind_upto(h, n, upto - 1);
    }
}

/// Whether `n` stands in `h` at position `i`.
pub fn occurs(h: &[char], n: &[char], i: usize) -> (r: bool)
    ensures
        r == occurs_at(h@, n@, i as int),
{
    if i > h.len() || n.len() > h.len() - i {
        return false;
    }
    same(slice_subrange(h, i, i + n.len()), n)
}

/// The first position where `n` stands in `h`.
pub fn find(h: &[char], n: &[char]) -> (r: Option<usize>)
    ensures
        match r {
            Some(i) => find_of(h@, n@) == Some(i as int) && i + n.len() <= h.len(),
            None => find_of(h@, n@) is None,
        },
{
    if n.len() > h.len() {
        return None;
    }
    let last: usize = h.len() - n.len();
    let mut i: usize = 0;
    while i < last
        invariant
            i <= last,
            last == h.len() - n.len(),
            find_of(h@, n@) == find_from(h@, n@, i as int),
        decreases last - i,
    {
        if occurs(h, n, i) {
            return Some(i);
        }
        i = i + 1;
    }
    if occurs(h, n, last) {
        Some(last)
    } else {
        assert(find_from(h@, n@, last + 1) is None);
        None
    }
}

/// The last position where `n` stands in `h`.
pub fn rfind(h: &[char], n: &[char]) -> (r: Option<usize>)
    ensures
        match r {
            Some(i) => rfind_of(h@, n@) == Some(i as int) && i + n.len() <= h.len(),
            None => rfind_of(h@, n@) is None,
        },
{
    if n.len() > h.len() {
        return None;
    }
    let mut i: usize = h.len() - n.len();
    loop
        invariant
            i + n.len() <= h.len(),
            rfind_of(h@, n@) == rfind_upto(h@, n@, i as int),
        decreases i,
    {
        if occurs(h, n, i) {
            return Some(i);
        }
        if i == 0 {
            assert(rfind_upto(h@, n@, -1) is None);
            return None;
        }
        i = i - 1;
    }
}

pub fn contains(h: &[char], n: &[char]) -> (r: bool)
    ensures
        r == contains_of(h@, n@),
{
    find(h, n).is_some()
}

pub fn starts(h: &[char], p: &[char]) -> (r: bool)
    ensures
        r == starts_of(h@, p@),
{
    occurs(h, p, 0)
}

pub fn ends(h: &[char], p: &[char]) -> (r: bool)
    ensures
        r == ends_of(h@, p@),
{
    p.len() <= h.len() && occurs(h, p, h.len() - p.len())
}

pub fn strip_prefix<'a>(h: &'a [char], p: &[char]) -> (r: Option<&'a [char]>)
    ensures
        match r {
            Some(t) => strip_prefix_of(h@, p@) == Some(t@),
            None => strip_prefix_of(h@, p@) is None,
        },
{
    if starts(h, p) {
        Some(slice_subrange(h, p.len(), h.len()))
    } else {
        None
    }
}

pub fn strip_suffix<'a>(h: &'a [char], p: &[char]) -> (r: Option<&'a [char]>)
    ensures
        match r {
            Some(t) => strip_suffix_of(h@, p@) == Some(t@),
            None => strip_suffix_of(h@, p@) is None,
        },
{
    if ends(h, p) {
        Some(slice_subrange(h, 0, h.len() - p.len()))
    } else {
        None
    }
}

pub fn split_once<'a>(h: &'a [char], n: &[char]) -> (r: Option<(&'a [char], &'a [char])>)
    ensures
        match r {
            Some((a, b)) => split_once_of(h@, n@) == Some((a@, b@)),
            None => split_once_of(h@, n@) is None,
        },
{
    match find(h, n) {
        Some(i) => Some((slice_subrange(h, 0, i), slice_subrange(h, i + n.len(), h.len()))),
        None => None,
    }
}

pub fn rsplit_once<'a>(h: &'a [char], n: &[char]) -> (r: Option<(&'a [char], &'a [char])>)
    ensures
        match r {
            Some((a, b)) => rsplit_once_of(h@, n@) == Some((a@, b@)),
            None => rsplit_once_of(h@, n@) is None,
        },
{
    match rfind(h, n) {
        Some(i) => Some((slice_subrange(h, 0, i), slice_subrange(h, i + n.len(), h.len()))),
        None => None,
    }
}

// ---------------------------------------------------------------------------
// Trimming
// ---------------------------------------------------------------------------

/// `s` without the white space at its start.
pub open spec fn trim_start_of(s: Seq<char>) -> Seq<char>
    decreases s.len(),
{
    if s.len() > 0 && is_space_of(s[0]) {
        trim_start_of(s.skip(1))
    } else {
        s
    }
}

/// `s` without the white space at its end.
pub open spec fn trim_end_of(s: Seq<char>) -> Seq<char>
    decreases s.len(),
{
    if s.len() > 0 && is_space_of(s.last()) {
        trim_end_of(s.drop_last())
    } else {
        s
    }
}

/// `s` without the white space at its start and end.
pub open spec fn trim_of(s: Seq<char>) -> Seq<char> {
    trim_end_of(trim_start_of(s))
}

/// `s` without the characters `c` at its start.
pub open spec fn trim_start_char_of(s: Seq<char>, c: char) -> Seq<char>
    decreases s.len(),
{
    if s.len() > 0 && s[0] == c {
        trim_start_char_of(s.skip(1), c)
    } else {
        s
    }
}

/// `s` without the characters `c` at its end.
pub open spec fn trim_end_char_of(s: Seq<char>, c: char) -> Seq<char>
    decreases s.len(),
{
    if s.len() > 0 && s.last() == c {
        trim_end_char_of(s.drop_last(), c)
    } else {
        s
    }
}

/// `s` without the characters `c` at its start and end.
pub open spec fn trim_char_of(s: Seq<char>, c: char) -> Seq<char> {
    trim_end_char_of(trim_start_char_of(s, c), c)
}

pub fn trim_start<'a>(s: &'a [char]) -> (r: &'a [char])
    ensures
        r@ == trim_start_of(s@),
{
    let mut i: usize = 0;
    assert(s@.skip(0) =~= s@);
    while i < s.len() && is_space(s[i])
        invariant
            i <= s.len(),
            trim_start_of(s@) == trim_start_of(s@.skip(i as int)),
        decreases s.len() - i,
    {
        assert(s@.skip(i as int).skip(1) =~= s@.skip(i + 1));
        i = i + 1;
    }
    slice_subrange(s, i, s.len())
}

pub fn trim_end<'a>(s: &'a [char]) -> (r: &'a [char])
    ensures
        r@ == trim_end_of(s@),
{
    let mut n: usize = s.len();
    assert(s@.take(n as int) =~= s@);
    while n > 0 && is_space(s[n - 1])
        invariant
            n <= s.len(),
            trim_end_of(s@) == trim_end_of(s@.take(n as int)),
        decreases n,
    {
        assert(s@.take(n as int).drop_last() =~= s@.take(n - 1));
        n = n - 1;
    }
    slice_subrange(s, 0, n)
}

pub fn trim<'a>(s: &'a [char]) -> (r: &'a [char])
    ensures
        r@ == trim_of(s@),
{
    trim_end(trim_start(s))
}

pub fn trim_start_char<'a>(s: &'a [char], c: char) -> (r: &'a [char])
    ensures
        r@ == trim_start_char_of(s@, c),
{
    let mut i: usize = 0;
    assert(s@.skip(0) =~= s@);
    while i < s.len() && s[i] == c
        invariant
            i <= s.len(),
            trim_start_char_of(s@, c) == trim_start_char_of(s@.skip(i as int), c),
        decreases s.len() - i,
    {
        assert(s@.skip(i as int).skip(1) =~= s@.skip(i + 1));
        i = i + 1;
    }
    slice_subrange(s, i, s.len())
}

pub fn trim_end_char<'a>(s: &'a [char], c: char) -> (r: &'a [char])
    ensures
        r@ == trim_end_char_of(s@, c),
{
    let mut n: usize = s.len();
    assert(s@.take(n as int) =~= s@);
    while n > 0 && s[n - 1] == c
        invariant
            n <= s.len(),
            trim_end_char_of(s@, c) == trim_end_char_of(s@.take(n as int), c),
        decreases n,
    {
        assert(s@.take(n as int).drop_last() =~= s@.take(n - 1));
        n = n - 1;
    }
    slice_subrange(s, 0, n)
}

pub fn trim_char<'a>(s: &'a [char], c: char) -> (r: &'a [char])
    ensures
        r@ == trim_char_of(s@, c),
{
    trim_end_char(trim_start_char(s, c), c)
}

/// The trimmed text of `s` as a string of its own.
pub fn trimmed(s: &str) -> (r: String)
    ensures
        r@ == trim_of(s@),
{
    let v = chars_of(s);
    string_of(trim(v.as_slice()))
}

/// Trimming keeps a piece of the text, and that piece has no white space at
/// its ends.
pub proof fn lemma_trim(s: Seq<char>)
    ensures
        trim_of(s).len() <= s.len(),
        trim_of(s).len() > 0 ==> !is_space_of(trim_of(s)[0]) && !is_space_of(trim_of(s).last()),
        exists|i: int|
            0 <= i && i + trim_of(s).len() <= s.len() && #[trigger] s.subrange(
                i,
                i + trim_of(s).len(),
            ) == trim_of(s),
{
    lemma_trim_start(s);
    let t = trim_start_of(s);
    lemma_trim_end(t);
    let i = s.len() - t.len();
    assert(s.subrange(i, i + trim_of(s).len()) =~= trim_of(s));
}

/// Trimming the start keeps a tail that does not begin with white space.
pub proof fn lemma_trim_start(s: Seq<char>)
    ensures
        trim_start_of(s).len() <= s.len(),
        trim_start_of(s) == s.skip(s.len() - trim_start_of(s).len()),
        trim_start_of(s).len() > 0 ==> !is_space_of(trim_start_of(s)[0]),
    decreases s.len(),
{
    if s.len() > 0 && is_space_of(s[0]) {
        lemma_trim_start(s.skip(1));
        let t = trim_start_of(s);
        assert(s.skip(1).skip(s.skip(1).len() - t.len()) =~= s.skip(s.len() - t.len()));
    } else {
        assert(s.skip(0) =~= s);
    }
}

/// Trimming the end keeps a head that does not end with white space.
pub proof fn lemma_trim_end(s: Seq<char>)
    ensures
        trim_end_of(s).len() <= s.len(),
        trim_end_of(s) == s.take(trim_end_of(s).len() as int),
        trim_end_of(s).len() > 0 ==> !is_space_of(trim_end_of(s).last()),
    decreases s.len(),
{
    if s.len() > 0 && is_space_of(s.last()) {
        lemma_trim_end(s.drop_last());
        let t = trim_end_of(s);
        assert(s.drop_last().take(t.len() as int) =~= s.take(t.len() as int));
    } else {
        assert(s.take(s.len() as int) =~= s);
    }
}

/// Trimming trimmed text changes nothing.
pub proof fn trim_is_idempotent(s: Seq<char>)
    ensures
        trim_of(trim_of(s)) == trim_of(s),
{
    lemma_trim(s);
}

// ---------------------------------------------------------------------------
// Splitting
// ---------------------------------------------------------------------------

/// The contents of a list of slices.
pub open spec fn views(v: Seq<&[char]>) -> Seq<Seq<char>> {
    v.map_values(|x: &[char]| x@)
}

/// The pieces of `s` between the characters `c`.
pub open spec fn split_of(s: Seq<char>, c: char) -> Seq<Seq<char>>
    decreases s.len(),
{
    if s.len() == 0 {
        seq![Seq::<char>::empty()]
    } else {
        let p = split_of(s.drop_last(), c);
        if s.last() == c {
            p.push(Seq::<char>::empty())
        } else {
            p.drop_last().push(p.last().push(s.last()))
        }
    }
}

/// The pieces of `s` between white space, empty ones left out.
pub open spec fn words_of(s: Seq<char>) -> Seq<Seq<char>> {
    let (done, last) = words_run(s);
    if last.len() == 0 {
        done
    } else {
        done.push(last)
    }
}

/// The finished words of `s` and the word that may still go on.
pub open spec fn words_run(s: Seq<char>) -> (Seq<Seq<char>>, Seq<char>)
    decreases s.len(),
{
    if s.len() == 0 {
        (Seq::<Seq<char>>::empty(), Seq::<char>::empty())
    } else {
        let (done, cur) = words_run(s.drop_last());
        if !is_space_of(s.last()) {
            (done, cur.push(s.last()))
        } else if cur.len() == 0 {
            (done, cur)
        } else {
            (done.push(cur), Seq::<char>::empty())
        }
    }
}

/// A line without the carriage return before its line feed.
pub open spec fn chomp_of(s: Seq<char>) -> Seq<char> {
    if s.len() > 0 && s.last() == '\r' {
        s.drop_last()
    } else {
        s
    }
}

/// The lines of `s`: they end in a line feed or in a carriage return and a
/// line feed; the last one may end with the text.
pub open spec fn lines_of(s: Seq<char>) -> Seq<Seq<char>> {
    let p = split_of(s, '\n');
    let full = p.drop_last().map_values(|x: Seq<char>| chomp_of(x));
    if p.last().len() == 0 {
        full
    } else {
        full.push(p.last())
    }
}

pub proof fn lemma_split_nonempty(s: Seq<char>, c: char)
    ensures
        split_of(s, c).len() > 0,
    decreases s.len(),
{
    if s.len() > 0 {
        lemma_split_nonempty(s.drop_last(), c);
    }
}

pub fn split<'a>(s: &'a [char], c: char) -> (r: Vec<&'a [char]>)
    ensures
        views(r@) == split_of(s@, c),
        r@.len() > 0,
{
    let mut out: Vec<&'a [char]> = Vec::new();
    let mut from: usize = 0;
    let mut i: usize = 0;
    assert(s@.subrange(0, 0) =~= Seq::<char>::empty());
    assert(views(out@).push(s@.subrange(0, 0)) =~= split_of(s@.take(0), c));
    while i < s.len()
        invariant
            from <= i <= s.len(),
            views(out@).push(s@.subrange(from as int, i as int)) == split_of(s@.take(i as int), c),
        decreases s.len() - i,
    {
        let ghost before = s@.take(i as int);
        let ghost parts = split_of(before, c);
        assert(s@.take(i + 1).drop_last() =~= before);
        assert(parts.drop_last() =~= views(out@));
        if s[i] == c {
            let ghost had = views(out@);
            out.push(slice_subrange(s, from, i));
            from = i + 1;
            assert(views(out@) =~= had.push(parts.last()));
            assert(s@.subrange(from as int, i + 1) =~= Seq::<char>::empty());
        } else {
            assert(s@.subrange(from as int, i + 1) =~= s@.subrange(from as int, i as int).push(
                s@[i as int],
            ));
        }
        i = i + 1;
    }
    assert(s@.take(s@.len() as int) =~= s@);
    let ghost had = views(out@);
    out.push(slice_subrange(s, from, s.len()));
    assert(views(out@) =~= had.push(s@.subrange(from as int, s@.len() as int)));
    out
}

pub fn words<'a>(s: &'a [char]) -> (r: Vec<&'a [char]>)
    ensures
        views(r@) == words_of(s@),
{
    let mut out: Vec<&'a [char]> = Vec::new();
    let mut from: usize = 0;
    let mut i: usize = 0;
    assert(views(out@) =~= words_run(s@.take(0)).0);
    assert(s@.subrange(0, 0) =~= words_run(s@.take(0)).1);
    while i < s.len()
        invariant
            from <= i <= s.len(),
            views(out@) == words_run(s@.take(i as int)).0,
            s@.subrange(from as int, i as int) == words_run(s@.take(i as int)).1,
        decreases s.len() - i,
    {
        assert(s@.take(i + 1).drop_last() =~= s@.take(i as int));
        if is_space(s[i]) {
            if from < i {
                let ghost had = views(out@);
                out.push(slice_subrange(s, from, i));
                assert(views(out@) =~= had.push(s@.subrange(from as int, i as int)));
            }
            from = i + 1;
            assert(s@.subrange(from as int, i + 1) =~= Seq::<char>::empty());
        } else {
            assert(s@.subrange(from as int, i + 1) =~= s@.subrange(from as int, i as int).push(
                s@[i as int],
            ));
        }
        i = i + 1;
    }
    assert(s@.take(s@.len() as int) =~= s@);
    if from < s.len() {
        let ghost had = views(out@);
        out.push(slice_subrange(s, from, s.len()));
        assert(views(out@) =~= had.push(s@.subrange(from as int, s@.len() as int)));
    }
    out
}

pub fn lines<'a>(s: &'a [char]) -> (r: Vec<&'a [char]>)
    ensures
        views(r@) == lines_of(s@),
{
    let parts = split(s, '\n');
    let last: usize = parts.len() - 1;
    let mut out: Vec<&'a [char]> = Vec::new();
    let mut i: usize = 0;
    let ghost p = split_of(s@, '\n');
    let ghost full = p.drop_last().map_values(|x: Seq<char>| chomp_of(x));
    assert(views(out@) =~= full.take(0));
    while i < last
        invariant
            i <= last,
            last == parts@.len() - 1,
            views(parts@) == p,
            full == p.drop_last().map_values(|x: Seq<char>| chomp_of(x)),
            views(out@) == full.take(i as int),
        decreases last - i,
    {
        let line = parts[i];
        assert(line@ == views(parts@)[i as int]);
        let n: usize = line.len();
        let cut = if n > 0 && line[n - 1] == '\r' {
            slice_subrange(line, 0, n - 1)
        } else {
            line
        };
        assert(cut@ =~= chomp_of(p[i as int]));
        let ghost had = views(out@);
        out.push(cut);
        assert(views(out@) =~= had.push(cut@));
        assert(full.take(i + 1) =~= full.take(i as int).push(full[i as int]));
        i = i + 1;
    }
    assert(full.take(last as int) =~= full);
    let tail = parts[last];
    assert(tail@ == views(parts@)[last as int]);
    if tail.len() > 0 {
        let ghost had = views(out@);
        out.push(tail);
        assert(views(out@) =~= had.push(tail@));
    }
    out
}

// ---------------------------------------------------------------------------
// Joining
// ---------------------------------------------------------------------------

/// The contents of a list of strings.
pub open spec fn texts(v: Seq<String>) -> Seq<Seq<char>> {
    v.map_values(|x: String| x@)
}

/// The parts one after another with `sep` between them.
pub open spec fn join_of(parts: Seq<Seq<char>>, sep: Seq<char>) -> Seq<char>
    decreases parts.len(),
{
    if parts.len() == 0 {
        Seq::empty()
    } else if parts.len() == 1 {
        parts[0]
    } else {
        join_of(parts.drop_last(), sep) + sep + parts.last()
    }
}

proof fn lemma_join_last(parts: Seq<Seq<char>>, last: Seq<char>, c: char, sep: Seq<char>)
    ensures
        join_of(parts.push(last.push(c)), sep) == join_of(parts.push(last), sep).push(c),
{
    let a = parts.push(last.push(c));
    let b = parts.push(last);
    assert(a.drop_last() =~= parts);
    assert(b.drop_last() =~= parts);
    if parts.len() > 0 {
        assert(join_of(parts, sep) + sep + last.push(c) =~= (join_of(parts, sep) + sep + last).push(
            c,
        ));
    }
}

/// Joining the pieces that a text was split into gives the text back.
pub proof fn split_then_join(s: Seq<char>, c: char)
    ensures
        join_of(split_of(s, c), seq![c]) == s,
    decreases s.len(),
{
    if s.len() > 0 {
        let t = s.drop_last();
        let p = split_of(t, c);
        split_then_join(t, c);
        lemma_split_nonempty(t, c);
        assert(s =~= t.push(s.last()));
        if s.last() == c {
            assert(p.push(Seq::<char>::empty()).drop_last() =~= p);
            assert(t + seq![c] + Seq::<char>::empty() =~= s);
        } else {
            assert(p =~= p.drop_last().push(p.last()));
            lemma_join_last(p.drop_last(), p.last(), s.last(), seq![c]);
        }
    }
}

/// A text is split at each place: what stands before the first is the first
/// piece, and what follows it is split in turn. A text without such a place is
/// one piece.
pub proof fn split_cuts_at_the_first(a: Seq<char>, c: char, b: Seq<char>)
    requires
        !a.contains(c),
    ensures
        split_of(a, c) == seq![a],
        split_of(a + seq![c] + b, c) == seq![a] + split_of(b, c),
    decreases a.len() + b.len(),
{
    if b.len() > 0 {
        split_cuts_at_the_first(a, c, b.drop_last());
        lemma_split_nonempty(b.drop_last(), c);
        let s = a + seq![c] + b;
        assert(s.drop_last() =~= a + seq![c] + b.drop_last());
        let p = split_of(b.drop_last(), c);
        assert((seq![a] + p).drop_last() =~= seq![a] + p.drop_last());
        assert(split_of(s, c) =~= seq![a] + split_of(b, c));
    } else {
        if a.len() > 0 {
            let t = a.drop_last();
            assert(!t.contains(c)) by {
                assert forall|i: int| 0 <= i < t.len() implies t[i] != c by {
                    assert(a.contains(a[i]));
                }
            }
            split_cuts_at_the_first(t, c, b);
            assert(a.contains(a[a.len() - 1]));
            assert(t.push(a.last()) =~= a);
            assert(split_of(a, c) =~= seq![a]);
        } else {
            assert(a =~= Seq::empty());
        }
        let s = a + seq![c] + b;
        assert(s.drop_last() =~= a && s.last() == c);
        assert(split_of(a, c) == seq![a]);
        assert(split_of(b, c) == seq![Seq::<char>::empty()]);
        assert(split_of(s, c) == split_of(a, c).push(Seq::<char>::empty()));
        assert(split_of(s, c) =~= seq![a] + split_of(b, c));
    }
}

/// A text holds whatever was put into it, begins with its head and ends with its
/// tail.
pub proof fn parts_are_found(a: Seq<char>, n: Seq<char>, b: Seq<char>)
    ensures
        contains_of(a + n + b, n),
        starts_of(n + b, n),
        ends_of(a + n, n),
        strip_prefix_of(n + b, n) == Some(b),
        strip_suffix_of(a + n, n) == Some(a),
{
    let s = a + n + b;
    assert(s.subrange(a.len() as int, (a.len() + n.len()) as int) =~= n);
    assert(occurs_at(s, n, a.len() as int));
    lemma_find_from(s, n, 0);
    assert((n + b).subrange(0, n.len() as int) =~= n);
    assert((n + b).skip(n.len() as int) =~= b);
    let t = a + n;
    assert(t.subrange(t.len() - n.len(), t.len() as int) =~= n);
    assert(t.take(t.len() - n.len()) =~= a);
}

/// A text is parted at the first place, or at the last.
pub proof fn split_once_cuts_at_one_place(a: Seq<char>, c: char, b: Seq<char>)
    ensures
        !a.contains(c) ==> split_once_of(a + seq![c] + b, seq![c]) == Some((a, b)),
        !a.contains(c) ==> split_once_of(a, seq![c]) is None && rsplit_once_of(a, seq![c]) is None,
        !b.contains(c) ==> rsplit_once_of(a + seq![c] + b, seq![c]) == Some((a, b)),
{
    let s = a + seq![c] + b;
    let n = seq![c];
    let k = a.len() as int;
    assert(s.subrange(k, k + 1) =~= n);
    assert(occurs_at(s, n, k));
    assert(s.take(k) =~= a && s.skip(k + 1) =~= b);
    lemma_find_from(s, n, 0);
    lemma_rfind_upto(s, n, s.len() - 1);
    lemma_find_from(a, n, 0);
    lemma_rfind_upto(a, n, a.len() - 1);
    if !a.contains(c) {
        assert forall|j: int| 0 <= j < k implies !#[trigger] occurs_at(s, n, j) by {
            if occurs_at(s, n, j) {
                assert(s.subrange(j, j + 1)[0] == s[j]);
                assert(a.contains(a[j]));
            }
        }
        assert forall|j: int| !#[trigger] occurs_at(a, n, j) by {
            if occurs_at(a, n, j) {
                assert(a.subrange(j, j + 1)[0] == a[j]);
                assert(a.contains(a[j]));
            }
        }
    }
    if !b.contains(c) {
        assert forall|j: int| k < j implies !#[trigger] occurs_at(s, n, j) by {
            if occurs_at(s, n, j) {
                assert(s.subrange(j, j + 1)[0] == s[j]);
                assert(b.contains(b[j - k - 1]));
            }
        }
    }
}

/// Lines that are put one below the other are read as the same lines.
pub proof fn lines_read_back(ls: Seq<Seq<char>>, last: Seq<char>)
    requires
        forall|i: int|
            0 <= i < ls.len() ==> !(#[trigger] ls[i]).contains('\n') && (ls[i].len() > 0
                ==> ls[i].last() != '\r'),
        !last.contains('\n'),
    ensures
        lines_of(join_of(ls.push(last), seq!['\n'])) == if last.len() == 0 {
            ls
        } else {
            ls.push(last)
        },
{
    lemma_split_joined(ls, last, '\n');
    let p = ls.push(last);
    assert(p.drop_last() =~= ls);
    assert(ls.map_values(|x: Seq<char>| chomp_of(x)) =~= ls) by {
        assert forall|i: int| 0 <= i < ls.len() implies chomp_of(#[trigger] ls[i]) == ls[i] by {}
    }
}

/// Pieces that were joined are split into the same pieces.
pub proof fn lemma_split_joined(ls: Seq<Seq<char>>, last: Seq<char>, c: char)
    requires
        forall|i: int| 0 <= i < ls.len() ==> !(#[trigger] ls[i]).contains(c),
        !last.contains(c),
    ensures
        split_of(join_of(ls.push(last), seq![c]), c) == ls.push(last),
    decreases ls.len(), last.len(),
{
    let p = ls.push(last);
    let s = join_of(p, seq![c]);
    assert(p.drop_last() =~= ls);
    if last.len() > 0 {
        let t = last.drop_last();
        assert(!t.contains(c)) by {
            assert forall|i: int| 0 <= i < t.len() implies t[i] != c by {
                assert(last.contains(last[i]));
            }
        }
        lemma_split_joined(ls, t, c);
        assert(t.push(last.last()) =~= last);
        lemma_join_last(ls, t, last.last(), seq![c]);
        assert(s.drop_last() =~= join_of(ls.push(t), seq![c]));
        assert(last.contains(last[last.len() - 1]));
        assert(ls.push(t).drop_last() =~= ls);
    } else if ls.len() > 0 {
        let init = ls.drop_last();
        assert forall|i: int| 0 <= i < init.len() implies !(#[trigger] init[i]).contains(c) by {
            assert(init[i] == ls[i]);
        }
        assert(!ls[ls.len() - 1].contains(c));
        lemma_split_joined(init, ls.last(), c);
        assert(init.push(ls.last()) =~= ls);
        assert(s =~= join_of(ls, seq![c]) + seq![c]);
        assert(s.drop_last() =~= join_of(ls, seq![c]));
        assert(last =~= Seq::empty());
    } else {
        assert(p =~= seq![last]);
        assert(last =~= Seq::empty());
    }
}

/// Only the white space around a text goes.
pub proof fn trim_takes_only_space(a: Seq<char>, s: Seq<char>, b: Seq<char>)
    requires
        forall|i: int| 0 <= i < a.len() ==> is_space_of(#[trigger] a[i]),
        forall|i: int| 0 <= i < b.len() ==> is_space_of(#[trigger] b[i]),
        s.len() > 0 ==> !is_space_of(s[0]) && !is_space_of(s.last()),
    ensures
        trim_of(a + s + b) == s,
    decreases a.len() + b.len(),
{
    let t = a + s + b;
    if a.len() > 0 {
        assert(is_space_of(a[0]));
        let rest = a.skip(1);
        assert forall|i: int| 0 <= i < rest.len() implies is_space_of(#[trigger] rest[i]) by {
            assert(rest[i] == a[i + 1]);
        }
        trim_takes_only_space(rest, s, b);
        assert(t.skip(1) =~= rest + s + b);
        assert(t[0] == a[0]);
    } else if s.len() == 0 {
        assert(t =~= b);
        if b.len() > 0 {
            let rest = b.skip(1);
            assert(is_space_of(b[0]));
            assert forall|i: int| 0 <= i < rest.len() implies is_space_of(#[trigger] rest[i]) by {
                assert(rest[i] == b[i + 1]);
            }
            trim_takes_only_space(a, s, rest);
            assert(b.skip(1) =~= a + s + rest);
        }
        assert(trim_of(t) =~= s);
    } else {
        assert(t =~= s + b);
        assert(trim_start_of(t) == t);
        if b.len() > 0 {
            let rest = b.drop_last();
            assert(is_space_of(b[b.len() - 1]));
            assert forall|i: int| 0 <= i < rest.len() implies is_space_of(#[trigger] rest[i]) by {
                assert(rest[i] == b[i]);
            }
            trim_takes_only_space(a, s, rest);
            assert(t.drop_last() =~= a + s + rest);
            assert(trim_start_of(t.drop_last()) == t.drop_last());
        } else {
            assert(t =~= s);
        }
    }
}

/// The pieces that a text was split into do not hold what it was split at.
pub proof fn pieces_are_clean(s: Seq<char>, c: char)
    ensures
        forall|i: int| 0 <= i < split_of(s, c).len() ==> !(#[trigger] split_of(s, c)[i]).contains(c),
    decreases s.len(),
{
    if s.len() > 0 {
        let p = split_of(s.drop_last(), c);
        pieces_are_clean(s.drop_last(), c);
        lemma_split_nonempty(s.drop_last(), c);
        if s.last() != c {
            let x = p.last().push(s.last());
            assert(!p[p.len() - 1].contains(c));
            assert forall|j: int| 0 <= j < x.len() implies x[j] != c by {
                if j < p.last().len() {
                    assert(x[j] == p.last()[j]);
                    assert(p.last().contains(p.last()[j]));
                }
            }
        }
        let q = split_of(s, c);
        assert forall|i: int| 0 <= i < q.len() implies !(#[trigger] q[i]).contains(c) by {
            if i < p.len() - 1 {
                assert(q[i] == p[i]);
            } else if s.last() == c && i == p.len() - 1 {
                assert(q[i] == p[i]);
            }
        }
    }
}

pub fn join(parts: &Vec<String>, sep: &str) -> (r: String)
    ensures
        r@ == join_of(texts(parts@), sep@),
{
    let mut out = String::new();
    let mut i: usize = 0;
    assert(texts(parts@).take(0) =~= Seq::<Seq<char>>::empty());
    while i < parts.len()
        invariant
            i <= parts.len(),
            out@ == join_of(texts(parts@).take(i as int), sep@),
        decreases parts.len() - i,
    {
        let ghost t = texts(parts@).take(i + 1);
        assert(t.drop_last() =~= texts(parts@).take(i as int));
        assert(t.last() == parts@[i as int]@);
        if i > 0 {
            out.append(sep);
            out.append(parts[i].as_str());
        } else {
            out.append(parts[i].as_str());
            assert(out@ =~= t[0]);
        }
        i = i + 1;
    }
    assert(texts(parts@).take(parts@.len() as int) =~= texts(parts@));
    out
}

/// The parts of `s` between the places where `sep` stands, found from the left.
pub open spec fn split_str_of(s: Seq<char>, sep: Seq<char>) -> Seq<Seq<char>>
    decreases s.len(),
{
    match find_of(s, sep) {
        Some(i) if sep.len() > 0 && 0 <= i && i + sep.len() <= s.len() => seq![s.take(i)]
            + split_str_of(s.skip(i + sep.len()), sep),
        _ => seq![s],
    }
}

pub fn split_str<'a>(s: &'a [char], sep: &[char]) -> (r: Vec<&'a [char]>)
    requires
        sep@.len() > 0,
    ensures
        views(r@) == split_str_of(s@, sep@),
{
    let mut out: Vec<&'a [char]> = Vec::new();
    let mut rest: &'a [char] = s;
    assert(views(out@) + split_str_of(s@, sep@) =~= split_str_of(s@, sep@));
    loop
        invariant
            sep@.len() > 0,
            views(out@) + split_str_of(rest@, sep@) == split_str_of(s@, sep@),
        decreases rest@.len(),
    {
        let ghost before = views(out@);
        let ghost was = rest@;
        match find(rest, sep) {
            Some(i) => {
                let head = slice_subrange(rest, 0, i);
                out.push(head);
                rest = slice_subrange(rest, i + sep.len(), rest.len());
                assert(views(out@) =~= before.push(was.take(i as int)));
                assert(rest@ =~= was.skip(i + sep@.len()));
                assert(views(out@) + split_str_of(rest@, sep@) =~= before + (seq![was.take(i as int)]
                    + split_str_of(rest@, sep@)));
            },
            None => {
                out.push(rest);
                assert(views(out@) =~= before + seq![was]);
                return out;
            },
        }
    }
}

/// Puts a copy of `s` at the end of `v`.
pub fn push_to(v: &mut Vec<String>, s: &str)
    ensures
        texts(final(v)@) == texts(old(v)@).push(s@),
{
    v.push(s.to_owned());
    assert(texts(v@) =~= texts(old(v)@).push(s@));
}

/// `a` and `b`, one after the other.
pub fn cat(a: &str, b: &str) -> (r: String)
    ensures
        r@ == a@ + b@,
{
    let mut s = a.to_owned();
    s.append(b);
    s
}

/// `a`, `b` and `c`, one after the other.
pub fn cat3(a: &str, b: &str, c: &str) -> (r: String)
    ensures
        r@ == a@ + b@ + c@,
{
    let mut s = a.to_owned();
    s.append(b);
    s.append(c);
    s
}

/// `a`, `b`, `c` and `d`, one after the other.
pub fn cat4(a: &str, b: &str, c: &str, d: &str) -> (r: String)
    ensures
        r@ == a@ + b@ + c@ + d@,
{
    let mut s = a.to_owned();
    s.append(b);
    s.append(c);
    s.append(d);
    s
}

/// `a`, `b`, `c`, `d` and `e`, one after the other.
pub fn cat5(a: &str, b: &str, c: &str, d: &str, e: &str) -> (r: String)
    ensures
        r@ == a@ + b@ + c@ + d@ + e@,
{
    let mut s = a.to_owned();
    s.append(b);
    s.append(c);
    s.append(d);
    s.append(e);
    s
}

/// The text of an optional string.
pub open spec fn opt_str(o: Option<&str>) -> Option<Seq<char>> {
    match o {
        Some(s) => Some(s@),
        None => None,
    }
}

/// The text of an optional owned string.
pub open spec fn opt_text(o: Option<String>) -> Option<Seq<char>> {
    match o {
        Some(s) => Some(s@),
        None => None,
    }
}

/// The optional string, borrowed.
pub fn as_opt_str(o: &Option<String>) -> (r: Option<&str>)
    ensures
        opt_str(r) == opt_text(*o),
{
    match o {
        Some(s) => Some(s.as_str()),
        None => None,
    }
}

/// A copy of the optional string.
pub fn clone_opt(o: &Option<String>) -> (r: Option<String>)
    ensures
        opt_text(r) == opt_text(*o),
{
    match o {
        Some(s) => Some(s.clone()),
        None => None,
    }
}

/// Whether two optional texts are the same.
pub fn same_opt(a: Option<&str>, b: Option<&str>) -> (r: bool)
    ensures
        r == (opt_str(a) == opt_str(b)),
{
    match (a, b) {
        (Some(x), Some(y)) => same_str(x, y),
        (None, None) => true,
        _ => false,
    }
}

// ---------------------------------------------------------------------------
// Bytes and letter case
// ---------------------------------------------------------------------------

/// The text that `String::from_utf8_lossy` makes of bytes that are no UTF-8.
pub uninterp spec fn repaired_of(bytes: Seq<u8>) -> Seq<char>;

/// The text in bytes: decoded where they are UTF-8, and otherwise with a
/// replacement character for every sequence that is none.
pub open spec fn lossy_of(bytes: Seq<u8>) -> Seq<char> {
    if vstd::utf8::valid_utf8(bytes) {
        vstd::utf8::decode_utf8(bytes)
    } else {
        repaired_of(bytes)
    }
}

/// The text that the `Debug` of `str` makes of a text.
pub uninterp spec fn quoted_of(text: Seq<char>) -> Seq<char>;

/// The text that `str::to_lowercase` makes of a text.
pub uninterp spec fn lower_of(text: Seq<char>) -> Seq<char>;

/// `String::from_utf8_lossy`: the text in bytes. Bytes that are UTF-8 are
/// decoded; what is made of others, with a replacement character for every
/// sequence that is no UTF-8, is fixed and has the name `repaired_of`.
#[verifier::external_body]
pub(crate) fn lossy(bytes: &[u8]) -> (r: String)
    ensures
        vstd::utf8::valid_utf8(bytes@) ==> r@ == vstd::utf8::decode_utf8(bytes@),
        !vstd::utf8::valid_utf8(bytes@) ==> r@ == repaired_of(bytes@),
{
    String::from_utf8_lossy(bytes).into_owned()
}

/// `std::str::from_utf8`: the text in bytes that are UTF-8, nothing otherwise.
#[verifier::external_body]
pub(crate) fn utf8_text(bytes: &[u8]) -> (r: Option<String>)
    ensures
        match r {
            Some(s) => vstd::utf8::valid_utf8(bytes@) && s@ == vstd::utf8::decode_utf8(bytes@),
            None => !vstd::utf8::valid_utf8(bytes@),
        },
{
    std::str::from_utf8(bytes).ok().map(|s| s.to_string())
}

/// The `Debug` of `str`: a text in quotes, with escapes for what cannot stand in
/// it. The text that is made of a given text is fixed and has the name
/// `quoted_of`.
#[verifier::external_body]
pub(crate) fn quoted(text: &str) -> (r: String)
    ensures
        r@ == quoted_of(text@),
{
    format!("{:?}", text)
}

/// `str::to_lowercase`: the text in lower case. The lower case of a given text
/// is fixed and has the name `lower_of`.
#[verifier::external_body]
pub(crate) fn lower(text: &str) -> (r: String)
    ensures
        r@ == lower_of(text@),
{
    text.to_lowercase()
}

// ---------------------------------------------------------------------------
// Numbers
// ---------------------------------------------------------------------------

/// The value of a digit.
pub open spec fn digit_value(c: char) -> nat {
    (c as u32 - '0' as u32) as nat
}

/// The digit with the value `d`.
pub open spec fn digit_char(d: nat) -> char {
    ('0' as u32 + d) as char
}

pub open spec fn all_digits(s: Seq<char>) -> bool {
    forall|i: int| 0 <= i < s.len() ==> is_digit_of(#[trigger] s[i])
}

/// The value of a run of digits, the most significant first.
pub open spec fn digits_value(s: Seq<char>) -> nat
    decreases s.len(),
{
    if s.len() == 0 {
        0
    } else {
        10 * digits_value(s.drop_last()) + digit_value(s.last())
    }
}

/// The value of a non-empty run of digits.
pub open spec fn plain_number(s: Seq<char>) -> Option<nat> {
    if s.len() > 0 && all_digits(s) {
        Some(digits_value(s))
    } else {
        None
    }
}

/// The unsigned number that `s` writes: digits, with a plus sign before them
/// or not.
pub open spec fn unsigned_of(s: Seq<char>) -> Option<nat> {
    if s.len() > 0 && s[0] == '+' {
        plain_number(s.skip(1))
    } else {
        plain_number(s)
    }
}

/// The signed number that `s` writes: digits, with one sign before them or none.
pub open spec fn signed_of(s: Seq<char>) -> Option<int> {
    if s.len() > 0 && s[0] == '-' {
        match plain_number(s.skip(1)) {
            Some(n) => Some(-(n as int)),
            None => None,
        }
    } else {
        match unsigned_of(s) {
            Some(n) => Some(n as int),
            None => None,
        }
    }
}

/// The unsigned number that `s` writes, where it is at most `max`.
pub open spec fn parse_unsigned_of(s: Seq<char>, max: nat) -> Option<nat> {
    match unsigned_of(s) {
        Some(n) if n <= max => Some(n),
        _ => None,
    }
}

/// The signed number that `s` writes, where it lies between the bounds.
pub open spec fn parse_signed_of(s: Seq<char>, min: int, max: int) -> Option<int> {
    match signed_of(s) {
        Some(n) if min <= n <= max => Some(n),
        _ => None,
    }
}

/// `n` in decimal, without leading zeros.
pub open spec fn decimal_of(n: nat) -> Seq<char>
    decreases n,
{
    if n < 10 {
        seq![digit_char(n)]
    } else {
        decimal_of(n / 10).push(digit_char(n % 10))
    }
}

/// `n` in decimal, with a minus sign where it is negative.
pub open spec fn decimal_int_of(n: int) -> Seq<char> {
    if n < 0 {
        seq!['-'] + decimal_of((-n) as nat)
    } else {
        decimal_of(n as nat)
    }
}

/// `n` in decimal, filled up with zeros to at least two digits.
pub open spec fn two_digits_of(n: nat) -> Seq<char> {
    if n < 10 {
        seq!['0'] + decimal_of(n)
    } else {
        decimal_of(n)
    }
}

proof fn lemma_digit_char(d: nat)
    requires
        d < 10,
    ensures
        is_digit_of(digit_char(d)),
        digit_value(digit_char(d)) == d,
        digit_char(d) as u32 == '0' as u32 + d,
{
}

/// A longer run of digits has no smaller value.
proof fn lemma_digits_grow(s: Seq<char>, i: int)
    requires
        0 <= i <= s.len(),
    ensures
        digits_value(s.take(i)) <= digits_value(s),
    decreases s.len(),
{
    if i == s.len() {
        assert(s.take(i) =~= s);
    } else {
        lemma_digits_grow(s.drop_last(), i);
        assert(s.drop_last().take(i) =~= s.take(i));
    }
}

/// The decimal form of a number is a run of digits of that value.
pub proof fn lemma_decimal(n: nat)
    ensures
        decimal_of(n).len() > 0,
        all_digits(decimal_of(n)),
        digits_value(decimal_of(n)) == n,
    decreases n,
{
    lemma_digit_char(n % 10);
    if n < 10 {
        lemma_digit_char(n);
        let s = decimal_of(n);
        assert(s.drop_last() =~= Seq::<char>::empty());
        assert(digits_value(s) == 10 * digits_value(s.drop_last()) + digit_value(s.last()));
    } else {
        lemma_decimal(n / 10);
        let s = decimal_of(n);
        assert(s.drop_last() =~= decimal_of(n / 10));
    }
}

/// Reading what was written in decimal gives the number back.
pub proof fn decimal_reads_back(n: int)
    ensures
        signed_of(decimal_int_of(n)) == Some(n),
        n >= 0 ==> unsigned_of(decimal_int_of(n)) == Some(n as nat),
{
    if n < 0 {
        lemma_decimal((-n) as nat);
        assert(decimal_int_of(n).skip(1) =~= decimal_of((-n) as nat));
    } else {
        lemma_decimal(n as nat);
        assert(is_digit_of(decimal_of(n as nat)[0]));
    }
}

/// The value of a non-empty run of digits, where it fits.
fn plain_u64(s: &[char]) -> (r: Option<u64>)
    ensures
        r == match plain_number(s@) {
            Some(n) if n <= u64::MAX => Some(n as u64),
            _ => None,
        },
{
    if s.len() == 0 {
        return None;
    }
    let mut k: usize = 0;
    while k < s.len()
        invariant
            k <= s.len(),
            forall|i: int| 0 <= i < k ==> is_digit_of(#[trigger] s@[i]),
        decreases s.len() - k,
    {
        if !is_digit(s[k]) {
            assert(!is_digit_of(s@[k as int]));
            return None;
        }
        k = k + 1;
    }
    let mut v: u64 = 0;
    let mut i: usize = 0;
    assert(s@.take(0) =~= Seq::<char>::empty());
    while i < s.len()
        invariant
            i <= s.len(),
            all_digits(s@),
            v == digits_value(s@.take(i as int)),
        decreases s.len() - i,
    {
        let c = s[i];
        assert(is_digit_of(s@[i as int]));
        let d: u64 = (c as u32 - '0' as u32) as u64;
        proof {
            assert(s@.take(i + 1).drop_last() =~= s@.take(i as int));
            lemma_digits_grow(s@, i + 1);
        }
        if v > u64::MAX / 10 {
            return None;
        }
        let w: u64 = v * 10;
        if d > u64::MAX - w {
            return None;
        }
        v = w + d;
        i = i + 1;
    }
    assert(s@.take(s@.len() as int) =~= s@);
    Some(v)
}

/// Reads an unsigned number of 64 bits.
pub fn parse_u64(s: &[char]) -> (r: Option<u64>)
    ensures
        r == match parse_unsigned_of(s@, u64::MAX as nat) {
            Some(n) => Some(n as u64),
            None => None,
        },
{
    if s.len() > 0 && s[0] == '+' {
        plain_u64(slice_subrange(s, 1, s.len()))
    } else {
        plain_u64(s)
    }
}

/// Reads an unsigned number of 32 bits.
pub fn parse_u32(s: &[char]) -> (r: Option<u32>)
    ensures
        r == match parse_unsigned_of(s@, u32::MAX as nat) {
            Some(n) => Some(n as u32),
            None => None,
        },
{
    match parse_u64(s) {
        Some(n) => if n <= u32::MAX as u64 {
            Some(n as u32)
        } else {
            None
        },
        None => None,
    }
}

/// Reads a signed number of 64 bits.
pub fn parse_i64(s: &[char]) -> (r: Option<i64>)
    ensures
        r == match parse_signed_of(s@, i64::MIN as int, i64::MAX as int) {
            Some(n) => Some(n as i64),
            None => None,
        },
{
    if s.len() > 0 && s[0] == '-' {
        match plain_u64(slice_subrange(s, 1, s.len())) {
            Some(n) => if n <= 0x7fff_ffff_ffff_ffff {
                Some(-(n as i64))
            } else if n == 0x8000_0000_0000_0000 {
                Some(i64::MIN)
            } else {
                None
            },
            None => None,
        }
    } else {
        match parse_u64(s) {
            Some(n) => if n <= 0x7fff_ffff_ffff_ffff {
                Some(n as i64)
            } else {
                None
            },
            None => None,
        }
    }
}

/// Reads a signed number of 32 bits.
pub fn parse_i32(s: &[char]) -> (r: Option<i32>)
    ensures
        r == match parse_signed_of(s@, i32::MIN as int, i32::MAX as int) {
            Some(n) => Some(n as i32),
            None => None,
        },
{
    match parse_i64(s) {
        Some(n) => if i32::MIN as i64 <= n && n <= i32::MAX as i64 {
            Some(n as i32)
        } else {
            None
        },
        None => None,
    }
}

/// `n` in decimal.
pub fn decimal(n: u64) -> (r: Vec<char>)
    ensures
        r@ == decimal_of(n as nat),
    decreases n,
{
    if n < 10 {
        proof {
            lemma_digit_char(n as nat);
        }
        let mut v: Vec<char> = Vec::new();
        v.push((48u8 + n as u8) as char);
        assert(v@ =~= decimal_of(n as nat));
        v
    } else {
        proof {
            lemma_digit_char((n % 10) as nat);
        }
        let mut v = decimal(n / 10);
        v.push((48u8 + (n % 10) as u8) as char);
        v
    }
}

/// `n` in decimal, as a string.
pub fn decimal_u64(n: u64) -> (r: String)
    ensures
        r@ == decimal_of(n as nat),
{
    let v = decimal(n);
    string_of(v.as_slice())
}

/// `n` in decimal, with its sign, as a string.
pub fn decimal_i64(n: i64) -> (r: String)
    ensures
        r@ == decimal_int_of(n as int),
{
    if n >= 0 {
        decimal_u64(n as u64)
    } else {
        let m: u64 = if n == i64::MIN {
            0x8000_0000_0000_0000
        } else {
            (-n) as u64
        };
        let mut s = String::new();
        s.push('-');
        let d = decimal_u64(m);
        s.append(d.as_str());
        assert(s@ =~= decimal_int_of(n as int));
        s
    }
}

/// `n` in decimal, with at least two digits, as a string.
pub fn two_digits(n: u64) -> (r: String)
    ensures
        r@ == two_digits_of(n as nat),
{
    let mut s = String::new();
    if n < 10 {
        s.push('0');
    }
    let d = decimal_u64(n);
    s.append(d.as_str());
    assert(s@ =~= two_digits_of(n as nat));
    s
}

/// `n` times the character `c`.
pub open spec fn repeated(c: char, n: int) -> Seq<char> {
    Seq::new(
        if n < 0 {
            0
        } else {
            n as nat
        },
        |i: int| c,
    )
}

/// `s` followed by as many spaces as it takes to be `width` long.
pub open spec fn pad_right_of(s: Seq<char>, width: nat) -> Seq<char> {
    s + repeated(' ', width - s.len())
}

/// `n` in decimal, with zeros before its digits up to a length of `width`, sign
/// counted.
pub open spec fn padded_of(n: int, width: nat) -> Seq<char> {
    if n < 0 {
        let d = decimal_of((-n) as nat);
        "-"@ + repeated('0', width - 1 - d.len()) + d
    } else {
        let d = decimal_of(n as nat);
        repeated('0', width - d.len()) + d
    }
}

fn push_many(s: &mut String, c: char, n: usize)
    ensures
        final(s)@ == old(s)@ + repeated(c, n as int),
{
    let mut i: usize = 0;
    assert(s@ =~= s@ + repeated(c, 0));
    while i < n
        invariant
            i <= n,
            s@ == old(s)@ + repeated(c, i as int),
        decreases n - i,
    {
        s.push(c);
        i = i + 1;
        assert(s@ =~= old(s)@ + repeated(c, i as int));
    }
}

pub fn pad_right(s: &str, width: usize) -> (r: String)
    ensures
        r@ == pad_right_of(s@, width as nat),
{
    let n: usize = chars_of(s).len();
    let mut out = s.to_owned();
    if n < width {
        push_many(&mut out, ' ', width - n);
    } else {
        assert(repeated(' ', width - s@.len()) =~= Seq::<char>::empty());
        assert(out@ =~= pad_right_of(s@, width as nat));
    }
    out
}

pub fn padded(n: i64, width: usize) -> (r: String)
    ensures
        r@ == padded_of(n as int, width as nat),
{
    let mut out = String::new();
    let digits = if n < 0 {
        if n == i64::MIN {
            decimal(9223372036854775808)
        } else {
            decimal((-n) as u64)
        }
    } else {
        decimal(n as u64)
    };
    let used: usize = digits.len();
    if n < 0 {
        out.append("-");
        if width > 0 && used < width - 1 {
            push_many(&mut out, '0', width - 1 - used);
        } else {
            assert(repeated('0', width - 1 - used) =~= Seq::<char>::empty());
        }
    } else if used < width {
        push_many(&mut out, '0', width - used);
    } else {
        assert(repeated('0', width - used) =~= Seq::<char>::empty());
    }
    let tail = string_of(digits.as_slice());
    out.append(tail.as_str());
    assert(out@ =~= padded_of(n as int, width as nat));
    out
}

} // verus!
