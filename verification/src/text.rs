//! Character-level text helpers shared by the rest of the library: trimming,
//! ASCII case folding and conversions between `String` and `Vec<char>`.
use vstd::prelude::*;

verus! {

/// Unicode `White_Space`, the set that `str::trim` removes.
pub open spec fn is_whitespace_char(c: char) -> bool {
    let v = c as u32;
    ||| 0x09 <= v <= 0x0D
    ||| v == 0x20
    ||| v == 0x85
    ||| v == 0xA0
    ||| v == 0x1680
    ||| 0x2000 <= v <= 0x200A
    ||| v == 0x2028
    ||| v == 0x2029
    ||| v == 0x202F
    ||| v == 0x205F
    ||| v == 0x3000
}

/// The characters that the trimming functions remove.
#[derive(Debug, Clone, Copy, PartialEq, Eq, Structural)]
pub enum CharClass {
    /// Unicode `White_Space` (what `str::trim` removes).
    Whitespace,
    /// `'` and `"`.
    Quote,
    /// `"` alone.
    DoubleQuote,
}

pub open spec fn is_quote_char(c: char) -> bool {
    c == '\'' || c == '"'
}

pub open spec fn in_class(c: char, k: CharClass) -> bool {
    match k {
        CharClass::Whitespace => is_whitespace_char(c),
        CharClass::Quote => is_quote_char(c),
        CharClass::DoubleQuote => c == '"',
    }
}

pub open spec fn trim_start_class(s: Seq<char>, k: CharClass) -> Seq<char>
    decreases s.len(),
{
    if s.len() > 0 && in_class(s.first(), k) {
        trim_start_class(s.drop_first(), k)
    } else {
        s
    }
}

pub open spec fn trim_end_class(s: Seq<char>, k: CharClass) -> Seq<char>
    decreases s.len(),
{
    if s.len() > 0 && in_class(s.last(), k) {
        trim_end_class(s.drop_last(), k)
    } else {
        s
    }
}

/// `s` without the characters of class `k` at either end (`str::trim_matches`).
pub open spec fn trim_class(s: Seq<char>, k: CharClass) -> Seq<char> {
    trim_end_class(trim_start_class(s, k), k)
}

/// `s` without its leading and trailing whitespace.
pub open spec fn trim(s: Seq<char>) -> Seq<char> {
    trim_class(s, CharClass::Whitespace)
}

/// Nothing but whitespace (or nothing at all).
pub open spec fn is_blank(s: Seq<char>) -> bool {
    trim(s).len() == 0
}

pub open spec fn ascii_lower_char(c: char) -> char {
    if 'A' <= c && c <= 'Z' {
        ((c as u8) + 32) as char
    } else {
        c
    }
}

/// `s` with its ASCII capitals made small, as `to_ascii_lowercase` does.
pub open spec fn ascii_lower(s: Seq<char>) -> Seq<char> {
    s.map_values(|c: char| ascii_lower_char(c))
}

/// The characters of an optional `String`.
pub open spec fn opt_view(o: Option<String>) -> Option<Seq<char>> {
    match o {
        Some(s) => Some(s@),
        None => None,
    }
}

/// Appends one character to a `String` (`String::push`).
/// Trusted: the new contents are the old contents followed by `c`.
#[verifier::external_body]
pub(crate) fn push_char(s: &mut String, c: char)
    ensures
        final(s)@ == old(s)@.push(c),
{
    s.push(c);
}

/// The characters of `s`, in order.
pub fn chars_of(s: &str) -> (res: Vec<char>)
    ensures
        res@ == s@,
{
    let mut res: Vec<char> = Vec::new();
    for c in it: s.chars()
        invariant
            res@ == it.seq().take(it.index() as int),
    {
        res.push(c);
    }
    res
}

/// The `String` made of the characters `v[from..to]`.
pub fn string_from_range(v: &Vec<char>, from: usize, to: usize) -> (res: String)
    requires
        from <= to <= v@.len(),
    ensures
        res@ == v@.subrange(from as int, to as int),
{
    let mut res = String::new();
    let mut i = from;
    while i < to
        invariant
            from <= i <= to <= v@.len(),
            res@ == v@.subrange(from as int, i as int),
        decreases to - i,
    {
        push_char(&mut res, v[i]);
        proof {
            assert(v@.subrange(from as int, i + 1) =~= v@.subrange(from as int, i as int).push(
                v@[i as int],
            ));
        }
        i = i + 1;
    }
    res
}

/// The `String` made of the characters of `v`.
pub fn string_from_chars(v: &Vec<char>) -> (res: String)
    ensures
        res@ == v@,
{
    let res = string_from_range(v, 0, v.len());
    proof {
        assert(v@.subrange(0, v@.len() as int) =~= v@);
    }
    res
}

/// A fresh `String` holding `s`.
pub fn owned(s: &str) -> (res: String)
    ensures
        res@ == s@,
{
    s.to_owned()
}

/// `s` followed by `t`.
pub fn join2(s: &str, t: &str) -> (res: String)
    ensures
        res@ == s@ + t@,
{
    let mut res = s.to_owned();
    res.append(t);
    res
}

/// `s`, `t` and `u` one after the other.
pub fn join3(s: &str, t: &str, u: &str) -> (res: String)
    ensures
        res@ == s@ + t@ + u@,
{
    let mut res = s.to_owned();
    res.append(t);
    res.append(u);
    res
}

proof fn lemma_trim_start_skip(s: Seq<char>, i: int, k: CharClass)
    requires
        0 <= i <= s.len(),
        forall|j: int| 0 <= j < i ==> in_class(#[trigger] s[j], k),
    ensures
        trim_start_class(s, k) == trim_start_class(s.skip(i), k),
    decreases i,
{
    if i > 0 {
        assert(s.skip(1) =~= s.drop_first());
        lemma_trim_start_skip(s.drop_first(), i - 1, k);
        assert(s.drop_first().skip(i - 1) =~= s.skip(i));
    } else {
        assert(s.skip(0) =~= s);
    }
}

proof fn lemma_trim_end_take(s: Seq<char>, i: int, k: CharClass)
    requires
        0 <= i <= s.len(),
        forall|j: int| i <= j < s.len() ==> in_class(#[trigger] s[j], k),
    ensures
        trim_end_class(s, k) == trim_end_class(s.take(i), k),
    decreases s.len() - i,
{
    if i < s.len() {
        assert(s.take(s.len() - 1) =~= s.drop_last());
        lemma_trim_end_take(s.drop_last(), i, k);
        assert(s.drop_last().take(i) =~= s.take(i));
    } else {
        assert(s.take(i) =~= s);
    }
}

/// Whether `c` belongs to class `k`.
pub fn is_in_class(c: char, k: CharClass) -> (res: bool)
    ensures
        res == in_class(c, k),
{
    match k {
        CharClass::Whitespace => is_whitespace(c),
        CharClass::Quote => c == '\'' || c == '"',
        CharClass::DoubleQuote => c == '"',
    }
}

/// Finds the bounds of `trim_class(v, k)` inside `v`.
pub fn trim_bounds(v: &Vec<char>, k: CharClass) -> (res: (usize, usize))
    ensures
        res.0 <= res.1 <= v@.len(),
        trim_class(v@, k) == v@.subrange(res.0 as int, res.1 as int),
{
    let n = v.len();
    let mut start: usize = 0;
    while start < n && is_in_class(v[start], k)
        invariant
            start <= n == v@.len(),
            forall|j: int| 0 <= j < start ==> in_class(#[trigger] v@[j], k),
        decreases n - start,
    {
        start = start + 1;
    }
    let ghost rest = v@.skip(start as int);
    proof {
        lemma_trim_start_skip(v@, start as int, k);
        if start < n {
            assert(rest.first() == v@[start as int]);
        }
        assert(trim_start_class(rest, k) == rest);
    }
    let mut end: usize = n;
    while end > start && is_in_class(v[end - 1], k)
        invariant
            start <= end <= n == v@.len(),
            forall|j: int| end <= j < n ==> in_class(#[trigger] v@[j], k),
        decreases end - start,
    {
        end = end - 1;
    }
    proof {
        let len = (end - start) as int;
        assert forall|j: int| len <= j < rest.len() implies in_class(#[trigger] rest[j], k) by {
            assert(rest[j] == v@[j + start]);
        }
        lemma_trim_end_take(rest, len, k);
        let t = rest.take(len);
        assert(t =~= v@.subrange(start as int, end as int));
        if len > 0 {
            assert(t.last() == v@[end - 1]);
        }
        assert(trim_end_class(t, k) == t);
    }
    (start, end)
}

/// The length of `v` without its trailing whitespace (`str::trim_end`).
pub fn trim_end_len(v: &Vec<char>) -> (res: usize)
    ensures
        res <= v@.len(),
        trim_end_class(v@, CharClass::Whitespace) == v@.take(res as int),
{
    let mut end: usize = v.len();
    while end > 0 && is_whitespace(v[end - 1])
        invariant
            end <= v@.len(),
            forall|j: int| end <= j < v@.len() ==> in_class(#[trigger] v@[j], CharClass::Whitespace),
        decreases end,
    {
        end = end - 1;
    }
    proof {
        lemma_trim_end_take(v@, end as int, CharClass::Whitespace);
        let t = v@.take(end as int);
        if end > 0 {
            assert(t.last() == v@[end - 1]);
        }
        assert(trim_end_class(t, CharClass::Whitespace) == t);
    }
    end
}

/// Whether `c` is Unicode whitespace.
pub fn is_whitespace(c: char) -> (res: bool)
    ensures
        res == is_whitespace_char(c),
{
    let v = c as u32;
    (0x09 <= v && v <= 0x0D) || v == 0x20 || v == 0x85 || v == 0xA0 || v == 0x1680 || (0x2000
        <= v && v <= 0x200A) || v == 0x2028 || v == 0x2029 || v == 0x202F || v == 0x205F || v
        == 0x3000
}

/// `s` without leading and trailing whitespace (`str::trim`).
pub fn trim_str(s: &str) -> (res: String)
    ensures
        res@ == trim(s@),
{
    let v = chars_of(s);
    let (start, end) = trim_bounds(&v, CharClass::Whitespace);
    string_from_range(&v, start, end)
}

/// Whether `s` holds nothing but whitespace.
pub fn str_is_blank(s: &str) -> (res: bool)
    ensures
        res == is_blank(s@),
{
    let v = chars_of(s);
    let (start, end) = trim_bounds(&v, CharClass::Whitespace);
    start == end
}

/// `c` with an ASCII capital made small.
pub fn to_ascii_lower_char(c: char) -> (res: char)
    ensures
        res == ascii_lower_char(c),
{
    if 'A' <= c && c <= 'Z' {
        ((c as u8) + 32) as char
    } else {
        c
    }
}

/// `v` with ASCII capitals made small (`to_ascii_lowercase`).
pub fn to_ascii_lower_chars(v: &Vec<char>) -> (res: Vec<char>)
    ensures
        res@ == ascii_lower(v@),
{
    let mut res: Vec<char> = Vec::new();
    let mut i: usize = 0;
    while i < v.len()
        invariant
            i <= v@.len(),
            res@ == ascii_lower(v@.take(i as int)),
        decreases v@.len() - i,
    {
        res.push(to_ascii_lower_char(v[i]));
        proof {
            assert(ascii_lower(v@.take(i + 1)) =~= ascii_lower(v@.take(i as int)).push(
                ascii_lower_char(v@[i as int]),
            ));
        }
        i = i + 1;
    }
    proof {
        assert(v@.take(v@.len() as int) =~= v@);
    }
    res
}

/// Whether two character sequences are the same.
pub fn chars_equal(a: &Vec<char>, b: &Vec<char>) -> (res: bool)
    ensures
        res == (a@ == b@),
{
    if a.len() != b.len() {
        return false;
    }
    let mut i: usize = 0;
    while i < a.len()
        invariant
            i <= a@.len() == b@.len(),
            forall|j: int| 0 <= j < i ==> a@[j] == b@[j],
        decreases a@.len() - i,
    {
        if a[i] != b[i] {
            return false;
        }
        i = i + 1;
    }
    proof {
        assert(a@ =~= b@);
    }
    true
}

/// Whether two strings hold the same characters.
pub fn str_equal(a: &str, b: &str) -> (res: bool)
    ensures
        res == (a@ == b@),
{
    chars_equal(&chars_of(a), &chars_of(b))
}


/// `s` with every `c` replaced by `r` (`str::replace` with a one-character pattern).
pub open spec fn replace_char(s: Seq<char>, c: char, r: Seq<char>) -> Seq<char>
    decreases s.len(),
{
    if s.len() == 0 {
        seq![]
    } else {
        replace_char(s.drop_last(), c, r) + if s.last() == c {
            r
        } else {
            seq![s.last()]
        }
    }
}

/// `s` with every `c` replaced by `r`.
pub fn replace_char_in(s: &str, c: char, r: &str) -> (res: String)
    ensures
        res@ == replace_char(s@, c, r@),
{
    let v = chars_of(s);
    let mut res = String::new();
    let mut i: usize = 0;
    while i < v.len()
        invariant
            i <= v@.len(),
            v@ == s@,
            res@ == replace_char(v@.take(i as int), c, r@),
        decreases v@.len() - i,
    {
        proof {
            assert(v@.take(i + 1).drop_last() =~= v@.take(i as int));
        }
        if v[i] == c {
            res.append(r);
        } else {
            push_char(&mut res, v[i]);
            proof {
                assert(res@ =~= replace_char(v@.take(i as int), c, r@) + seq![v@[i as int]]);
            }
        }
        i = i + 1;
    }
    proof {
        assert(v@.take(v@.len() as int) =~= v@);
    }
    res
}

/// The position of the first `c` in `s`.
pub open spec fn first_index_of(s: Seq<char>, c: char) -> Option<int>
    decreases s.len(),
{
    if s.len() == 0 {
        None
    } else if s.first() == c {
        Some(0)
    } else {
        match first_index_of(s.drop_first(), c) {
            Some(i) => Some(i + 1),
            None => None,
        }
    }
}

/// Where `first_index_of` finds `c`, it lies inside `s`.
pub proof fn lemma_first_index_of_bounds(s: Seq<char>, c: char)
    ensures
        first_index_of(s, c) matches Some(i) ==> 0 <= i < s.len() && s[i] == c,
    decreases s.len(),
{
    if s.len() > 0 && s.first() != c {
        lemma_first_index_of_bounds(s.drop_first(), c);
    }
}

proof fn lemma_first_index_of(s: Seq<char>, c: char, i: int)
    requires
        0 <= i <= s.len(),
        forall|j: int| 0 <= j < i ==> s[j] != c,
    ensures
        first_index_of(s, c) == (match first_index_of(s.skip(i), c) {
            Some(k) => Some(k + i),
            None => None::<int>,
        }),
    decreases i,
{
    if i == 0 {
        assert(s.skip(0) =~= s);
        match first_index_of(s, c) {
            Some(k) => {},
            None => {},
        }
    } else {
        lemma_first_index_of(s.drop_first(), c, i - 1);
        assert(s.drop_first().skip(i - 1) =~= s.skip(i));
    }
}

/// The position of the first `c` in `v`, looking from `from` on.
pub fn find_char(v: &Vec<char>, from: usize, c: char) -> (res: Option<usize>)
    requires
        from <= v@.len(),
    ensures
        res matches Some(i) ==> from <= i < v@.len() && v@[i as int] == c && first_index_of(
            v@.skip(from as int),
            c,
        ) == Some(i - from),
        res is None ==> first_index_of(v@.skip(from as int), c) is None,
{
    let mut i = from;
    while i < v.len()
        invariant
            from <= i <= v@.len(),
            forall|j: int| from <= j < i ==> v@[j] != c,
        decreases v@.len() - i,
    {
        if v[i] == c {
            proof {
                let t = v@.skip(from as int);
                assert forall|j: int| 0 <= j < i - from implies t[j] != c by {
                    assert(t[j] == v@[j + from]);
                }
                lemma_first_index_of(t, c, i - from);
                assert(t.skip(i - from).first() == c);
            }
            return Some(i);
        }
        i = i + 1;
    }
    proof {
        let t = v@.skip(from as int);
        assert forall|j: int| 0 <= j < t.len() implies t[j] != c by {
            assert(t[j] == v@[j + from]);
        }
        lemma_first_index_of(t, c, t.len() as int);
    }
    None
}

/// A copy of `v[from..to]`.
pub fn copy_range(v: &Vec<char>, from: usize, to: usize) -> (res: Vec<char>)
    requires
        from <= to <= v@.len(),
    ensures
        res@ == v@.subrange(from as int, to as int),
{
    let mut res: Vec<char> = Vec::new();
    let mut i = from;
    while i < to
        invariant
            from <= i <= to <= v@.len(),
            res@ == v@.subrange(from as int, i as int),
        decreases to - i,
    {
        res.push(v[i]);
        proof {
            assert(v@.subrange(from as int, i + 1) =~= v@.subrange(from as int, i as int).push(
                v@[i as int],
            ));
        }
        i = i + 1;
    }
    res
}

/// `v` without the characters of class `k` at either end.
pub fn trim_chars(v: &Vec<char>, k: CharClass) -> (res: Vec<char>)
    ensures
        res@ == trim_class(v@, k),
{
    let (start, end) = trim_bounds(v, k);
    copy_range(v, start, end)
}

/// Whether `s` ends with `suffix`.
pub open spec fn ends_with(s: Seq<char>, suffix: Seq<char>) -> bool {
    s.len() >= suffix.len() && s.subrange(s.len() - suffix.len(), s.len() as int) == suffix
}

/// Whether `v` ends with `suffix`.
pub fn chars_end_with(v: &Vec<char>, suffix: &Vec<char>) -> (res: bool)
    ensures
        res == ends_with(v@, suffix@),
{
    if v.len() < suffix.len() {
        return false;
    }
    let tail = copy_range(v, v.len() - suffix.len(), v.len());
    chars_equal(&tail, suffix)
}


/// Trimming the end keeps a prefix, which does not end in the class.
pub proof fn lemma_trim_end_prefix(s: Seq<char>, k: CharClass)
    ensures
        trim_end_class(s, k).len() <= s.len(),
        trim_end_class(s, k) == s.take(trim_end_class(s, k).len() as int),
        trim_end_class(s, k).len() > 0 ==> !in_class(trim_end_class(s, k).last(), k),
    decreases s.len(),
{
    if s.len() > 0 && in_class(s.last(), k) {
        lemma_trim_end_prefix(s.drop_last(), k);
        let n = trim_end_class(s, k).len() as int;
        assert(s.drop_last().take(n) =~= s.take(n));
    } else {
        assert(s.take(s.len() as int) =~= s);
    }
}

proof fn lemma_trim_start_first(s: Seq<char>, k: CharClass)
    ensures
        trim_start_class(s, k).len() > 0 ==> !in_class(trim_start_class(s, k).first(), k),
    decreases s.len(),
{
    if s.len() > 0 && in_class(s.first(), k) {
        lemma_trim_start_first(s.drop_first(), k);
    }
}

/// Trimming twice is trimming once.
pub proof fn lemma_trim_class_idempotent(s: Seq<char>, k: CharClass)
    ensures
        trim_class(trim_class(s, k), k) == trim_class(s, k),
{
    let t = trim_start_class(s, k);
    let u = trim_end_class(t, k);
    lemma_trim_start_first(s, k);
    lemma_trim_end_prefix(t, k);
    if u.len() > 0 {
        assert(u.first() == t.first());
        assert(trim_start_class(u, k) == u);
        assert(trim_end_class(u, k) == u);
    } else {
        assert(trim_start_class(u, k) == u);
        assert(trim_end_class(u, k) == u);
    }
}

/// Trimming whitespace twice is trimming it once.
pub proof fn lemma_trim_idempotent(s: Seq<char>)
    ensures
        trim(trim(s)) == trim(s),
{
    lemma_trim_class_idempotent(s, CharClass::Whitespace);
}


} // verus!
