//! Character-level text handling shared by the config readers and writers.
//!
//! Text is modelled as `Seq<char>`; executable code works on `Vec<char>` and builds `String`s.
use vstd::prelude::*;

verus! {

// ---------------------------------------------------------------------------------------------
// characters
// ---------------------------------------------------------------------------------------------

/// Unicode `White_Space`, the set `char::is_whitespace` and `str::trim` use.
pub open spec fn is_ws(c: char) -> bool {
    ||| ('\u{9}' <= c && c <= '\u{d}')
    ||| c == ' '
    ||| c == '\u{85}'
    ||| c == '\u{a0}'
    ||| c == '\u{1680}'
    ||| ('\u{2000}' <= c && c <= '\u{200a}')
    ||| c == '\u{2028}'
    ||| c == '\u{2029}'
    ||| c == '\u{202f}'
    ||| c == '\u{205f}'
    ||| c == '\u{3000}'
}

pub fn is_ws_exec(c: char) -> (r: bool)
    ensures
        r == is_ws(c),
{
    ('\u{9}' <= c && c <= '\u{d}') || c == ' ' || c == '\u{85}' || c == '\u{a0}' || c
        == '\u{1680}' || ('\u{2000}' <= c && c <= '\u{200a}') || c == '\u{2028}' || c
        == '\u{2029}' || c == '\u{202f}' || c == '\u{205f}' || c == '\u{3000}'
}

/// ASCII lower-casing of one character; every other character is left alone.
pub open spec fn ascii_lower(c: char) -> char {
    if 'A' <= c && c <= 'Z' {
        ((c as u32) + 32) as char
    } else {
        c
    }
}

pub fn ascii_lower_exec(c: char) -> (r: char)
    ensures
        r == ascii_lower(c),
{
    if 'A' <= c && c <= 'Z' {
        let u: u8 = (c as u32 + 32) as u8;
        u as char
    } else {
        c
    }
}

/// `str::eq_ignore_ascii_case`.
pub open spec fn eq_ci(a: Seq<char>, b: Seq<char>) -> bool {
    &&& a.len() == b.len()
    &&& forall|i: int| 0 <= i < a.len() ==> ascii_lower(#[trigger] a[i]) == ascii_lower(b[i])
}

pub fn eq_ci_exec(a: &[char], b: &[char]) -> (r: bool)
    ensures
        r == eq_ci(a@, b@),
{
    if a.len() != b.len() {
        return false;
    }
    let mut i: usize = 0;
    while i < a.len()
        invariant
            a@.len() == b@.len(),
            i <= a@.len(),
            forall|j: int| 0 <= j < i ==> ascii_lower(#[trigger] a@[j]) == ascii_lower(b@[j]),
        decreases a@.len() - i,
    {
        if ascii_lower_exec(a[i]) != ascii_lower_exec(b[i]) {
            return false;
        }
        i += 1;
    }
    true
}

/// `s` begins with `p`, ignoring ASCII case.
pub open spec fn starts_with_ci(s: Seq<char>, p: Seq<char>) -> bool {
    p.len() <= s.len() && eq_ci(s.take(p.len() as int), p)
}

pub fn starts_with_ci_exec(s: &[char], p: &[char]) -> (r: bool)
    ensures
        r == starts_with_ci(s@, p@),
{
    if p.len() > s.len() {
        return false;
    }
    let mut i: usize = 0;
    while i < p.len()
        invariant
            p@.len() <= s@.len(),
            i <= p@.len(),
            forall|j: int| 0 <= j < i ==> ascii_lower(#[trigger] s@[j]) == ascii_lower(p@[j]),
        decreases p@.len() - i,
    {
        if ascii_lower_exec(s[i]) != ascii_lower_exec(p[i]) {
            assert(!eq_ci(s@.take(p@.len() as int), p@)) by {
                assert(s@.take(p@.len() as int)[i as int] == s@[i as int]);
            }
            return false;
        }
        i += 1;
    }
    assert(eq_ci(s@.take(p@.len() as int), p@)) by {
        assert forall|j: int| 0 <= j < p@.len() implies ascii_lower(
            #[trigger] s@.take(p@.len() as int)[j],
        ) == ascii_lower(p@[j]) by {
            assert(s@.take(p@.len() as int)[j] == s@[j]);
        }
    }
    true
}

/// `s` begins with `p`, exactly.
pub open spec fn starts_with(s: Seq<char>, p: Seq<char>) -> bool {
    p.len() <= s.len() && s.take(p.len() as int) == p
}

pub fn starts_with_exec(s: &[char], p: &[char]) -> (r: bool)
    ensures
        r == starts_with(s@, p@),
{
    if p.len() > s.len() {
        return false;
    }
    let mut i: usize = 0;
    while i < p.len()
        invariant
            p@.len() <= s@.len(),
            i <= p@.len(),
            forall|j: int| 0 <= j < i ==> s@[j] == p@[j],
        decreases p@.len() - i,
    {
        if s[i] != p[i] {
            assert(s@.take(p@.len() as int)[i as int] != p@[i as int]);
            return false;
        }
        i += 1;
    }
    assert(s@.take(p@.len() as int) =~= p@);
    true
}

// ---------------------------------------------------------------------------------------------
// conversions between `str`, `String` and `Vec<char>`
// ---------------------------------------------------------------------------------------------

/// Appends one character to a string (`String::push`).
#[verifier::external_body]
pub fn push_char(s: &mut String, c: char)
    ensures
        final(s)@ == old(s)@.push(c),
{
    s.push(c);
}

/// Appends a string slice to a string.
pub fn push_str(s: &mut String, t: &str)
    ensures
        final(s)@ == old(s)@ + t@,
{
    s.append(t);
}

/// `str::starts_with` with a string slice.
pub fn starts_with_str(v: &[char], p: &str) -> (r: bool)
    ensures
        r == starts_with(v@, p@),
{
    let pv = chars_of(p);
    starts_with_exec(v, &pv)
}

/// `str::eq_ignore_ascii_case` with a string slice.
pub fn eq_ci_str(v: &[char], p: &str) -> (r: bool)
    ensures
        r == eq_ci(v@, p@),
{
    let pv = chars_of(p);
    eq_ci_exec(v, &pv)
}

/// Starts with the given string slice, ignoring ASCII case.
pub fn starts_with_ci_str(v: &[char], p: &str) -> (r: bool)
    ensures
        r == starts_with_ci(v@, p@),
{
    let pv = chars_of(p);
    starts_with_ci_exec(v, &pv)
}

/// The characters of a string slice, in order.
pub fn chars_of(s: &str) -> (v: Vec<char>)
    ensures
        v@ == s@,
{
    let mut v: Vec<char> = Vec::new();
    for c in it: s.chars()
        invariant
            v@ == it.seq().take(it.index() as int),
    {
        v.push(c);
    }
    v
}

/// Appends a run of characters to a string.
pub fn push_chars(s: &mut String, v: &[char])
    ensures
        final(s)@ == old(s)@ + v@,
{
    let mut i: usize = 0;
    while i < v.len()
        invariant
            i <= v@.len(),
            s@ == old(s)@ + v@.take(i as int),
        decreases v@.len() - i,
    {
        push_char(s, v[i]);
        assert(v@.take(i + 1) =~= v@.take(i as int).push(v@[i as int]));
        i += 1;
    }
    assert(v@.take(v@.len() as int) =~= v@);
}

/// A string holding exactly the given characters.
pub fn string_of(v: &[char]) -> (s: String)
    ensures
        s@ == v@,
{
    let mut s = String::new();
    push_chars(&mut s, v);
    assert(s@ =~= v@);
    s
}

/// A copy of `v[from..to]`.
pub fn slice_chars(v: &[char], from: usize, to: usize) -> (r: Vec<char>)
    requires
        from <= to <= v@.len(),
    ensures
        r@ == v@.subrange(from as int, to as int),
{
    let mut r: Vec<char> = Vec::new();
    let mut i = from;
    while i < to
        invariant
            from <= i <= to <= v@.len(),
            r@ == v@.subrange(from as int, i as int),
        decreases to - i,
    {
        r.push(v[i]);
        assert(v@.subrange(from as int, i + 1) =~= v@.subrange(from as int, i as int).push(
            v@[i as int],
        ));
        i += 1;
    }
    r
}

/// Equality of two character runs.
pub fn chars_eq(a: &[char], b: &[char]) -> (r: bool)
    ensures
        r == (a@ == b@),
{
    if a.len() != b.len() {
        return false;
    }
    let mut i: usize = 0;
    while i < a.len()
        invariant
            a@.len() == b@.len(),
            i <= a@.len(),
            forall|j: int| 0 <= j < i ==> a@[j] == b@[j],
        decreases a@.len() - i,
    {
        if a[i] != b[i] {
            return false;
        }
        i += 1;
    }
    assert(a@ =~= b@);
    true
}

/// `v@ == w@`, against a word given as a string slice.
pub fn is_word(v: &[char], w: &str) -> (r: bool)
    ensures
        r == (v@ == w@),
{
    let wv = chars_of(w);
    chars_eq(v, &wv)
}

/// `s` ends with `p`, exactly.
pub open spec fn ends_with(s: Seq<char>, p: Seq<char>) -> bool {
    p.len() <= s.len() && s.skip(s.len() - p.len()) == p
}

pub fn ends_with_exec(s: &[char], p: &[char]) -> (r: bool)
    ensures
        r == ends_with(s@, p@),
{
    if p.len() > s.len() {
        return false;
    }
    let tail = slice_chars(s, s.len() - p.len(), s.len());
    assert(tail@ =~= s@.skip(s@.len() - p@.len()));
    chars_eq(&tail, p)
}

/// `str::replace(',', ".")`.
pub open spec fn replace_comma(s: Seq<char>) -> Seq<char> {
    s.map_values(|c: char| if c == ',' { '.' } else { c })
}

pub fn replace_comma_exec(v: &[char]) -> (r: Vec<char>)
    ensures
        r@ == replace_comma(v@),
{
    let mut r: Vec<char> = Vec::new();
    let mut i: usize = 0;
    while i < v.len()
        invariant
            i <= v@.len(),
            r@ == replace_comma(v@.take(i as int)),
        decreases v@.len() - i,
    {
        let c = if v[i] == ',' {
            '.'
        } else {
            v[i]
        };
        r.push(c);
        assert(replace_comma(v@.take(i + 1)) =~= replace_comma(v@.take(i as int)).push(c));
        i += 1;
    }
    assert(v@.take(v@.len() as int) =~= v@);
    r
}

/// What `str::to_uppercase` returns: full Unicode upper-casing of every character.
pub uninterp spec fn str_to_uppercase(s: Seq<char>) -> Seq<char>;

/// What `str::to_lowercase` returns: full Unicode lower-casing of every character.
pub uninterp spec fn str_to_lowercase(s: Seq<char>) -> Seq<char>;

/// Every character is ASCII.
pub open spec fn is_ascii_text(s: Seq<char>) -> bool {
    forall|i: int| 0 <= i < s.len() ==> (#[trigger] s[i] as u32) < 0x80
}

/// ASCII upper-casing of one character; every other character is left alone.
pub open spec fn ascii_upper(c: char) -> char {
    if 'a' <= c && c <= 'z' {
        ((c as u32) - 32) as char
    } else {
        c
    }
}

/// `str::to_uppercase`. On ASCII text, Unicode upper-casing is ASCII upper-casing, character by
/// character.
#[verifier::external_body]
pub fn to_uppercase(s: &str) -> (r: String)
    ensures
        r@ == str_to_uppercase(s@),
        is_ascii_text(s@) ==> r@ == s@.map_values(|c: char| ascii_upper(c)),
{
    s.to_uppercase()
}

/// `str::to_lowercase`. On ASCII text, Unicode lower-casing is ASCII lower-casing, character by
/// character.
#[verifier::external_body]
pub fn to_lowercase(s: &str) -> (r: String)
    ensures
        r@ == str_to_lowercase(s@),
        is_ascii_text(s@) ==> r@ == s@.map_values(|c: char| ascii_lower(c)),
{
    s.to_lowercase()
}

/// The characters, upper-cased as `str::to_uppercase` does.
pub fn upper_chars(v: &[char]) -> (r: Vec<char>)
    ensures
        r@ == str_to_uppercase(v@),
        is_ascii_text(v@) ==> r@ == v@.map_values(|c: char| ascii_upper(c)),
{
    let s = string_of(v);
    let u = to_uppercase(s.as_str());
    chars_of(u.as_str())
}

/// The characters, lower-cased as `str::to_lowercase` does.
pub fn lower_chars(v: &[char]) -> (r: Vec<char>)
    ensures
        r@ == str_to_lowercase(v@),
        is_ascii_text(v@) ==> r@ == v@.map_values(|c: char| ascii_lower(c)),
{
    let s = string_of(v);
    let u = to_lowercase(s.as_str());
    chars_of(u.as_str())
}

// ---------------------------------------------------------------------------------------------
// byte offsets
// ---------------------------------------------------------------------------------------------

/// How many bytes UTF-8 takes for one character.
pub open spec fn utf8_width(c: char) -> int {
    if (c as u32) < 0x80 {
        1
    } else if (c as u32) < 0x800 {
        2
    } else if (c as u32) < 0x10000 {
        3
    } else {
        4
    }
}

/// The UTF-8 length of a text in bytes, what `str::len` counts.
pub open spec fn byte_len(s: Seq<char>) -> int
    decreases s.len(),
{
    if s.len() == 0 {
        0
    } else {
        byte_len(s.drop_first()) + utf8_width(s[0])
    }
}

/// Byte offset `n` falls inside the encoding of some character of `s`.
pub open spec fn cuts_char(s: Seq<char>, n: int) -> bool
    decreases s.len(),
{
    if s.len() == 0 || n <= 0 {
        false
    } else if n < utf8_width(s[0]) {
        true
    } else {
        cuts_char(s.drop_first(), n - utf8_width(s[0]))
    }
}

/// Taking the first `n` bytes of a string that is at least `n` bytes long (`&s[..n]`) does not
/// panic.
pub open spec fn prefix_safe(s: Seq<char>, n: int) -> bool {
    byte_len(s) < n || !cuts_char(s, n)
}

proof fn lemma_byte_len_nonneg(s: Seq<char>)
    ensures
        byte_len(s) >= 0,
    decreases s.len(),
{
    if s.len() > 0 {
        lemma_byte_len_nonneg(s.drop_first());
    }
}

fn utf8_width_exec(c: char) -> (r: usize)
    ensures
        r == utf8_width(c),
{
    if (c as u32) < 0x80 {
        1
    } else if (c as u32) < 0x800 {
        2
    } else if (c as u32) < 0x10000 {
        3
    } else {
        4
    }
}

/// Whether `&s[..n]` on a string of these characters would stay clear of a panic
/// (`prefix_safe`).
pub fn prefix_safe_exec(v: &[char], n: usize) -> (r: bool)
    ensures
        r == prefix_safe(v@, n as int),
{
    let mut i: usize = 0;
    let mut rest: usize = n;
    assert(v@.skip(0) =~= v@);
    while i < v.len()
        invariant
            i <= v@.len(),
            rest <= n,
            byte_len(v@) == (n - rest) + byte_len(v@.skip(i as int)),
            cuts_char(v@, n as int) == cuts_char(v@.skip(i as int), rest as int),
        decreases v@.len() - i,
    {
        let w = utf8_width_exec(v[i]);
        assert(v@.skip(i as int).drop_first() =~= v@.skip(i + 1));
        assert(v@.skip(i as int)[0] == v@[i as int]);
        if rest == 0 {
            return true;
        }
        if rest < w {
            proof {
                lemma_byte_len_nonneg(v@.skip(i + 1));
            }
            return false;
        }
        rest -= w;
        i += 1;
    }
    true
}

/// `str::trim_matches(c)`: every leading and trailing `c` removed.
pub open spec fn trim_char(s: Seq<char>, c: char) -> Seq<char> {
    trim_char_end(trim_char_start(s, c), c)
}

pub open spec fn trim_char_start(s: Seq<char>, c: char) -> Seq<char>
    decreases s.len(),
{
    if s.len() > 0 && s[0] == c {
        trim_char_start(s.drop_first(), c)
    } else {
        s
    }
}

pub open spec fn trim_char_end(s: Seq<char>, c: char) -> Seq<char>
    decreases s.len(),
{
    if s.len() > 0 && s.last() == c {
        trim_char_end(s.drop_last(), c)
    } else {
        s
    }
}

proof fn lemma_trim_char_start_skip(s: Seq<char>, c: char, i: int)
    requires
        0 <= i <= s.len(),
        forall|j: int| 0 <= j < i ==> #[trigger] s[j] == c,
    ensures
        trim_char_start(s, c) == trim_char_start(s.skip(i), c),
    decreases i,
{
    if i > 0 {
        lemma_trim_char_start_skip(s.drop_first(), c, i - 1);
        assert(s.drop_first().skip(i - 1) =~= s.skip(i));
    } else {
        assert(s.skip(0) =~= s);
    }
}

proof fn lemma_trim_char_end_take(s: Seq<char>, c: char, k: int)
    requires
        0 <= k <= s.len(),
        forall|j: int| k <= j < s.len() ==> #[trigger] s[j] == c,
    ensures
        trim_char_end(s, c) == trim_char_end(s.take(k), c),
    decreases s.len() - k,
{
    if k < s.len() {
        lemma_trim_char_end_take(s.drop_last(), c, k);
        assert(s.drop_last().take(k) =~= s.take(k));
    } else {
        assert(s.take(k) =~= s);
    }
}

/// `str::trim_start_matches(c)`.
pub fn trim_char_start_exec(v: &[char], c: char) -> (r: Vec<char>)
    ensures
        r@ == trim_char_start(v@, c),
{
    let mut i: usize = 0;
    while i < v.len() && v[i] == c
        invariant
            i <= v@.len(),
            forall|j: int| 0 <= j < i ==> #[trigger] v@[j] == c,
        decreases v@.len() - i,
    {
        i += 1;
    }
    proof {
        lemma_trim_char_start_skip(v@, c, i as int);
        assert(v@.skip(i as int) =~= v@.subrange(i as int, v@.len() as int));
    }
    slice_chars(v, i, v.len())
}

/// `str::trim_matches(c)`.
pub fn trim_char_exec(v: &[char], c: char) -> (r: Vec<char>)
    ensures
        r@ == trim_char(v@, c),
{
    let s = trim_char_start_exec(v, c);
    let mut k: usize = s.len();
    while k > 0 && s[k - 1] == c
        invariant
            k <= s@.len(),
            forall|j: int| k <= j < s@.len() ==> #[trigger] s@[j] == c,
        decreases k,
    {
        k -= 1;
    }
    proof {
        lemma_trim_char_end_take(s@, c, k as int);
        assert(s@.take(k as int) =~= s@.subrange(0, k as int));
    }
    slice_chars(&s, 0, k)
}

/// The last index holding `c`, or -1.
pub open spec fn rfind(s: Seq<char>, c: char) -> int
    decreases s.len(),
{
    if s.len() == 0 {
        -1
    } else if s.last() == c {
        s.len() - 1
    } else {
        rfind(s.drop_last(), c)
    }
}

pub fn rfind_exec(v: &[char], c: char) -> (r: Option<usize>)
    ensures
        match r {
            Some(i) => i == rfind(v@, c) && i < v@.len(),
            None => rfind(v@, c) == -1,
        },
{
    let mut k: usize = v.len();
    assert(v@.take(v@.len() as int) =~= v@);
    while k > 0
        invariant
            k <= v@.len(),
            rfind(v@, c) == rfind(v@.take(k as int), c),
        decreases k,
    {
        assert(v@.take(k as int).drop_last() =~= v@.take(k - 1));
        if v[k - 1] == c {
            return Some(k - 1);
        }
        k -= 1;
    }
    None
}

// ---------------------------------------------------------------------------------------------
// trimming
// ---------------------------------------------------------------------------------------------

/// `str::trim_start`.
pub open spec fn trim_start(s: Seq<char>) -> Seq<char>
    decreases s.len(),
{
    if s.len() > 0 && is_ws(s[0]) {
        trim_start(s.drop_first())
    } else {
        s
    }
}

/// `str::trim_end`.
pub open spec fn trim_end(s: Seq<char>) -> Seq<char>
    decreases s.len(),
{
    if s.len() > 0 && is_ws(s.last()) {
        trim_end(s.drop_last())
    } else {
        s
    }
}

/// `str::trim`.
pub open spec fn trim(s: Seq<char>) -> Seq<char> {
    trim_end(trim_start(s))
}

proof fn lemma_trim_start_skip(s: Seq<char>, i: int)
    requires
        0 <= i <= s.len(),
        forall|j: int| 0 <= j < i ==> is_ws(#[trigger] s[j]),
    ensures
        trim_start(s) == trim_start(s.skip(i)),
    decreases i,
{
    if i > 0 {
        assert(s.skip(1) =~= s.drop_first());
        lemma_trim_start_skip(s.drop_first(), i - 1);
        assert(s.drop_first().skip(i - 1) =~= s.skip(i));
    } else {
        assert(s.skip(0) =~= s);
    }
}

proof fn lemma_trim_end_take(s: Seq<char>, k: int)
    requires
        0 <= k <= s.len(),
        forall|j: int| k <= j < s.len() ==> is_ws(#[trigger] s[j]),
    ensures
        trim_end(s) == trim_end(s.take(k)),
    decreases s.len() - k,
{
    if k < s.len() {
        assert(s.take(s.len() - 1) =~= s.drop_last());
        lemma_trim_end_take(s.drop_last(), k);
        assert(s.drop_last().take(k) =~= s.take(k));
    } else {
        assert(s.take(k) =~= s);
    }
}

/// `str::trim_start` on characters.
pub fn trim_start_exec(v: &[char]) -> (r: Vec<char>)
    ensures
        r@ == trim_start(v@),
{
    let mut i: usize = 0;
    while i < v.len() && is_ws_exec(v[i])
        invariant
            i <= v@.len(),
            forall|j: int| 0 <= j < i ==> is_ws(#[trigger] v@[j]),
        decreases v@.len() - i,
    {
        i += 1;
    }
    proof {
        lemma_trim_start_skip(v@, i as int);
        assert(v@.skip(i as int) =~= v@.subrange(i as int, v@.len() as int));
    }
    slice_chars(v, i, v.len())
}

/// `str::trim_end` on characters.
pub fn trim_end_exec(v: &[char]) -> (r: Vec<char>)
    ensures
        r@ == trim_end(v@),
{
    let mut k: usize = v.len();
    while k > 0 && is_ws_exec(v[k - 1])
        invariant
            k <= v@.len(),
            forall|j: int| k <= j < v@.len() ==> is_ws(#[trigger] v@[j]),
        decreases k,
    {
        k -= 1;
    }
    proof {
        lemma_trim_end_take(v@, k as int);
        assert(v@.take(k as int) =~= v@.subrange(0, k as int));
    }
    slice_chars(v, 0, k)
}

/// `str::trim` on characters.
pub fn trim_exec(v: &[char]) -> (r: Vec<char>)
    ensures
        r@ == trim(v@),
{
    let s = trim_start_exec(v);
    trim_end_exec(&s)
}

/// The character runs held by a vector of character vectors.
pub open spec fn views(v: Seq<Vec<char>>) -> Seq<Seq<char>> {
    v.map_values(|x: Vec<char>| x@)
}

// ---------------------------------------------------------------------------------------------
// lines
// ---------------------------------------------------------------------------------------------

/// Splitting at `'\n'` from the left: the finished lines and the one being read.
pub open spec fn line_state(s: Seq<char>) -> (Seq<Seq<char>>, Seq<char>)
    decreases s.len(),
{
    if s.len() == 0 {
        (Seq::empty(), Seq::empty())
    } else {
        let (done, cur) = line_state(s.drop_last());
        if s.last() == '\n' {
            (done.push(strip_cr(cur)), Seq::empty())
        } else {
            (done, cur.push(s.last()))
        }
    }
}

/// A line that ended in `"\r\n"` loses its `'\r'`.
pub open spec fn strip_cr(p: Seq<char>) -> Seq<char> {
    if p.len() > 0 && p.last() == '\r' {
        p.drop_last()
    } else {
        p
    }
}

/// `str::lines`: lines end at `'\n'` or `"\r\n"`; a last empty line is not one.
pub open spec fn lines(s: Seq<char>) -> Seq<Seq<char>> {
    let (done, cur) = line_state(s);
    if cur.len() > 0 {
        done.push(cur)
    } else {
        done
    }
}

/// The lines of a text, as `str::lines` splits them.
pub fn lines_exec(v: &[char]) -> (r: Vec<Vec<char>>)
    ensures
        views(r@) == lines(v@),
{
    let mut done: Vec<Vec<char>> = Vec::new();
    let mut cur: Vec<char> = Vec::new();
    let mut i: usize = 0;
    while i < v.len()
        invariant
            i <= v@.len(),
            (views(done@), cur@) == line_state(v@.take(i as int)),
        decreases v@.len() - i,
    {
        let c = v[i];
        proof {
            assert(v@.take(i + 1).drop_last() =~= v@.take(i as int));
        }
        if c == '\n' {
            let n = cur.len();
            let piece = if n > 0 && cur[n - 1] == '\r' {
                let p = slice_chars(&cur, 0, n - 1);
                assert(p@ =~= cur@.drop_last());
                p
            } else {
                cur
            };
            let ghost before = views(done@);
            done.push(piece);
            assert(views(done@) =~= before.push(piece@));
            cur = Vec::new();
        } else {
            cur.push(c);
        }
        i += 1;
    }
    assert(v@.take(v@.len() as int) =~= v@);
    if cur.len() > 0 {
        let ghost before = views(done@);
        let ghost cv = cur@;
        done.push(cur);
        assert(views(done@) =~= before.push(cv));
    }
    done
}

// ---------------------------------------------------------------------------------------------
// tokens
// ---------------------------------------------------------------------------------------------

pub open spec fn is_sep(c: char) -> bool {
    c == ' ' || c == '\t'
}

/// Splitting at spaces and tabs from the left: the finished tokens and the one being read.
pub open spec fn token_state(s: Seq<char>) -> (Seq<Seq<char>>, Seq<char>)
    decreases s.len(),
{
    if s.len() == 0 {
        (Seq::empty(), Seq::empty())
    } else {
        let (done, cur) = token_state(s.drop_last());
        if is_sep(s.last()) {
            if cur.len() > 0 {
                (done.push(cur), Seq::empty())
            } else {
                (done, Seq::empty())
            }
        } else {
            (done, cur.push(s.last()))
        }
    }
}

/// The non-empty runs between spaces and tabs.
pub open spec fn tokens(s: Seq<char>) -> Seq<Seq<char>> {
    let (done, cur) = token_state(s);
    if cur.len() > 0 {
        done.push(cur)
    } else {
        done
    }
}

/// `s.split([' ', '\t']).filter(|t| !t.is_empty())`.
pub fn tokens_exec(v: &[char]) -> (r: Vec<Vec<char>>)
    ensures
        views(r@) == tokens(v@),
{
    let mut done: Vec<Vec<char>> = Vec::new();
    let mut cur: Vec<char> = Vec::new();
    let mut i: usize = 0;
    while i < v.len()
        invariant
            i <= v@.len(),
            (views(done@), cur@) == token_state(v@.take(i as int)),
        decreases v@.len() - i,
    {
        let c = v[i];
        proof {
            assert(v@.take(i + 1).drop_last() =~= v@.take(i as int));
        }
        if c == ' ' || c == '\t' {
            if cur.len() > 0 {
                let ghost before = views(done@);
                let ghost cv = cur@;
                done.push(cur);
                assert(views(done@) =~= before.push(cv));
                cur = Vec::new();
            }
        } else {
            cur.push(c);
        }
        i += 1;
    }
    assert(v@.take(v@.len() as int) =~= v@);
    if cur.len() > 0 {
        let ghost before = views(done@);
        let ghost cv = cur@;
        done.push(cur);
        assert(views(done@) =~= before.push(cv));
    }
    done
}

// ---------------------------------------------------------------------------------------------
// numbers
// ---------------------------------------------------------------------------------------------

pub open spec fn is_digit(c: char) -> bool {
    '0' <= c && c <= '9'
}

pub open spec fn all_digits(s: Seq<char>) -> bool {
    forall|i: int| 0 <= i < s.len() ==> is_digit(#[trigger] s[i])
}

pub open spec fn is_sign(c: char) -> bool {
    c == '+' || c == '-'
}

/// Index of the first character satisfying `ascii_lower(c) == x`, or the length.
pub open spec fn find_lower(s: Seq<char>, x: char) -> int
    decreases s.len(),
{
    if s.len() == 0 {
        0
    } else if ascii_lower(s[0]) == x {
        0
    } else {
        1 + find_lower(s.drop_first(), x)
    }
}

/// `Digit+ | Digit+ '.' Digit* | Digit* '.' Digit+`
pub open spec fn mantissa_ok(m: Seq<char>) -> bool {
    let d = find_lower(m, '.');
    if d == m.len() {
        m.len() > 0 && all_digits(m)
    } else {
        all_digits(m.take(d)) && all_digits(m.skip(d + 1)) && m.len() > 1
    }
}

/// `Sign? Digit+`
pub open spec fn exponent_ok(r: Seq<char>) -> bool {
    let r2 = if r.len() > 0 && is_sign(r[0]) {
        r.drop_first()
    } else {
        r
    };
    r2.len() > 0 && all_digits(r2)
}

/// `Number ::= Mantissa Exp?` with `Exp ::= 'e' Sign? Digit+`, `e` in either case.
pub open spec fn number_ok(s: Seq<char>) -> bool {
    let e = find_lower(s, 'e');
    mantissa_ok(s.take(e)) && (e == s.len() || exponent_ok(s.skip(e + 1)))
}

/// The text `f64::from_str` accepts: `Sign? ( 'inf' | 'infinity' | 'nan' | Number )`, where the
/// words and the exponent letter may be in any ASCII case.
pub open spec fn is_float_text(s: Seq<char>) -> bool {
    let body = if s.len() > 0 && is_sign(s[0]) {
        s.drop_first()
    } else {
        s
    };
    ||| eq_ci(body, "inf"@)
    ||| eq_ci(body, "infinity"@)
    ||| eq_ci(body, "nan"@)
    ||| number_ok(body)
}

proof fn lemma_find_lower_bound(s: Seq<char>, x: char)
    ensures
        0 <= find_lower(s, x) <= s.len(),
        forall|j: int| 0 <= j < find_lower(s, x) ==> ascii_lower(#[trigger] s[j]) != x,
        find_lower(s, x) < s.len() ==> ascii_lower(s[find_lower(s, x)]) == x,
    decreases s.len(),
{
    if s.len() > 0 && ascii_lower(s[0]) != x {
        lemma_find_lower_bound(s.drop_first(), x);
        assert forall|j: int| 0 <= j < find_lower(s, x) implies ascii_lower(#[trigger] s[j])
            != x by {
            if j > 0 {
                assert(s[j] == s.drop_first()[j - 1]);
            }
        }
    }
}

proof fn lemma_find_lower_is(s: Seq<char>, x: char, k: int)
    requires
        0 <= k <= s.len(),
        forall|j: int| 0 <= j < k ==> ascii_lower(#[trigger] s[j]) != x,
        k < s.len() ==> ascii_lower(s[k]) == x,
    ensures
        find_lower(s, x) == k,
    decreases k,
{
    if k > 0 {
        assert(ascii_lower(s[0]) != x);
        assert forall|j: int| 0 <= j < k - 1 implies ascii_lower(#[trigger] s.drop_first()[j])
            != x by {
            assert(s.drop_first()[j] == s[j + 1]);
        }
        lemma_find_lower_is(s.drop_first(), x, k - 1);
    }
}

/// The first index in `v` whose character lower-cases to `x`, or the length.
pub fn find_lower_exec(v: &[char], x: char) -> (r: usize)
    ensures
        r == find_lower(v@, x),
{
    let mut i: usize = 0;
    while i < v.len() && ascii_lower_exec(v[i]) != x
        invariant
            i <= v@.len(),
            forall|j: int| 0 <= j < i ==> ascii_lower(#[trigger] v@[j]) != x,
        decreases v@.len() - i,
    {
        i += 1;
    }
    proof {
        lemma_find_lower_is(v@, x, i as int);
    }
    i
}

fn all_digits_exec(v: &[char], from: usize, to: usize) -> (r: bool)
    requires
        from <= to <= v@.len(),
    ensures
        r == all_digits(v@.subrange(from as int, to as int)),
{
    let mut i = from;
    while i < to
        invariant
            from <= i <= to <= v@.len(),
            forall|j: int| from <= j < i ==> is_digit(#[trigger] v@[j]),
        decreases to - i,
    {
        if !('0' <= v[i] && v[i] <= '9') {
            assert(v@.subrange(from as int, to as int)[i - from] == v@[i as int]);
            return false;
        }
        i += 1;
    }
    assert forall|j: int| 0 <= j < to - from implies is_digit(
        #[trigger] v@.subrange(from as int, to as int)[j],
    ) by {
        assert(v@.subrange(from as int, to as int)[j] == v@[from + j]);
    }
    true
}

fn mantissa_ok_exec(m: &[char]) -> (r: bool)
    ensures
        r == mantissa_ok(m@),
{
    let d = find_lower_exec(m, '.');
    proof {
        lemma_find_lower_bound(m@, '.');
        assert(m@.take(d as int) =~= m@.subrange(0, d as int));
        assert(m@ =~= m@.subrange(0, m@.len() as int));
    }
    if d == m.len() {
        m.len() > 0 && all_digits_exec(m, 0, m.len())
    } else {
        assert(m@.skip(d + 1) =~= m@.subrange(d + 1, m@.len() as int));
        all_digits_exec(m, 0, d) && all_digits_exec(m, d + 1, m.len()) && m.len() > 1
    }
}

fn exponent_ok_exec(r: &[char]) -> (ok: bool)
    ensures
        ok == exponent_ok(r@),
{
    let start: usize = if r.len() > 0 && (r[0] == '+' || r[0] == '-') {
        1
    } else {
        0
    };
    proof {
        if start == 1 {
            assert(r@.drop_first() =~= r@.subrange(1, r@.len() as int));
        } else {
            assert(r@ =~= r@.subrange(0, r@.len() as int));
        }
    }
    r.len() > start && all_digits_exec(r, start, r.len())
}

fn number_ok_exec(s: &[char]) -> (r: bool)
    ensures
        r == number_ok(s@),
{
    let e = find_lower_exec(s, 'e');
    proof {
        lemma_find_lower_bound(s@, 'e');
    }
    let m = slice_chars(s, 0, e);
    assert(m@ =~= s@.take(e as int));
    if !mantissa_ok_exec(&m) {
        return false;
    }
    if e == s.len() {
        return true;
    }
    let rest = slice_chars(s, e + 1, s.len());
    assert(rest@ =~= s@.skip(e + 1));
    exponent_ok_exec(&rest)
}

/// Whether `f64::from_str` accepts the characters.
pub fn is_float_text_exec(s: &[char]) -> (r: bool)
    ensures
        r == is_float_text(s@),
{
    let body = if s.len() > 0 && (s[0] == '+' || s[0] == '-') {
        slice_chars(s, 1, s.len())
    } else {
        slice_chars(s, 0, s.len())
    };
    proof {
        if s@.len() > 0 && is_sign(s@[0]) {
            assert(body@ =~= s@.drop_first());
        } else {
            assert(body@ =~= s@);
        }
    }
    let inf = chars_of("inf");
    let infinity = chars_of("infinity");
    let nan = chars_of("nan");
    eq_ci_exec(&body, &inf) || eq_ci_exec(&body, &infinity) || eq_ci_exec(&body, &nan)
        || number_ok_exec(&body)
}

// ---------------------------------------------------------------------------------------------
// decimal integers
// ---------------------------------------------------------------------------------------------

pub open spec fn digit_char(d: nat) -> char {
    ((d % 10) + 48) as char
}

/// The decimal digits of `n`, as `Display` writes an unsigned integer.
pub open spec fn dec(n: nat) -> Seq<char>
    decreases n,
{
    if n < 10 {
        seq![digit_char(n)]
    } else {
        dec(n / 10).push(digit_char(n % 10))
    }
}

/// Appends the decimal digits of `n`.
pub fn push_dec(s: &mut String, n: usize)
    ensures
        final(s)@ == old(s)@ + dec(n as nat),
    decreases n,
{
    if n >= 10 {
        push_dec(s, n / 10);
    }
    let d: u8 = (n % 10) as u8 + 48;
    let c = d as char;
    assert(c == digit_char(n as nat));
    push_char(s, c);
    proof {
        if n >= 10 {
            assert(s@ =~= old(s)@ + dec(n as nat));
        } else {
            assert(s@ =~= old(s)@ + dec(n as nat));
        }
    }
}

/// Code-point order on texts, the order `str` compares in.
pub open spec fn text_lt(a: Seq<char>, b: Seq<char>) -> bool
    decreases a.len(),
{
    if a.len() == 0 {
        b.len() > 0
    } else if b.len() == 0 {
        false
    } else if a[0] != b[0] {
        a[0] < b[0]
    } else {
        text_lt(a.drop_first(), b.drop_first())
    }
}

/// Code-point order on two texts (`text_lt`).
pub fn text_less(a: &Vec<char>, b: &Vec<char>) -> (r: bool)
    ensures
        r == text_lt(a@, b@),
{
    let mut i: usize = 0;
    assert(a@.skip(0) =~= a@);
    assert(b@.skip(0) =~= b@);
    while i < a.len() && i < b.len()
        invariant
            i <= a@.len(),
            i <= b@.len(),
            text_lt(a@, b@) == text_lt(a@.skip(i as int), b@.skip(i as int)),
        decreases a@.len() - i,
    {
        if a[i] != b[i] {
            return a[i] < b[i];
        }
        assert(a@.skip(i as int).drop_first() =~= a@.skip(i + 1));
        assert(b@.skip(i as int).drop_first() =~= b@.skip(i + 1));
        i += 1;
    }
    i < b.len()
}

} // verus!
