//! Character-level text handling: the views of strings are `Seq<char>`,
//! the executable side works on `Vec<char>`.
use vstd::prelude::*;

verus! {

/// `String::push`: appends one character at the end.
#[verifier::external_body]
pub(crate) fn push_char(s: &mut String, c: char)
    ensures
        final(s)@ == old(s)@.push(c),
{
    s.push(c);
}

/// The characters of a string slice, in order.
pub fn chars_of(s: &str) -> (v: Vec<char>)
    ensures
        v@ == s@,
{
    let mut v: Vec<char> = Vec::new();
    for c in it: s.chars()
        invariant
            v@ == it.seq().take(it.index()),
    {
        v.push(c);
    }
    v
}

/// A string holding exactly the given characters.
pub fn string_of(v: &Vec<char>) -> (s: String)
    ensures
        s@ == v@,
{
    let mut s = String::new();
    let n = v.len();
    for i in 0..n
        invariant
            n == v@.len(),
            s@ == v@.take(i as int),
    {
        push_char(&mut s, v[i]);
        assert(v@.take(i + 1) =~= v@.take(i as int).push(v@[i as int]));
    }
    assert(v@.take(n as int) =~= v@);
    s
}

/// Appends all characters of `v` to `s`.
pub fn push_chars(s: &mut String, v: &Vec<char>)
    ensures
        final(s)@ == old(s)@ + v@,
{
    let n = v.len();
    let ghost s0 = s@;
    for i in 0..n
        invariant
            n == v@.len(),
            s@ == s0 + v@.take(i as int),
    {
        push_char(s, v[i]);
        assert(v@.take(i + 1) =~= v@.take(i as int).push(v@[i as int]));
    }
    assert(v@.take(n as int) =~= v@);
}

/// A copy of `v[lo..hi]`.
pub fn copy_range(v: &Vec<char>, lo: usize, hi: usize) -> (r: Vec<char>)
    requires
        lo <= hi <= v@.len(),
    ensures
        r@ == v@.subrange(lo as int, hi as int),
{
    let mut r: Vec<char> = Vec::new();
    let mut i = lo;
    while i < hi
        invariant
            lo <= i <= hi <= v@.len(),
            r@ == v@.subrange(lo as int, i as int),
        decreases hi - i,
    {
        r.push(v[i]);
        assert(v@.subrange(lo as int, i + 1) =~= v@.subrange(lo as int, i as int).push(v@[i as int]));
        i = i + 1;
    }
    r
}

/// `char::is_whitespace`: the Unicode `White_Space` characters.
pub open spec fn is_ws(c: char) -> bool {
    ||| c == ' '
    ||| c == '\t'
    ||| c == '\n'
    ||| c == '\x0B'
    ||| c == '\x0C'
    ||| c == '\r'
    ||| c == '\u{85}'
    ||| c == '\u{A0}'
    ||| c == '\u{1680}'
    ||| ('\u{2000}' <= c && c <= '\u{200A}')
    ||| c == '\u{2028}'
    ||| c == '\u{2029}'
    ||| c == '\u{202F}'
    ||| c == '\u{205F}'
    ||| c == '\u{3000}'
}

/// Which characters a trim removes: whitespace, or one given character.
pub enum CharClass {
    Whitespace,
    Exactly(char),
}

pub open spec fn in_class(cls: CharClass, c: char) -> bool {
    match cls {
        CharClass::Whitespace => is_ws(c),
        CharClass::Exactly(d) => c == d,
    }
}

pub fn is_ws_char(c: char) -> (b: bool)
    ensures
        b == is_ws(c),
{
    c == ' ' || c == '\t' || c == '\n' || c == '\x0B' || c == '\x0C' || c == '\r' || c == '\u{85}'
        || c == '\u{A0}' || c == '\u{1680}' || ('\u{2000}' <= c && c <= '\u{200A}') || c
        == '\u{2028}' || c == '\u{2029}' || c == '\u{202F}' || c == '\u{205F}' || c == '\u{3000}'
}

pub fn class_has(cls: &CharClass, c: char) -> (b: bool)
    ensures
        b == in_class(*cls, c),
{
    match cls {
        CharClass::Whitespace => is_ws_char(c),
        CharClass::Exactly(d) => c == *d,
    }
}

/// Drops the leading characters of the class.
pub open spec fn trim_start(s: Seq<char>, cls: CharClass) -> Seq<char>
    decreases s.len(),
{
    if s.len() > 0 && in_class(cls, s[0]) {
        trim_start(s.drop_first(), cls)
    } else {
        s
    }
}

/// Drops the trailing characters of the class.
pub open spec fn trim_end(s: Seq<char>, cls: CharClass) -> Seq<char>
    decreases s.len(),
{
    if s.len() > 0 && in_class(cls, s.last()) {
        trim_end(s.drop_last(), cls)
    } else {
        s
    }
}

/// Drops the characters of the class at both ends (`str::trim`, `str::trim_matches`).
pub open spec fn trim_both(s: Seq<char>, cls: CharClass) -> Seq<char> {
    trim_end(trim_start(s, cls), cls)
}

/// `str::trim`.
pub open spec fn trim(s: Seq<char>) -> Seq<char> {
    trim_both(s, CharClass::Whitespace)
}

/// Index of the first character of `v[lo..hi]` outside the class, or `hi`.
fn skip_class_forward(v: &Vec<char>, lo: usize, hi: usize, cls: &CharClass) -> (i: usize)
    requires
        lo <= hi <= v@.len(),
    ensures
        lo <= i <= hi,
        trim_start(v@.subrange(lo as int, hi as int), *cls) == v@.subrange(i as int, hi as int),
{
    let mut i = lo;
    while i < hi && class_has(cls, v[i])
        invariant
            lo <= i <= hi <= v@.len(),
            trim_start(v@.subrange(lo as int, hi as int), *cls) == trim_start(
                v@.subrange(i as int, hi as int),
                *cls,
            ),
        decreases hi - i,
    {
        assert(v@.subrange(i as int, hi as int).drop_first() =~= v@.subrange(i + 1, hi as int));
        i = i + 1;
    }
    i
}

/// One past the last character of `v[lo..hi]` outside the class, or `lo`.
fn skip_class_backward(v: &Vec<char>, lo: usize, hi: usize, cls: &CharClass) -> (j: usize)
    requires
        lo <= hi <= v@.len(),
    ensures
        lo <= j <= hi,
        trim_end(v@.subrange(lo as int, hi as int), *cls) == v@.subrange(lo as int, j as int),
{
    let mut j = hi;
    while j > lo && class_has(cls, v[j - 1])
        invariant
            lo <= j <= hi <= v@.len(),
            trim_end(v@.subrange(lo as int, hi as int), *cls) == trim_end(
                v@.subrange(lo as int, j as int),
                *cls,
            ),
        decreases j - lo,
    {
        assert(v@.subrange(lo as int, j as int).drop_last() =~= v@.subrange(lo as int, j - 1));
        j = j - 1;
    }
    j
}

/// `str::trim_start_matches` / `str::trim_end_matches` / `str::trim_matches` for one class.
pub fn trim_class(v: &Vec<char>, cls: &CharClass, start: bool, end: bool) -> (r: Vec<char>)
    ensures
        r@ == (if start && end {
            trim_both(v@, *cls)
        } else if start {
            trim_start(v@, *cls)
        } else if end {
            trim_end(v@, *cls)
        } else {
            v@
        }),
{
    let n = v.len();
    assert(v@.subrange(0, n as int) =~= v@);
    let i = if start {
        skip_class_forward(v, 0, n, cls)
    } else {
        0
    };
    let j = if end {
        skip_class_backward(v, i, n, cls)
    } else {
        n
    };
    copy_range(v, i, j)
}

/// `str::trim`.
pub fn trim_ws(v: &Vec<char>) -> (r: Vec<char>)
    ensures
        r@ == trim(v@),
{
    trim_class(v, &CharClass::Whitespace, true, true)
}

/// `p` occurs in `s` at position `i`.
pub open spec fn matches_at(s: Seq<char>, p: Seq<char>, i: int) -> bool {
    0 <= i && i + p.len() <= s.len() && s.subrange(i, i + p.len()) == p
}

/// `str::starts_with`.
pub open spec fn starts_with(s: Seq<char>, p: Seq<char>) -> bool {
    matches_at(s, p, 0)
}

/// `str::contains`.
pub open spec fn contains(s: Seq<char>, p: Seq<char>) -> bool {
    exists|i: int| #[trigger] matches_at(s, p, i)
}

/// Whether `p` occurs in `v` at position `i`.
pub fn matches_at_exec(v: &Vec<char>, p: &Vec<char>, i: usize) -> (b: bool)
    ensures
        b == matches_at(v@, p@, i as int),
{
    let n = v.len();
    let m = p.len();
    if i > n || m > n - i {
        return false;
    }
    let mut k: usize = 0;
    while k < m
        invariant
            i + m <= n == v@.len(),
            m == p@.len(),
            k <= m,
            forall|t: int| 0 <= t < k ==> v@[i + t] == p@[t],
        decreases m - k,
    {
        if v[i + k] != p[k] {
            assert(v@.subrange(i as int, i + m)[k as int] != p@[k as int]);
            return false;
        }
        k = k + 1;
    }
    assert(v@.subrange(i as int, i + m) =~= p@);
    true
}

/// `str::starts_with`.
pub fn starts_with_exec(v: &Vec<char>, p: &Vec<char>) -> (b: bool)
    ensures
        b == starts_with(v@, p@),
{
    matches_at_exec(v, p, 0)
}

/// `str::contains`.
pub fn contains_exec(v: &Vec<char>, p: &Vec<char>) -> (b: bool)
    ensures
        b == contains(v@, p@),
{
    let n = v.len();
    let mut i: usize = 0;
    while i < n
        invariant
            n == v@.len(),
            i <= n,
            forall|t: int| 0 <= t < i ==> !#[trigger] matches_at(v@, p@, t),
        decreases n - i,
    {
        if matches_at_exec(v, p, i) {
            return true;
        }
        i = i + 1;
    }
    if matches_at_exec(v, p, n) {
        return true;
    }
    assert forall|t: int| !#[trigger] matches_at(v@, p@, t) by {
        if 0 <= t <= n {
        }
    }
    false
}

/// Index of the first `c` at or after `i`.
pub open spec fn find_char_from(s: Seq<char>, c: char, i: int) -> Option<int>
    decreases s.len() - i,
{
    if i < 0 || i >= s.len() {
        None
    } else if s[i] == c {
        Some(i)
    } else {
        find_char_from(s, c, i + 1)
    }
}

/// `str::find` with a `char` pattern (as an index of characters).
pub open spec fn find_char(s: Seq<char>, c: char) -> Option<int> {
    find_char_from(s, c, 0)
}

pub fn find_char_exec(v: &Vec<char>, c: char) -> (r: Option<usize>)
    ensures
        r matches Some(i) ==> find_char(v@, c) == Some(i as int) && i < v@.len(),
        r is None ==> find_char(v@, c) is None,
{
    let n = v.len();
    let mut i: usize = 0;
    while i < n
        invariant
            n == v@.len(),
            i <= n,
            find_char(v@, c) == find_char_from(v@, c, i as int),
        decreases n - i,
    {
        if v[i] == c {
            return Some(i);
        }
        i = i + 1;
    }
    None
}

/// The pieces of `s[start..]` split at every `c`, scanning from `i`.
pub open spec fn split_from(s: Seq<char>, c: char, start: int, i: int) -> Seq<Seq<char>>
    decreases s.len() - i,
{
    if i >= s.len() {
        seq![s.subrange(start, s.len() as int)]
    } else if s[i] == c {
        seq![s.subrange(start, i)] + split_from(s, c, i + 1, i + 1)
    } else {
        split_from(s, c, start, i + 1)
    }
}

/// `str::split` with a `char` pattern.
pub open spec fn split_char(s: Seq<char>, c: char) -> Seq<Seq<char>> {
    split_from(s, c, 0, 0)
}

/// The views of a vector of character vectors.
pub open spec fn views(v: Seq<Vec<char>>) -> Seq<Seq<char>> {
    Seq::new(v.len(), |i: int| v[i]@)
}

pub fn split_char_exec(v: &Vec<char>, c: char) -> (r: Vec<Vec<char>>)
    ensures
        views(r@) == split_char(v@, c),
{
    let n = v.len();
    let mut r: Vec<Vec<char>> = Vec::new();
    let mut start: usize = 0;
    let mut i: usize = 0;
    while i < n
        invariant
            n == v@.len(),
            start <= i <= n,
            views(r@) + split_from(v@, c, start as int, i as int) == split_char(v@, c),
        decreases n - i,
    {
        if v[i] == c {
            let piece = copy_range(v, start, i);
            let ghost old_r = views(r@);
            r.push(piece);
            assert(views(r@) =~= old_r.push(piece@));
            assert(old_r + split_from(v@, c, start as int, i as int) =~= views(r@) + split_from(
                v@,
                c,
                i + 1,
                i + 1,
            ));
            start = i + 1;
        }
        i = i + 1;
    }
    let piece = copy_range(v, start, n);
    let ghost old_r = views(r@);
    r.push(piece);
    assert(views(r@) =~= old_r.push(piece@));
    assert(views(r@) =~= old_r + split_from(v@, c, start as int, n as int));
    r
}


/// A line without the `'\r'` of a `"\r\n"` ending.
pub open spec fn strip_cr(t: Seq<char>) -> Seq<char> {
    if t.len() > 0 && t.last() == '\r' {
        t.drop_last()
    } else {
        t
    }
}

/// The lines of `s[start..]`, scanning from `i`.
pub open spec fn lines_from(s: Seq<char>, start: int, i: int) -> Seq<Seq<char>>
    decreases s.len() - i,
{
    if i >= s.len() {
        if start >= s.len() {
            seq![]
        } else {
            seq![s.subrange(start, s.len() as int)]
        }
    } else if s[i] == '\n' {
        seq![strip_cr(s.subrange(start, i))] + lines_from(s, i + 1, i + 1)
    } else {
        lines_from(s, start, i + 1)
    }
}

/// `str::lines`: split at `'\n'`, a `'\r'` before it dropped, no empty last line.
pub open spec fn lines(s: Seq<char>) -> Seq<Seq<char>> {
    lines_from(s, 0, 0)
}

pub fn lines_exec(v: &Vec<char>) -> (r: Vec<Vec<char>>)
    ensures
        views(r@) == lines(v@),
{
    let n = v.len();
    let mut r: Vec<Vec<char>> = Vec::new();
    let mut start: usize = 0;
    let mut i: usize = 0;
    while i < n
        invariant
            n == v@.len(),
            start <= i <= n,
            views(r@) + lines_from(v@, start as int, i as int) == lines(v@),
        decreases n - i,
    {
        if v[i] == '\n' {
            let end = if i > start && v[i - 1] == '\r' {
                i - 1
            } else {
                i
            };
            let piece = copy_range(v, start, end);
            assert(piece@ == strip_cr(v@.subrange(start as int, i as int)));
            let ghost old_r = views(r@);
            r.push(piece);
            assert(views(r@) =~= old_r.push(piece@));
            assert(old_r + lines_from(v@, start as int, i as int) =~= views(r@) + lines_from(
                v@,
                i + 1,
                i + 1,
            ));
            start = i + 1;
        }
        i = i + 1;
    }
    if start < n {
        let piece = copy_range(v, start, n);
        let ghost old_r = views(r@);
        r.push(piece);
        assert(views(r@) =~= old_r.push(piece@));
        assert(views(r@) =~= old_r + lines_from(v@, start as int, n as int));
    } else {
        assert(views(r@) =~= views(r@) + lines_from(v@, start as int, n as int));
    }
    r
}

/// The whitespace-separated words of `s[start..]`, scanning from `i`.
pub open spec fn words_from(s: Seq<char>, start: int, i: int) -> Seq<Seq<char>>
    decreases s.len() - i,
{
    if i >= s.len() {
        if start >= s.len() {
            seq![]
        } else {
            seq![s.subrange(start, s.len() as int)]
        }
    } else if is_ws(s[i]) {
        (if start < i {
            seq![s.subrange(start, i)]
        } else {
            seq![]
        }) + words_from(s, i + 1, i + 1)
    } else {
        words_from(s, start, i + 1)
    }
}

/// `str::split_whitespace`.
pub open spec fn words(s: Seq<char>) -> Seq<Seq<char>> {
    words_from(s, 0, 0)
}

pub fn words_exec(v: &Vec<char>) -> (r: Vec<Vec<char>>)
    ensures
        views(r@) == words(v@),
{
    let n = v.len();
    let mut r: Vec<Vec<char>> = Vec::new();
    let mut start: usize = 0;
    let mut i: usize = 0;
    while i < n
        invariant
            n == v@.len(),
            start <= i <= n,
            views(r@) + words_from(v@, start as int, i as int) == words(v@),
        decreases n - i,
    {
        if is_ws_char(v[i]) {
            let ghost old_r = views(r@);
            if start < i {
                let piece = copy_range(v, start, i);
                r.push(piece);
                assert(views(r@) =~= old_r.push(piece@));
            } else {
                assert(views(r@) =~= old_r);
            }
            assert(old_r + words_from(v@, start as int, i as int) =~= views(r@) + words_from(
                v@,
                i + 1,
                i + 1,
            ));
            start = i + 1;
        }
        i = i + 1;
    }
    if start < n {
        let piece = copy_range(v, start, n);
        let ghost old_r = views(r@);
        r.push(piece);
        assert(views(r@) =~= old_r.push(piece@));
        assert(views(r@) =~= old_r + words_from(v@, start as int, n as int));
    } else {
        assert(views(r@) =~= views(r@) + words_from(v@, start as int, n as int));
    }
    r
}

/// Every non-overlapping occurrence of `p` in `s[i..]`, left to right, replaced by `r`.
pub open spec fn replace_from(s: Seq<char>, p: Seq<char>, r: Seq<char>, i: int) -> Seq<char>
    decreases s.len() - i,
{
    if i < 0 || i >= s.len() {
        seq![]
    } else if p.len() > 0 && matches_at(s, p, i) {
        r + replace_from(s, p, r, i + p.len())
    } else {
        seq![s[i]] + replace_from(s, p, r, i + 1)
    }
}

/// `str::replace` for a non-empty pattern.
pub open spec fn replace(s: Seq<char>, p: Seq<char>, r: Seq<char>) -> Seq<char> {
    replace_from(s, p, r, 0)
}

pub fn replace_exec(v: &Vec<char>, p: &Vec<char>, r: &Vec<char>) -> (out: Vec<char>)
    requires
        p@.len() > 0,
    ensures
        out@ == replace(v@, p@, r@),
{
    let n = v.len();
    let m = p.len();
    let mut out: Vec<char> = Vec::new();
    let mut i: usize = 0;
    while i < n
        invariant
            n == v@.len(),
            m == p@.len(),
            m > 0,
            i <= n,
            out@ + replace_from(v@, p@, r@, i as int) == replace(v@, p@, r@),
        decreases n - i,
    {
        let ghost old_out = out@;
        if matches_at_exec(v, p, i) {
            let rr = r.clone();
            let mut rr = rr;
            out.append(&mut rr);
            assert(out@ =~= old_out + r@);
            assert(old_out + replace_from(v@, p@, r@, i as int) =~= out@ + replace_from(
                v@,
                p@,
                r@,
                i + m,
            ));
            i = i + m;
        } else {
            out.push(v[i]);
            assert(old_out + replace_from(v@, p@, r@, i as int) =~= out@ + replace_from(
                v@,
                p@,
                r@,
                i + 1,
            ));
            i = i + 1;
        }
    }
    assert(out@ =~= out@ + replace_from(v@, p@, r@, i as int));
    out
}

/// `s` repeated `n` times (`str::repeat`).
pub open spec fn repeat(s: Seq<char>, n: nat) -> Seq<char>
    decreases n,
{
    if n == 0 {
        seq![]
    } else {
        repeat(s, (n - 1) as nat) + s
    }
}

/// Appends `n` copies of `piece`.
pub fn push_repeat(s: &mut String, piece: &Vec<char>, n: usize)
    ensures
        final(s)@ == old(s)@ + repeat(piece@, n as nat),
{
    let ghost s0 = s@;
    for k in 0..n
        invariant
            s@ == s0 + repeat(piece@, k as nat),
    {
        push_chars(s, piece);
        assert(s0 + repeat(piece@, (k + 1) as nat) =~= s0 + repeat(piece@, k as nat) + piece@);
    }
}

pub proof fn lemma_repeat_len(s: Seq<char>, n: nat)
    ensures
        repeat(s, n).len() == n * s.len(),
    decreases n,
{
    if n > 0 {
        lemma_repeat_len(s, (n - 1) as nat);
        assert(n * s.len() == (n - 1) * s.len() + s.len()) by (nonlinear_arith);
    } else {
        assert(0 * s.len() == 0);
    }
}


/// The character of a decimal digit.
pub open spec fn digit_char(d: int) -> char {
    (48 + d) as char
}

/// The decimal numeral of `n`, as `u64::to_string` writes it.
pub open spec fn decimal(n: nat) -> Seq<char>
    decreases n,
{
    if n < 10 {
        seq![digit_char(n as int)]
    } else {
        decimal(n / 10).push(digit_char((n % 10) as int))
    }
}

fn digit(d: u64) -> (c: char)
    requires
        d < 10,
    ensures
        c == digit_char(d as int),
{
    let b: u8 = 48u8 + (d as u8);
    b as char
}

/// Appends the decimal numeral of `n`.
pub fn push_decimal(s: &mut String, n: u64)
    ensures
        final(s)@ == old(s)@ + decimal(n as nat),
    decreases n,
{
    if n >= 10 {
        push_decimal(s, n / 10);
    }
    push_char(s, digit(n % 10));
}

/// `u64::to_string`.
pub fn decimal_string(n: u64) -> (s: String)
    ensures
        s@ == decimal(n as nat),
{
    let mut s = String::new();
    push_decimal(&mut s, n);
    s
}

pub open spec fn is_digit(c: char) -> bool {
    '0' <= c && c <= '9'
}

pub open spec fn all_digits(s: Seq<char>) -> bool {
    forall|i: int| 0 <= i < s.len() ==> is_digit(#[trigger] s[i])
}

/// The value of a numeral.
pub open spec fn digits_value(s: Seq<char>) -> nat
    decreases s.len(),
{
    if s.len() == 0 {
        0
    } else {
        digits_value(s.drop_last()) * 10 + ((s.last() as int) - 48) as nat
    }
}

/// `str::parse::<u64>`: an optional `'+'`, then one or more digits, with a value that fits.
pub open spec fn parse_u64(s: Seq<char>) -> Option<u64> {
    let d = if s.len() > 0 && s[0] == '+' {
        s.drop_first()
    } else {
        s
    };
    if d.len() == 0 || !all_digits(d) || digits_value(d) > u64::MAX {
        None
    } else {
        Some(digits_value(d) as u64)
    }
}

proof fn lemma_digits_value_grows(s: Seq<char>, i: int)
    requires
        all_digits(s),
        0 <= i <= s.len(),
    ensures
        digits_value(s.take(i)) <= digits_value(s),
    decreases s.len() - i,
{
    if i < s.len() {
        lemma_digits_value_grows(s, i + 1);
        assert(s.take(i + 1).drop_last() =~= s.take(i));
        assert(is_digit(s[i]));
    } else {
        assert(s.take(i) =~= s);
    }
}

pub fn parse_u64_exec(v: &Vec<char>) -> (r: Option<u64>)
    ensures
        r == parse_u64(v@),
{
    let n = v.len();
    let start: usize = if n > 0 && v[0] == '+' {
        1
    } else {
        0
    };
    let ghost d = if v@.len() > 0 && v@[0] == '+' {
        v@.drop_first()
    } else {
        v@
    };
    assert(d =~= v@.subrange(start as int, n as int));
    if start == n {
        return None;
    }
    let mut acc: u64 = 0;
    let mut i = start;
    while i < n
        invariant
            n == v@.len(),
            start <= i <= n,
            d == v@.subrange(start as int, n as int),
            d == (if v@.len() > 0 && v@[0] == '+' {
                v@.drop_first()
            } else {
                v@
            }),
            start < n,
            all_digits(d.take(i - start)),
            acc == digits_value(d.take(i - start)),
        decreases n - i,
    {
        let c = v[i];
        assert(d[i - start] == c);
        assert(d.take(i - start + 1).drop_last() =~= d.take(i - start));
        if !('0' <= c && c <= '9') {
            assert(!is_digit(d[i - start]));
            assert(!all_digits(d));
            return None;
        }
        let dv: u64 = (c as u32 - 48) as u64;
        assert(dv == (c as int) - 48);
        if acc > (u64::MAX - dv) / 10 {
            assert(digits_value(d.take(i - start + 1)) > u64::MAX) by (nonlinear_arith)
                requires
                    acc > (u64::MAX - dv) / 10,
                    digits_value(d.take(i - start + 1)) == acc * 10 + dv,
                    dv < 10,
            ;
            assert forall|t: int| 0 <= t < d.take(i - start + 1).len() implies is_digit(
                #[trigger] d.take(i - start + 1)[t],
            ) by {
                if t < i - start {
                    assert(d.take(i - start)[t] == d.take(i - start + 1)[t]);
                }
            }
            proof {
                if all_digits(d) {
                    lemma_digits_value_grows(d, i - start + 1);
                }
            }
            return None;
        }
        acc = acc * 10 + dv;
        assert forall|t: int| 0 <= t < d.take(i - start + 1).len() implies is_digit(
            #[trigger] d.take(i - start + 1)[t],
        ) by {
            if t < i - start {
                assert(d.take(i - start)[t] == d.take(i - start + 1)[t]);
            }
        }
        i = i + 1;
    }
    assert(d.take(n - start) =~= d);
    Some(acc)
}


/// Whether `v` holds exactly the characters of `lit`.
pub fn same_chars(v: &Vec<char>, lit: &str) -> (b: bool)
    ensures
        b == (v@ == lit@),
{
    let w = chars_of(lit);
    if v.len() != w.len() {
        return false;
    }
    let b = matches_at_exec(v, &w, 0);
    assert(v@.subrange(0, v@.len() as int) =~= v@);
    b
}

/// The result of `str::to_lowercase` on a string with the given characters.
pub uninterp spec fn lowercase(s: Seq<char>) -> Seq<char>;

/// The result of `str::to_uppercase` on a string with the given characters.
pub uninterp spec fn uppercase(s: Seq<char>) -> Seq<char>;

/// Every character is ASCII.
pub open spec fn all_ascii(s: Seq<char>) -> bool {
    forall|i: int| 0 <= i < s.len() ==> (s[i] as u32) < 128
}

/// ASCII letters mapped to lower case, other characters kept.
pub open spec fn ascii_lower(s: Seq<char>) -> Seq<char> {
    Seq::new(
        s.len(),
        |i: int|
            if 'A' <= s[i] && s[i] <= 'Z' {
                ((s[i] as int) + 32) as char
            } else {
                s[i]
            },
    )
}

/// ASCII letters mapped to upper case, other characters kept.
pub open spec fn ascii_upper(s: Seq<char>) -> Seq<char> {
    Seq::new(
        s.len(),
        |i: int|
            if 'a' <= s[i] && s[i] <= 'z' {
                ((s[i] as int) - 32) as char
            } else {
                s[i]
            },
    )
}

/// A string in lower case, as `str::to_lowercase` gives it: the ASCII mapping on ASCII
/// text, the Unicode mapping (named `lowercase`) on other text.
pub open spec fn lower_text(s: Seq<char>) -> Seq<char> {
    if all_ascii(s) {
        ascii_lower(s)
    } else {
        lowercase(s)
    }
}

/// A string in upper case, as `str::to_uppercase` gives it: the ASCII mapping on ASCII
/// text, the Unicode mapping (named `uppercase`) on other text.
pub open spec fn upper_text(s: Seq<char>) -> Seq<char> {
    if all_ascii(s) {
        ascii_upper(s)
    } else {
        uppercase(s)
    }
}

/// Lower-casing ASCII text a second time changes nothing.
pub proof fn lemma_lower_text_twice(s: Seq<char>)
    requires
        all_ascii(s),
    ensures
        all_ascii(lower_text(s)),
        lower_text(lower_text(s)) == lower_text(s),
{
    lemma_ascii_lower_twice(s);
}

/// The ASCII lowercase mapping keeps text ASCII, and a second pass changes nothing.
proof fn lemma_ascii_lower_twice(s: Seq<char>)
    requires
        all_ascii(s),
    ensures
        all_ascii(ascii_lower(s)),
        ascii_lower(ascii_lower(s)) == ascii_lower(s),
{
    let l = ascii_lower(s);
    assert forall|i: int| 0 <= i < l.len() implies (l[i] as u32) < 128 by {
        assert((s[i] as u32) < 128);
    }
    assert(ascii_lower(l) =~= l);
}

/// `str::to_lowercase` (std): the Unicode lowercase mapping of the string. Its result
/// is a function of the characters alone, named `lowercase`; for ASCII text it is the ASCII
/// lowercase mapping. Nothing else is stated of it.
#[verifier::external_body]
pub(crate) fn str_to_lowercase(s: &str) -> (r: String)
    ensures
        r@ == lowercase(s@),
        all_ascii(s@) ==> r@ == ascii_lower(s@),
{
    s.to_lowercase()
}

/// `str::to_uppercase` (std): the Unicode uppercase mapping of the string. Its result
/// is a function of the characters alone, named `uppercase`; for ASCII text it is the ASCII
/// uppercase mapping. Nothing else is stated of it.
#[verifier::external_body]
pub(crate) fn str_to_uppercase(s: &str) -> (r: String)
    ensures
        r@ == uppercase(s@),
        all_ascii(s@) ==> r@ == ascii_upper(s@),
{
    s.to_uppercase()
}

pub fn lowercase_chars(v: &Vec<char>) -> (r: Vec<char>)
    ensures
        r@ == lower_text(v@),
{
    let s = string_of(v);
    let l = str_to_lowercase(s.as_str());
    chars_of(l.as_str())
}


pub proof fn lemma_find_char_from(s: Seq<char>, c: char, i: int)
    requires
        0 <= i,
    ensures
        find_char_from(s, c, i) matches Some(k) ==> i <= k < s.len() && s[k] == c && forall|j: int|
            i <= j < k ==> s[j] != c,
        find_char_from(s, c, i) is None ==> forall|j: int| i <= j < s.len() ==> s[j] != c,
    decreases s.len() - i,
{
    if i < s.len() && s[i] != c {
        lemma_find_char_from(s, c, i + 1);
    }
}

/// Whether `c` occurs in `v` (`str::contains` with a `char` pattern).
pub fn has_char(v: &Vec<char>, c: char) -> (b: bool)
    ensures
        b == contains(v@, seq![c]),
{
    proof {
        lemma_find_char_from(v@, c, 0);
    }
    match find_char_exec(v, c) {
        Some(i) => {
            assert(matches_at(v@, seq![c], i as int)) by {
                assert(v@.subrange(i as int, i + 1) =~= seq![c]);
            }
            true
        },
        None => {
            assert forall|t: int| !#[trigger] matches_at(v@, seq![c], t) by {
                if matches_at(v@, seq![c], t) {
                    assert(v@.subrange(t, t + 1)[0] == v@[t]);
                }
            }
            false
        },
    }
}

pub proof fn lemma_split_nonempty(s: Seq<char>, c: char)
    ensures
        split_char(s, c).len() > 0,
{
    lemma_split_from_nonempty(s, c, 0, 0);
}

proof fn lemma_split_from_nonempty(s: Seq<char>, c: char, start: int, i: int)
    ensures
        split_from(s, c, start, i).len() > 0,
    decreases s.len() - i,
{
    if i < s.len() {
        lemma_split_from_nonempty(s, c, if s[i] == c { i + 1 } else { start }, i + 1);
    }
}

} // verus!
