//! Text as sequences of characters: the views of `str` and `String`, and the
//! operations that reading `bluetoothctl` output needs (lines, trimming,
//! prefixes, substrings, splitting on a character, decimal numbers).
use vstd::prelude::*;

verus! {

// ---------------------------------------------------------------------------
// Conversions between strings and character vectors
// ---------------------------------------------------------------------------

/// `String::push`: the string afterwards is the old string with `c` appended.
#[verifier::external_body]
fn push_char(s: &mut String, c: char)
    ensures
        final(s)@ == old(s)@.push(c),
{
    s.push(c);
}

/// The characters of `s`, in order.
pub fn chars_of(s: &str) -> (v: Vec<char>)
    ensures
        v@ == s@,
{
    let mut v: Vec<char> = Vec::new();
    for c in it: s.chars()
        invariant
            v@ == it.seq().take(it.index() as int),
            it.seq() == s@,
    {
        v.push(c);
    }
    v
}

/// The string made of the characters of `v`, in order.
pub fn string_of(v: &[char]) -> (s: String)
    ensures
        s@ == v@,
{
    let mut s = String::new();
    let mut i: usize = 0;
    while i < v.len()
        invariant
            i <= v.len(),
            s@ == v@.take(i as int),
        decreases v.len() - i,
    {
        push_char(&mut s, v[i]);
        assert(v@.take(i as int).push(v@[i as int]) =~= v@.take(i + 1));
        i += 1;
    }
    assert(v@.take(v.len() as int) =~= v@);
    s
}

/// Appends the characters of `t` to `s`.
pub fn append_chars(s: &mut String, t: &[char])
    ensures
        final(s)@ == old(s)@ + t@,
{
    let mut i: usize = 0;
    while i < t.len()
        invariant
            i <= t.len(),
            s@ == old(s)@ + t@.take(i as int),
        decreases t.len() - i,
    {
        push_char(s, t[i]);
        assert(t@.take(i as int).push(t@[i as int]) =~= t@.take(i + 1));
        i += 1;
    }
    assert(t@.take(t.len() as int) =~= t@);
}

/// Appends the characters of `t` to `s`.
pub fn append_str(s: &mut String, t: &str)
    ensures
        final(s)@ == old(s)@ + t@,
{
    let v = chars_of(t);
    append_chars(s, v.as_slice());
}

/// The concatenation of `a` and `b` as a new string.
pub fn concat2(a: &str, b: &str) -> (s: String)
    ensures
        s@ == a@ + b@,
{
    let mut s = String::new();
    append_str(&mut s, a);
    append_str(&mut s, b);
    assert(s@ =~= a@ + b@);
    s
}

/// The views of a sequence of character vectors.
pub open spec fn char_vecs_view(v: Seq<Vec<char>>) -> Seq<Seq<char>> {
    v.map_values(|l: Vec<char>| l@)
}

/// The views of a sequence of strings.
pub open spec fn strings_view(v: Seq<String>) -> Seq<Seq<char>> {
    v.map_values(|l: String| l@)
}

// ---------------------------------------------------------------------------
// Whitespace and trimming (`char::is_whitespace`, `str::trim`)
// ---------------------------------------------------------------------------

/// Unicode `White_Space`, which is what `char::is_whitespace` tests.
pub open spec fn is_whitespace(c: char) -> bool {
    ||| c == '\t'
    ||| c == '\n'
    ||| c == '\u{0B}'
    ||| c == '\u{0C}'
    ||| c == '\r'
    ||| c == ' '
    ||| c == '\u{85}'
    ||| c == '\u{A0}'
    ||| c == '\u{1680}'
    ||| ('\u{2000}' as u32 <= c as u32 && c as u32 <= '\u{200A}' as u32)
    ||| c == '\u{2028}'
    ||| c == '\u{2029}'
    ||| c == '\u{202F}'
    ||| c == '\u{205F}'
    ||| c == '\u{3000}'
}

/// `s` without its leading whitespace.
pub open spec fn trim_start(s: Seq<char>) -> Seq<char>
    decreases s.len(),
{
    if s.len() > 0 && is_whitespace(s[0]) {
        trim_start(s.drop_first())
    } else {
        s
    }
}

/// `s` without its trailing whitespace.
pub open spec fn trim_end(s: Seq<char>) -> Seq<char>
    decreases s.len(),
{
    if s.len() > 0 && is_whitespace(s.last()) {
        trim_end(s.drop_last())
    } else {
        s
    }
}

/// `s` without leading and trailing whitespace.
pub open spec fn trim(s: Seq<char>) -> Seq<char> {
    trim_end(trim_start(s))
}

/// Whether `c` is whitespace.
pub fn char_is_whitespace(c: char) -> (r: bool)
    ensures
        r == is_whitespace(c),
{
    let u = c as u32;
    c == '\t' || c == '\n' || c == '\u{0B}' || c == '\u{0C}' || c == '\r' || c == ' '
        || c == '\u{85}' || c == '\u{A0}' || c == '\u{1680}' || (0x2000u32 <= u && u <= 0x200Au32)
        || c == '\u{2028}' || c == '\u{2029}' || c == '\u{202F}' || c == '\u{205F}'
        || c == '\u{3000}'
}

/// `v` without leading and trailing whitespace.
pub fn trim_chars(v: &[char]) -> (r: Vec<char>)
    ensures
        r@ == trim(v@),
{
    let n = v.len();
    let mut a: usize = 0;
    assert(v@.skip(0) =~= v@);
    while a < n && char_is_whitespace(v[a])
        invariant
            a <= n,
            n == v@.len(),
            trim_start(v@.skip(a as int)) == trim_start(v@),
        decreases n - a,
    {
        assert(v@.skip(a as int).drop_first() =~= v@.skip(a + 1));
        a += 1;
    }
    assert(trim_start(v@) == v@.skip(a as int));
    let mut b: usize = n;
    while b > a && char_is_whitespace(v[b - 1])
        invariant
            a <= b <= n,
            n == v@.len(),
            trim_end(v@.subrange(a as int, b as int)) == trim_end(v@.skip(a as int)),
        decreases b,
    {
        assert(v@.subrange(a as int, b as int).drop_last() =~= v@.subrange(a as int, b - 1));
        b -= 1;
    }
    assert(v@.subrange(a as int, n as int) =~= v@.skip(a as int));
    let mut r: Vec<char> = Vec::new();
    let mut i: usize = a;
    while i < b
        invariant
            a <= i <= b <= n,
            n == v@.len(),
            r@ == v@.subrange(a as int, i as int),
        decreases b - i,
    {
        r.push(v[i]);
        assert(v@.subrange(a as int, i as int).push(v@[i as int]) =~= v@.subrange(
            a as int,
            i + 1,
        ));
        i += 1;
    }
    r
}

/// `s` without leading and trailing whitespace, as a string.
pub fn trim_str(s: &str) -> (r: String)
    ensures
        r@ == trim(s@),
{
    let v = chars_of(s);
    let t = trim_chars(v.as_slice());
    string_of(t.as_slice())
}

// ---------------------------------------------------------------------------
// Prefixes and substrings (`str::starts_with`, `str::contains`)
// ---------------------------------------------------------------------------

/// `s` begins with `p`.
pub open spec fn starts_with(s: Seq<char>, p: Seq<char>) -> bool {
    p.len() <= s.len() && s.take(p.len() as int) == p
}

/// `n` occurs in `h` starting at position `i`.
pub open spec fn occurs_at(h: Seq<char>, n: Seq<char>, i: int) -> bool {
    0 <= i && i + n.len() <= h.len() && h.subrange(i, i + n.len()) == n
}

/// `n` occurs somewhere in `h`.
pub open spec fn contains(h: Seq<char>, n: Seq<char>) -> bool {
    exists|i: int| occurs_at(h, n, i)
}

/// Whether `n` occurs in `h` at position `i`.
fn matches_at(h: &[char], n: &[char], i: usize) -> (r: bool)
    requires
        i + n@.len() <= h@.len(),
    ensures
        r == (h@.subrange(i as int, i + n@.len()) == n@),
{
    let m = n.len();
    let hl = h.len();
    let mut k: usize = 0;
    while k < m
        invariant
            k <= m,
            m == n@.len(),
            hl == h@.len(),
            i + m <= h@.len(),
            forall|j: int| 0 <= j < k ==> h@[i + j] == n@[j],
        decreases m - k,
    {
        assert(i + k < h@.len());
        if h[i + k] != n[k] {
            assert(h@.subrange(i as int, i + m)[k as int] != n@[k as int]);
            return false;
        }
        k += 1;
    }
    assert(h@.subrange(i as int, i + m) =~= n@);
    true
}

/// Whether `p` is a prefix of `s`.
pub fn chars_start_with(s: &[char], p: &[char]) -> (r: bool)
    ensures
        r == starts_with(s@, p@),
{
    if p.len() > s.len() {
        return false;
    }
    let r = matches_at(s, p, 0);
    assert(s@.subrange(0, p@.len() as int) =~= s@.take(p@.len() as int));
    r
}

/// Whether `n` occurs somewhere in `h`.
pub fn chars_contain(h: &[char], n: &[char]) -> (r: bool)
    ensures
        r == contains(h@, n@),
{
    if n.len() > h.len() {
        return false;
    }
    let last = h.len() - n.len();
    let mut i: usize = 0;
    loop
        invariant
            i <= last,
            last + n@.len() == h@.len(),
            forall|j: int| 0 <= j < i ==> !occurs_at(h@, n@, j),
        decreases last - i,
    {
        if matches_at(h, n, i) {
            assert(occurs_at(h@, n@, i as int));
            return true;
        }
        if i == last {
            assert(!occurs_at(h@, n@, i as int));
            return false;
        }
        i += 1;
    }
}

/// Whether `n` occurs somewhere in `h`.
pub fn str_contains(h: &str, n: &str) -> (r: bool)
    ensures
        r == contains(h@, n@),
{
    let hv = chars_of(h);
    let nv = chars_of(n);
    chars_contain(hv.as_slice(), nv.as_slice())
}

// ---------------------------------------------------------------------------
// Splitting on a character (`str::split_once`, `str::splitn`)
// ---------------------------------------------------------------------------

/// `i` is the position of the first `c` in `s`.
pub open spec fn is_first_index(s: Seq<char>, c: char, i: int) -> bool {
    0 <= i < s.len() && s[i] == c && forall|j: int| 0 <= j < i ==> s[j] != c
}

/// `s` holds `c` somewhere.
pub open spec fn has_char(s: Seq<char>, c: char) -> bool {
    exists|i: int| 0 <= i < s.len() && s[i] == c
}

/// The text before and after the first `c` in `s`, if there is one.
pub open spec fn split_once(s: Seq<char>, c: char) -> Option<(Seq<char>, Seq<char>)> {
    if exists|i: int| is_first_index(s, c, i) {
        let i = choose|i: int| is_first_index(s, c, i);
        Some((s.take(i), s.skip(i + 1)))
    } else {
        None
    }
}

/// What `s.splitn(3, ' ')` yields: `s` cut at its first two spaces at most.
pub open spec fn splitn3_space(s: Seq<char>) -> Seq<Seq<char>> {
    match split_once(s, ' ') {
        None => seq![s],
        Some((a, rest)) => match split_once(rest, ' ') {
            None => seq![a, rest],
            Some((b, c)) => seq![a, b, c],
        },
    }
}

/// A character that occurs in `s` occurs a first time.
pub proof fn lemma_first_index_exists(s: Seq<char>, c: char, k: int)
    requires
        0 <= k < s.len(),
        s[k] == c,
    ensures
        exists|i: int| is_first_index(s, c, i),
    decreases k,
{
    if exists|j: int| 0 <= j < k && s[j] == c {
        let j = choose|j: int| 0 <= j < k && s[j] == c;
        lemma_first_index_exists(s, c, j);
    } else {
        assert(is_first_index(s, c, k));
    }
}

/// `split_once` cuts at the first occurrence: whatever it returns, joined
/// again with `c`, gives `s` back, and the part before holds no `c`.
pub proof fn lemma_split_once(s: Seq<char>, c: char)
    ensures
        split_once(s, c) is None <==> !has_char(s, c),
        split_once(s, c) matches Some((a, b)) ==> s == a + seq![c] + b && !has_char(a, c),
{
    if has_char(s, c) {
        let k = choose|k: int| 0 <= k < s.len() && s[k] == c;
        lemma_first_index_exists(s, c, k);
        let i = choose|i: int| is_first_index(s, c, i);
        assert(s =~= s.take(i) + seq![c] + s.skip(i + 1));
    }
}

/// The position of the first `c` in `s`, if any.
fn find_char(s: &[char], c: char) -> (r: Option<usize>)
    ensures
        r matches Some(i) ==> is_first_index(s@, c, i as int),
        r is None ==> !has_char(s@, c),
{
    let mut i: usize = 0;
    while i < s.len()
        invariant
            i <= s@.len(),
            forall|j: int| 0 <= j < i ==> s@[j] != c,
        decreases s.len() - i,
    {
        if s[i] == c {
            return Some(i);
        }
        i += 1;
    }
    None
}

/// The characters of `s` from `a` up to `b`.
pub fn sub_chars(s: &[char], a: usize, b: usize) -> (r: Vec<char>)
    requires
        a <= b <= s@.len(),
    ensures
        r@ == s@.subrange(a as int, b as int),
{
    let mut r: Vec<char> = Vec::new();
    let mut i: usize = a;
    while i < b
        invariant
            a <= i <= b <= s@.len(),
            r@ == s@.subrange(a as int, i as int),
        decreases b - i,
    {
        r.push(s[i]);
        assert(s@.subrange(a as int, i as int).push(s@[i as int]) =~= s@.subrange(
            a as int,
            i + 1,
        ));
        i += 1;
    }
    r
}

/// `s` cut at its first `c`, if it holds one.
pub fn split_once_chars(s: &[char], c: char) -> (r: Option<(Vec<char>, Vec<char>)>)
    ensures
        r matches Some((a, b)) ==> split_once(s@, c) == Some((a@, b@)),
        r is None ==> split_once(s@, c) is None,
{
    match find_char(s, c) {
        Some(i) => {
            let n = s.len();
            let a = sub_chars(s, 0, i);
            let b = sub_chars(s, i + 1, n);
            proof {
                assert(is_first_index(s@, c, i as int));
                let k = choose|k: int| is_first_index(s@, c, k);
                assert(k == i as int) by {
                    if k < i {
                        assert(s@[k] != c);
                    } else if k > i {
                        assert(s@[i as int] != c);
                    }
                }
                assert(a@ =~= s@.take(i as int));
                assert(b@ =~= s@.skip(i + 1));
            }
            Some((a, b))
        },
        None => {
            proof {
                if exists|i: int| is_first_index(s@, c, i) {
                    let i = choose|i: int| is_first_index(s@, c, i);
                    assert(s@[i] == c);
                }
            }
            None
        },
    }
}

/// `s.splitn(3, ' ')`, as character vectors.
pub fn splitn3_space_chars(s: &[char]) -> (r: Vec<Vec<char>>)
    ensures
        char_vecs_view(r@) == splitn3_space(s@),
{
    match split_once_chars(s, ' ') {
        None => {
            let mut r: Vec<Vec<char>> = Vec::new();
            r.push(sub_chars(s, 0, s.len()));
            assert(s@.subrange(0, s@.len() as int) =~= s@);
            assert(char_vecs_view(r@) =~= seq![s@]);
            r
        },
        Some((a, rest)) => {
            match split_once_chars(rest.as_slice(), ' ') {
                None => {
                    let mut r: Vec<Vec<char>> = Vec::new();
                    r.push(a);
                    r.push(rest);
                    assert(char_vecs_view(r@) =~= splitn3_space(s@));
                    r
                },
                Some((b, c)) => {
                    let mut r: Vec<Vec<char>> = Vec::new();
                    r.push(a);
                    r.push(b);
                    r.push(c);
                    assert(char_vecs_view(r@) =~= splitn3_space(s@));
                    r
                },
            }
        },
    }
}

// ---------------------------------------------------------------------------
// Lines (`str::lines`)
// ---------------------------------------------------------------------------

/// A line ended by `"\r\n"` loses its `'\r'` along with the `'\n'`.
pub open spec fn strip_cr(l: Seq<char>) -> Seq<char> {
    if l.len() > 0 && l.last() == '\r' {
        l.drop_last()
    } else {
        l
    }
}

/// Reading `s` from the left: the lines ended so far, and the line begun.
pub open spec fn line_scan(s: Seq<char>) -> (Seq<Seq<char>>, Seq<char>)
    decreases s.len(),
{
    if s.len() == 0 {
        (Seq::empty(), Seq::empty())
    } else {
        let (done, cur) = line_scan(s.drop_last());
        if s.last() == '\n' {
            (done.push(strip_cr(cur)), Seq::empty())
        } else {
            (done, cur.push(s.last()))
        }
    }
}

/// What `s.lines()` yields: the text cut at each `'\n'` (and a `'\r'` just
/// before it), with no empty line after a final `'\n'`; no lines for `""`.
pub open spec fn lines(s: Seq<char>) -> Seq<Seq<char>> {
    let (done, cur) = line_scan(s);
    if cur.len() == 0 {
        done
    } else {
        done.push(cur)
    }
}

/// The lines of `text`, as character vectors.
pub fn lines_of(text: &[char]) -> (r: Vec<Vec<char>>)
    ensures
        char_vecs_view(r@) == lines(text@),
{
    let mut done: Vec<Vec<char>> = Vec::new();
    let mut cur: Vec<char> = Vec::new();
    let mut i: usize = 0;
    while i < text.len()
        invariant
            i <= text@.len(),
            char_vecs_view(done@) == line_scan(text@.take(i as int)).0,
            cur@ == line_scan(text@.take(i as int)).1,
        decreases text.len() - i,
    {
        let c = text[i];
        assert(text@.take(i + 1).drop_last() =~= text@.take(i as int));
        if c == '\n' {
            let mut line = cur;
            let n = line.len();
            if n > 0 && line[n - 1] == '\r' {
                line.pop();
            }
            assert(line@ == strip_cr(line_scan(text@.take(i as int)).1));
            let ghost before = done@;
            done.push(line);
            assert(char_vecs_view(done@) =~= char_vecs_view(before).push(line@));
            cur = Vec::new();
        } else {
            cur.push(c);
        }
        i += 1;
    }
    assert(text@.take(text@.len() as int) =~= text@);
    if cur.len() > 0 {
        let ghost before = done@;
        done.push(cur);
        assert(char_vecs_view(done@) =~= char_vecs_view(before).push(cur@));
    }
    done
}

// ---------------------------------------------------------------------------
// Unsigned decimal numbers (`str::parse::<usize>`)
// ---------------------------------------------------------------------------

/// `c` is one of `'0'` to `'9'` (`char::to_digit(10)` is `Some`).
pub open spec fn is_digit(c: char) -> bool {
    '0' as u32 <= c as u32 && c as u32 <= '9' as u32
}

/// The value of the decimal digit `c`.
pub open spec fn digit_value(c: char) -> nat {
    (c as u32 - '0' as u32) as nat
}

/// Every character of `s` is a decimal digit.
pub open spec fn all_digits(s: Seq<char>) -> bool {
    forall|i: int| 0 <= i < s.len() ==> is_digit(#[trigger] s[i])
}

/// The number that the decimal digits `s` write.
pub open spec fn decimal_value(s: Seq<char>) -> nat
    decreases s.len(),
{
    if s.len() == 0 {
        0
    } else {
        decimal_value(s.drop_last()) * 10 + digit_value(s.last())
    }
}

/// `s` without one leading `'+'`, if it has one.
pub open spec fn unsigned_digits(s: Seq<char>) -> Seq<char> {
    if s.len() > 0 && s[0] == '+' {
        s.drop_first()
    } else {
        s
    }
}

/// What `s.parse::<usize>()` gives: an optional `'+'`, then at least one
/// decimal digit and nothing else, for a number no larger than `usize::MAX`.
pub open spec fn parse_usize(s: Seq<char>) -> Option<usize> {
    let d = unsigned_digits(s);
    if d.len() > 0 && all_digits(d) && decimal_value(d) <= usize::MAX {
        Some(decimal_value(d) as usize)
    } else {
        None
    }
}

/// A longer run of digits never writes a smaller number.
pub proof fn lemma_decimal_value_grows(s: Seq<char>, i: int)
    requires
        0 <= i <= s.len(),
    ensures
        decimal_value(s.take(i)) <= decimal_value(s),
    decreases s.len() - i,
{
    if i < s.len() {
        lemma_decimal_value_grows(s, i + 1);
        assert(s.take(i + 1).drop_last() =~= s.take(i));
    } else {
        assert(s.take(i) =~= s);
    }
}

/// The value of the decimal digit `c`, for a digit.
pub fn char_digit(c: char) -> (r: Option<usize>)
    ensures
        r matches Some(d) ==> is_digit(c) && d == digit_value(c) && d < 10,
        r is None ==> !is_digit(c),
{
    let u = c as u32;
    if 48u32 <= u && u <= 57u32 {
        Some((u - 48u32) as usize)
    } else {
        None
    }
}

/// `s.parse::<usize>()`, with `None` for every error.
pub fn parse_usize_chars(s: &[char]) -> (r: Option<usize>)
    ensures
        r == parse_usize(s@),
{
    let n = s.len();
    let start: usize = if n > 0 && s[0] == '+' {
        1
    } else {
        0
    };
    let ghost d = s@.skip(start as int);
    assert(d =~= unsigned_digits(s@));
    if start == n {
        return None;
    }
    let mut value: usize = 0;
    let mut i: usize = start;
    while i < n
        invariant
            start <= i <= n,
            n == s@.len(),
            d == s@.skip(start as int),
            d == unsigned_digits(s@),
            all_digits(d.take(i - start)),
            value == decimal_value(d.take(i - start)),
        decreases n - i,
    {
        assert(d.take(i - start + 1).drop_last() =~= d.take(i - start));
        match char_digit(s[i]) {
            None => {
                assert(d[i - start] == s@[i as int]);
                return None;
            },
            Some(dv) => {
                assert(d[i - start] == s@[i as int]);
                match value.checked_mul(10) {
                    None => {
                        proof {
                            lemma_decimal_value_grows(d, i - start + 1);
                        }
                        return None;
                    },
                    Some(v10) => match v10.checked_add(dv) {
                        None => {
                            proof {
                                lemma_decimal_value_grows(d, i - start + 1);
                            }
                            return None;
                        },
                        Some(v) => {
                            value = v;
                        },
                    },
                }
            },
        }
        i += 1;
    }
    assert(d.take(n - start) =~= d);
    Some(value)
}

/// `s.parse::<usize>()`, with `None` for every error.
pub fn parse_usize_str(s: &str) -> (r: Option<usize>)
    ensures
        r == parse_usize(s@),
{
    let v = chars_of(s);
    parse_usize_chars(v.as_slice())
}


// ---------------------------------------------------------------------------
// Laws
// ---------------------------------------------------------------------------

/// Reading `s` from the left leaves no `'\n'` in the lines ended so far nor
/// in the line begun.
proof fn lemma_line_scan_no_newline(s: Seq<char>)
    ensures
        forall|i: int|
            0 <= i < line_scan(s).0.len() ==> !has_char(#[trigger] line_scan(s).0[i], '\n'),
        !has_char(line_scan(s).1, '\n'),
    decreases s.len(),
{
    if s.len() > 0 {
        lemma_line_scan_no_newline(s.drop_last());
        let (done, cur) = line_scan(s.drop_last());
        if s.last() == '\n' {
            let l = strip_cr(cur);
            assert(!has_char(l, '\n')) by {
                if has_char(l, '\n') {
                    let k = choose|k: int| 0 <= k < l.len() && l[k] == '\n';
                    assert(cur[k] == '\n');
                }
            }
            assert forall|i: int| 0 <= i < line_scan(s).0.len() implies !has_char(
                #[trigger] line_scan(s).0[i],
                '\n',
            ) by {
                if i < done.len() {
                    assert(line_scan(s).0[i] == done[i]);
                }
            }
            assert(line_scan(s).1 =~= Seq::<char>::empty());
        } else {
            assert(!has_char(cur.push(s.last()), '\n')) by {
                if has_char(cur.push(s.last()), '\n') {
                    let k = choose|k: int| 0 <= k < cur.len() + 1 && cur.push(s.last())[k] == '\n';
                    if k < cur.len() {
                        assert(cur[k] == '\n');
                    }
                }
            }
        }
    }
}

/// No line of a text holds a line break.
pub proof fn law_lines_have_no_newline(s: Seq<char>)
    ensures
        forall|i: int| 0 <= i < lines(s).len() ==> !has_char(#[trigger] lines(s)[i], '\n'),
{
    lemma_line_scan_no_newline(s);
    let (done, cur) = line_scan(s);
    assert forall|i: int| 0 <= i < lines(s).len() implies !has_char(#[trigger] lines(s)[i], '\n') by {
        if i < done.len() {
            assert(lines(s)[i] == done[i]);
        }
    }
}

/// `trim_start` leaves text that is empty or begins with non-whitespace,
/// and a suffix of what it was given.
proof fn lemma_trim_start(s: Seq<char>)
    ensures
        trim_start(s).len() == 0 || !is_whitespace(trim_start(s)[0]),
        trim_start(s).len() <= s.len(),
        trim_start(s) == s.skip(s.len() - trim_start(s).len()),
        forall|i: int| 0 <= i < s.len() - trim_start(s).len() ==> is_whitespace(#[trigger] s[i]),
    decreases s.len(),
{
    if s.len() > 0 && is_whitespace(s[0]) {
        lemma_trim_start(s.drop_first());
        let t = trim_start(s.drop_first());
        assert(s.drop_first().skip(s.drop_first().len() - t.len()) =~= s.skip(s.len() - t.len()));
        assert forall|i: int| 0 <= i < s.len() - t.len() implies is_whitespace(#[trigger] s[i]) by {
            if i > 0 {
                assert(s[i] == s.drop_first()[i - 1]);
            }
        }
    } else {
        assert(s.skip(0) =~= s);
    }
}

/// `trim_end` leaves text that is empty or ends with non-whitespace, and a
/// prefix of what it was given.
proof fn lemma_trim_end(s: Seq<char>)
    ensures
        trim_end(s).len() == 0 || !is_whitespace(trim_end(s).last()),
        trim_end(s).len() <= s.len(),
        trim_end(s) == s.take(trim_end(s).len() as int),
        forall|i: int| trim_end(s).len() <= i < s.len() ==> is_whitespace(#[trigger] s[i]),
    decreases s.len(),
{
    if s.len() > 0 && is_whitespace(s.last()) {
        lemma_trim_end(s.drop_last());
        let t = trim_end(s.drop_last());
        assert(s.drop_last().take(t.len() as int) =~= s.take(t.len() as int));
        assert forall|i: int| t.len() <= i < s.len() implies is_whitespace(#[trigger] s[i]) by {
            if i < s.len() - 1 {
                assert(s[i] == s.drop_last()[i]);
            }
        }
    } else {
        assert(s.take(s.len() as int) =~= s);
    }
}

/// Trimmed text begins and ends with non-whitespace, and trimming it again
/// changes nothing.
pub proof fn law_trim_idempotent(s: Seq<char>)
    ensures
        trim(trim(s)) == trim(s),
        trim(s).len() == 0 || (!is_whitespace(trim(s)[0]) && !is_whitespace(trim(s).last())),
{
    let y = trim_start(s);
    lemma_trim_start(s);
    let t = trim_end(y);
    lemma_trim_end(y);
    if t.len() > 0 {
        assert(t[0] == y[0]);
        assert(trim_start(t) == t);
    } else {
        assert(trim_start(t) == t);
    }
    lemma_trim_end(t);
    if t.len() > 0 {
        assert(trim_end(t) == t);
    } else {
        assert(trim_end(t) == t);
    }
}

/// An occurrence of `m` inside an occurrence of `n` inside `h` is an
/// occurrence of `m` in `h`.
pub proof fn lemma_contains_trans(h: Seq<char>, n: Seq<char>, m: Seq<char>)
    requires
        contains(h, n),
        contains(n, m),
    ensures
        contains(h, m),
{
    let i = choose|i: int| occurs_at(h, n, i);
    let j = choose|j: int| occurs_at(n, m, j);
    assert(h.subrange(i + j, i + j + m.len()) =~= n.subrange(j, j + m.len()));
    assert(occurs_at(h, m, i + j));
}


/// Trimming removes whitespace only, from both ends: the trimmed text is a
/// contiguous piece of the text with only whitespace before and after it.
pub proof fn law_trim_removes_only_whitespace(s: Seq<char>)
    ensures
        exists|a: int, b: int|
            #![trigger s.subrange(a, b)]
            0 <= a <= b <= s.len() && trim(s) == s.subrange(a, b) && (forall|i: int|
                0 <= i < a ==> is_whitespace(#[trigger] s[i])) && (forall|i: int|
                b <= i < s.len() ==> is_whitespace(#[trigger] s[i])),
{
    let y = trim_start(s);
    lemma_trim_start(s);
    lemma_trim_end(y);
    let a = s.len() - y.len();
    let b = a + trim_end(y).len();
    assert(trim(s) =~= s.subrange(a, b));
    assert forall|i: int| b <= i < s.len() implies is_whitespace(#[trigger] s[i]) by {
        assert(s[i] == y[i - a]);
    }
}

/// `n` occurs in `h` exactly when `h` is some text, then `n`, then some text.
pub proof fn law_contains_is_infix(h: Seq<char>, n: Seq<char>)
    ensures
        contains(h, n) <==> exists|p: Seq<char>, q: Seq<char>| #[trigger] (p + n + q) == h,
{
    if contains(h, n) {
        let i = choose|i: int| occurs_at(h, n, i);
        let p = h.take(i);
        let q = h.skip(i + n.len());
        assert(p + n + q =~= h);
    }
    if exists|p: Seq<char>, q: Seq<char>| #[trigger] (p + n + q) == h {
        let (p, q) = choose|p: Seq<char>, q: Seq<char>| #[trigger] (p + n + q) == h;
        assert(h.subrange(p.len() as int, (p.len() + n.len()) as int) =~= n);
        assert(occurs_at(h, n, p.len() as int));
    }
}


/// Reading text that holds no `'\n'` ends no line and keeps it all begun.
proof fn lemma_line_scan_no_break(l: Seq<char>)
    requires
        !has_char(l, '\n'),
    ensures
        line_scan(l) == (Seq::<Seq<char>>::empty(), l),
    decreases l.len(),
{
    if l.len() > 0 {
        assert(!has_char(l.drop_last(), '\n')) by {
            if has_char(l.drop_last(), '\n') {
                let k = choose|k: int| 0 <= k < l.drop_last().len() && l.drop_last()[k] == '\n';
                assert(l[k] == '\n');
            }
        }
        lemma_line_scan_no_break(l.drop_last());
        assert(l[l.len() - 1] != '\n');
        assert(l.drop_last().push(l.last()) =~= l);
    }
}

/// After text whose reading ends a line, reading goes on as from scratch.
proof fn lemma_line_scan_append(p: Seq<char>, q: Seq<char>)
    requires
        line_scan(p).1.len() == 0,
    ensures
        line_scan(p + q) == (line_scan(p).0 + line_scan(q).0, line_scan(q).1),
    decreases q.len(),
{
    if q.len() == 0 {
        assert(p + q =~= p);
        assert(line_scan(p).0 + line_scan(q).0 =~= line_scan(p).0);
        assert(line_scan(p).1 =~= Seq::<char>::empty());
    } else {
        lemma_line_scan_append(p, q.drop_last());
        assert((p + q).drop_last() =~= p + q.drop_last());
        assert((p + q).last() == q.last());
        let (d, c) = line_scan(q.drop_last());
        if q.last() == '\n' {
            assert(line_scan(p).0 + d.push(strip_cr(c)) =~= (line_scan(p).0 + d).push(strip_cr(c)));
        }
    }
}

/// The lines of a text are determined from the left: a text without a line
/// break is one line (none if empty), and a text that has one is its first
/// line (without a `'\r'` just before the break) followed by the lines of
/// the rest.
pub proof fn law_lines_from_the_left(l: Seq<char>, rest: Seq<char>)
    requires
        !has_char(l, '\n'),
    ensures
        lines(l) == (if l.len() == 0 {
            Seq::<Seq<char>>::empty()
        } else {
            seq![l]
        }),
        lines(l + seq!['\n'] + rest) == seq![strip_cr(l)] + lines(rest),
        strip_cr(l) == (if l.len() > 0 && l[l.len() - 1] == '\r' {
            l.take(l.len() - 1)
        } else {
            l
        }),
{
    assert(l.drop_last() =~= l.take(l.len() - 1));
    lemma_line_scan_no_break(l);
    let first = l + seq!['\n'];
    assert(first.drop_last() =~= l);
    assert(line_scan(first) == (seq![strip_cr(l)], Seq::<char>::empty()));
    lemma_line_scan_append(first, rest);
    let (d, c) = line_scan(rest);
    if c.len() == 0 {
        assert(lines(first + rest) =~= seq![strip_cr(l)] + lines(rest));
    } else {
        assert(lines(first + rest) =~= seq![strip_cr(l)] + lines(rest));
    }
}

/// `splitn3_space` cuts at the first spaces only: its parts joined with
/// single spaces give the text back, every part but the last holds no
/// space, and the last holds one only when there are three parts.
pub proof fn law_splitn3_space(s: Seq<char>)
    ensures
        1 <= splitn3_space(s).len() <= 3,
        splitn3_space(s).len() == 1 ==> s == splitn3_space(s)[0],
        splitn3_space(s).len() == 2 ==> s == splitn3_space(s)[0] + seq![' '] + splitn3_space(
            s,
        )[1],
        splitn3_space(s).len() == 3 ==> s == splitn3_space(s)[0] + seq![' '] + splitn3_space(
            s,
        )[1] + seq![' '] + splitn3_space(s)[2],
        forall|i: int|
            0 <= i < splitn3_space(s).len() - 1 ==> !has_char(#[trigger] splitn3_space(s)[i], ' '),
        splitn3_space(s).len() < 3 ==> !has_char(splitn3_space(s).last(), ' '),
{
    lemma_split_once(s, ' ');
    if let Some((a, rest)) = split_once(s, ' ') {
        lemma_split_once(rest, ' ');
        if let Some((b, c)) = split_once(rest, ' ') {
            assert(s =~= a + seq![' '] + b + seq![' '] + c);
        }
    }
}

/// Reading digits one at a time: a single digit reads as its value, a
/// further digit multiplies what was read by ten and adds its value (while
/// that fits), one leading `'+'` changes nothing, and anything that is not
/// an optional `'+'` and digits does not read.
pub proof fn law_parse_usize_steps(s: Seq<char>, c: char)
    ensures
        is_digit(c) ==> parse_usize(seq![c]) == Some(digit_value(c) as usize),
        is_digit(c) && s.len() > 0 && parse_usize(s) is Some && parse_usize(s)->Some_0 * 10
            + digit_value(c) <= usize::MAX ==> parse_usize(s.push(c)) == Some(
            (parse_usize(s)->Some_0 * 10 + digit_value(c)) as usize,
        ),
        !is_digit(c) && c != '+' ==> parse_usize(seq![c] + s) is None && parse_usize(s.push(c)) is None,
        s.len() > 0 && s[0] != '+' ==> parse_usize(seq!['+'] + s) == parse_usize(s),
        parse_usize(Seq::empty()) is None && parse_usize(seq!['+']) is None,
        is_digit(c) && s.len() > 0 && parse_usize(s) is Some && parse_usize(s)->Some_0 * 10
            + digit_value(c) > usize::MAX ==> parse_usize(s.push(c)) is None,
        s.len() > 0 && s != seq!['+'] && parse_usize(s) is None ==> parse_usize(s.push(c)) is None,
{
    assert(seq![c].drop_last() =~= Seq::<char>::empty());
    if s.len() > 0 {
        let d = unsigned_digits(s);
        assert(unsigned_digits(s.push(c)) =~= d.push(c)) by {
            if s[0] == '+' {
                assert(s.push(c).drop_first() =~= s.drop_first().push(c));
            }
        }
        assert(d.push(c).drop_last() =~= d);
        if s != seq!['+'] {
            assert(d.len() > 0) by {
                if s[0] == '+' && s.len() == 1 {
                    assert(s =~= seq!['+']);
                }
            }
        }
        if !all_digits(d) {
            let k = choose|k: int| 0 <= k < d.len() && !is_digit(#[trigger] d[k]);
            assert(d.push(c)[k] == d[k]);
        }
    }
    assert((seq!['+'] + s).drop_first() =~= s);
    assert(seq!['+'].drop_first() =~= Seq::<char>::empty());
    if is_digit(c) && s.len() > 0 && parse_usize(s) is Some {
        let d = unsigned_digits(s);
        assert(unsigned_digits(s.push(c)) =~= d.push(c)) by {
            if s[0] == '+' {
                assert(s.push(c).drop_first() =~= s.drop_first().push(c));
            }
        }
        assert(d.push(c).drop_last() =~= d);
        assert(all_digits(d.push(c))) by {
            assert forall|i: int| 0 <= i < d.push(c).len() implies is_digit(#[trigger] d.push(c)[i]) by {
                if i < d.len() {
                    assert(d.push(c)[i] == d[i]);
                }
            }
        }
    }
    if !is_digit(c) && c != '+' {
        assert(unsigned_digits(seq![c] + s) =~= seq![c] + s);
        assert((seq![c] + s)[0] == c);
        let t = s.push(c);
        let d = unsigned_digits(t);
        assert(d.len() > 0 ==> d[d.len() - 1] == c) by {
            if t[0] == '+' {
                assert(t.drop_first()[t.len() - 2] == t[t.len() - 1]);
            }
        }
    }
}


/// Where `s` is `x`, then `c`, then `y`, with no `c` in `x`, `split_once`
/// cuts exactly there.
pub proof fn law_split_once_unique(s: Seq<char>, c: char, x: Seq<char>, y: Seq<char>)
    requires
        s == x + seq![c] + y,
        !has_char(x, c),
    ensures
        split_once(s, c) == Some((x, y)),
{
    assert(s[x.len() as int] == c);
    lemma_split_once(s, c);
    let (a, b) = split_once(s, c)->Some_0;
    if a.len() < x.len() {
        assert(s[a.len() as int] == c);
        assert(x[a.len() as int] == c);
    } else if a.len() > x.len() {
        assert(a[x.len() as int] == c);
    }
    assert(a =~= x);
    assert(b =~= y);
}


/// The whitespace characters are exactly those with the Unicode
/// `White_Space` property: tab, line feed, vertical tab, form feed,
/// carriage return, space, next line, no-break space, ogham space mark, the
/// spaces from en quad to hair space, line separator, paragraph separator,
/// narrow no-break space, medium mathematical space and ideographic space.
pub proof fn law_whitespace_is_white_space(c: char)
    ensures
        is_whitespace(c) <==> ((9 <= c as u32 && c as u32 <= 13) || c as u32 == 32 || c as u32
            == 0x85 || c as u32 == 0xA0 || c as u32 == 0x1680 || (0x2000 <= c as u32 && c as u32
            <= 0x200A) || c as u32 == 0x2028 || c as u32 == 0x2029 || c as u32 == 0x202F || c as u32
            == 0x205F || c as u32 == 0x3000),
{
}

} // verus!
