//! Character-level text utilities: whitespace tokenizing, joining,
//! searching, and the std conversions the parsers rely on.

use vstd::prelude::*;

verus! {

/// The characters with the Unicode `White_Space` property, which is what
/// `char::is_whitespace` (and therefore `str::split_whitespace`) uses.
pub open spec fn is_ws(c: char) -> bool {
    ||| ('\u{9}' <= c && c <= '\u{d}')
    ||| c == ' '
    ||| c == '\u{85}'
    ||| c == '\u{a0}'
    ||| c == '\u{1680}'
    ||| ('\u{2000}' <= c && c <= '\u{200a}')
    ||| c == '\u{2028}'
    ||| c == '\u{2029}'
    ||| c == '\u{202f}'
    ||| c == '\u{205f}'
    ||| c == '\u{3000}'
}

/// Whether `c` is a Unicode whitespace character.
pub fn is_whitespace(c: char) -> (r: bool)
    ensures
        r == is_ws(c),
{
    ('\u{9}' <= c && c <= '\u{d}') || c == ' ' || c == '\u{85}' || c == '\u{a0}' || c == '\u{1680}'
        || ('\u{2000}' <= c && c <= '\u{200a}') || c == '\u{2028}' || c == '\u{2029}'
        || c == '\u{202f}' || c == '\u{205f}' || c == '\u{3000}'
}


/// The whitespace-separated tokens of `s`, in order, as `str::split_whitespace`
/// yields them: the maximal runs of non-whitespace characters.
pub open spec fn ws_split(s: Seq<char>) -> Seq<Seq<char>>
    decreases s.len(),
{
    if s.len() == 0 {
        seq![]
    } else {
        let prev = ws_split(s.drop_last());
        let c = s.last();
        if is_ws(c) {
            prev
        } else if s.len() > 1 && !is_ws(s[s.len() - 2]) {
            prev.update(prev.len() - 1, prev.last().push(c))
        } else {
            prev.push(seq![c])
        }
    }
}

/// `parts` concatenated with `sep` between consecutive parts.
pub open spec fn join_with(parts: Seq<Seq<char>>, sep: Seq<char>) -> Seq<char>
    decreases parts.len(),
{
    if parts.len() == 0 {
        seq![]
    } else if parts.len() == 1 {
        parts[0]
    } else {
        join_with(parts.drop_last(), sep) + sep + parts.last()
    }
}

/// The character sequences held by a list of character vectors.
pub open spec fn views(v: Seq<Vec<char>>) -> Seq<Seq<char>> {
    v.map_values(|x: Vec<char>| x@)
}

/// The characters of `s`.
#[verifier::external_body]
pub(crate) fn chars_of(s: &str) -> (r: Vec<char>)
    ensures
        r@ == s@,
{
    s.chars().collect()
}

/// A `String` holding the characters `v`.
#[verifier::external_body]
pub(crate) fn string_of(v: &[char]) -> (r: String)
    ensures
        r@ == v@,
{
    v.iter().collect()
}

/// A fresh copy of `v`.
pub fn copy_chars(v: &[char]) -> (r: Vec<char>)
    ensures
        r@ == v@,
{
    let mut r: Vec<char> = Vec::new();
    let mut i: usize = 0;
    while i < v.len()
        invariant
            i <= v.len(),
            r@ == v@.take(i as int),
        decreases v.len() - i,
    {
        r.push(v[i]);
        i = i + 1;
        assert(r@ =~= v@.take(i as int));
    }
    assert(v@.take(v.len() as int) =~= v@);
    r
}

/// Whether `a` and `b` hold the same characters.
pub fn chars_eq(a: &[char], b: &[char]) -> (r: bool)
    ensures
        r == (a@ == b@),
{
    if a.len() != b.len() {
        return false;
    }
    let mut i: usize = 0;
    while i < a.len()
        invariant
            i <= a.len(),
            a.len() == b.len(),
            forall|j: int| 0 <= j < i ==> a@[j] == b@[j],
        decreases a.len() - i,
    {
        if a[i] != b[i] {
            return false;
        }
        i = i + 1;
    }
    assert(a@ =~= b@);
    true
}

/// Whether `l` holds exactly the characters of the literal `lit`.
pub fn is_literal(l: &[char], lit: &str) -> (r: bool)
    ensures
        r == (l@ == lit@),
{
    let v = chars_of(lit);
    chars_eq(l, v.as_slice())
}

/// Whether `a` and `b` hold the same text.
pub fn same_text(a: &str, b: &str) -> (r: bool)
    ensures
        r == (a@ == b@),
{
    let v = chars_of(a);
    is_literal(v.as_slice(), b)
}

/// Appends the characters `b` to `a`.
pub fn push_all(a: &mut Vec<char>, b: &[char])
    ensures
        final(a)@ == old(a)@ + b@,
{
    let ghost a0 = a@;
    let mut i: usize = 0;
    while i < b.len()
        invariant
            i <= b.len(),
            a@ == a0 + b@.take(i as int),
        decreases b.len() - i,
    {
        a.push(b[i]);
        i = i + 1;
        assert(a@ =~= a0 + b@.take(i as int));
    }
    assert(b@.take(b.len() as int) =~= b@);
}

/// Splits `s` into its whitespace-separated tokens.
pub fn split_whitespace(s: &[char]) -> (r: Vec<Vec<char>>)
    ensures
        views(r@) == ws_split(s@),
{
    let mut done: Vec<Vec<char>> = Vec::new();
    let mut cur: Vec<char> = Vec::new();
    let mut i: usize = 0;
    while i < s.len()
        invariant
            i <= s.len(),
            ws_split(s@.take(i as int)) == views(done@) + (if cur.len() > 0 {
                seq![cur@]
            } else {
                Seq::<Seq<char>>::empty()
            }),
            cur.len() > 0 <==> (i > 0 && !is_ws(s@[i - 1])),
        decreases s.len() - i,
    {
        let c = s[i];
        let ghost prev = s@.take(i as int);
        let ghost t = s@.take(i + 1);
        let ghost d0 = done@;
        let ghost c0 = cur@;
        assert(t.drop_last() =~= prev);
        assert(t.last() == c);
        if is_whitespace(c) {
            if cur.len() > 0 {
                done.push(cur);
                cur = Vec::new();
                assert(views(done@) =~= views(d0) + seq![c0]);
            }
            assert(ws_split(t) == ws_split(prev));
        } else {
            cur.push(c);
            if i > 0 && !is_whitespace(s[i - 1]) {
                assert(t[t.len() - 2] == s@[i - 1]);
                assert(ws_split(t) =~= views(d0) + seq![c0.push(c)]);
            } else {
                assert(t.len() == 1 || is_ws(t[t.len() - 2]));
                assert(ws_split(t) =~= views(d0) + seq![seq![c]]);
                assert(cur@ =~= seq![c]);
            }
        }
        i = i + 1;
    }
    let ghost d0 = done@;
    let ghost c0 = cur@;
    if cur.len() > 0 {
        done.push(cur);
        assert(views(done@) =~= views(d0) + seq![c0]);
    }
    assert(s@.take(s.len() as int) =~= s@);
    assert(views(done@) =~= ws_split(s@));
    done
}

/// Joins `parts` with `sep` between consecutive parts.
pub fn join(parts: &[Vec<char>], sep: &[char]) -> (r: Vec<char>)
    ensures
        r@ == join_with(views(parts@), sep@),
{
    let mut r: Vec<char> = Vec::new();
    let mut i: usize = 0;
    while i < parts.len()
        invariant
            i <= parts.len(),
            r@ == join_with(views(parts@).take(i as int), sep@),
        decreases parts.len() - i,
    {
        let ghost before = views(parts@).take(i as int);
        assert(views(parts@).take(i + 1).drop_last() =~= before);
        if i > 0 {
            push_all(&mut r, sep);
        }
        push_all(&mut r, parts[i].as_slice());
        i = i + 1;
        assert(views(parts@).take(i as int).last() == parts[i - 1]@);
    }
    assert(views(parts@).take(parts.len() as int) =~= views(parts@));
    r
}


/// Whether `t` holds ".." starting at index `i`.
pub open spec fn dotdot_at(t: Seq<char>, i: int) -> bool {
    0 <= i && i + 1 < t.len() && t[i] == '.' && t[i + 1] == '.'
}

/// Whether `t` contains "..".
pub open spec fn has_dotdot(t: Seq<char>) -> bool {
    exists|i: int| dotdot_at(t, i)
}

/// The first index at or after `i` where ".." starts in `t`, or -1.
pub open spec fn dotdot_from(t: Seq<char>, i: int) -> int
    decreases t.len() - i,
{
    if i < 0 || i + 1 >= t.len() {
        -1
    } else if dotdot_at(t, i) {
        i
    } else {
        dotdot_from(t, i + 1)
    }
}

/// The index where the first ".." of `t` starts, or -1 when there is none.
pub open spec fn first_dotdot(t: Seq<char>) -> int {
    dotdot_from(t, 0)
}

proof fn lemma_dotdot_from(t: Seq<char>, i: int)
    requires
        0 <= i,
    ensures
        dotdot_from(t, i) == -1 || (i <= dotdot_from(t, i) && dotdot_at(t, dotdot_from(t, i))),
        dotdot_from(t, i) == -1 <==> forall|j: int| i <= j ==> !dotdot_at(t, j),
        dotdot_from(t, i) != -1 ==> forall|j: int| i <= j < dotdot_from(t, i) ==> !dotdot_at(t, j),
    decreases t.len() - i,
{
    if i + 1 < t.len() && !dotdot_at(t, i) {
        lemma_dotdot_from(t, i + 1);
    }
}

/// The first ".." of `t` is found exactly when `t` contains "..", and nothing
/// before it starts another "..".
pub proof fn lemma_first_dotdot(t: Seq<char>)
    ensures
        has_dotdot(t) <==> first_dotdot(t) != -1,
        first_dotdot(t) != -1 ==> dotdot_at(t, first_dotdot(t)),
        first_dotdot(t) != -1 ==> forall|j: int| 0 <= j < first_dotdot(t) ==> !dotdot_at(t, j),
{
    lemma_dotdot_from(t, 0);
}

/// Finds where the first ".." of `t` starts.
pub fn find_dotdot(t: &[char]) -> (r: Option<usize>)
    ensures
        match r {
            Some(i) => i as int == first_dotdot(t@),
            None => first_dotdot(t@) == -1,
        },
{
    let mut i: usize = 0;
    while i < t.len()
        invariant
            i <= t.len(),
            dotdot_from(t@, 0) == dotdot_from(t@, i as int),
        decreases t.len() - i,
    {
        if i + 1 < t.len() && t[i] == '.' && t[i + 1] == '.' {
            return Some(i);
        }
        i = i + 1;
    }
    None
}

/// Whether `c` is an ASCII decimal digit.
pub open spec fn is_digit(c: char) -> bool {
    '0' <= c && c <= '9'
}

/// The value of a string of decimal digits.
pub open spec fn decimal_value(d: Seq<char>) -> int
    decreases d.len(),
{
    if d.len() == 0 {
        0
    } else {
        decimal_value(d.drop_last()) * 10 + (d.last() as int - '0' as int)
    }
}

/// Whether `s` starts with a `+` or `-` sign.
pub open spec fn has_sign(s: Seq<char>) -> bool {
    s.len() > 0 && (s[0] == '-' || s[0] == '+')
}

/// The digits part of an integer literal: `s` without its sign.
pub open spec fn literal_digits(s: Seq<char>) -> Seq<char> {
    if has_sign(s) { s.drop_first() } else { s }
}

/// Whether every character of `d` is an ASCII digit.
pub open spec fn all_digits(d: Seq<char>) -> bool {
    forall|i: int| 0 <= i < d.len() ==> is_digit(#[trigger] d[i])
}

/// The integer written by `s` in the grammar of Rust's integer `FromStr`:
/// an optional `+` or `-` sign followed by one or more ASCII digits.
pub open spec fn int_literal(s: Seq<char>) -> Option<int> {
    let d = literal_digits(s);
    if d.len() > 0 && all_digits(d) {
        Some(if s[0] == '-' { -decimal_value(d) } else { decimal_value(d) })
    } else {
        None
    }
}

/// What `s.parse::<T>()` gives for an integer type whose values are `lo..=hi`.
pub open spec fn parse_int_in(s: Seq<char>, lo: int, hi: int) -> Option<int> {
    match int_literal(s) {
        Some(v) => if lo <= v && v <= hi { Some(v) } else { None },
        None => None,
    }
}

/// `str::parse::<i64>`. Its documentation gives the grammar: an optional
/// sign and at least one ASCII digit, no other character, and a value that
/// fits the type; anything else is an error.
#[verifier::external_body]
pub(crate) fn parse_i64(s: &str) -> (r: Option<i64>)
    ensures
        match parse_int_in(s@, i64::MIN as int, i64::MAX as int) {
            Some(v) => r == Some(v as i64),
            None => r is None,
        },
{
    s.parse::<i64>().ok()
}

/// `str::parse::<i32>`, under the same documented grammar as `parse_i64`.
#[verifier::external_body]
pub(crate) fn parse_i32(s: &str) -> (r: Option<i32>)
    ensures
        match parse_int_in(s@, i32::MIN as int, i32::MAX as int) {
            Some(v) => r == Some(v as i32),
            None => r is None,
        },
{
    s.parse::<i32>().ok()
}

/// The lowercase form of an ASCII character; every other character is kept.
pub open spec fn ascii_lower(c: char) -> char {
    if 'A' <= c && c <= 'Z' {
        ((c as u32) + 32) as char
    } else {
        c
    }
}

/// Whether every character of `s` is ASCII.
pub open spec fn is_ascii_text(s: Seq<char>) -> bool {
    forall|i: int| 0 <= i < s.len() ==> (#[trigger] s[i] as int) < 128
}

/// Whether `s` is ASCII text without uppercase letters.
pub open spec fn lower_ascii(s: Seq<char>) -> bool {
    forall|i: int| 0 <= i < s.len() ==> (#[trigger] s[i] as int) < 128 && ascii_lower(s[i]) == s[i]
}

/// The lowercase form of `s`: spelled out for ASCII text, whose letters
/// `A`..`Z` become `a`..`z` and whose other characters stay; for other
/// text, what `str::to_lowercase` returns.
pub open spec fn lower_text(s: Seq<char>) -> Seq<char> {
    if is_ascii_text(s) {
        s.map_values(|c: char| ascii_lower(c))
    } else {
        lowercase(s)
    }
}

/// Lowercasing text that is already lowercase ASCII changes nothing.
pub proof fn lemma_lower_ascii_fixed(s: Seq<char>)
    requires
        lower_ascii(s),
    ensures
        lower_text(s) == s,
{
    assert(is_ascii_text(s));
    assert(s.map_values(|c: char| ascii_lower(c)) =~= s);
}

/// The lowercase form of ASCII text is lowercase ASCII.
pub proof fn lemma_lower_text_ascii(s: Seq<char>)
    requires
        is_ascii_text(s),
    ensures
        lower_ascii(lower_text(s)),
{
    let l = lower_text(s);
    assert forall|i: int| 0 <= i < l.len() implies (#[trigger] l[i] as int) < 128 && ascii_lower(
        l[i],
    ) == l[i] by {
        assert(l[i] == ascii_lower(s[i]));
        assert((s[i] as int) < 128);
    }
}

/// Every string that parses as an integer is lowercase ASCII: a sign and digits.
pub proof fn lemma_int_literal_lower(s: Seq<char>)
    requires
        int_literal(s) is Some,
    ensures
        lower_ascii(s),
{
    let signed = has_sign(s);
    let d = literal_digits(s);
    assert forall|i: int| 0 <= i < s.len() implies (#[trigger] s[i] as int) < 128 && ascii_lower(
        s[i],
    ) == s[i] by {
        if signed && i > 0 {
            assert(s[i] == d[i - 1]);
            assert(is_digit(d[i - 1]));
        } else if !signed {
            assert(is_digit(d[i]));
        }
    }
}

/// Joining two pieces of lowercase ASCII gives lowercase ASCII.
pub proof fn lemma_lower_ascii_concat(a: Seq<char>, b: Seq<char>)
    requires
        lower_ascii(a),
        lower_ascii(b),
    ensures
        lower_ascii(a + b),
{
    let c = a + b;
    assert forall|i: int| 0 <= i < c.len() implies (#[trigger] c[i] as int) < 128 && ascii_lower(
        c[i],
    ) == c[i] by {
        if i < a.len() {
            assert(c[i] == a[i]);
        } else {
            assert(c[i] == b[i - a.len()]);
        }
    }
}

/// What `str::to_lowercase` returns for `s` (Unicode lowercase mapping).
pub uninterp spec fn lowercase(s: Seq<char>) -> Seq<char>;

/// `str::to_lowercase`. The result is named; what is stated beyond the name
/// is what its documentation gives for ASCII input: the Unicode lowercase
/// mapping lowercases the letters `A`..`Z` and leaves every other ASCII
/// character as it is. The mapping of other characters is left unsaid.
#[verifier::external_body]
pub(crate) fn to_lowercase(s: &str) -> (r: String)
    ensures
        r@ == lowercase(s@),
        r@ == lower_text(s@),
{
    s.to_lowercase()
}

} // verus!
