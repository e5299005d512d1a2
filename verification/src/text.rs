//! Character-level text helpers: Unicode whitespace, trimming, and the
//! conversion of a string slice into its characters.

use vstd::prelude::*;

verus! {

/// The Unicode `White_Space` property (PropList.txt): the characters that
/// `char::is_whitespace` accepts and that `str::trim` strips.
pub open spec fn is_whitespace(c: char) -> bool {
    ||| ('\u{9}' <= c && c <= '\u{d}')
    ||| c == ' '
    ||| c == '\u{85}'
    ||| c == '\u{a0}'
    ||| c == '\u{1680}'
    ||| ('\u{2000}' <= c && c <= '\u{200a}')
    ||| c == '\u{2028}'
    ||| c == '\u{2029}'
    ||| c == '\u{202f}'
    ||| c == '\u{205f}'
    ||| c == '\u{3000}'
}

/// `s` without its leading whitespace.
pub open spec fn trim_start(s: Seq<char>) -> Seq<char>
    decreases s.len(),
{
    if s.len() > 0 && is_whitespace(s[0]) {
        trim_start(s.drop_first())
    } else {
        s
    }
}

/// `s` without its trailing whitespace.
pub open spec fn trim_end(s: Seq<char>) -> Seq<char>
    decreases s.len(),
{
    if s.len() > 0 && is_whitespace(s.last()) {
        trim_end(s.drop_last())
    } else {
        s
    }
}

/// `s` without its leading and trailing whitespace.
pub open spec fn trim(s: Seq<char>) -> Seq<char> {
    trim_end(trim_start(s))
}

/// Every character of `s` is whitespace.
pub open spec fn all_whitespace(s: Seq<char>) -> bool {
    forall|i: int| 0 <= i < s.len() ==> is_whitespace(#[trigger] s[i])
}

/// Leading whitespace is dropped whatever follows it.
proof fn lemma_trim_start_after_blank(pad: Seq<char>, s: Seq<char>)
    requires
        all_whitespace(pad),
    ensures
        trim_start(pad + s) == trim_start(s),
    decreases pad.len(),
{
    if pad.len() > 0 {
        assert((pad + s).drop_first() =~= pad.drop_first() + s);
        assert((pad + s)[0] == pad[0]);
        lemma_trim_start_after_blank(pad.drop_first(), s);
    } else {
        assert(pad + s =~= s);
    }
}

/// Trailing whitespace is dropped whatever precedes it.
proof fn lemma_trim_end_before_blank(s: Seq<char>, pad: Seq<char>)
    requires
        all_whitespace(pad),
    ensures
        trim_end(s + pad) == trim_end(s),
    decreases pad.len(),
{
    if pad.len() > 0 {
        assert((s + pad).drop_last() =~= s + pad.drop_last());
        assert((s + pad).last() == pad.last());
        lemma_trim_end_before_blank(s, pad.drop_last());
    } else {
        assert(s + pad =~= s);
    }
}

/// Whitespace trims to nothing.
proof fn lemma_trim_start_blank(s: Seq<char>)
    requires
        all_whitespace(s),
    ensures
        trim_start(s) == Seq::<char>::empty(),
    decreases s.len(),
{
    if s.len() > 0 {
        lemma_trim_start_blank(s.drop_first());
    } else {
        assert(s =~= Seq::<char>::empty());
    }
}

/// A text made only of whitespace, the empty text included, trims to nothing.
pub proof fn lemma_blank_trims_to_empty(s: Seq<char>)
    requires
        all_whitespace(s),
    ensures
        trim(s).len() == 0,
{
    lemma_trim_start_blank(s);
}

/// Appending text after a non-blank text does not change where its
/// trimmed start begins.
proof fn lemma_trim_start_append(s: Seq<char>, pad: Seq<char>)
    requires
        !all_whitespace(s),
    ensures
        trim_start(s + pad) == trim_start(s) + pad,
    decreases s.len(),
{
    if is_whitespace(s[0]) {
        assert((s + pad).drop_first() =~= s.drop_first() + pad);
        assert((s + pad)[0] == s[0]);
        let w = choose|i: int| 0 <= i < s.len() && !is_whitespace(#[trigger] s[i]);
        assert(s.drop_first()[w - 1] == s[w]);
        lemma_trim_start_append(s.drop_first(), pad);
    } else {
        assert((s + pad)[0] == s[0]);
    }
}

/// Surrounding a text with whitespace does not change it once trimmed.
pub proof fn lemma_trim_ignores_padding(left: Seq<char>, s: Seq<char>, right: Seq<char>)
    requires
        all_whitespace(left),
        all_whitespace(right),
    ensures
        trim(left + s + right) == trim(s),
{
    assert(left + s + right =~= left + (s + right));
    lemma_trim_start_after_blank(left, s + right);
    if all_whitespace(s) {
        assert(all_whitespace(s + right)) by {
            assert forall|i: int| 0 <= i < (s + right).len() implies is_whitespace(
                #[trigger] (s + right)[i],
            ) by {
                if i < s.len() {
                    assert((s + right)[i] == s[i]);
                } else {
                    assert((s + right)[i] == right[i - s.len()]);
                }
            }
        }
        lemma_trim_start_blank(s + right);
        lemma_trim_start_blank(s);
    } else {
        lemma_trim_start_append(s, right);
        lemma_trim_end_before_blank(trim_start(s), right);
    }
}

/// The whitespace characters are exactly the code points U+0009 to U+000D,
/// U+0020, U+0085, U+00A0, U+1680, U+2000 to U+200A, U+2028, U+2029,
/// U+202F, U+205F and U+3000.
pub proof fn lemma_whitespace_code_points(c: char)
    ensures
        is_whitespace(c) <==> {
            let n = c as u32;
            ||| 0x9 <= n <= 0xd
            ||| n == 0x20
            ||| n == 0x85
            ||| n == 0xa0
            ||| n == 0x1680
            ||| 0x2000 <= n <= 0x200a
            ||| n == 0x2028
            ||| n == 0x2029
            ||| n == 0x202f
            ||| n == 0x205f
            ||| n == 0x3000
        },
{
}

/// Where the trimmed start of `s` begins: everything before it is
/// whitespace, and the character it begins with, if any, is not.
proof fn lemma_trim_start_shape(s: Seq<char>) -> (a: int)
    ensures
        0 <= a <= s.len(),
        trim_start(s) == s.subrange(a, s.len() as int),
        forall|i: int| 0 <= i < a ==> is_whitespace(#[trigger] s[i]),
        a < s.len() ==> !is_whitespace(s[a]),
    decreases s.len(),
{
    if s.len() > 0 && is_whitespace(s[0]) {
        let rest = s.drop_first();
        let b = lemma_trim_start_shape(rest);
        assert(rest.subrange(b, rest.len() as int) =~= s.subrange(b + 1, s.len() as int));
        assert forall|i: int| 0 <= i < b + 1 implies is_whitespace(#[trigger] s[i]) by {
            if i > 0 {
                assert(s[i] == rest[i - 1]);
            }
        }
        b + 1
    } else {
        assert(s.subrange(0, s.len() as int) =~= s);
        0
    }
}

/// Where the trimmed end of `s` stops: everything after it is whitespace,
/// and the character it ends with, if any, is not.
proof fn lemma_trim_end_shape(s: Seq<char>) -> (b: int)
    ensures
        0 <= b <= s.len(),
        trim_end(s) == s.subrange(0, b),
        forall|i: int| b <= i < s.len() ==> is_whitespace(#[trigger] s[i]),
        b > 0 ==> !is_whitespace(s[b - 1]),
    decreases s.len(),
{
    if s.len() > 0 && is_whitespace(s.last()) {
        let rest = s.drop_last();
        let b = lemma_trim_end_shape(rest);
        assert(rest.subrange(0, b) =~= s.subrange(0, b));
        assert forall|i: int| b <= i < s.len() implies is_whitespace(#[trigger] s[i]) by {
            if i < rest.len() {
                assert(s[i] == rest[i]);
            }
        }
        b
    } else {
        assert(s.subrange(0, s.len() as int) =~= s);
        s.len() as int
    }
}

/// Trimming removes exactly the leading and trailing whitespace: the result
/// is a stretch `s[a..b]` of `s` with only whitespace before and after it,
/// which, when non-empty, starts and ends with a character that is not
/// whitespace; it is empty exactly when `s` is all whitespace.
pub proof fn lemma_trim_shape(s: Seq<char>)
    ensures
        exists|a: int, b: int|
            0 <= a <= b <= s.len() && trim(s) == s.subrange(a, b) && (forall|i: int|
                0 <= i < a ==> is_whitespace(#[trigger] s[i])) && (forall|i: int|
                b <= i < s.len() ==> is_whitespace(#[trigger] s[i])) && (a < b ==> (
            !is_whitespace(s[a]) && !is_whitespace(s[b - 1]))),
        trim(s).len() == 0 <==> all_whitespace(s),
{
    let a = lemma_trim_start_shape(s);
    let t = s.subrange(a, s.len() as int);
    let c = lemma_trim_end_shape(t);
    let b = a + c;
    assert(t.subrange(0, c) =~= s.subrange(a, b));
    assert forall|i: int| b <= i < s.len() implies is_whitespace(#[trigger] s[i]) by {
        assert(s[i] == t[i - a]);
    }
    if c > 0 {
        assert(s[b - 1] == t[c - 1]);
        assert(s[a] == t[0]);
    }
    if a < s.len() && c == 0 {
        assert(t[0] == s[a]);
        assert(is_whitespace(t[0]));
    }
    if all_whitespace(s) && a < s.len() {
        assert(is_whitespace(s[a]));
    }
    if !all_whitespace(s) {
        let w = choose|i: int| 0 <= i < s.len() && !is_whitespace(#[trigger] s[i]);
        assert(a <= w);
        assert(a < s.len());
    }
}

/// Decides `is_whitespace`.
pub fn char_is_whitespace(c: char) -> (b: bool)
    ensures
        b == is_whitespace(c),
{
    ('\u{9}' <= c && c <= '\u{d}') || c == ' ' || c == '\u{85}' || c == '\u{a0}' || c
        == '\u{1680}' || ('\u{2000}' <= c && c <= '\u{200a}') || c == '\u{2028}' || c
        == '\u{2029}' || c == '\u{202f}' || c == '\u{205f}' || c == '\u{3000}'
}

/// The characters of `s`, in order.
pub fn chars_of(s: &str) -> (v: Vec<char>)
    ensures
        v@ == s@,
{
    let mut v: Vec<char> = Vec::new();
    for c in it: s.chars()
        invariant
            v@ == it.seq().take(it.index() as int),
    {
        v.push(c);
    }
    v
}

/// Dropping one leading whitespace character does not change the trimmed start.
proof fn lemma_trim_start_step(s: Seq<char>, start: int)
    requires
        0 <= start < s.len(),
        is_whitespace(s[start]),
    ensures
        trim_start(s.subrange(start, s.len() as int)) == trim_start(
            s.subrange(start + 1, s.len() as int),
        ),
{
    let sub = s.subrange(start, s.len() as int);
    assert(sub.drop_first() =~= s.subrange(start + 1, s.len() as int));
}

/// Dropping one trailing whitespace character does not change the trimmed end.
proof fn lemma_trim_end_step(s: Seq<char>, start: int, end: int)
    requires
        0 <= start < end <= s.len(),
        is_whitespace(s[end - 1]),
    ensures
        trim_end(s.subrange(start, end)) == trim_end(s.subrange(start, end - 1)),
{
    let sub = s.subrange(start, end);
    assert(sub.drop_last() =~= s.subrange(start, end - 1));
}

/// The bounds `(start, end)` of the trimmed part of `v[from..to]`:
/// `v[start..end]` is `v[from..to]` without its leading and trailing
/// whitespace.
pub fn trim_range(v: &Vec<char>, from: usize, to: usize) -> (r: (usize, usize))
    requires
        from <= to <= v.len(),
    ensures
        from <= r.0 <= r.1 <= to,
        v@.subrange(r.0 as int, r.1 as int) == trim(v@.subrange(from as int, to as int)),
{
    let ghost w = v@.subrange(from as int, to as int);
    let mut start: usize = from;
    while start < to && char_is_whitespace(v[start])
        invariant
            from <= start <= to <= v.len(),
            w == v@.subrange(from as int, to as int),
            trim_start(w) == trim_start(v@.subrange(start as int, to as int)),
        decreases to - start,
    {
        proof {
            lemma_trim_start_step(v@.subrange(0, to as int), start as int);
            assert(v@.subrange(0, to as int).subrange(start as int, to as int) =~= v@.subrange(
                start as int,
                to as int,
            ));
            assert(v@.subrange(0, to as int).subrange(start + 1, to as int) =~= v@.subrange(
                start + 1,
                to as int,
            ));
        }
        start = start + 1;
    }
    let mut end: usize = to;
    while end > start && char_is_whitespace(v[end - 1])
        invariant
            from <= start <= end <= to <= v.len(),
            w == v@.subrange(from as int, to as int),
            trim_start(w) == v@.subrange(start as int, to as int),
            trim_end(v@.subrange(start as int, to as int)) == trim_end(
                v@.subrange(start as int, end as int),
            ),
        decreases end - start,
    {
        proof {
            lemma_trim_end_step(v@, start as int, end as int);
        }
        end = end - 1;
    }
    (start, end)
}

/// Specifies std's `String::push`: afterwards the string's characters are
/// the old ones followed by `ch`, as the method's documentation states.
pub assume_specification[ String::push ](s: &mut String, ch: char)
    ensures
        final(s)@ == old(s)@.push(ch),
;

/// The string made of `v[from..to]`.
pub fn string_of(v: &Vec<char>, from: usize, to: usize) -> (s: String)
    requires
        from <= to <= v.len(),
    ensures
        s@ == v@.subrange(from as int, to as int),
{
    let mut s = String::new();
    let mut i: usize = from;
    while i < to
        invariant
            from <= i <= to <= v.len(),
            s@ == v@.subrange(from as int, i as int),
        decreases to - i,
    {
        s.push(v[i]);
        assert(v@.subrange(from as int, i + 1) =~= v@.subrange(from as int, i as int).push(v@[i as int]));
        i = i + 1;
    }
    s
}

} // verus!
