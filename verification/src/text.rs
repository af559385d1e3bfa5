//! Character-level text handling: what the font can draw, Unicode whitespace, trimming,
//! and the `String` operations that the rest of the crate builds on.

use vstd::prelude::*;

verus! {

/// `String::push` appends one character.
pub assume_specification[ String::push ](s: &mut String, ch: char)
    ensures
        final(s)@ == old(s)@.push(ch),
;

/// `String::pop` removes and returns the last character, or returns `None` on an empty
/// string and leaves it unchanged.
pub assume_specification[ String::pop ](s: &mut String) -> (r: Option<char>)
    ensures
        old(s)@.len() == 0 ==> r is None && final(s)@ == old(s)@,
        old(s)@.len() > 0 ==> r == Some(old(s)@.last()) && final(s)@ == old(s)@.drop_last(),
;

/// True of the characters that the bitmap font draws: printable ASCII and the space.
pub open spec fn is_renderable(c: char) -> bool {
    ' ' <= c && c <= '~'
}

/// What typing or loading a character keeps: a tab becomes a space, renderable
/// characters stay, anything else is dropped.
pub open spec fn spec_sanitize(c: char) -> Option<char> {
    if c == '\t' {
        Some(' ')
    } else if is_renderable(c) {
        Some(c)
    } else {
        None
    }
}

/// Maps a character to the one the font can draw, if any.
pub fn sanitize(c: char) -> (r: Option<char>)
    ensures
        r == spec_sanitize(c),
{
    if c == '\t' {
        Some(' ')
    } else if ('!' <= c && c <= '~') || c == ' ' {
        Some(c)
    } else {
        None
    }
}

/// Every character of `s` passed through `spec_sanitize`, the dropped ones left out.
pub open spec fn sanitize_all(s: Seq<char>) -> Seq<char>
    decreases s.len(),
{
    if s.len() == 0 {
        seq![]
    } else {
        let rest = sanitize_all(s.drop_last());
        match spec_sanitize(s.last()) {
            Some(c) => rest.push(c),
            None => rest,
        }
    }
}

/// The characters with the Unicode `White_Space` property, which `char::is_whitespace`
/// and `str::trim` go by.
pub open spec fn is_whitespace(c: char) -> bool {
    ||| '\t' <= c && c <= '\r'
    ||| c == ' '
    ||| c == '\u{85}'
    ||| c == '\u{a0}'
    ||| c == '\u{1680}'
    ||| '\u{2000}' <= c && c <= '\u{200a}'
    ||| c == '\u{2028}'
    ||| c == '\u{2029}'
    ||| c == '\u{202f}'
    ||| c == '\u{205f}'
    ||| c == '\u{3000}'
}

/// Whether `c` is Unicode whitespace.
pub fn whitespace(c: char) -> (r: bool)
    ensures
        r == is_whitespace(c),
{
    ('\t' <= c && c <= '\r') || c == ' ' || c == '\u{85}' || c == '\u{a0}' || c == '\u{1680}'
        || ('\u{2000}' <= c && c <= '\u{200a}') || c == '\u{2028}' || c == '\u{2029}'
        || c == '\u{202f}' || c == '\u{205f}' || c == '\u{3000}'
}

/// `s` without its leading whitespace.
pub open spec fn trim_start(s: Seq<char>) -> Seq<char>
    decreases s.len(),
{
    if s.len() > 0 && is_whitespace(s[0]) {
        trim_start(s.drop_first())
    } else {
        s
    }
}

/// `s` without its trailing whitespace.
pub open spec fn trim_end(s: Seq<char>) -> Seq<char>
    decreases s.len(),
{
    if s.len() > 0 && is_whitespace(s.last()) {
        trim_end(s.drop_last())
    } else {
        s
    }
}

/// `s` without whitespace at either end, as `str::trim` gives it.
pub open spec fn trim(s: Seq<char>) -> Seq<char> {
    trim_end(trim_start(s))
}

/// The length of the longest prefix of `s` in which `c` does not occur.
pub open spec fn prefix_without(s: Seq<char>, c: char) -> nat
    decreases s.len(),
{
    if s.len() == 0 {
        0
    } else if s[0] == c {
        0
    } else {
        1 + prefix_without(s.drop_first(), c)
    }
}

/// `prefix_without` is the position of the first `c`, or the length where there is none.
pub proof fn lemma_prefix_without_at(s: Seq<char>, c: char, k: int)
    requires
        0 <= k <= s.len(),
        forall|j: int| 0 <= j < k ==> s[j] != c,
        k < s.len() ==> s[k] == c,
    ensures
        prefix_without(s, c) == k,
    decreases k,
{
    if k > 0 {
        assert forall|j: int| 0 <= j < k - 1 implies s.drop_first()[j] != c by {
            assert(s[j + 1] != c);
        }
        lemma_prefix_without_at(s.drop_first(), c, k - 1);
    }
}

/// The characters of `s`, in order.
pub fn chars_of(s: &str) -> (v: Vec<char>)
    ensures
        v@ == s@,
{
    let mut v: Vec<char> = Vec::new();
    for c in it: s.chars()
        invariant
            v@ == it.seq().take(it.index() as int),
            it.seq() == s@,
    {
        v.push(c);
    }
    v
}

/// The position of the first `c` in `v[lo..hi]`, or `hi` where there is none.
pub fn find_char(v: &Vec<char>, lo: usize, hi: usize, c: char) -> (r: usize)
    requires
        lo <= hi <= v.len(),
    ensures
        lo <= r <= hi,
        forall|j: int| lo <= j < r ==> v@[j] != c,
        r < hi ==> v@[r as int] == c,
{
    let mut i = lo;
    while i < hi
        invariant
            lo <= i <= hi <= v.len(),
            forall|j: int| lo <= j < i ==> v@[j] != c,
        decreases hi - i,
    {
        if v[i] == c {
            return i;
        }
        i = i + 1;
    }
    i
}

/// The bounds of `v[lo..hi]` once trimmed.
pub fn trim_range(v: &Vec<char>, lo: usize, hi: usize) -> (r: (usize, usize))
    requires
        lo <= hi <= v.len(),
    ensures
        lo <= r.0 <= r.1 <= hi,
        v@.subrange(r.0 as int, r.1 as int) == trim(v@.subrange(lo as int, hi as int)),
{
    let mut a = lo;
    while a < hi && whitespace(v[a])
        invariant
            lo <= a <= hi <= v.len(),
            trim_start(v@.subrange(lo as int, hi as int)) == trim_start(
                v@.subrange(a as int, hi as int),
            ),
        decreases hi - a,
    {
        assert(v@.subrange(a as int, hi as int).drop_first() =~= v@.subrange(a + 1, hi as int));
        a = a + 1;
    }
    let mut b = hi;
    while b > a && whitespace(v[b - 1])
        invariant
            lo <= a <= b <= hi <= v.len(),
            trim_end(v@.subrange(a as int, hi as int)) == trim_end(
                v@.subrange(a as int, b as int),
            ),
        decreases b - a,
    {
        assert(v@.subrange(a as int, b as int).drop_last() =~= v@.subrange(a as int, b - 1));
        b = b - 1;
    }
    (a, b)
}

/// What `spec_sanitize` keeps is renderable, and it keeps each renderable character other
/// than the tab as it is.
pub proof fn lemma_sanitize_all_renderable(s: Seq<char>)
    ensures
        forall|i: int| 0 <= i < sanitize_all(s).len() ==> is_renderable(#[trigger] sanitize_all(s)[i]),
        (forall|i: int| 0 <= i < s.len() ==> is_renderable(#[trigger] s[i])) ==> sanitize_all(s) == s,
    decreases s.len(),
{
    if s.len() > 0 {
        lemma_sanitize_all_renderable(s.drop_last());
        let rest = sanitize_all(s.drop_last());
        match spec_sanitize(s.last()) {
            Some(c) => {
                assert forall|i: int| 0 <= i < sanitize_all(s).len() implies is_renderable(
                    #[trigger] sanitize_all(s)[i],
                ) by {
                    if i < rest.len() {
                        assert(sanitize_all(s)[i] == rest[i]);
                    }
                }
            },
            None => {},
        }
        if forall|i: int| 0 <= i < s.len() ==> is_renderable(#[trigger] s[i]) {
            assert forall|i: int| 0 <= i < s.drop_last().len() implies is_renderable(
                #[trigger] s.drop_last()[i],
            ) by {
                assert(is_renderable(s[i]));
            }
            assert(is_renderable(s[s.len() - 1]));
            assert(s.drop_last().push(s.last()) =~= s);
        }
    }
}

/// `trim_start` keeps a suffix, which starts with no whitespace.
pub proof fn lemma_trim_start(s: Seq<char>)
    ensures
        trim_start(s).len() <= s.len(),
        trim_start(s) =~= s.subrange(s.len() - trim_start(s).len(), s.len() as int),
        trim_start(s).len() > 0 ==> !is_whitespace(trim_start(s)[0]),
    decreases s.len(),
{
    if s.len() > 0 && is_whitespace(s[0]) {
        lemma_trim_start(s.drop_first());
    }
}

/// `trim_end` keeps a prefix, which ends in no whitespace.
pub proof fn lemma_trim_end(s: Seq<char>)
    ensures
        trim_end(s).len() <= s.len(),
        trim_end(s) =~= s.subrange(0, trim_end(s).len() as int),
        trim_end(s).len() > 0 ==> !is_whitespace(trim_end(s).last()),
    decreases s.len(),
{
    if s.len() > 0 && is_whitespace(s.last()) {
        lemma_trim_end(s.drop_last());
    }
}

/// Trimming keeps renderable text renderable and leaves no whitespace at either end.
pub proof fn lemma_trim(s: Seq<char>)
    ensures
        trim(s).len() <= s.len(),
        (forall|i: int| 0 <= i < s.len() ==> is_renderable(#[trigger] s[i])) ==> forall|i: int|
            0 <= i < trim(s).len() ==> is_renderable(#[trigger] trim(s)[i]),
        trim(s).len() > 0 ==> !is_whitespace(trim(s)[0]) && !is_whitespace(trim(s).last()),
{
    lemma_trim_start(s);
    let t = trim_start(s);
    lemma_trim_end(t);
    let a = s.len() - t.len();
    assert(trim(s) =~= s.subrange(a, a + trim(s).len()));
    if forall|i: int| 0 <= i < s.len() ==> is_renderable(#[trigger] s[i]) {
        assert forall|i: int| 0 <= i < trim(s).len() implies is_renderable(#[trigger] trim(s)[i]) by {
            assert(trim(s)[i] == s[a + i]);
        }
    }
    if trim(s).len() > 0 {
        assert(trim(s)[0] == t[0]);
    }
}

/// A text with no whitespace at either end is its own trim.
pub proof fn lemma_trim_unchanged(s: Seq<char>)
    requires
        s.len() > 0 ==> !is_whitespace(s[0]) && !is_whitespace(s.last()),
    ensures
        trim(s) == s,
{
}

/// What `sanitize` keeps is drawable, and sanitizing it again keeps it as it is.
pub proof fn lemma_sanitize_idempotent(c: char)
    ensures
        spec_sanitize(c) matches Some(d) ==> is_renderable(d) && spec_sanitize(d) == Some(d),
{
}

proof fn lemma_trim_start_at(s: Seq<char>, a: int)
    requires
        0 <= a <= s.len(),
        forall|j: int| 0 <= j < a ==> is_whitespace(s[j]),
        a < s.len() ==> !is_whitespace(s[a]),
    ensures
        trim_start(s) == s.subrange(a, s.len() as int),
    decreases a,
{
    if a > 0 {
        assert forall|j: int| 0 <= j < a - 1 implies is_whitespace(s.drop_first()[j]) by {
            assert(is_whitespace(s[j + 1]));
        }
        lemma_trim_start_at(s.drop_first(), a - 1);
        assert(s.drop_first().subrange(a - 1, s.len() - 1) =~= s.subrange(a, s.len() as int));
    } else {
        assert(s.subrange(0, s.len() as int) =~= s);
    }
}

proof fn lemma_trim_end_at(s: Seq<char>, b: int)
    requires
        0 <= b <= s.len(),
        forall|j: int| b <= j < s.len() ==> is_whitespace(s[j]),
        b > 0 ==> !is_whitespace(s[b - 1]),
    ensures
        trim_end(s) == s.subrange(0, b),
    decreases s.len() - b,
{
    if b < s.len() {
        assert(is_whitespace(s.last()));
        lemma_trim_end_at(s.drop_last(), b);
        assert(s.drop_last().subrange(0, b) =~= s.subrange(0, b));
    } else {
        assert(s.subrange(0, s.len() as int) =~= s);
    }
}

/// Trimming removes exactly the whitespace at both ends: for any split of `s` into a
/// whitespace prefix, a middle that neither starts nor ends with whitespace (or is empty,
/// with all of `s` whitespace), and a whitespace suffix, `trim(s)` is that middle.
pub proof fn lemma_trim_is_middle(s: Seq<char>, a: int, b: int)
    requires
        0 <= a <= b <= s.len(),
        forall|j: int| 0 <= j < a ==> is_whitespace(s[j]),
        forall|j: int| b <= j < s.len() ==> is_whitespace(s[j]),
        a < b ==> !is_whitespace(s[a]) && !is_whitespace(s[b - 1]),
    ensures
        trim(s) == s.subrange(a, b),
{
    if a < b {
        lemma_trim_start_at(s, a);
        let u = s.subrange(a, s.len() as int);
        assert forall|j: int| b - a <= j < u.len() implies is_whitespace(u[j]) by {
            assert(u[j] == s[a + j]);
        }
        lemma_trim_end_at(u, b - a);
        assert(u.subrange(0, b - a) =~= s.subrange(a, b));
    } else {
        assert forall|j: int| 0 <= j < s.len() implies is_whitespace(s[j]) by {
            if j >= a {
                assert(j >= b);
            }
        }
        lemma_trim_start_at(s, s.len() as int);
        assert(s.subrange(s.len() as int, s.len() as int) =~= Seq::<char>::empty());
        assert(s.subrange(a, b) =~= Seq::<char>::empty());
    }
}

/// Sanitizing a text keeps the tabs and the renderable characters, in order, and turns
/// each tab into a space.
pub proof fn lemma_sanitize_all_is_filter_map(s: Seq<char>)
    ensures
        sanitize_all(s) == s.filter(|c: char| c == '\t' || is_renderable(c)).map_values(
            |c: char| if c == '\t' { ' ' } else { c },
        ),
    decreases s.len(),
{
    if s.len() > 0 {
        lemma_sanitize_all_is_filter_map(s.drop_last());
        s.drop_last().lemma_filter_push(s.last(), |c: char| c == '\t' || is_renderable(c));
        assert(s.drop_last().push(s.last()) =~= s);
        let f = s.drop_last().filter(|c: char| c == '\t' || is_renderable(c));
        assert(f.push(s.last()).map_values(|c: char| if c == '\t' { ' ' } else { c })
            =~= f.map_values(|c: char| if c == '\t' { ' ' } else { c }).push(
            if s.last() == '\t' { ' ' } else { s.last() },
        ));
    } else {
        reveal(Seq::filter);
        assert(s.filter(|c: char| c == '\t' || is_renderable(c)).map_values(
            |c: char| if c == '\t' { ' ' } else { c },
        ) =~= Seq::<char>::empty());
    }
}

} // verus!
