//! Character-level text primitives.
//!
//! Every piece of text is modelled as a `Seq<char>`. The executable functions
//! work on `Vec<char>` so that positions are character positions, and convert
//! from and to `String` at the edges.

use vstd::prelude::*;

verus! {

/// `String::push` appends one character to the end of the string.
pub assume_specification[ String::push ](s: &mut String, c: char)
    ensures
        final(s)@ == old(s)@.push(c),
;

/// The characters of `s`, in order.
pub fn chars_of(s: &str) -> (v: Vec<char>)
    ensures
        v@ == s@,
{
    let mut v: Vec<char> = Vec::new();
    for c in it: s.chars()
        invariant
            v@ == it.seq().take(it.index()),
            it.seq() == s@,
    {
        v.push(c);
    }
    v
}

/// The string made of the characters of `v`, in order.
pub fn string_of(v: &Vec<char>) -> (s: String)
    ensures
        s@ == v@,
{
    let mut s = String::new();
    let mut i: usize = 0;
    while i < v.len()
        invariant
            i <= v.len(),
            s@ == v@.take(i as int),
        decreases v.len() - i,
    {
        s.push(v[i]);
        i += 1;
    }
    s
}

/// The characters that Unicode classes as `White_Space`.
pub open spec fn is_whitespace(c: char) -> bool {
    let n = c as u32;
    ||| 0x09 <= n <= 0x0D
    ||| n == 0x20
    ||| n == 0x85
    ||| n == 0xA0
    ||| n == 0x1680
    ||| 0x2000 <= n <= 0x200A
    ||| n == 0x2028
    ||| n == 0x2029
    ||| n == 0x202F
    ||| n == 0x205F
    ||| n == 0x3000
}

/// Whether `c` is a whitespace character.
pub fn char_is_whitespace(c: char) -> (r: bool)
    ensures
        r == is_whitespace(c),
{
    let n: u32 = c as u32;
    (0x09 <= n && n <= 0x0D) || n == 0x20 || n == 0x85 || n == 0xA0 || n == 0x1680 || (0x2000 <= n
        && n <= 0x200A) || n == 0x2028 || n == 0x2029 || n == 0x202F || n == 0x205F || n == 0x3000
}

/// `s` without its leading whitespace.
pub open spec fn trim_start(s: Seq<char>) -> Seq<char>
    decreases s.len(),
{
    if s.len() > 0 && is_whitespace(s[0]) {
        trim_start(s.drop_first())
    } else {
        s
    }
}

/// `s` without its trailing whitespace.
pub open spec fn trim_end(s: Seq<char>) -> Seq<char>
    decreases s.len(),
{
    if s.len() > 0 && is_whitespace(s.last()) {
        trim_end(s.drop_last())
    } else {
        s
    }
}

/// `s` without its leading and trailing whitespace.
pub open spec fn trim(s: Seq<char>) -> Seq<char> {
    trim_end(trim_start(s))
}

/// Dropping whitespace at the front leaves the part of `s` from the first
/// character on that is not whitespace.
pub proof fn lemma_trim_start_skips(s: Seq<char>, i: int)
    requires
        0 <= i <= s.len(),
        forall|j: int| 0 <= j < i ==> is_whitespace(s[j]),
    ensures
        trim_start(s) == trim_start(s.skip(i)),
    decreases i,
{
    if i == 0 {
        assert(s.skip(0) =~= s);
    } else {
        lemma_trim_start_skips(s.drop_first(), i - 1);
        assert(s.drop_first().skip(i - 1) =~= s.skip(i));
    }
}

/// Dropping whitespace at the back leaves the part of `s` up to the last
/// character that is not whitespace.
pub proof fn lemma_trim_end_takes(s: Seq<char>, i: int)
    requires
        0 <= i <= s.len(),
        forall|j: int| i <= j < s.len() ==> is_whitespace(s[j]),
    ensures
        trim_end(s) == trim_end(s.take(i)),
    decreases s.len() - i,
{
    if i == s.len() {
        assert(s.take(i) =~= s);
    } else {
        lemma_trim_end_takes(s.drop_last(), i);
        assert(s.drop_last().take(i) =~= s.take(i));
    }
}

/// The characters of `v` from position `from` up to, not including, `to`.
pub fn slice_chars(v: &Vec<char>, from: usize, to: usize) -> (r: Vec<char>)
    requires
        from <= to <= v.len(),
    ensures
        r@ == v@.subrange(from as int, to as int),
{
    let mut r: Vec<char> = Vec::new();
    let mut i: usize = from;
    while i < to
        invariant
            from <= i <= to <= v.len(),
            r@ == v@.subrange(from as int, i as int),
        decreases to - i,
    {
        r.push(v[i]);
        i += 1;
    }
    r
}

/// Removes leading and trailing whitespace.
pub fn trim_chars(v: &Vec<char>) -> (r: Vec<char>)
    ensures
        r@ == trim(v@),
{
    let n = v.len();
    let mut start: usize = 0;
    while start < n && char_is_whitespace(v[start])
        invariant
            start <= n == v.len(),
            forall|j: int| 0 <= j < start ==> is_whitespace(v@[j]),
        decreases n - start,
    {
        start += 1;
    }
    let mut end: usize = n;
    while end > start && char_is_whitespace(v[end - 1])
        invariant
            start <= end <= n == v.len(),
            forall|j: int| end <= j < n ==> is_whitespace(v@[j]),
        decreases end,
    {
        end -= 1;
    }
    let r = slice_chars(v, start, end);
    proof {
        let rest = v@.skip(start as int);
        lemma_trim_start_skips(v@, start as int);
        lemma_trim_end_takes(rest, end - start);
    }
    r
}

/// The pieces into which the separators `a` and `b` cut `s`, in order. A
/// text with `n` separators has `n + 1` pieces, some of them possibly empty.
pub open spec fn split(s: Seq<char>, a: char, b: char) -> Seq<Seq<char>>
    decreases s.len(),
{
    if s.len() == 0 {
        seq![Seq::<char>::empty()]
    } else {
        let before = split(s.drop_last(), a, b);
        let c = s.last();
        if c == a || c == b {
            before.push(Seq::<char>::empty())
        } else {
            before.drop_last().push(before.last().push(c))
        }
    }
}

/// A split always has a last piece, and no piece holds a separator.
pub proof fn law_split_pieces(s: Seq<char>, a: char, b: char)
    ensures
        split(s, a, b).len() >= 1,
        forall|k: int, j: int|
            0 <= k < split(s, a, b).len() && 0 <= j < split(s, a, b)[k].len() ==> {
                &&& #[trigger] split(s, a, b)[k][j] != a
                &&& split(s, a, b)[k][j] != b
            },
    decreases s.len(),
{
    if s.len() > 0 {
        law_split_pieces(s.drop_last(), a, b);
    }
}

/// The views of the items of `items`, in order.
pub open spec fn views<T: View>(items: Seq<T>) -> Seq<T::V> {
    Seq::new(items.len(), |i: int| items[i]@)
}

/// The views of a sequence with one more item are the views of the sequence
/// with the view of that item behind them.
pub proof fn lemma_views_push<T: View>(items: Seq<T>, item: T)
    ensures
        views(items.push(item)) == views(items).push(item@),
{
}

/// Splits `v` at every occurrence of `a` or `b`.
pub fn split_chars(v: &Vec<char>, a: char, b: char) -> (pieces: Vec<Vec<char>>)
    ensures
        views(pieces@) == split(v@, a, b),
{
    let mut done: Vec<Vec<char>> = Vec::new();
    let mut current: Vec<char> = Vec::new();
    let mut i: usize = 0;
    while i < v.len()
        invariant
            i <= v.len(),
            views(done@).push(current@) == split(v@.take(i as int), a, b),
        decreases v.len() - i,
    {
        let c = v[i];
        proof {
            assert(v@.take(i + 1).drop_last() =~= v@.take(i as int));
            assert(v@.take(i + 1).last() == c);
        }
        let ghost before = views(done@);
        let ghost piece = current@;
        if c == a || c == b {
            done.push(current);
            current = Vec::new();
            assert(views(done@) =~= before.push(piece));
        } else {
            current.push(c);
            assert(before.push(piece).drop_last() =~= before);
        }
        i += 1;
    }
    let ghost before = views(done@);
    let ghost piece = current@;
    done.push(current);
    proof {
        assert(views(done@) =~= before.push(piece));
        assert(v@.take(v.len() as int) =~= v@);
    }
    done
}

/// The position of the first character of `s` that is `a` or `b`, or the
/// length of `s` where there is none.
pub open spec fn first_of(s: Seq<char>, a: char, b: char) -> int
    decreases s.len(),
{
    if s.len() == 0 {
        0
    } else if s[0] == a || s[0] == b {
        0
    } else {
        1 + first_of(s.drop_first(), a, b)
    }
}

/// `first_of` is the one position that has a separator, or the end, and
/// nothing but other characters before it.
pub proof fn lemma_first_of(s: Seq<char>, a: char, b: char, i: int)
    requires
        0 <= i <= s.len(),
        forall|j: int| 0 <= j < i ==> s[j] != a && s[j] != b,
        i < s.len() ==> s[i] == a || s[i] == b,
    ensures
        first_of(s, a, b) == i,
    decreases i,
{
    if i > 0 {
        lemma_first_of(s.drop_first(), a, b, i - 1);
    }
}

/// Finds the first occurrence of `a` or `b`.
pub fn find_first(v: &Vec<char>, a: char, b: char) -> (i: usize)
    ensures
        i == first_of(v@, a, b),
        i <= v.len(),
{
    let mut i: usize = 0;
    while i < v.len() && !(v[i] == a || v[i] == b)
        invariant
            i <= v.len(),
            forall|j: int| 0 <= j < i ==> v@[j] != a && v@[j] != b,
        decreases v.len() - i,
    {
        i += 1;
    }
    proof {
        lemma_first_of(v@, a, b, i as int);
    }
    i
}

/// Whether `c` occurs in `v`.
pub fn contains_char(v: &Vec<char>, c: char) -> (r: bool)
    ensures
        r == v@.contains(c),
{
    let mut i: usize = 0;
    while i < v.len()
        invariant
            i <= v.len(),
            forall|j: int| 0 <= j < i ==> v@[j] != c,
        decreases v.len() - i,
    {
        if v[i] == c {
            return true;
        }
        i += 1;
    }
    false
}

/// Whether `v` holds exactly the characters of `s`.
pub fn chars_equal(v: &Vec<char>, s: &str) -> (r: bool)
    ensures
        r == (v@ == s@),
{
    let w = chars_of(s);
    if v.len() != w.len() {
        return false;
    }
    let mut i: usize = 0;
    while i < v.len()
        invariant
            i <= v.len() == w.len(),
            w@ == s@,
            forall|j: int| 0 <= j < i ==> v@[j] == w@[j],
        decreases v.len() - i,
    {
        if v[i] != w[i] {
            return false;
        }
        i += 1;
    }
    assert(v@ =~= w@);
    true
}

/// The words of `s`: its longest runs of characters that are not
/// whitespace, in order.
pub open spec fn words(s: Seq<char>) -> Seq<Seq<char>>
    decreases s.len(),
{
    if s.len() == 0 {
        Seq::empty()
    } else {
        let before = words(s.drop_last());
        let c = s.last();
        if is_whitespace(c) {
            before
        } else if s.len() >= 2 && !is_whitespace(s[s.len() - 2]) {
            before.drop_last().push(before.last().push(c))
        } else {
            before.push(seq![c])
        }
    }
}

/// A text that ends in a character that is not whitespace has a last word,
/// and every word has at least one character.
pub proof fn law_words(s: Seq<char>)
    ensures
        s.len() > 0 && !is_whitespace(s.last()) ==> words(s).len() > 0,
        forall|k: int| 0 <= k < words(s).len() ==> (#[trigger] words(s)[k]).len() > 0,
    decreases s.len(),
{
    if s.len() > 0 {
        let rest = s.drop_last();
        law_words(rest);
        let before = words(rest);
        let c = s.last();
        if !is_whitespace(c) {
            if s.len() >= 2 && !is_whitespace(s[s.len() - 2]) {
                assert(rest.last() == s[s.len() - 2]);
                let grown = before.drop_last().push(before.last().push(c));
                assert forall|k: int| 0 <= k < grown.len() implies (#[trigger] grown[k]).len()
                    > 0 by {
                    if k < grown.len() - 1 {
                        assert(grown[k] == before[k]);
                    }
                }
            } else {
                let more = before.push(seq![c]);
                assert forall|k: int| 0 <= k < more.len() implies (#[trigger] more[k]).len()
                    > 0 by {
                    if k < more.len() - 1 {
                        assert(more[k] == before[k]);
                    }
                }
            }
        }
    }
}

/// Splits `v` into its words.
pub fn split_words(v: &Vec<char>) -> (r: Vec<Vec<char>>)
    ensures
        views(r@) == words(v@),
{
    let mut done: Vec<Vec<char>> = Vec::new();
    let mut current: Vec<char> = Vec::new();
    let mut i: usize = 0;
    assert(views(done@) =~= Seq::<Seq<char>>::empty());
    while i < v.len()
        invariant
            i <= v.len(),
            current@.len() > 0 <==> i > 0 && !is_whitespace(v@[i - 1]),
            current@.len() > 0 ==> views(done@).push(current@) == words(v@.take(i as int)),
            current@.len() == 0 ==> views(done@) == words(v@.take(i as int)),
        decreases v.len() - i,
    {
        let c = v[i];
        proof {
            assert(v@.take(i + 1).drop_last() =~= v@.take(i as int));
            assert(v@.take(i + 1).last() == c);
            if i > 0 {
                assert(v@.take(i + 1)[i - 1] == v@[i - 1]);
            }
        }
        let ghost before = views(done@);
        let ghost word = current@;
        if char_is_whitespace(c) {
            if current.len() > 0 {
                done.push(current);
                current = Vec::new();
                assert(views(done@) =~= before.push(word));
            }
        } else {
            current.push(c);
            proof {
                if word.len() > 0 {
                    assert(before.push(word).drop_last() =~= before);
                } else {
                    assert(current@ =~= seq![c]);
                }
            }
        }
        i += 1;
    }
    proof {
        assert(v@.take(v.len() as int) =~= v@);
    }
    if current.len() > 0 {
        let ghost before = views(done@);
        let ghost word = current@;
        done.push(current);
        assert(views(done@) =~= before.push(word));
    }
    done
}

/// Whether two texts hold the same characters.
pub fn str_equal(a: &str, b: &str) -> (r: bool)
    ensures
        r == (a@ == b@),
{
    let v = chars_of(a);
    chars_equal(&v, b)
}

/// What trimming leaves is a stretch of the text with nothing but
/// whitespace before and behind it, and with no whitespace at its own
/// ends.
pub proof fn law_trim(s: Seq<char>) -> (ends: (int, int))
    ensures
        0 <= ends.0 <= ends.1 <= s.len(),
        trim(s) == s.subrange(ends.0, ends.1),
        forall|j: int| 0 <= j < ends.0 ==> is_whitespace(s[j]),
        forall|j: int| ends.1 <= j < s.len() ==> is_whitespace(s[j]),
        ends.0 < ends.1 ==> !is_whitespace(s[ends.0]) && !is_whitespace(s[ends.1 - 1]),
    decreases s.len(),
{
    if s.len() > 0 && is_whitespace(s[0]) {
        let rest = s.drop_first();
        let (from, to) = law_trim(rest);
        assert forall|j: int| 0 <= j < from + 1 implies is_whitespace(s[j]) by {
            if j > 0 {
                assert(s[j] == rest[j - 1]);
            }
        }
        assert forall|j: int| to + 1 <= j < s.len() implies is_whitespace(s[j]) by {
            assert(s[j] == rest[j - 1]);
        }
        (from + 1, to + 1)
    } else if s.len() > 0 && is_whitespace(s.last()) {
        let rest = s.drop_last();
        let (from, to) = law_trim(rest);
        assert forall|j: int| to <= j < s.len() implies is_whitespace(s[j]) by {
            if j < s.len() - 1 {
                assert(s[j] == rest[j]);
            }
        }
        (from, to)
    } else {
        (0, s.len() as int)
    }
}

} // verus!
