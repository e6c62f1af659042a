//! Character-level helpers shared by the text-processing modules.

use vstd::prelude::*;

verus! {

/// `String::push` appends exactly one character to the end of the string.
pub assume_specification[ String::push ](s: &mut String, ch: char)
    ensures
        final(s)@ == old(s)@.push(ch),
;

/// Collects the characters of `s` into a vector.
pub fn chars_of(s: &str) -> (v: Vec<char>)
    ensures
        v@ == s@,
{
    let mut v: Vec<char> = Vec::new();
    let it = s.chars();
    for c in iter: it
        invariant
            v@ == iter.seq().take(iter.index()),
    {
        v.push(c);
    }
    v
}

/// Builds a string from the characters `chars[lo..hi]`.
pub(crate) fn string_of(chars: &Vec<char>, lo: usize, hi: usize) -> (s: String)
    requires
        lo <= hi <= chars@.len(),
    ensures
        s@ == chars@.subrange(lo as int, hi as int),
{
    let mut s = String::new();
    let mut i: usize = lo;
    while i < hi
        invariant
            lo <= i <= hi <= chars@.len(),
            s@ == chars@.subrange(lo as int, i as int),
        decreases hi - i,
    {
        s.push(chars[i]);
        i += 1;
        assert(s@ =~= chars@.subrange(lo as int, i as int));
    }
    s
}

/// Appends the characters `chars[lo..hi]` to `out`.
pub(crate) fn push_chars(out: &mut String, chars: &Vec<char>, lo: usize, hi: usize)
    requires
        lo <= hi <= chars@.len(),
    ensures
        final(out)@ == old(out)@ + chars@.subrange(lo as int, hi as int),
{
    let mut i: usize = lo;
    while i < hi
        invariant
            lo <= i <= hi <= chars@.len(),
            out@ == old(out)@ + chars@.subrange(lo as int, i as int),
        decreases hi - i,
    {
        out.push(chars[i]);
        i += 1;
        assert(out@ =~= old(out)@ + chars@.subrange(lo as int, i as int));
    }
}

/// Copies the characters `chars[lo..hi]` into a vector of their own.
pub(crate) fn copy_range(chars: &Vec<char>, lo: usize, hi: usize) -> (out: Vec<char>)
    requires
        lo <= hi <= chars@.len(),
    ensures
        out@ == chars@.subrange(lo as int, hi as int),
{
    let mut out: Vec<char> = Vec::new();
    let mut i: usize = lo;
    while i < hi
        invariant
            lo <= i <= hi <= chars@.len(),
            out@ == chars@.subrange(lo as int, i as int),
        decreases hi - i,
    {
        out.push(chars[i]);
        i += 1;
        assert(out@ =~= chars@.subrange(lo as int, i as int));
    }
    out
}

/// White space as Unicode defines it (the property `White_Space`).
pub open spec fn is_space(c: char) -> bool {
    let u = c as u32;
    ||| 0x09 <= u <= 0x0d
    ||| u == 0x20
    ||| u == 0x85
    ||| u == 0xa0
    ||| u == 0x1680
    ||| 0x2000 <= u <= 0x200a
    ||| u == 0x2028
    ||| u == 0x2029
    ||| u == 0x202f
    ||| u == 0x205f
    ||| u == 0x3000
}

/// Decides `is_space`.
pub fn is_space_char(c: char) -> (r: bool)
    ensures
        r == is_space(c),
{
    let u: u32 = c as u32;
    (0x09 <= u && u <= 0x0d) || u == 0x20 || u == 0x85 || u == 0xa0 || u == 0x1680 || (0x2000
        <= u && u <= 0x200a) || u == 0x2028 || u == 0x2029 || u == 0x202f || u == 0x205f || u
        == 0x3000
}

/// The first position at or after `from` that holds no white space, or the
/// length of `s` when there is none.
pub open spec fn first_non_space(s: Seq<char>, from: int) -> int
    decreases s.len() - from,
{
    if 0 <= from < s.len() && is_space(s[from]) {
        first_non_space(s, from + 1)
    } else {
        from
    }
}

/// The first position at or after `from` that holds white space, or the length
/// of `s` when there is none.
pub open spec fn first_space(s: Seq<char>, from: int) -> int
    decreases s.len() - from,
{
    if 0 <= from < s.len() && !is_space(s[from]) {
        first_space(s, from + 1)
    } else {
        from
    }
}

/// The end of `s` once trailing white space is cut off, but not before `from`.
pub open spec fn last_non_space_end(s: Seq<char>, from: int, end: int) -> int
    decreases end - from,
{
    if from < end <= s.len() && is_space(s[end - 1]) {
        last_non_space_end(s, from, end - 1)
    } else {
        end
    }
}

/// `s` without leading and trailing white space.
pub open spec fn trim(s: Seq<char>) -> Seq<char> {
    let a = first_non_space(s, 0);
    let b = last_non_space_end(s, a, s.len() as int);
    s.subrange(a, b)
}

/// The maximal runs of characters of `s`, from position `from` on, that hold
/// no white space.
pub open spec fn words_from(s: Seq<char>, from: int) -> Seq<Seq<char>>
    decreases s.len() - from,
{
    let a = first_non_space(s, from);
    let b = first_space(s, a);
    if 0 <= from <= a < b <= s.len() {
        seq![s.subrange(a, b)] + words_from(s, b)
    } else {
        Seq::empty()
    }
}

/// `s` split at white space, as `str::split_whitespace` does.
pub open spec fn words(s: Seq<char>) -> Seq<Seq<char>> {
    words_from(s, 0)
}

/// Whether `s` begins with `prefix`.
pub open spec fn starts_with(s: Seq<char>, prefix: Seq<char>) -> bool {
    prefix.len() <= s.len() && s.subrange(0, prefix.len() as int) == prefix
}

/// A position is the first without white space when white space fills the
/// gap before it and none stands at it.
pub proof fn lemma_first_non_space(s: Seq<char>, from: int, k: int)
    requires
        0 <= from <= k <= s.len(),
        forall|j: int| from <= j < k ==> is_space(#[trigger] s[j]),
        k == s.len() || !is_space(s[k]),
    ensures
        first_non_space(s, from) == k,
    decreases k - from,
{
    if from < k {
        lemma_first_non_space(s, from + 1, k);
    }
}

/// A position is the first with white space when none stands in the gap
/// before it and some stands at it.
pub proof fn lemma_first_space(s: Seq<char>, from: int, k: int)
    requires
        0 <= from <= k <= s.len(),
        forall|j: int| from <= j < k ==> !is_space(#[trigger] s[j]),
        k == s.len() || is_space(s[k]),
    ensures
        first_space(s, from) == k,
    decreases k - from,
{
    if from < k {
        lemma_first_space(s, from + 1, k);
    }
}

/// A position is where trailing white space begins when white space fills
/// the text from it to the end and none stands before it.
pub proof fn lemma_last_non_space_end(s: Seq<char>, from: int, end: int, k: int)
    requires
        0 <= from <= k <= end <= s.len(),
        forall|j: int| k <= j < end ==> is_space(#[trigger] s[j]),
        k == from || !is_space(s[k - 1]),
    ensures
        last_non_space_end(s, from, end) == k,
    decreases end - k,
{
    if k < end {
        lemma_last_non_space_end(s, from, end - 1, k);
    }
}

/// Finds `first_non_space`.
pub(crate) fn skip_spaces(s: &Vec<char>, from: usize) -> (k: usize)
    requires
        from <= s@.len(),
    ensures
        k == first_non_space(s@, from as int),
        from <= k <= s@.len(),
        forall|j: int| from <= j < k ==> is_space(#[trigger] s@[j]),
        k == s@.len() || !is_space(s@[k as int]),
{
    let mut k: usize = from;
    while k < s.len() && is_space_char(s[k])
        invariant
            from <= k <= s@.len(),
            forall|j: int| from <= j < k ==> is_space(#[trigger] s@[j]),
        decreases s@.len() - k,
    {
        k += 1;
    }
    proof {
        lemma_first_non_space(s@, from as int, k as int);
    }
    k
}

/// Finds `first_space`.
pub(crate) fn skip_word(s: &Vec<char>, from: usize) -> (k: usize)
    requires
        from <= s@.len(),
    ensures
        k == first_space(s@, from as int),
        from <= k <= s@.len(),
        forall|j: int| from <= j < k ==> !is_space(#[trigger] s@[j]),
        k == s@.len() || is_space(s@[k as int]),
{
    let mut k: usize = from;
    while k < s.len() && !is_space_char(s[k])
        invariant
            from <= k <= s@.len(),
            forall|j: int| from <= j < k ==> !is_space(#[trigger] s@[j]),
        decreases s@.len() - k,
    {
        k += 1;
    }
    proof {
        lemma_first_space(s@, from as int, k as int);
    }
    k
}

/// Finds `last_non_space_end` for the whole of `s`.
pub(crate) fn skip_spaces_back(s: &Vec<char>, from: usize) -> (k: usize)
    requires
        from <= s@.len(),
    ensures
        k == last_non_space_end(s@, from as int, s@.len() as int),
        from <= k <= s@.len(),
{
    let mut k: usize = s.len();
    while k > from && is_space_char(s[k - 1])
        invariant
            from <= k <= s@.len(),
            forall|j: int| k <= j < s@.len() ==> is_space(#[trigger] s@[j]),
        decreases k,
    {
        k -= 1;
    }
    proof {
        lemma_last_non_space_end(s@, from as int, s@.len() as int, k as int);
    }
    k
}

/// Cuts leading and trailing white space off a line.
pub fn trimmed(s: &Vec<char>) -> (t: Vec<char>)
    ensures
        t@ == trim(s@),
{
    let a = skip_spaces(s, 0);
    let b = skip_spaces_back(s, a);
    copy_range(s, a, b)
}

/// Splits a line at white space.
pub fn split_words(s: &Vec<char>) -> (w: Vec<Vec<char>>)
    ensures
        w@.len() == words(s@).len(),
        forall|i: int| 0 <= i < w@.len() ==> (#[trigger] w@[i])@ == words(s@)[i],
{
    let mut w: Vec<Vec<char>> = Vec::new();
    let mut pos: usize = 0;
    let ghost mut done: Seq<Seq<char>> = Seq::empty();
    loop
        invariant
            pos <= s@.len(),
            done.len() == w@.len(),
            forall|i: int| 0 <= i < w@.len() ==> (#[trigger] w@[i])@ == done[i],
            done + words_from(s@, pos as int) == words(s@),
        ensures
            w@.len() == words(s@).len(),
            forall|i: int| 0 <= i < w@.len() ==> (#[trigger] w@[i])@ == words(s@)[i],
        decreases s@.len() - pos,
    {
        let a = skip_spaces(s, pos);
        let b = skip_word(s, a);
        if a >= b {
            proof {
                assert(words_from(s@, pos as int) =~= Seq::<Seq<char>>::empty());
                assert(done + Seq::<Seq<char>>::empty() =~= done);
            }
            break;
        }
        let word = copy_range(s, a, b);
        proof {
            assert(words_from(s@, pos as int) == seq![s@.subrange(a as int, b as int)]
                + words_from(s@, b as int));
            assert(done.push(word@) + words_from(s@, b as int) =~= done + (seq![
                s@.subrange(a as int, b as int),
            ] + words_from(s@, b as int)));
            done = done.push(word@);
        }
        w.push(word);
        pos = b;
    }
    w
}

/// Whether `s` begins with `prefix`.
pub fn has_prefix(s: &Vec<char>, prefix: &Vec<char>) -> (r: bool)
    ensures
        r == starts_with(s@, prefix@),
{
    if prefix.len() > s.len() {
        return false;
    }
    let mut k: usize = 0;
    while k < prefix.len()
        invariant
            prefix@.len() <= s@.len(),
            k <= prefix@.len(),
            forall|j: int| 0 <= j < k ==> s@[j] == prefix@[j],
        decreases prefix@.len() - k,
    {
        if s[k] != prefix[k] {
            assert(s@.subrange(0, prefix@.len() as int)[k as int] != prefix@[k as int]);
            return false;
        }
        k += 1;
    }
    assert(s@.subrange(0, prefix@.len() as int) =~= prefix@);
    true
}

} // verus!
