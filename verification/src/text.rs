//! Characters, words and numbers as text.

use vstd::prelude::*;

verus! {

broadcast use vstd::string::group_string_axioms;

/// `String::push` appends one character.
pub assume_specification[ String::push ](s: &mut String, c: char)
    ensures
        final(s)@ == old(s)@.push(c),
;

/// The text that an optional string holds.
pub open spec fn optional_text(s: Option<String>) -> Option<Seq<char>> {
    match s {
        Some(s) => Some(s@),
        None => None,
    }
}

/// The texts that strings hold.
pub open spec fn texts(v: Seq<String>) -> Seq<Seq<char>> {
    v.map_values(|s: String| s@)
}

// ---------------------------------------------------------------------------
// Whitespace
// ---------------------------------------------------------------------------

/// The Unicode `White_Space` property.
pub open spec fn is_space(c: char) -> bool {
    ||| '\u{9}' <= c <= '\u{d}'
    ||| c == ' '
    ||| c == '\u{85}'
    ||| c == '\u{a0}'
    ||| c == '\u{1680}'
    ||| '\u{2000}' <= c <= '\u{200a}'
    ||| c == '\u{2028}'
    ||| c == '\u{2029}'
    ||| c == '\u{202f}'
    ||| c == '\u{205f}'
    ||| c == '\u{3000}'
}

/// Whether `c` has the Unicode `White_Space` property.
pub fn is_whitespace(c: char) -> (r: bool)
    ensures
        r == is_space(c),
{
    ('\u{9}' <= c && c <= '\u{d}') || c == ' ' || c == '\u{85}' || c == '\u{a0}' || c
        == '\u{1680}' || ('\u{2000}' <= c && c <= '\u{200a}') || c == '\u{2028}' || c
        == '\u{2029}' || c == '\u{202f}' || c == '\u{205f}' || c == '\u{3000}'
}

/// The characters of `s`.
pub fn chars_of(s: &str) -> (r: Vec<char>)
    ensures
        r@ == s@,
{
    let mut out: Vec<char> = Vec::new();
    for c in it: s.chars()
        invariant
            out@ == s@.take(it.index() as int),
            it.seq() == s@,
    {
        proof {
            assert(s@.take(it.index() + 1) =~= s@.take(it.index() as int).push(c));
        }
        out.push(c);
    }
    assert(s@.take(s@.len() as int) =~= s@);
    out
}

/// The string made of the characters `from..to` of `chars`.
pub fn string_of(chars: &Vec<char>, from: usize, to: usize) -> (r: String)
    requires
        from <= to <= chars@.len(),
    ensures
        r@ == chars@.subrange(from as int, to as int),
{
    let mut out = String::new();
    let mut i: usize = from;
    while i < to
        invariant
            from <= i <= to <= chars@.len(),
            out@ == chars@.subrange(from as int, i as int),
        decreases to - i,
    {
        out.push(chars[i]);
        i = i + 1;
        assert(chars@.subrange(from as int, i as int) =~= chars@.subrange(
            from as int,
            i - 1,
        ).push(chars@[i - 1]));
    }
    out
}

// ---------------------------------------------------------------------------
// Words
// ---------------------------------------------------------------------------

/// The maximal runs of non-whitespace characters of `s`, in order.
pub open spec fn words(s: Seq<char>) -> Seq<Seq<char>>
    decreases s.len(),
{
    if s.len() == 0 {
        Seq::empty()
    } else {
        let before = words(s.drop_last());
        let c = s.last();
        if is_space(c) {
            before
        } else if ends_in_word(s.drop_last()) {
            before.drop_last().push(before.last().push(c))
        } else {
            before.push(seq![c])
        }
    }
}

/// Whether `s` ends in the middle of a word.
pub open spec fn ends_in_word(s: Seq<char>) -> bool {
    s.len() > 0 && !is_space(s.last())
}

/// The parts one after the other, with `glue` between neighbours.
pub open spec fn joined(parts: Seq<Seq<char>>, glue: Seq<char>) -> Seq<char>
    decreases parts.len(),
{
    if parts.len() == 0 {
        Seq::empty()
    } else {
        let before = joined(parts.drop_last(), glue);
        (if parts.len() == 1 {
            before
        } else {
            before + glue
        }) + parts.last()
    }
}

/// `s` with every run of whitespace collapsed to one space and both ends trimmed.
pub open spec fn collapsed(s: Seq<char>) -> Seq<char> {
    joined(words(s), seq![' '])
}

/// A word: not empty, and free of whitespace.
pub open spec fn is_word(w: Seq<char>) -> bool {
    w.len() > 0 && forall|i: int| 0 <= i < w.len() ==> !is_space(#[trigger] w[i])
}

/// The words of a text are words, and there is one as soon as the text ends in one.
pub proof fn lemma_words_are_words(s: Seq<char>)
    ensures
        forall|k: int| 0 <= k < words(s).len() ==> is_word(#[trigger] words(s)[k]),
        ends_in_word(s) ==> words(s).len() > 0,
    decreases s.len(),
{
    if s.len() > 0 {
        let rest = s.drop_last();
        lemma_words_are_words(rest);
        let before = words(rest);
        let c = s.last();
        if !is_space(c) {
            if ends_in_word(rest) {
                let longer = before.last().push(c);
                assert(is_word(before[before.len() - 1]));
                assert(is_word(longer));
            } else {
                assert(is_word(seq![c]));
            }
        }
    }
}

/// Appending a part to a joined text.
pub proof fn lemma_joined_push(parts: Seq<Seq<char>>, part: Seq<char>, glue: Seq<char>)
    ensures
        joined(parts.push(part), glue) == (if parts.len() == 0 {
            part
        } else {
            joined(parts, glue) + glue + part
        }),
{
    assert(parts.push(part).drop_last() =~= parts);
    assert(parts.push(part).last() == part);
    if parts.len() == 0 {
        assert(joined(parts, glue) =~= Seq::empty());
        assert(Seq::<char>::empty() + part =~= part);
    }
}

/// Lengthening the last part of a joined text.
pub proof fn lemma_joined_extend(parts: Seq<Seq<char>>, c: char, glue: Seq<char>)
    requires
        parts.len() > 0,
    ensures
        joined(parts.drop_last().push(parts.last().push(c)), glue) == joined(parts, glue).push(c),
{
    let front = parts.drop_last();
    assert(front.push(parts.last()) =~= parts);
    lemma_joined_push(front, parts.last(), glue);
    lemma_joined_push(front, parts.last().push(c), glue);
    if front.len() > 0 {
        assert(joined(front, glue) + glue + parts.last().push(c) =~= (joined(front, glue) + glue
            + parts.last()).push(c));
    }
}

/// Appending a word to a text that does not end in one adds that word.
proof fn lemma_words_append(front: Seq<char>, w: Seq<char>)
    requires
        is_word(w),
        !ends_in_word(front),
    ensures
        words(front + w) == words(front).push(w),
        ends_in_word(front + w),
    decreases w.len(),
{
    let whole = front + w;
    let c = w.last();
    assert(whole.drop_last() =~= front + w.drop_last());
    assert(whole.last() == c);
    assert(c == w[w.len() - 1]);
    if w.len() == 1 {
        assert(front + w.drop_last() =~= front);
        assert(w =~= seq![c]);
    } else {
        assert(is_word(w.drop_last())) by {
            assert forall|i: int| 0 <= i < w.len() - 1 implies !is_space(
                #[trigger] w.drop_last()[i],
            ) by {
                assert(w.drop_last()[i] == w[i]);
            }
        }
        lemma_words_append(front, w.drop_last());
        let before = words(front + w.drop_last());
        assert(before.drop_last() =~= words(front));
        assert(before.last().push(c) =~= w);
    }
}

/// Splitting words that were joined by single spaces gives the same words back.
pub proof fn lemma_words_of_joined(parts: Seq<Seq<char>>)
    requires
        forall|k: int| 0 <= k < parts.len() ==> is_word(#[trigger] parts[k]),
    ensures
        words(joined(parts, seq![' '])) == parts,
    decreases parts.len(),
{
    let glue: Seq<char> = seq![' '];
    if parts.len() == 0 {
        assert(joined(parts, glue) =~= Seq::empty());
    } else {
        let front = parts.drop_last();
        assert forall|k: int| 0 <= k < front.len() implies is_word(#[trigger] front[k]) by {
            assert(front[k] == parts[k]);
        }
        lemma_words_of_joined(front);
        assert(is_word(parts[parts.len() - 1]));
        assert(front.push(parts.last()) =~= parts);
        lemma_joined_push(front, parts.last(), glue);
        if front.len() == 0 {
            let none: Seq<char> = Seq::empty();
            lemma_words_append(none, parts.last());
            assert(none + parts.last() =~= parts.last());
            assert(words(none) =~= front);
        } else {
            let spaced = joined(front, glue) + glue;
            assert(spaced.drop_last() =~= joined(front, glue));
            assert(spaced.last() == ' ');
            assert(words(spaced) == front);
            lemma_words_append(spaced, parts.last());
        }
    }
}

proof fn lemma_words_add(front: Seq<char>, back: Seq<char>)
    requires
        !ends_in_word(front),
    ensures
        words(front + back) == words(front) + words(back),
        ends_in_word(front + back) == ends_in_word(back),
    decreases back.len(),
{
    let whole = front + back;
    if back.len() == 0 {
        assert(whole =~= front);
        assert(words(front) + words(back) =~= words(front));
    } else {
        let less = back.drop_last();
        lemma_words_add(front, less);
        assert(whole.drop_last() =~= front + less);
        assert(whole.last() == back.last());
        let before = words(front + less);
        lemma_words_are_words(less);
        if !is_space(back.last()) {
            if ends_in_word(less) {
                assert(before.drop_last() =~= words(front) + words(less).drop_last());
                assert(before.last() == words(less).last());
                assert(words(whole) =~= words(front) + words(back));
            } else {
                assert(words(whole) =~= words(front) + words(back));
            }
        }
    }
}

proof fn lemma_joined_add(a: Seq<Seq<char>>, b: Seq<Seq<char>>, glue: Seq<char>)
    ensures
        joined(a + b, glue) == (if a.len() == 0 {
            joined(b, glue)
        } else if b.len() == 0 {
            joined(a, glue)
        } else {
            joined(a, glue) + glue + joined(b, glue)
        }),
    decreases b.len(),
{
    if b.len() == 0 {
        assert(a + b =~= a);
        if a.len() == 0 {
            assert(a =~= b);
        }
    } else {
        let less = b.drop_last();
        lemma_joined_add(a, less, glue);
        assert((a + less).push(b.last()) =~= a + b);
        assert(less.push(b.last()) =~= b);
        lemma_joined_push(a + less, b.last(), glue);
        lemma_joined_push(less, b.last(), glue);
        if a.len() > 0 && less.len() > 0 {
            assert(joined(a, glue) + glue + joined(less, glue) + glue + b.last() =~= joined(a, glue)
                + glue + (joined(less, glue) + glue + b.last()));
        }
        if a.len() == 0 {
            assert(a + b =~= b);
        }
    }
}

proof fn lemma_only_no_words_join_to_nothing(s: Seq<char>)
    ensures
        collapsed(s).len() == 0 <==> words(s).len() == 0,
{
    lemma_words_are_words(s);
    if words(s).len() > 0 {
        let front = words(s).drop_last();
        assert(front.push(words(s).last()) =~= words(s));
        assert(is_word(words(s)[words(s).len() - 1]));
        lemma_joined_push(front, words(s).last(), seq![' ']);
    }
}

/// A text without whitespace is left as it is.
pub proof fn law_a_word_is_left_as_it_is(w: Seq<char>)
    requires
        forall|i: int| 0 <= i < w.len() ==> !is_space(#[trigger] w[i]),
    ensures
        collapsed(w) == w,
{
    let none: Seq<char> = Seq::empty();
    if w.len() == 0 {
        assert(words(w) =~= Seq::empty());
        assert(collapsed(w) =~= w);
    } else {
        assert(is_word(w));
        lemma_words_append(none, w);
        assert(none + w =~= w);
        let no_words: Seq<Seq<char>> = Seq::empty();
        assert(words(none) =~= no_words);
        lemma_joined_push(no_words, w, seq![' ']);
    }
}

/// Wherever there is whitespace, the texts on its two sides are collapsed each
/// for itself, and one space stands between them if there is anything on both.
pub proof fn law_whitespace_parts_what_is_around_it(a: Seq<char>, c: char, b: Seq<char>)
    requires
        is_space(c),
    ensures
        collapsed(a.push(c) + b) == (if collapsed(a).len() == 0 {
            collapsed(b)
        } else if collapsed(b).len() == 0 {
            collapsed(a)
        } else {
            collapsed(a).push(' ') + collapsed(b)
        }),
{
    let front = a.push(c);
    assert(front.drop_last() =~= a);
    lemma_words_add(front, b);
    lemma_joined_add(words(a), words(b), seq![' ']);
    lemma_only_no_words_join_to_nothing(a);
    lemma_only_no_words_join_to_nothing(b);
    assert(collapsed(a) + seq![' '] =~= collapsed(a).push(' '));
}

/// Collapsing whitespace twice is the same as collapsing it once.
pub proof fn law_collapse_is_idempotent(s: Seq<char>)
    ensures
        collapsed(collapsed(s)) == collapsed(s),
{
    lemma_words_are_words(s);
    lemma_words_of_joined(words(s));
}

/// Two neighbouring characters of `s` that are both whitespace.
pub open spec fn double_space_at(s: Seq<char>, i: int) -> bool {
    is_space(s[i]) && is_space(s[i + 1])
}

/// A collapsed text holds no whitespace but single spaces, and none at its ends.
pub proof fn law_collapsed_spacing(s: Seq<char>)
    ensures
        forall|i: int|
            0 <= i < collapsed(s).len() && is_space(#[trigger] collapsed(s)[i]) ==> collapsed(s)[i]
                == ' ',
        forall|i: int|
            0 <= i < collapsed(s).len() - 1 ==> !(#[trigger] double_space_at(collapsed(s), i)),
        collapsed(s).len() > 0 ==> !is_space(collapsed(s).first()) && !is_space(
            collapsed(s).last(),
        ),
{
    lemma_words_are_words(s);
    lemma_joined_spacing(words(s));
}

proof fn lemma_joined_spacing(parts: Seq<Seq<char>>)
    requires
        forall|k: int| 0 <= k < parts.len() ==> is_word(#[trigger] parts[k]),
    ensures
        ({
            let t = joined(parts, seq![' ']);
            &&& parts.len() > 0 ==> t.len() > 0
            &&& forall|i: int| 0 <= i < t.len() && is_space(#[trigger] t[i]) ==> t[i] == ' '
            &&& forall|i: int| 0 <= i < t.len() - 1 ==> !(#[trigger] double_space_at(t, i))
            &&& t.len() > 0 ==> !is_space(t.first()) && !is_space(t.last())
        }),
    decreases parts.len(),
{
    let glue: Seq<char> = seq![' '];
    let t = joined(parts, glue);
    if parts.len() > 0 {
        let front = parts.drop_last();
        let w = parts.last();
        assert forall|k: int| 0 <= k < front.len() implies is_word(#[trigger] front[k]) by {
            assert(front[k] == parts[k]);
        }
        lemma_joined_spacing(front);
        assert(is_word(parts[parts.len() - 1]));
        assert(front.push(w) =~= parts);
        lemma_joined_push(front, w, glue);
        if front.len() > 0 {
            let f = joined(front, glue);
            let n = f.len() as int;
            assert(t =~= f + glue + w);
            assert forall|i: int| 0 <= i < t.len() && is_space(#[trigger] t[i]) implies t[i]
                == ' ' by {
                if i < n {
                    assert(t[i] == f[i]);
                } else if i > n {
                    assert(t[i] == w[i - n - 1]);
                }
            }
            assert forall|i: int| 0 <= i < t.len() - 1 implies !(#[trigger] double_space_at(
                t,
                i,
            )) by {
                if i < n - 1 {
                    assert(t[i] == f[i] && t[i + 1] == f[i + 1]);
                    assert(!double_space_at(f, i));
                } else if i == n - 1 {
                    assert(t[i] == f.last());
                } else {
                    assert(t[i + 1] == w[i - n]);
                }
            }
            assert(t.first() == f.first());
            assert(t.last() == w[w.len() - 1]);
        } else {
            assert(t =~= w);
            assert forall|i: int| 0 <= i < t.len() - 1 implies !(#[trigger] double_space_at(
                t,
                i,
            )) by {
                assert(!is_space(w[i]));
            }
        }
    }
}

// ---------------------------------------------------------------------------
// Trimming and searching
// ---------------------------------------------------------------------------

/// `s` without its leading whitespace.
pub open spec fn trimmed_front(s: Seq<char>) -> Seq<char>
    decreases s.len(),
{
    if s.len() > 0 && is_space(s.first()) {
        trimmed_front(s.drop_first())
    } else {
        s
    }
}

/// `s` without its trailing whitespace.
pub open spec fn trimmed_back(s: Seq<char>) -> Seq<char>
    decreases s.len(),
{
    if s.len() > 0 && is_space(s.last()) {
        trimmed_back(s.drop_last())
    } else {
        s
    }
}

/// `s` without whitespace at either end.
pub open spec fn trimmed(s: Seq<char>) -> Seq<char> {
    trimmed_back(trimmed_front(s))
}

proof fn lemma_trimmed_front(s: Seq<char>) -> (i: int)
    ensures
        0 <= i <= s.len(),
        trimmed_front(s) == s.skip(i),
        forall|k: int| 0 <= k < i ==> is_space(#[trigger] s[k]),
        i < s.len() ==> !is_space(s[i]),
    decreases s.len(),
{
    if s.len() > 0 && is_space(s.first()) {
        let rest = s.drop_first();
        let i = lemma_trimmed_front(rest) + 1;
        assert(rest.skip(i - 1) =~= s.skip(i));
        assert forall|k: int| 0 <= k < i implies is_space(#[trigger] s[k]) by {
            if k > 0 {
                assert(rest[k - 1] == s[k]);
            }
        }
        i
    } else {
        assert(s.skip(0) =~= s);
        0
    }
}

proof fn lemma_trimmed_back(s: Seq<char>) -> (j: int)
    ensures
        0 <= j <= s.len(),
        trimmed_back(s) == s.take(j),
        forall|k: int| j <= k < s.len() ==> is_space(#[trigger] s[k]),
        j > 0 ==> !is_space(s[j - 1]),
    decreases s.len(),
{
    if s.len() > 0 && is_space(s.last()) {
        let rest = s.drop_last();
        let j = lemma_trimmed_back(rest);
        assert(rest.take(j) =~= s.take(j));
        assert forall|k: int| j <= k < s.len() implies is_space(#[trigger] s[k]) by {
            if k < rest.len() {
                assert(rest[k] == s[k]);
            }
        }
        j
    } else {
        assert(s.take(s.len() as int) =~= s);
        s.len() as int
    }
}

/// Trimming takes away whitespace at the ends and nothing else: what is left
/// stands in the text between whitespace, and neither begins nor ends with any.
pub proof fn law_trimming_takes_only_whitespace(s: Seq<char>)
    ensures
        exists|i: int, j: int|
            {
                &&& 0 <= i <= j <= s.len()
                &&& trimmed(s) == #[trigger] s.subrange(i, j)
                &&& forall|k: int| 0 <= k < i || j <= k < s.len() ==> is_space(#[trigger] s[k])
            },
        trimmed(s).len() > 0 ==> !is_space(trimmed(s).first()) && !is_space(trimmed(s).last()),
{
    let i = lemma_trimmed_front(s);
    let front = s.skip(i);
    let n = lemma_trimmed_back(front);
    let j = i + n;
    assert(front.take(n) =~= s.subrange(i, j));
    assert forall|k: int| 0 <= k < i || j <= k < s.len() implies is_space(#[trigger] s[k]) by {
        if k >= j {
            assert(front[k - i] == s[k]);
        }
    }
    if n > 0 {
        if i < s.len() {
            assert(front[0] == s[i]);
        }
        assert(front[n - 1] == s.subrange(i, j)[n - 1]);
    }
}

/// Removes whitespace at both ends.
pub fn trim(s: &str) -> (r: String)
    ensures
        r@ == trimmed(s@),
{
    let chars = chars_of(s);
    let n = chars.len();
    let mut from: usize = 0;
    assert(chars@.subrange(0, n as int) =~= s@);
    while from < n && is_whitespace(chars[from])
        invariant
            from <= n == chars@.len(),
            trimmed_front(s@) == trimmed_front(chars@.subrange(from as int, n as int)),
        decreases n - from,
    {
        let ghost here = chars@.subrange(from as int, n as int);
        assert(here.first() == chars@[from as int]);
        assert(here.drop_first() =~= chars@.subrange(from + 1, n as int));
        from = from + 1;
    }
    let ghost front = chars@.subrange(from as int, n as int);
    assert(from < n ==> front.first() == chars@[from as int]);
    assert(trimmed_front(s@) == front);
    let mut to: usize = n;
    while to > from && is_whitespace(chars[to - 1])
        invariant
            from <= to <= n == chars@.len(),
            trimmed_back(front) == trimmed_back(chars@.subrange(from as int, to as int)),
        decreases to,
    {
        let ghost here = chars@.subrange(from as int, to as int);
        assert(here.last() == chars@[to - 1]);
        assert(here.drop_last() =~= chars@.subrange(from as int, to - 1));
        to = to - 1;
    }
    let ghost kept = chars@.subrange(from as int, to as int);
    assert(to > from ==> kept.last() == chars@[to - 1]);
    string_of(&chars, from, to)
}

/// Whether `needle` stands in `hay` at position `i`.
pub open spec fn occurs_at(hay: Seq<char>, needle: Seq<char>, i: int) -> bool {
    0 <= i <= hay.len() - needle.len() && hay.subrange(i, i + needle.len()) == needle
}

/// Whether `needle` stands somewhere in `hay`.
pub open spec fn holds_text(hay: Seq<char>, needle: Seq<char>) -> bool {
    exists|i: int| occurs_at(hay, needle, i)
}

/// Whether `hay` begins with `needle`.
pub open spec fn begins_with(hay: Seq<char>, needle: Seq<char>) -> bool {
    occurs_at(hay, needle, 0)
}

fn matches_at(hay: &Vec<char>, needle: &Vec<char>, at: usize) -> (r: bool)
    requires
        at + needle@.len() <= hay@.len(),
    ensures
        r == occurs_at(hay@, needle@, at as int),
{
    let size = hay.len();
    let mut k: usize = 0;
    while k < needle.len()
        invariant
            k <= needle@.len(),
            at + needle@.len() <= hay@.len() == size,
            forall|j: int| 0 <= j < k ==> hay@[at + j] == #[trigger] needle@[j],
        decreases needle@.len() - k,
    {
        if hay[at + k] != needle[k] {
            assert(hay@.subrange(at as int, at + needle@.len())[k as int] != needle@[k as int]);
            return false;
        }
        k = k + 1;
    }
    assert(hay@.subrange(at as int, at + needle@.len()) =~= needle@);
    true
}

/// Whether `needle` occurs in `hay`.
pub fn contains(hay: &str, needle: &str) -> (r: bool)
    ensures
        r == holds_text(hay@, needle@),
{
    let h = chars_of(hay);
    let n = chars_of(needle);
    if n.len() > h.len() {
        return false;
    }
    let last = h.len() - n.len();
    let mut i: usize = 0;
    while i <= last
        invariant
            i <= last + 1,
            h@ == hay@,
            n@ == needle@,
            last + n@.len() == h@.len(),
            forall|j: int| 0 <= j < i ==> !occurs_at(hay@, needle@, j),
        decreases last + 1 - i,
    {
        if matches_at(&h, &n, i) {
            return true;
        }
        if i == last {
            return false;
        }
        i = i + 1;
    }
    false
}

/// Whether the character `c` occurs in `hay`.
pub fn contains_char(hay: &str, c: char) -> (r: bool)
    ensures
        r == hay@.contains(c),
{
    let h = chars_of(hay);
    let mut i: usize = 0;
    while i < h.len()
        invariant
            i <= h@.len(),
            h@ == hay@,
            forall|j: int| 0 <= j < i ==> hay@[j] != c,
        decreases h@.len() - i,
    {
        if h[i] == c {
            assert(hay@[i as int] == c);
            return true;
        }
        i = i + 1;
    }
    false
}

/// A text holds another if and only if it is that other with something, or
/// nothing, before and after it.
pub proof fn law_a_text_holds_what_stands_in_it(hay: Seq<char>, needle: Seq<char>)
    ensures
        holds_text(hay, needle) <==> exists|a: Seq<char>, b: Seq<char>|
            hay == #[trigger] (a + needle + b),
        begins_with(hay, needle) <==> exists|b: Seq<char>| hay == #[trigger] (needle + b),
{
    let n = needle.len();
    if holds_text(hay, needle) {
        let i = choose|i: int| occurs_at(hay, needle, i);
        assert(hay =~= hay.take(i) + needle + hay.skip((i + n) as int)) by {
            assert(hay.subrange(i, (i + n) as int) =~= needle);
            assert forall|k: int| i <= k < i + n implies hay[k] == needle[k - i] by {
                assert(hay.subrange(i, (i + n) as int)[k - i] == hay[k]);
            }
        }
    }
    if exists|a: Seq<char>, b: Seq<char>| hay == #[trigger] (a + needle + b) {
        let (a, b) = choose|a: Seq<char>, b: Seq<char>| hay == #[trigger] (a + needle + b);
        let i = a.len() as int;
        assert(hay.subrange(i, (i + n) as int) =~= needle);
        assert(occurs_at(hay, needle, i));
    }
    if begins_with(hay, needle) {
        assert(hay =~= needle + hay.skip(n as int)) by {
            assert(hay.subrange(0, n as int) =~= needle);
            assert forall|k: int| 0 <= k < n implies hay[k] == needle[k] by {
                assert(hay.subrange(0, n as int)[k] == hay[k]);
            }
        }
    }
    if exists|b: Seq<char>| hay == #[trigger] (needle + b) {
        let b = choose|b: Seq<char>| hay == #[trigger] (needle + b);
        assert(hay.subrange(0, n as int) =~= needle);
    }
}

// ---------------------------------------------------------------------------
// Lines
// ---------------------------------------------------------------------------

/// The lines of a text: what stands before, between and after its line breaks.
pub open spec fn lines(s: Seq<char>) -> Seq<Seq<char>>
    decreases s.len(),
{
    if s.len() == 0 {
        seq![Seq::empty()]
    } else {
        let before = lines(s.drop_last());
        if s.last() == '\n' {
            before.push(Seq::empty())
        } else {
            before.drop_last().push(before.last().push(s.last()))
        }
    }
}

/// Whether a text is a single line.
pub open spec fn is_line(s: Seq<char>) -> bool {
    !s.contains('\n')
}

pub proof fn lemma_line(s: Seq<char>)
    requires
        is_line(s),
    ensures
        lines(s) == seq![s],
    decreases s.len(),
{
    if s.len() == 0 {
        assert(s =~= Seq::empty());
    } else {
        let less = s.drop_last();
        assert(s.contains(s[s.len() - 1]));
        assert forall|c: char| less.contains(c) implies s.contains(c) by {
            let i = choose|i: int| 0 <= i < less.len() && less[i] == c;
            assert(s[i] == c);
        }
        lemma_line(less);
        assert(less.push(s.last()) =~= s);
        assert(lines(s) =~= seq![s]);
    }
}

pub proof fn lemma_lines_break(a: Seq<char>, b: Seq<char>)
    ensures
        lines(a.push('\n') + b) == lines(a) + lines(b),
        lines(b).len() > 0,
    decreases b.len(),
{
    let whole = a.push('\n') + b;
    if b.len() == 0 {
        assert(whole =~= a.push('\n'));
        assert(whole.drop_last() =~= a);
        assert(b =~= Seq::empty());
        assert(lines(whole) =~= lines(a) + lines(b));
    } else {
        let less = b.drop_last();
        lemma_lines_break(a, less);
        assert(whole.drop_last() =~= a.push('\n') + less);
        assert(whole.last() == b.last());
        let before = lines(a.push('\n') + less);
        assert(before.last() == lines(less).last());
        assert(before.drop_last() =~= lines(a) + lines(less).drop_last());
        assert(lines(whole) =~= lines(a) + lines(b));
    }
}

/// A text begins with a line if its lines do.
pub proof fn lemma_first_line(s: Seq<char>, rest: Seq<char>)
    requires
        is_line(s),
    ensures
        lines(s.push('\n') + rest) == seq![s] + lines(rest),
{
    lemma_line(s);
    lemma_lines_break(s, rest);
}

// ---------------------------------------------------------------------------
// Numbers
// ---------------------------------------------------------------------------

/// The decimal digit `d` as a character.
pub open spec fn digit(d: nat) -> char {
    (48 + d) as char
}

/// `n` in decimal, without leading zeros.
pub open spec fn decimal(n: nat) -> Seq<char>
    decreases n,
{
    if n < 10 {
        seq![digit(n)]
    } else {
        decimal(n / 10).push(digit(n % 10))
    }
}

/// `n` in decimal, with a minus sign if it is negative.
pub open spec fn signed_decimal(n: int) -> Seq<char> {
    if n < 0 {
        seq!['-'] + decimal((-n) as nat)
    } else {
        decimal(n as nat)
    }
}

/// Appends `n` in decimal.
pub fn push_decimal(out: &mut String, n: u128)
    ensures
        final(out)@ == old(out)@ + decimal(n as nat),
    decreases n,
{
    let d: u8 = (n % 10) as u8;
    let c = (48 + d) as char;
    if n >= 10 {
        push_decimal(out, n / 10);
    }
    let ghost before = out@;
    out.push(c);
    proof {
        assert(c == digit((n % 10) as nat));
        if n >= 10 {
            assert(old(out)@ + decimal((n / 10) as nat).push(c) =~= (old(out)@ + decimal(
                (n / 10) as nat,
            )).push(c));
        } else {
            assert(old(out)@ + seq![c] =~= old(out)@.push(c));
        }
    }
}

/// Appends `n` in decimal, with a minus sign if it is negative.
pub fn push_signed_decimal(out: &mut String, n: i64)
    ensures
        final(out)@ == old(out)@ + signed_decimal(n as int),
{
    if n < 0 {
        out.push('-');
        let magnitude: u128 = (-(n as i128)) as u128;
        push_decimal(out, magnitude);
        assert(old(out)@.push('-') + decimal((-n) as nat) =~= old(out)@ + (seq!['-'] + decimal(
            (-n) as nat,
        )));
    } else {
        push_decimal(out, n as u128);
    }
}

/// The hexadecimal digit `d` as a lower-case character.
pub open spec fn hex_digit(d: nat) -> char {
    if d < 10 {
        digit(d)
    } else {
        (87 + d) as char
    }
}

/// The last `width` hexadecimal digits of `n`, with leading zeros.
pub open spec fn hexadecimal(n: nat, width: nat) -> Seq<char>
    decreases width,
{
    if width == 0 {
        Seq::empty()
    } else {
        hexadecimal(n / 16, (width - 1) as nat).push(hex_digit(n % 16))
    }
}

/// Appends the last `width` hexadecimal digits of `n`, with leading zeros.
pub fn push_hexadecimal(out: &mut String, n: u64, width: u8)
    ensures
        final(out)@ == old(out)@ + hexadecimal(n as nat, width as nat),
    decreases width,
{
    if width > 0 {
        push_hexadecimal(out, n / 16, width - 1);
        let d: u8 = (n % 16) as u8;
        let c = if d < 10 {
            (48 + d) as char
        } else {
            (87 + d) as char
        };
        assert(c == hex_digit((n % 16) as nat));
        assert(old(out)@ + hexadecimal((n / 16) as nat, (width - 1) as nat).push(c) =~= (old(out)@
            + hexadecimal((n / 16) as nat, (width - 1) as nat)).push(c));
        out.push(c);
    } else {
        assert(old(out)@ + Seq::<char>::empty() =~= old(out)@);
    }
}

/// Whether `c` is an ASCII decimal digit.
pub open spec fn is_digit(c: char) -> bool {
    '0' <= c <= '9'
}

/// Whether `s` is one digit or more, and nothing else.
pub open spec fn is_numeral(s: Seq<char>) -> bool {
    s.len() > 0 && forall|i: int| 0 <= i < s.len() ==> is_digit(#[trigger] s[i])
}

/// The number that a row of decimal digits stands for.
pub open spec fn numeral_value(s: Seq<char>) -> int
    decreases s.len(),
{
    if s.len() == 0 {
        0
    } else {
        numeral_value(s.drop_last()) * 10 + (s.last() as int - '0' as int)
    }
}

/// The integer that `s` spells: digits, after an optional `+`, or `-` where
/// `signed` allows it.
pub open spec fn spelled_integer(s: Seq<char>, signed: bool) -> Option<int> {
    let marked = s.len() > 0 && (s[0] == '+' || (signed && s[0] == '-'));
    let digits = if marked {
        s.drop_first()
    } else {
        s
    };
    if !is_numeral(digits) {
        None
    } else if marked && s[0] == '-' {
        Some(-numeral_value(digits))
    } else {
        Some(numeral_value(digits))
    }
}

/// `spelled_integer` where its value lies in `lo..=hi`.
pub open spec fn integer_in(s: Seq<char>, signed: bool, lo: int, hi: int) -> Option<int> {
    match spelled_integer(s, signed) {
        Some(v) => if lo <= v <= hi {
            Some(v)
        } else {
            None
        },
        None => None,
    }
}

proof fn lemma_decimal_is_a_numeral(n: nat)
    ensures
        is_numeral(decimal(n)),
        numeral_value(decimal(n)) == n,
    decreases n,
{
    let s = decimal(n);
    assert(is_digit(digit(n % 10)));
    if n >= 10 {
        lemma_decimal_is_a_numeral(n / 10);
        assert(s.drop_last() =~= decimal(n / 10));
        assert forall|i: int| 0 <= i < s.len() implies is_digit(#[trigger] s[i]) by {
            if i < s.len() - 1 {
                assert(s[i] == decimal(n / 10)[i]);
            }
        }
    } else {
        assert(s.drop_last() =~= Seq::empty());
        assert(numeral_value(s.drop_last()) == 0);
    }
}

pub proof fn lemma_lines_of_joined(parts: Seq<Seq<char>>, glue: Seq<char>)
    requires
        parts.len() > 0,
        glue == seq!['\n'],
        forall|i: int| 0 <= i < parts.len() ==> is_line(#[trigger] parts[i]),
    ensures
        lines(joined(parts, glue)) == parts,
    decreases parts.len(),
{
    let front = parts.drop_last();
    assert(front.push(parts.last()) =~= parts);
    lemma_joined_push(front, parts.last(), glue);
    assert(is_line(parts[parts.len() - 1]));
    lemma_line(parts.last());
    if front.len() > 0 {
        assert forall|i: int| 0 <= i < front.len() implies is_line(#[trigger] front[i]) by {
            assert(front[i] == parts[i]);
        }
        lemma_lines_of_joined(front, glue);
        assert(joined(front, glue) + glue + parts.last() =~= joined(front, glue).push('\n')
            + parts.last());
        lemma_lines_break(joined(front, glue), parts.last());
        assert(lines(joined(parts, glue)) =~= parts);
    } else {
        assert(parts =~= seq![parts.last()]);
    }
}

pub proof fn lemma_lines_add_up(a: Seq<char>, b: Seq<char>)
    requires
        is_line(a),
        is_line(b),
    ensures
        is_line(a + b),
{
    if (a + b).contains('\n') {
        let i = choose|i: int| 0 <= i < (a + b).len() && (a + b)[i] == '\n';
        if i < a.len() {
            assert(a[i] == '\n');
        } else {
            assert(b[i - a.len()] == '\n');
        }
    }
}

pub proof fn lemma_decimal_is_a_line(n: nat)
    ensures
        is_line(decimal(n)),
{
    lemma_decimal_is_a_numeral(n);
    if decimal(n).contains('\n') {
        let i = choose|i: int| 0 <= i < decimal(n).len() && decimal(n)[i] == '\n';
        assert(is_digit(decimal(n)[i]));
    }
}

/// An integer written in decimal reads back as itself.
pub proof fn law_decimal_reads_back(n: int)
    ensures
        spelled_integer(signed_decimal(n), true) == Some(n),
        n >= 0 ==> spelled_integer(decimal(n as nat), false) == Some(n),
{
    if n < 0 {
        lemma_decimal_is_a_numeral((-n) as nat);
        assert(signed_decimal(n).drop_first() =~= decimal((-n) as nat));
    } else {
        lemma_decimal_is_a_numeral(n as nat);
        assert(is_digit(signed_decimal(n)[0]));
    }
}

/// Longer numerals are worth at least as much.
proof fn lemma_numeral_grows(s: Seq<char>, k: int)
    requires
        0 <= k <= s.len(),
        forall|i: int| 0 <= i < s.len() ==> is_digit(#[trigger] s[i]),
    ensures
        0 <= numeral_value(s.take(k)) <= numeral_value(s),
    decreases s.len(),
{
    if s.len() > 0 {
        let rest = s.drop_last();
        assert forall|i: int| 0 <= i < rest.len() implies is_digit(#[trigger] rest[i]) by {
            assert(rest[i] == s[i]);
        }
        assert(is_digit(s[s.len() - 1]));
        if k == s.len() {
            assert(s.take(k) =~= s);
            lemma_numeral_grows(rest, 0);
            assert(rest.take(0) =~= Seq::empty());
            assert(numeral_value(Seq::<char>::empty()) == 0);
        } else {
            lemma_numeral_grows(rest, k);
            assert(rest.take(k) =~= s.take(k));
        }
    } else {
        assert(s.take(k) =~= s);
    }
}

/// The value of the numeral that starts at `from`, if it is one and fits.
fn numeral_from(chars: &Vec<char>, from: usize) -> (r: Option<u64>)
    requires
        from <= chars@.len(),
    ensures
        ({
            let digits = chars@.subrange(from as int, chars@.len() as int);
            r == (if is_numeral(digits) && numeral_value(digits) <= u64::MAX {
                Some(numeral_value(digits) as u64)
            } else {
                None
            })
        }),
{
    let ghost digits = chars@.subrange(from as int, chars@.len() as int);
    if from == chars.len() {
        return None;
    }
    let mut value: u64 = 0;
    let mut i: usize = from;
    while i < chars.len()
        invariant
            from <= i <= chars@.len(),
            digits == chars@.subrange(from as int, chars@.len() as int),
            forall|j: int| 0 <= j < i - from ==> is_digit(#[trigger] digits[j]),
            value == numeral_value(digits.take(i - from)),
        decreases chars@.len() - i,
    {
        let c = chars[i];
        let ghost k: int = i - from;
        assert(digits[k] == c);
        if !('0' <= c && c <= '9') {
            return None;
        }
        assert(digits.take(k + 1).drop_last() =~= digits.take(k));
        assert(digits.take(k + 1).last() == c);
        let d: u64 = c as u64 - 48;
        let wide: u128 = value as u128 * 10 + d as u128;
        if wide > u64::MAX as u128 {
            proof {
                if is_numeral(digits) {
                    lemma_numeral_grows(digits, k + 1);
                }
            }
            return None;
        }
        value = wide as u64;
        i = i + 1;
    }
    assert(digits.take(digits.len() as int) =~= digits);
    Some(value)
}

/// Parses a `u64` as its standard text form: an optional `+`, then digits.
pub fn parse_u64(s: &str) -> (r: Option<u64>)
    ensures
        match r {
            Some(v) => integer_in(s@, false, 0, u64::MAX as int) == Some(v as int),
            None => integer_in(s@, false, 0, u64::MAX as int) is None,
        },
{
    let chars = chars_of(s);
    let marked = chars.len() > 0 && chars[0] == '+';
    let from: usize = if marked {
        1
    } else {
        0
    };
    proof {
        let digits = chars@.subrange(from as int, chars@.len() as int);
        if marked {
            assert(digits =~= s@.drop_first());
        } else {
            assert(digits =~= s@);
        }
        if is_numeral(digits) {
            lemma_numeral_grows(digits, 0);
        }
    }
    numeral_from(&chars, from)
}

/// Parses an `i64` as its standard text form: an optional `+` or `-`, then digits.
pub fn parse_i64(s: &str) -> (r: Option<i64>)
    ensures
        match r {
            Some(v) => integer_in(s@, true, i64::MIN as int, i64::MAX as int) == Some(v as int),
            None => integer_in(s@, true, i64::MIN as int, i64::MAX as int) is None,
        },
{
    let chars = chars_of(s);
    let negative = chars.len() > 0 && chars[0] == '-';
    let marked = negative || (chars.len() > 0 && chars[0] == '+');
    let from: usize = if marked {
        1
    } else {
        0
    };
    proof {
        let digits = chars@.subrange(from as int, chars@.len() as int);
        if marked {
            assert(digits =~= s@.drop_first());
        } else {
            assert(digits =~= s@);
        }
        if is_numeral(digits) {
            lemma_numeral_grows(digits, 0);
            assert(digits.take(0) =~= Seq::empty());
        }
    }
    match numeral_from(&chars, from) {
        None => None,
        Some(magnitude) => {
            let signed: i128 = if negative {
                -(magnitude as i128)
            } else {
                magnitude as i128
            };
            if signed < i64::MIN as i128 || signed > i64::MAX as i128 {
                None
            } else {
                Some(signed as i64)
            }
        },
    }
}

/// Numbers are written digit by digit: a digit stands for itself, and a further
/// digit at the end is worth a tenth of the one before.
pub proof fn law_decimal_digit_by_digit(n: nat, d: nat)
    requires
        d < 10,
    ensures
        decimal(d) == seq!["0123456789"@[d as int]],
        n > 0 ==> decimal(10 * n + d) == decimal(n).push("0123456789"@[d as int]),
{
    reveal_strlit("0123456789");
    assert(digit(d) == "0123456789"@[d as int]);
    if n > 0 {
        assert((10 * n + d) / 10 == n);
        assert((10 * n + d) % 10 == d);
    }
}

/// Hexadecimal digits are written one by one, from sixteen lower-case ones.
pub proof fn law_hexadecimal_digit_by_digit(n: nat, width: nat, d: nat)
    requires
        d < 16,
    ensures
        hexadecimal(n, 0) == Seq::<char>::empty(),
        hexadecimal(16 * n + d, width + 1) == hexadecimal(n, width).push(
            "0123456789abcdef"@[d as int],
        ),
{
    reveal_strlit("0123456789abcdef");
    assert((16 * n + d) / 16 == n);
    assert((16 * n + d) % 16 == d);
    assert(hex_digit(d) == "0123456789abcdef"@[d as int]);
}

pub proof fn lemma_hexadecimal_is_long(n: nat, width: nat)
    ensures
        hexadecimal(n, width).len() == width,
    decreases width,
{
    if width > 0 {
        lemma_hexadecimal_is_long(n / 16, (width - 1) as nat);
    }
}

pub proof fn lemma_hexadecimal_is_faithful(a: nat, b: nat, width: nat)
    requires
        hexadecimal(a, width) == hexadecimal(b, width),
        a < vstd::arithmetic::power::pow(16, width),
        b < vstd::arithmetic::power::pow(16, width),
    ensures
        a == b,
    decreases width,
{
    vstd::arithmetic::power::lemma_pow0(16);
    if width > 0 {
        let less = (width - 1) as nat;
        reveal(vstd::arithmetic::power::pow);
        let size = vstd::arithmetic::power::pow(16, less);
        assert(vstd::arithmetic::power::pow(16, width) == 16 * size);
        let (x, y) = (hexadecimal(a, width), hexadecimal(b, width));
        assert(x.drop_last() =~= hexadecimal(a / 16, less));
        assert(y.drop_last() =~= hexadecimal(b / 16, less));
        assert(x.last() == hex_digit(a % 16) && y.last() == hex_digit(b % 16));
        assert(a % 16 == b % 16);
        assert(a / 16 < size && b / 16 < size);
        lemma_hexadecimal_is_faithful(a / 16, b / 16, less);
    }
}

/// Integers are read digit by digit: a further digit multiplies what was read by
/// ten and adds its own value, away from zero. Anything but a digit there, and a
/// sign alone, is no integer. Only a signed one may begin with a minus.
pub proof fn law_integers_are_read_digit_by_digit(s: Seq<char>, c: char, signed: bool)
    ensures
        is_digit(c) ==> spelled_integer(seq![c], signed) == Some(c as int - 48),
        !is_digit(c) ==> spelled_integer(seq![c], signed) is None,
        is_digit(c) ==> spelled_integer(seq!['+', c], signed) == Some(c as int - 48),
        is_digit(c) ==> spelled_integer(seq!['-', c], signed) == (if signed {
            Some(48 - c as int)
        } else {
            None
        }),
        s.len() > 0 && !is_digit(c) ==> spelled_integer(s.push(c), signed) is None,
        spelled_integer(s, signed) matches Some(v) ==> (is_digit(c) ==> spelled_integer(
            s.push(c),
            signed,
        ) == Some(
            if s[0] == '-' {
                10 * v - (c as int - 48)
            } else {
                10 * v + (c as int - 48)
            },
        )),
        is_digit(c) <==> 48 <= c as int <= 57,
{
    let none: Seq<char> = Seq::empty();
    let one: Seq<char> = seq![c];
    assert(one.drop_last() =~= none);
    assert(numeral_value(none) == 0);
    assert(one[0] == c);
    let plus: Seq<char> = seq!['+', c];
    let minus: Seq<char> = seq!['-', c];
    assert(plus.drop_first() =~= one);
    assert(minus.drop_first() =~= one);
    assert(one.drop_first() =~= none);
    assert(minus[0] == '-');
    if !signed {
        assert(!is_digit(minus[0]));
    }
    if !is_digit(c) {
        assert(!is_digit(one[0]));
    }
    if s.len() > 0 {
        let longer = s.push(c);
        let marked = s[0] == '+' || (signed && s[0] == '-');
        let digits = if marked {
            s.drop_first()
        } else {
            s
        };
        assert(longer[0] == s[0]);
        if marked {
            assert(longer.drop_first() =~= digits.push(c));
        }
        let more = digits.push(c);
        assert(more.drop_last() =~= digits);
        assert(more[more.len() - 1] == c);
        if is_digit(c) && is_numeral(digits) {
            assert forall|i: int| 0 <= i < more.len() implies is_digit(#[trigger] more[i]) by {
                if i < digits.len() {
                    assert(more[i] == digits[i]);
                }
            }
            if !marked {
                assert(is_digit(digits[0]));
            }
        }
    }
}

// ---------------------------------------------------------------------------
// Encoded length
// ---------------------------------------------------------------------------

/// How many bytes `s` takes in UTF-8.
pub open spec fn byte_len(s: Seq<char>) -> nat {
    vstd::utf8::encode_utf8(s).len()
}

/// How many bytes `c` takes in UTF-8.
pub open spec fn char_width(c: char) -> nat {
    if c <= '\u{7f}' {
        1
    } else if c <= '\u{7ff}' {
        2
    } else if c <= '\u{ffff}' {
        3
    } else {
        4
    }
}

/// How many bytes `c` takes in UTF-8.
pub fn utf8_width(c: char) -> (r: usize)
    ensures
        r == char_width(c),
{
    if c <= '\u{7f}' {
        1
    } else if c <= '\u{7ff}' {
        2
    } else if c <= '\u{ffff}' {
        3
    } else {
        4
    }
}

/// Encoded lengths add up under concatenation.
pub proof fn lemma_byte_len_concat(a: Seq<char>, b: Seq<char>)
    ensures
        byte_len(a + b) == byte_len(a) + byte_len(b),
    decreases a.len(),
{
    if a.len() == 0 {
        assert(a + b =~= b);
    } else {
        assert((a + b).drop_first() =~= a.drop_first() + b);
        lemma_byte_len_concat(a.drop_first(), b);
    }
}

/// One more character adds its width.
pub proof fn lemma_byte_len_push(s: Seq<char>, c: char)
    ensures
        byte_len(s.push(c)) == byte_len(s) + char_width(c),
{
    let one: Seq<char> = seq![c];
    assert(s.push(c) =~= s + one);
    lemma_byte_len_concat(s, one);
    assert(one.drop_first() =~= Seq::empty());
    assert(vstd::utf8::encode_utf8(Seq::<char>::empty()) =~= Seq::empty());
    assert(vstd::utf8::encode_utf8(one) =~= vstd::utf8::encode_scalar(c as u32));
}

/// How many bytes `s` takes in UTF-8.
pub fn byte_size(s: &str) -> (r: u128)
    ensures
        r == byte_len(s@),
{
    let chars = chars_of(s);
    let mut size: u128 = 0;
    let mut i: usize = 0;
    assert(vstd::utf8::encode_utf8(s@.take(0)) =~= Seq::empty());
    while i < chars.len()
        invariant
            i <= chars@.len(),
            chars@ == s@,
            size == byte_len(s@.take(i as int)),
            size <= 4 * i,
        decreases chars@.len() - i,
    {
        proof {
            assert(s@.take(i + 1) =~= s@.take(i as int).push(s@[i as int]));
            lemma_byte_len_push(s@.take(i as int), s@[i as int]);
        }
        size = size + utf8_width(chars[i]) as u128;
        i += 1;
    }
    assert(s@.take(s@.len() as int) =~= s@);
    size
}

/// A prefix takes no more bytes than the whole, and no fewer than its
/// characters.
pub proof fn lemma_byte_len_prefix(s: Seq<char>, k: int)
    requires
        0 <= k <= s.len(),
    ensures
        k <= byte_len(s.take(k)) <= byte_len(s),
    decreases s.len() - k, k,
{
    assert(s.take(k) + s.skip(k) =~= s);
    lemma_byte_len_concat(s.take(k), s.skip(k));
    if k > 0 {
        lemma_byte_len_prefix(s.take(k - 1), k - 1);
        assert(s.take(k - 1).take(k - 1) =~= s.take(k - 1));
        assert(s.take(k) =~= s.take(k - 1).push(s[k - 1]));
        lemma_byte_len_push(s.take(k - 1), s[k - 1]);
    }
}

}
