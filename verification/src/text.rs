//! Character-level text utilities: Unicode whitespace, splitting, word
//! extraction, trimming, joining, and the byte offsets of UTF-8 strings.

use vstd::prelude::*;
use vstd::utf8::{
    char_is_scalar, encode_scalar, encode_utf8, encode_utf8_first_scalar, encode_utf8_valid_utf8,
    is_char_boundary,
    pop_first_scalar,
};

verus! {

/// The Unicode `White_Space` property, the definition that `char::is_whitespace`,
/// `str::trim` and `str::split_whitespace` use.
pub open spec fn is_ws(c: char) -> bool {
    let u = c as u32;
    ||| 0x09 <= u <= 0x0D
    ||| u == 0x20
    ||| u == 0x85
    ||| u == 0xA0
    ||| u == 0x1680
    ||| 0x2000 <= u <= 0x200A
    ||| u == 0x2028
    ||| u == 0x2029
    ||| u == 0x202F
    ||| u == 0x205F
    ||| u == 0x3000
}

/// Whether `c` is a Unicode whitespace character.
pub fn is_whitespace(c: char) -> (r: bool)
    ensures
        r == is_ws(c),
{
    let u = c as u32;
    (0x09 <= u && u <= 0x0D) || u == 0x20 || u == 0x85 || u == 0xA0 || u == 0x1680 || (0x2000
        <= u && u <= 0x200A) || u == 0x2028 || u == 0x2029 || u == 0x202F || u == 0x205F || u
        == 0x3000
}

/// The characters of a string slice, in order.
pub fn chars_of(s: &str) -> (r: Vec<char>)
    ensures
        r@ == s@,
{
    let mut r: Vec<char> = Vec::new();
    for c in it: s.chars()
        invariant
            r@ == it.seq().take(it.index() as int),
    {
        r.push(c);
    }
    r
}


/// The pieces of `s` between occurrences of `sep`, as `str::split` yields
/// them: one more piece than there are separators, empty pieces included.
pub open spec fn split_on(s: Seq<char>, sep: char) -> Seq<Seq<char>>
    decreases s.len(),
{
    if s.len() == 0 {
        seq![Seq::<char>::empty()]
    } else {
        let prev = split_on(s.drop_last(), sep);
        if s.last() == sep {
            prev.push(Seq::<char>::empty())
        } else {
            prev.update(prev.len() - 1, prev.last().push(s.last()))
        }
    }
}

/// `split_on` never yields an empty list of pieces.
pub proof fn lemma_split_on_nonempty(s: Seq<char>, sep: char)
    ensures
        split_on(s, sep).len() >= 1,
    decreases s.len(),
{
    if s.len() > 0 {
        lemma_split_on_nonempty(s.drop_last(), sep);
    }
}

/// The maximal runs of non-whitespace characters of `s`, as
/// `str::split_whitespace` yields them.
pub open spec fn words(s: Seq<char>) -> Seq<Seq<char>>
    decreases s.len(),
{
    if s.len() == 0 {
        Seq::<Seq<char>>::empty()
    } else {
        let prev = words(s.drop_last());
        let c = s.last();
        if is_ws(c) {
            prev
        } else if s.len() >= 2 && !is_ws(s[s.len() - 2]) {
            prev.update(prev.len() - 1, prev.last().push(c))
        } else {
            prev.push(seq![c])
        }
    }
}

/// A string that ends in a non-whitespace character has at least one word.
pub proof fn lemma_words_nonempty(s: Seq<char>)
    requires
        s.len() > 0,
        !is_ws(s.last()),
    ensures
        words(s).len() >= 1,
    decreases s.len(),
{
    if s.len() >= 2 && !is_ws(s[s.len() - 2]) {
        lemma_words_nonempty(s.drop_last());
    }
}

/// A text without `sep` is a single piece.
pub proof fn lemma_split_on_no_sep(s: Seq<char>, sep: char)
    requires
        forall|i: int| 0 <= i < s.len() ==> s[i] != sep,
    ensures
        split_on(s, sep) == seq![s],
    decreases s.len(),
{
    if s.len() > 0 {
        lemma_split_on_no_sep(s.drop_last(), sep);
        assert(s.drop_last().push(s.last()) =~= s);
    } else {
        assert(s =~= Seq::<char>::empty());
    }
}

/// Splitting at a separator splits the two sides apart.
pub proof fn lemma_split_on_concat(x: Seq<char>, y: Seq<char>, sep: char)
    ensures
        split_on(x + seq![sep] + y, sep) == split_on(x, sep) + split_on(y, sep),
    decreases y.len(),
{
    let xs = x + seq![sep];
    if y.len() == 0 {
        assert(xs + y =~= xs);
        assert(xs.drop_last() =~= x);
        assert(split_on(xs, sep) =~= split_on(x, sep) + split_on(y, sep));
    } else {
        lemma_split_on_concat(x, y.drop_last(), sep);
        lemma_split_on_nonempty(y.drop_last(), sep);
        lemma_split_on_nonempty(x, sep);
        assert((xs + y).drop_last() =~= xs + y.drop_last());
        assert((xs + y).last() == y.last());
        let a = split_on(x, sep);
        let b = split_on(y.drop_last(), sep);
        if y.last() == sep {
            assert((a + b).push(Seq::<char>::empty()) =~= a + b.push(Seq::<char>::empty()));
        } else {
            assert((a + b).update((a + b).len() - 1, (a + b).last().push(y.last())) =~= a
                + b.update(b.len() - 1, b.last().push(y.last())));
        }
    }
}

/// A text without whitespace is a single word (or none when empty).
pub proof fn lemma_words_no_ws(s: Seq<char>)
    requires
        forall|i: int| 0 <= i < s.len() ==> !is_ws(s[i]),
    ensures
        s.len() > 0 ==> words(s) == seq![s],
        s.len() == 0 ==> words(s) == Seq::<Seq<char>>::empty(),
    decreases s.len(),
{
    if s.len() > 0 {
        lemma_words_no_ws(s.drop_last());
        if s.len() >= 2 {
            assert(s[s.len() - 2] == s.drop_last().last());
            assert(s.drop_last().push(s.last()) =~= s);
        } else {
            assert(s.drop_last() =~= Seq::<char>::empty());
            assert(seq![s.last()] =~= s);
        }
    }
}

/// A whitespace character separates the words on its two sides.
pub proof fn lemma_words_concat(x: Seq<char>, w: char, y: Seq<char>)
    requires
        is_ws(w),
    ensures
        words(x + seq![w] + y) == words(x) + words(y),
    decreases y.len(),
{
    let xs = x + seq![w];
    if y.len() == 0 {
        assert(xs + y =~= xs);
        assert(xs.drop_last() =~= x);
        assert(words(xs) =~= words(x) + words(y));
    } else {
        lemma_words_concat(x, w, y.drop_last());
        let z = xs + y;
        assert(z.drop_last() =~= xs + y.drop_last());
        assert(z.last() == y.last());
        let a = words(x);
        let b = words(y.drop_last());
        if is_ws(y.last()) {
        } else if y.len() >= 2 && !is_ws(y[y.len() - 2]) {
            assert(z[z.len() - 2] == y[y.len() - 2]);
            assert(y.drop_last().last() == y[y.len() - 2]);
            lemma_words_nonempty(y.drop_last());
            assert((a + b).update((a + b).len() - 1, (a + b).last().push(y.last())) =~= a
                + b.update(b.len() - 1, b.last().push(y.last())));
        } else {
            if y.len() >= 2 {
                assert(z[z.len() - 2] == y[y.len() - 2]);
            } else {
                assert(z[z.len() - 2] == w);
            }
            assert((a + b).push(seq![y.last()]) =~= a + b.push(seq![y.last()]));
        }
    }
}

/// No piece of a split holds the separator.
pub proof fn lemma_split_on_items(s: Seq<char>, sep: char)
    ensures
        forall|i: int, j: int|
            0 <= i < split_on(s, sep).len() && 0 <= j < split_on(s, sep)[i].len() ==> #[trigger] split_on(
                s,
                sep,
            )[i][j] != sep,
    decreases s.len(),
{
    if s.len() > 0 {
        let t = s.drop_last();
        lemma_split_on_items(t, sep);
        lemma_split_on_nonempty(t, sep);
        let prev = split_on(t, sep);
        let w = split_on(s, sep);
        assert forall|i: int, j: int| 0 <= i < w.len() && 0 <= j < w[i].len() implies #[trigger] w[i][j]
            != sep by {
            if s.last() == sep {
                if i < prev.len() {
                    assert(w[i] == prev[i]);
                }
            } else {
                if i < prev.len() - 1 {
                    assert(w[i] == prev[i]);
                } else {
                    assert(w[i] == prev[i].push(s.last()));
                    if j < prev[i].len() {
                        assert(w[i][j] == prev[i][j]);
                    }
                }
            }
        }
    }
}

/// Every word is non-empty and free of whitespace, and a character that
/// does not occur in the text does not occur in its words.
pub proof fn lemma_words_items(s: Seq<char>, absent: char)
    ensures
        forall|i: int|
            0 <= i < words(s).len() ==> (#[trigger] words(s)[i]).len() > 0 && forall|j: int|
                0 <= j < words(s)[i].len() ==> !is_ws(#[trigger] words(s)[i][j]) && ((forall|
                    k: int,
                | 0 <= k < s.len() ==> s[k] != absent) ==> words(s)[i][j] != absent),
    decreases s.len(),
{
    if s.len() > 0 {
        let t = s.drop_last();
        lemma_words_items(t, absent);
        assert((forall|k: int| 0 <= k < s.len() ==> s[k] != absent) ==> (forall|k: int|
            0 <= k < t.len() ==> t[k] != absent)) by {
            if forall|k: int| 0 <= k < s.len() ==> s[k] != absent {
                assert forall|k: int| 0 <= k < t.len() implies t[k] != absent by {
                    assert(t[k] == s[k]);
                }
            }
        }
        assert((forall|k: int| 0 <= k < s.len() ==> s[k] != absent) ==> s.last() != absent) by {
            if forall|k: int| 0 <= k < s.len() ==> s[k] != absent {
                assert(s[s.len() - 1] != absent);
            }
        }
        let c = s.last();
        let prev = words(t);
        if is_ws(c) {
        } else if s.len() >= 2 && !is_ws(s[s.len() - 2]) {
            assert(t.last() == s[s.len() - 2]);
            lemma_words_nonempty(t);
            let w = words(s);
            assert forall|i: int| 0 <= i < w.len() implies (#[trigger] w[i]).len() > 0 && forall|j: int|
                0 <= j < w[i].len() ==> !is_ws(#[trigger] w[i][j]) && ((forall|k: int|
                    0 <= k < s.len() ==> s[k] != absent) ==> w[i][j] != absent) by {
                if i < prev.len() - 1 {
                    assert(w[i] == prev[i]);
                } else {
                    assert(w[i] == prev[i].push(c));
                    assert forall|j: int| 0 <= j < w[i].len() implies !is_ws(#[trigger] w[i][j])
                        && ((forall|k: int| 0 <= k < s.len() ==> s[k] != absent) ==> w[i][j]
                        != absent) by {
                        if j < prev[i].len() {
                            assert(w[i][j] == prev[i][j]);
                        }
                    }
                }
            }
        } else {
            let w = words(s);
            assert forall|i: int| 0 <= i < w.len() implies (#[trigger] w[i]).len() > 0 && forall|j: int|
                0 <= j < w[i].len() ==> !is_ws(#[trigger] w[i][j]) && ((forall|k: int|
                    0 <= k < s.len() ==> s[k] != absent) ==> w[i][j] != absent) by {
                if i < prev.len() {
                    assert(w[i] == prev[i]);
                } else {
                    assert(w[i] == seq![c]);
                }
            }
        }
    }
}

/// Leading whitespace carries no words.
proof fn lemma_words_trim_start(s: Seq<char>)
    ensures
        words(trim_start(s)) == words(s),
    decreases s.len(),
{
    if s.len() > 0 && is_ws(s[0]) {
        lemma_words_trim_start(s.drop_first());
        lemma_words_concat(Seq::<char>::empty(), s[0], s.drop_first());
        assert(Seq::<char>::empty() + seq![s[0]] + s.drop_first() =~= s);
        assert(words(Seq::<char>::empty()) + words(s.drop_first()) =~= words(s.drop_first()));
    }
}

/// Trailing whitespace carries no words.
proof fn lemma_words_trim_end(s: Seq<char>)
    ensures
        words(trim_end(s)) == words(s),
        trim_end(s).len() > 0 ==> !is_ws(trim_end(s).last()),
    decreases s.len(),
{
    if s.len() > 0 && is_ws(s.last()) {
        lemma_words_trim_end(s.drop_last());
    }
}

/// Trimming does not change the words of a text, and a text is blank after
/// trimming exactly when it has no words: reading the words of each trimmed,
/// non-blank piece is reading the words of each piece and skipping those
/// without any.
pub proof fn lemma_words_of_trim(s: Seq<char>)
    ensures
        words(trim(s)) == words(s),
        trim(s).len() == 0 <==> words(s).len() == 0,
{
    lemma_words_trim_start(s);
    lemma_words_trim_end(trim_start(s));
    if trim(s).len() > 0 {
        lemma_words_nonempty(trim(s));
    } else {
        assert(trim(s) =~= Seq::<char>::empty());
    }
}

/// Splits a character sequence at every occurrence of `sep`.
pub fn split_chars(s: &Vec<char>, sep: char) -> (r: Vec<Vec<char>>)
    ensures
        r@.map_values(|p: Vec<char>| p@) == split_on(s@, sep),
{
    let mut r: Vec<Vec<char>> = Vec::new();
    r.push(Vec::new());
    let mut i: usize = 0;
    assert(s@.take(0) =~= Seq::<char>::empty());
    assert(r@.map_values(|p: Vec<char>| p@) =~= split_on(s@.take(0), sep));
    while i < s.len()
        invariant
            i <= s.len(),
            r@.map_values(|p: Vec<char>| p@) == split_on(s@.take(i as int), sep),
        decreases s.len() - i,
    {
        let c = s[i];
        proof {
            lemma_split_on_nonempty(s@.take(i as int), sep);
            assert(s@.take(i + 1).drop_last() =~= s@.take(i as int));
        }
        if c == sep {
            r.push(Vec::new());
            assert(r@.map_values(|p: Vec<char>| p@) =~= split_on(s@.take(i + 1), sep));
        } else {
            let mut last = r.pop().unwrap();
            last.push(c);
            r.push(last);
            assert(r@.map_values(|p: Vec<char>| p@) =~= split_on(s@.take(i + 1), sep));
        }
        i = i + 1;
    }
    assert(s@.take(s.len() as int) =~= s@);
    r
}

/// Splits a character sequence into its whitespace-separated words.
pub fn words_of(s: &Vec<char>) -> (r: Vec<Vec<char>>)
    ensures
        r@.map_values(|p: Vec<char>| p@) == words(s@),
{
    let mut r: Vec<Vec<char>> = Vec::new();
    let mut i: usize = 0;
    assert(r@.map_values(|p: Vec<char>| p@) =~= words(s@.take(0)));
    while i < s.len()
        invariant
            i <= s.len(),
            r@.map_values(|p: Vec<char>| p@) == words(s@.take(i as int)),
        decreases s.len() - i,
    {
        let c = s[i];
        proof {
            assert(s@.take(i + 1).drop_last() =~= s@.take(i as int));
            assert(s@.take(i + 1).last() == c);
            if i >= 1 {
                assert(s@.take(i + 1)[i - 1] == s@[i - 1]);
                assert(s@.take(i as int).last() == s@[i - 1]);
            }
        }
        if is_whitespace(c) {
            assert(r@.map_values(|p: Vec<char>| p@) =~= words(s@.take(i + 1)));
        } else if i >= 1 && !is_whitespace(s[i - 1]) {
            proof {
                lemma_words_nonempty(s@.take(i as int));
            }
            let mut last = r.pop().unwrap();
            last.push(c);
            r.push(last);
            assert(r@.map_values(|p: Vec<char>| p@) =~= words(s@.take(i + 1)));
        } else {
            let mut w: Vec<char> = Vec::new();
            w.push(c);
            r.push(w);
            assert(r@.map_values(|p: Vec<char>| p@) =~= words(s@.take(i + 1)));
        }
        i = i + 1;
    }
    assert(s@.take(s.len() as int) =~= s@);
    r
}


/// `s` without its leading whitespace.
pub open spec fn trim_start(s: Seq<char>) -> Seq<char>
    decreases s.len(),
{
    if s.len() > 0 && is_ws(s[0]) {
        trim_start(s.drop_first())
    } else {
        s
    }
}

/// `s` without its trailing whitespace.
pub open spec fn trim_end(s: Seq<char>) -> Seq<char>
    decreases s.len(),
{
    if s.len() > 0 && is_ws(s.last()) {
        trim_end(s.drop_last())
    } else {
        s
    }
}

/// `s` without leading and trailing whitespace, as `str::trim` gives it.
pub open spec fn trim(s: Seq<char>) -> Seq<char> {
    trim_end(trim_start(s))
}

/// `String::push`: appends one character at the end of the string.
#[verifier::external_body]
pub(crate) fn push_char(s: &mut String, c: char)
    ensures
        final(s)@ == old(s)@.push(c),
{
    s.push(c);
}

/// The string made of the characters `v[lo..hi]`.
pub fn string_from_chars(v: &Vec<char>, lo: usize, hi: usize) -> (r: String)
    requires
        lo <= hi <= v.len(),
    ensures
        r@ == v@.subrange(lo as int, hi as int),
{
    let mut r = String::new();
    let mut i = lo;
    while i < hi
        invariant
            lo <= i <= hi <= v.len(),
            r@ == v@.subrange(lo as int, i as int),
        decreases hi - i,
    {
        push_char(&mut r, v[i]);
        assert(r@ =~= v@.subrange(lo as int, i + 1));
        i = i + 1;
    }
    r
}

/// The string `s` with leading and trailing whitespace removed.
pub fn trim_string(s: &str) -> (r: String)
    ensures
        r@ == trim(s@),
{
    let v = chars_of(s);
    let mut i: usize = 0;
    assert(v@.subrange(0, v@.len() as int) =~= v@);
    while i < v.len() && is_whitespace(v[i])
        invariant
            i <= v.len(),
            trim_start(v@) == trim_start(v@.subrange(i as int, v@.len() as int)),
        decreases v.len() - i,
    {
        assert(v@.subrange(i as int, v@.len() as int).drop_first() =~= v@.subrange(
            i + 1,
            v@.len() as int,
        ));
        i = i + 1;
    }
    let mut j: usize = v.len();
    while j > i && is_whitespace(v[j - 1])
        invariant
            i <= j <= v.len(),
            trim(v@) == trim_end(v@.subrange(i as int, j as int)),
        decreases j,
    {
        assert(v@.subrange(i as int, j as int).drop_last() =~= v@.subrange(i as int, j - 1));
        j = j - 1;
    }
    string_from_chars(&v, i, j)
}


/// The length in bytes of the UTF-8 encoding of `s`.
pub open spec fn byte_len(s: Seq<char>) -> nat {
    encode_utf8(s).len()
}

/// Whether byte offset `b` of the UTF-8 encoding of `s` starts a character
/// or is the end of the encoding.
pub open spec fn on_char_boundary(s: Seq<char>, b: int) -> bool {
    is_char_boundary(encode_utf8(s), b)
}

/// The number of leading characters of `s` whose encoding starts before byte
/// offset `b`: on a character boundary, the index of the character found there.
pub open spec fn char_index_at(s: Seq<char>, b: int) -> int
    decreases s.len(),
{
    if b <= 0 || s.len() == 0 {
        0
    } else {
        1 + char_index_at(s.drop_first(), b - encode_scalar(s[0] as u32).len())
    }
}

/// The encoding of a concatenation is the concatenation of the encodings.
pub proof fn lemma_encode_concat(a: Seq<char>, b: Seq<char>)
    ensures
        encode_utf8(a + b) == encode_utf8(a) + encode_utf8(b),
    decreases a.len(),
{
    if a.len() == 0 {
        assert(a + b =~= b);
        assert(encode_utf8(a) =~= Seq::<u8>::empty());
        assert(encode_utf8(a) + encode_utf8(b) =~= encode_utf8(b));
    } else {
        lemma_encode_concat(a.drop_first(), b);
        assert((a + b).drop_first() =~= a.drop_first() + b);
        assert((a + b)[0] == a[0]);
        assert(encode_scalar(a[0] as u32) + (encode_utf8(a.drop_first()) + encode_utf8(b))
            =~= encode_scalar(a[0] as u32) + encode_utf8(a.drop_first()) + encode_utf8(b));
    }
}

/// The byte offset at which the `k`-th character starts is a character
/// boundary, and it denotes character index `k`.
pub proof fn lemma_prefix_boundary(s: Seq<char>, k: int)
    requires
        0 <= k <= s.len(),
    ensures
        on_char_boundary(s, byte_len(s.take(k)) as int),
        char_index_at(s, byte_len(s.take(k)) as int) == k,
    decreases k,
{
    let b = byte_len(s.take(k)) as int;
    if k == 0 {
        assert(s.take(0) =~= Seq::<char>::empty());
        assert(b == 0);
        encode_utf8_valid_utf8(s);
    } else {
        let t = s.drop_first();
        lemma_prefix_boundary(t, k - 1);
        assert(s.take(k).drop_first() =~= t.take(k - 1));
        assert(s.take(k)[0] == s[0]);
        let w = encode_scalar(s[0] as u32).len() as int;
        assert(w >= 1);
        assert(b == w + byte_len(t.take(k - 1)));
        lemma_encode_concat(s.take(k), s.skip(k));
        assert(s.take(k) + s.skip(k) =~= s);
        encode_utf8_valid_utf8(s);
        encode_utf8_first_scalar(s);
        let bytes = encode_utf8(s);
        assert(pop_first_scalar(bytes) =~= encode_utf8(t));
        assert(bytes.len() >= b);
        assert(is_char_boundary(encode_utf8(t), b - w));
        assert(is_char_boundary(bytes, b));
    }
}

/// The encoding of a sequence with one more character is longer by that
/// character's encoding.
pub proof fn lemma_byte_len_push(s: Seq<char>, c: char)
    ensures
        byte_len(s.push(c)) == byte_len(s) + encode_scalar(c as u32).len(),
{
    lemma_encode_concat(s, seq![c]);
    assert(s + seq![c] =~= s.push(c));
    assert(seq![c].drop_first() =~= Seq::<char>::empty());
    assert(seq![c][0] == c);
    assert(encode_utf8(Seq::<char>::empty()) =~= Seq::<u8>::empty());
    assert(encode_utf8(seq![c]) =~= encode_scalar(c as u32));
}

/// The number of bytes of the UTF-8 encoding of `c`.
pub fn char_width(c: char) -> (r: usize)
    ensures
        r == encode_scalar(c as u32).len(),
        1 <= r <= 4,
{
    proof {
        char_is_scalar(c);
    }
    let u = c as u32;
    if u <= 0x7F {
        1
    } else if u <= 0x7FF {
        2
    } else if u <= 0xFFFF {
        3
    } else {
        4
    }
}

/// Whether the UTF-8 encoding of `s` is longer than `n` bytes.
pub fn byte_len_exceeds(s: &str, n: usize) -> (r: bool)
    ensures
        r == (n < byte_len(s@)),
{
    let v = chars_of(s);
    let mut acc: usize = 0;
    let mut i: usize = 0;
    assert(v@.take(0) =~= Seq::<char>::empty());
    assert(encode_utf8(Seq::<char>::empty()) =~= Seq::<u8>::empty());
    while i < v.len()
        invariant
            i <= v.len(),
            v@ == s@,
            acc == byte_len(v@.take(i as int)),
            acc <= n,
        decreases v.len() - i,
    {
        let w = char_width(v[i]);
        proof {
            lemma_byte_len_push(v@.take(i as int), v@[i as int]);
            assert(v@.take(i as int).push(v@[i as int]) =~= v@.take(i + 1));
        }
        if w > n - acc {
            proof {
                lemma_encode_concat(v@.take(i + 1), v@.skip(i + 1));
                assert(v@.take(i + 1) + v@.skip(i + 1) =~= v@);
            }
            return true;
        }
        acc = acc + w;
        i = i + 1;
    }
    assert(v@.take(v.len() as int) =~= v@);
    false
}

/// `String::insert`: inserts `c` into the string at byte offset `idx`. The
/// standard library panics unless `idx` lies on a char boundary; the new
/// character then stands at the character index that `idx` denotes.
#[verifier::external_body]
pub(crate) fn string_insert(s: &mut String, idx: usize, c: char)
    requires
        on_char_boundary(old(s)@, idx as int),
    ensures
        final(s)@ == old(s)@.insert(char_index_at(old(s)@, idx as int), c),
{
    s.insert(idx, c);
}

/// `String::remove`: removes and returns the character that starts at byte
/// offset `idx`. The standard library panics unless `idx` is a char boundary
/// before the end of the string.
#[verifier::external_body]
pub(crate) fn string_remove(s: &mut String, idx: usize) -> (r: char)
    requires
        on_char_boundary(old(s)@, idx as int),
        idx < byte_len(old(s)@),
    ensures
        r == old(s)@[char_index_at(old(s)@, idx as int)],
        final(s)@ == old(s)@.remove(char_index_at(old(s)@, idx as int)),
{
    s.remove(idx)
}

/// The length in bytes of the UTF-8 encoding of `s`.
pub fn string_byte_len(s: &String) -> (r: usize)
    ensures
        r == byte_len(s@) as usize,
{
    s.as_str().len()
}

} // verus!
