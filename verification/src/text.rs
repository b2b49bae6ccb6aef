//! Characters and words of an input line.
use vstd::prelude::*;

verus! {

/// The Unicode `White_Space` property, which Rust's `char::is_whitespace` follows.
pub open spec fn is_space(c: char) -> bool {
    let n = c as u32;
    ||| 0x9 <= n <= 0xd
    ||| n == 0x20
    ||| n == 0x85
    ||| n == 0xa0
    ||| n == 0x1680
    ||| 0x2000 <= n <= 0x200a
    ||| n == 0x2028
    ||| n == 0x2029
    ||| n == 0x202f
    ||| n == 0x205f
    ||| n == 0x3000
}

/// Whether `c` separates words on a command line.
pub fn is_space_char(c: char) -> (b: bool)
    ensures
        b == is_space(c),
{
    let n = c as u32;
    (0x9 <= n && n <= 0xd) || n == 0x20 || n == 0x85 || n == 0xa0 || n == 0x1680
        || (0x2000 <= n && n <= 0x200a) || n == 0x2028 || n == 0x2029 || n == 0x202f
        || n == 0x205f || n == 0x3000
}

} // verus!

verus! {

/// The characters of `s`, in order.
pub fn chars_of(s: &str) -> (r: Vec<char>)
    ensures
        r@ == s@,
{
    let mut r: Vec<char> = Vec::new();
    for c in it: s.chars()
        invariant
            r@ == it.seq().take(it.index() as int),
    {
        r.push(c);
    }
    proof {
        assert(r@ =~= s@);
    }
    r
}

} // verus!

verus! {

/// Length of the run of non-space characters at the start of `s`.
pub open spec fn word_len(s: Seq<char>) -> nat
    decreases s.len(),
{
    if s.len() == 0 || is_space(s[0]) {
        0
    } else {
        1 + word_len(s.drop_first())
    }
}

/// A word never reaches past the end of its line.
pub proof fn lemma_word_len_bound(s: Seq<char>)
    ensures
        word_len(s) <= s.len(),
        s.len() > 0 && !is_space(s[0]) ==> word_len(s) >= 1,
    decreases s.len(),
{
    if s.len() > 0 && !is_space(s[0]) {
        lemma_word_len_bound(s.drop_first());
    }
}

/// The words of `s`: its maximal runs of non-space characters, left to right.
pub open spec fn words(s: Seq<char>) -> Seq<Seq<char>>
    decreases s.len(),
{
    if s.len() == 0 {
        seq![]
    } else if is_space(s[0]) {
        words(s.drop_first())
    } else {
        proof {
            lemma_word_len_bound(s);
        }
        seq![s.take(word_len(s) as int)] + words(s.skip(word_len(s) as int))
    }
}

/// The view of each string in `v`.
pub open spec fn views(v: Seq<&str>) -> Seq<Seq<char>> {
    v.map_values(|w: &str| w@)
}

proof fn lemma_word_len_step(s: Seq<char>, i: int)
    requires
        0 <= i < s.len(),
        !is_space(s[i]),
    ensures
        word_len(s.skip(i)) == 1 + word_len(s.skip(i + 1)),
{
    assert(s.skip(i).drop_first() =~= s.skip(i + 1));
}

proof fn lemma_words_space_step(s: Seq<char>, i: int)
    requires
        0 <= i < s.len(),
        is_space(s[i]),
    ensures
        words(s.skip(i)) == words(s.skip(i + 1)),
{
    assert(s.skip(i).drop_first() =~= s.skip(i + 1));
}

/// Splits `s` into its words, as `str::split_whitespace` does.
pub fn split_words<'a>(s: &'a str) -> (r: Vec<&'a str>)
    ensures
        views(r@) == words(s@),
{
    let chars = chars_of(s);
    let n = chars.len();
    let mut out: Vec<&'a str> = Vec::new();
    let mut i: usize = 0;
    assert(s@.skip(0) =~= s@);
    while i < n
        invariant
            i <= n,
            n == s@.len(),
            chars@ == s@,
            words(s@) == views(out@) + words(s@.skip(i as int)),
        decreases n - i,
    {
        if is_space_char(chars[i]) {
            proof {
                lemma_words_space_step(s@, i as int);
            }
            i = i + 1;
        } else {
            let start = i;
            while i < n && !is_space_char(chars[i])
                invariant
                    start <= i <= n,
                    n == s@.len(),
                    chars@ == s@,
                    forall|k: int| start <= k < i ==> !is_space(#[trigger] s@[k]),
                    word_len(s@.skip(start as int)) == (i - start) + word_len(s@.skip(i as int)),
                decreases n - i,
            {
                proof {
                    lemma_word_len_step(s@, i as int);
                }
                i = i + 1;
            }
            let word = s.substring_char(start, i);
            proof {
                let rest = s@.skip(start as int);
                assert(word_len(s@.skip(i as int)) == 0);
                assert(word_len(rest) == i - start);
                assert(rest.len() > 0 && !is_space(rest[0]));
                assert(rest.take(word_len(rest) as int) =~= word@);
                assert(rest.skip(word_len(rest) as int) =~= s@.skip(i as int));
                assert(views(out@.push(word)) =~= views(out@).push(word@));
            }
            out.push(word);
        }
    }
    proof {
        assert(s@.skip(n as int).len() == 0);
        assert(views(out@) + words(s@.skip(n as int)) =~= views(out@));
    }
    out
}

} // verus!

verus! {

/// `p` put in front of the first piece of `ps`.
pub open spec fn prepend(p: Seq<char>, ps: Seq<Seq<char>>) -> Seq<Seq<char>> {
    ps.update(0, p + ps[0])
}

/// The pieces of `s` between occurrences of `sep`, as `str::split` gives them:
/// there is always one piece more than there are separators.
pub open spec fn pieces(s: Seq<char>, sep: char) -> Seq<Seq<char>>
    decreases s.len(),
{
    if s.len() == 0 {
        seq![seq![]]
    } else if s[0] == sep {
        seq![seq![]] + pieces(s.drop_first(), sep)
    } else {
        prepend(seq![s[0]], pieces(s.drop_first(), sep))
    }
}

/// There is always at least one piece.
pub proof fn lemma_pieces_nonempty(s: Seq<char>, sep: char)
    ensures
        pieces(s, sep).len() >= 1,
    decreases s.len(),
{
    if s.len() > 0 {
        lemma_pieces_nonempty(s.drop_first(), sep);
    }
}

/// Splits `s` at each occurrence of `sep`.
pub fn split_pieces<'a>(s: &'a str, sep: char) -> (r: Vec<&'a str>)
    ensures
        views(r@) == pieces(s@, sep),
{
    let chars = chars_of(s);
    let n = chars.len();
    let mut out: Vec<&'a str> = Vec::new();
    let mut start: usize = 0;
    let mut i: usize = 0;
    assert(s@.skip(0) =~= s@);
    proof {
        lemma_pieces_nonempty(s@, sep);
        assert(prepend(s@.subrange(0, 0), pieces(s@, sep)) =~= pieces(s@, sep));
    }
    while i < n
        invariant
            start <= i <= n,
            n == s@.len(),
            chars@ == s@,
            pieces(s@, sep) == views(out@) + prepend(
                s@.subrange(start as int, i as int),
                pieces(s@.skip(i as int), sep),
            ),
        decreases n - i,
    {
        let ghost cur = s@.subrange(start as int, i as int);
        proof {
            assert(s@.skip(i as int).drop_first() =~= s@.skip(i + 1));
            lemma_pieces_nonempty(s@.skip(i + 1), sep);
        }
        if chars[i] == sep {
            let piece = s.substring_char(start, i);
            proof {
                let rest = pieces(s@.skip(i + 1), sep);
                assert(prepend(cur, seq![seq![]] + rest) =~= seq![cur] + rest);
                assert(prepend(s@.subrange(i + 1, i + 1), rest) =~= rest);
                assert(views(out@.push(piece)) =~= views(out@).push(piece@));
                assert(views(out@) + (seq![cur] + rest) =~= views(out@).push(cur) + rest);
            }
            out.push(piece);
            i = i + 1;
            start = i;
        } else {
            proof {
                let rest = pieces(s@.skip(i + 1), sep);
                assert(cur + (seq![s@[i as int]] + rest[0]) =~= s@.subrange(start as int, i + 1)
                    + rest[0]);
                assert(prepend(cur, prepend(seq![s@[i as int]], rest)) =~= prepend(
                    s@.subrange(start as int, i + 1),
                    rest,
                ));
            }
            i = i + 1;
        }
    }
    let last = s.substring_char(start, n);
    proof {
        assert(s@.skip(n as int) =~= Seq::<char>::empty());
        assert(prepend(last@, seq![seq![]]) =~= seq![last@]);
        assert(views(out@.push(last)) =~= views(out@).push(last@));
    }
    out.push(last);
    out
}

} // verus!

verus! {

/// Whether every character of `s` is a space.
pub open spec fn all_space(s: Seq<char>) -> bool {
    forall|k: int| 0 <= k < s.len() ==> is_space(#[trigger] s[k])
}

/// Whether `w` is a word: non-empty, with no space in it.
pub open spec fn is_word(w: Seq<char>) -> bool {
    w.len() > 0 && forall|k: int| 0 <= k < w.len() ==> !is_space(#[trigger] w[k])
}

proof fn lemma_word_len_chars(s: Seq<char>)
    ensures
        forall|k: int| 0 <= k < word_len(s) ==> !is_space(#[trigger] s[k]),
        word_len(s) < s.len() ==> is_space(s[word_len(s) as int]),
    decreases s.len(),
{
    lemma_word_len_bound(s);
    if s.len() > 0 && !is_space(s[0]) {
        let t = s.drop_first();
        lemma_word_len_chars(t);
        assert forall|k: int| 0 <= k < word_len(s) implies !is_space(#[trigger] s[k]) by {
            if k > 0 {
                assert(s[k] == t[k - 1]);
            }
        }
    }
}

/// Every word of a line is non-empty and holds no space: the words are exactly
/// what lies between runs of spaces.
pub proof fn lemma_words_are_words(s: Seq<char>)
    ensures
        forall|i: int| 0 <= i < words(s).len() ==> is_word(#[trigger] words(s)[i]),
    decreases s.len(),
{
    if s.len() == 0 {
    } else if is_space(s[0]) {
        lemma_words_are_words(s.drop_first());
        assert(words(s) == words(s.drop_first()));
    } else {
        lemma_word_len_bound(s);
        lemma_word_len_chars(s);
        assert(words(s) == seq![s.take(word_len(s) as int)] + words(s.skip(word_len(s) as int)));
        let n = word_len(s) as int;
        lemma_words_are_words(s.skip(n));
        let first = s.take(n);
        assert forall|k: int| 0 <= k < first.len() implies !is_space(#[trigger] first[k]) by {
            assert(first[k] == s[k]);
        }
        assert forall|i: int| 0 <= i < words(s).len() implies is_word(#[trigger] words(s)[i]) by {
            if i > 0 {
                assert(words(s)[i] == words(s.skip(n))[i - 1]);
            } else {
                assert(words(s)[0] == first);
                assert(is_word(first));
            }
        }
    }
}

/// Spaces before a line do not change its words.
pub proof fn lemma_words_leading_space(pre: Seq<char>, s: Seq<char>)
    requires
        all_space(pre),
    ensures
        words(pre + s) == words(s),
    decreases pre.len(),
{
    if pre.len() > 0 {
        assert((pre + s).drop_first() =~= pre.drop_first() + s);
        lemma_words_leading_space(pre.drop_first(), s);
    } else {
        assert(pre + s =~= s);
    }
}

proof fn lemma_word_len_trailing_space(s: Seq<char>, post: Seq<char>)
    requires
        all_space(post),
    ensures
        word_len(s + post) == word_len(s),
    decreases s.len(),
{
    if s.len() == 0 {
        assert(s + post =~= post);
    } else {
        assert((s + post).drop_first() =~= s.drop_first() + post);
        lemma_word_len_trailing_space(s.drop_first(), post);
    }
}

/// Spaces after a line do not change its words.
pub proof fn lemma_words_trailing_space(s: Seq<char>, post: Seq<char>)
    requires
        all_space(post),
    ensures
        words(s + post) == words(s),
    decreases s.len(), post.len(),
{
    if s.len() == 0 {
        assert(s + post =~= post);
        if post.len() > 0 {
            assert(post.drop_first() =~= Seq::<char>::empty() + post.drop_first());
            lemma_words_trailing_space(Seq::<char>::empty(), post.drop_first());
        }
    } else if is_space(s[0]) {
        assert((s + post).drop_first() =~= s.drop_first() + post);
        lemma_words_trailing_space(s.drop_first(), post);
    } else {
        lemma_word_len_trailing_space(s, post);
        lemma_word_len_bound(s);
        let n = word_len(s) as int;
        assert((s + post).take(n) =~= s.take(n));
        assert((s + post).skip(n) =~= s.skip(n) + post);
        lemma_words_trailing_space(s.skip(n), post);
    }
}

/// Spaces around a line do not change its words, so trimming a line before
/// splitting it into words changes nothing.
pub proof fn lemma_words_ignore_surrounding_space(pre: Seq<char>, s: Seq<char>, post: Seq<char>)
    requires
        all_space(pre),
        all_space(post),
    ensures
        words(pre + s + post) == words(s),
{
    lemma_words_leading_space(pre, s + post);
    lemma_words_trailing_space(s, post);
    assert(pre + s + post =~= pre + (s + post));
}

} // verus!

verus! {

/// A line has no word exactly when it is all spaces.
pub proof fn lemma_words_empty(s: Seq<char>)
    ensures
        words(s).len() == 0 <==> all_space(s),
    decreases s.len(),
{
    if s.len() > 0 {
        if is_space(s[0]) {
            lemma_words_empty(s.drop_first());
            if all_space(s.drop_first()) {
                assert forall|k: int| 0 <= k < s.len() implies is_space(#[trigger] s[k]) by {
                    if k > 0 {
                        assert(s[k] == s.drop_first()[k - 1]);
                    }
                }
            }
            if all_space(s) {
                assert forall|k: int| 0 <= k < s.len() - 1 implies is_space(
                    #[trigger] s.drop_first()[k],
                ) by {
                    assert(s.drop_first()[k] == s[k + 1]);
                }
            }
        } else {
            lemma_word_len_bound(s);
        }
    }
}

/// Whether every character of `s` is `sep` or a space.
pub open spec fn blank_or_sep(s: Seq<char>, sep: char) -> bool {
    forall|k: int| 0 <= k < s.len() ==> #[trigger] s[k] == sep || is_space(s[k])
}

/// Every piece between the separators is all spaces exactly when the line holds
/// nothing but separators and spaces.
pub proof fn lemma_pieces_blank(s: Seq<char>, sep: char)
    ensures
        (forall|i: int| 0 <= i < pieces(s, sep).len() ==> all_space(#[trigger] pieces(s, sep)[i]))
            <==> blank_or_sep(s, sep),
    decreases s.len(),
{
    if s.len() > 0 {
        let t = s.drop_first();
        lemma_pieces_blank(t, sep);
        lemma_pieces_nonempty(t, sep);
        let ps = pieces(s, sep);
        let qs = pieces(t, sep);
        assert(blank_or_sep(s, sep) <==> ((s[0] == sep || is_space(s[0])) && blank_or_sep(t, sep)))
            by {
            if blank_or_sep(s, sep) {
                assert forall|k: int| 0 <= k < t.len() implies #[trigger] t[k] == sep || is_space(
                    t[k],
                ) by {
                    assert(t[k] == s[k + 1]);
                }
            }
            if (s[0] == sep || is_space(s[0])) && blank_or_sep(t, sep) {
                assert forall|k: int| 0 <= k < s.len() implies #[trigger] s[k] == sep || is_space(
                    s[k],
                ) by {
                    if k > 0 {
                        assert(s[k] == t[k - 1]);
                    }
                }
            }
        }
        if s[0] == sep {
            assert((forall|i: int| 0 <= i < ps.len() ==> all_space(#[trigger] ps[i])) <==> (forall|
                i: int,
            |
                0 <= i < qs.len() ==> all_space(#[trigger] qs[i]))) by {
                assert(all_space(ps[0]));
                if forall|i: int| 0 <= i < qs.len() ==> all_space(#[trigger] qs[i]) {
                    assert forall|i: int| 0 <= i < ps.len() implies all_space(#[trigger] ps[i]) by {
                        if i > 0 {
                            assert(ps[i] == qs[i - 1]);
                        }
                    }
                }
                if forall|i: int| 0 <= i < ps.len() ==> all_space(#[trigger] ps[i]) {
                    assert forall|i: int| 0 <= i < qs.len() implies all_space(#[trigger] qs[i]) by {
                        assert(ps[i + 1] == qs[i]);
                    }
                }
            }
        } else {
            let first = seq![s[0]] + qs[0];
            assert(ps[0] == first);
            assert(all_space(first) <==> is_space(s[0]) && all_space(qs[0])) by {
                if all_space(first) {
                    assert(first[0] == s[0]);
                    assert forall|k: int| 0 <= k < qs[0].len() implies is_space(
                        #[trigger] qs[0][k],
                    ) by {
                        assert(first[k + 1] == qs[0][k]);
                    }
                }
                if is_space(s[0]) && all_space(qs[0]) {
                    assert forall|k: int| 0 <= k < first.len() implies is_space(
                        #[trigger] first[k],
                    ) by {
                        if k > 0 {
                            assert(first[k] == qs[0][k - 1]);
                        }
                    }
                }
            }
            if forall|i: int| 0 <= i < ps.len() ==> all_space(#[trigger] ps[i]) {
                assert forall|i: int| 0 <= i < qs.len() implies all_space(#[trigger] qs[i]) by {
                    if i > 0 {
                        assert(ps[i] == qs[i]);
                    } else {
                        assert(all_space(ps[0]));
                    }
                }
            }
            if is_space(s[0]) && forall|i: int| 0 <= i < qs.len() ==> all_space(#[trigger] qs[i]) {
                assert forall|i: int| 0 <= i < ps.len() implies all_space(#[trigger] ps[i]) by {
                    if i > 0 {
                        assert(ps[i] == qs[i]);
                    } else {
                        assert(all_space(qs[0]));
                    }
                }
            }
        }
    } else {
        assert(all_space(pieces(s, sep)[0]));
    }
}

} // verus!

verus! {

/// `s` without the spaces at its start.
pub open spec fn trim_start(s: Seq<char>) -> Seq<char>
    decreases s.len(),
{
    if s.len() > 0 && is_space(s[0]) {
        trim_start(s.drop_first())
    } else {
        s
    }
}

/// `s` without the spaces at its end.
pub open spec fn trim_end(s: Seq<char>) -> Seq<char>
    decreases s.len(),
{
    if s.len() > 0 && is_space(s.last()) {
        trim_end(s.drop_last())
    } else {
        s
    }
}

/// `s` without the spaces at either end, as `str::trim` gives it.
pub open spec fn trimmed(s: Seq<char>) -> Seq<char> {
    trim_end(trim_start(s))
}

/// `s` without the whitespace at either end.
pub fn trim<'a>(s: &'a str) -> (r: &'a str)
    ensures
        r@ == trimmed(s@),
{
    let chars = chars_of(s);
    let n = chars.len();
    let mut i: usize = 0;
    assert(s@.skip(0) =~= s@);
    while i < n && is_space_char(chars[i])
        invariant
            i <= n,
            n == s@.len(),
            chars@ == s@,
            trim_start(s@) == trim_start(s@.skip(i as int)),
        decreases n - i,
    {
        assert(s@.skip(i as int).drop_first() =~= s@.skip(i + 1));
        i = i + 1;
    }
    let ghost t = s@.skip(i as int);
    assert(trim_start(s@) == t);
    let mut j: usize = n;
    assert(t.take((n - i) as int) =~= t);
    while j > i && is_space_char(chars[j - 1])
        invariant
            i <= j <= n,
            n == s@.len(),
            chars@ == s@,
            t == s@.skip(i as int),
            trim_end(t) == trim_end(t.take(j - i)),
        decreases j,
    {
        assert(t.take(j - i).drop_last() =~= t.take(j - i - 1));
        assert(t.take(j - i).last() == s@[j - 1]);
        j = j - 1;
    }
    let r = s.substring_char(i, j);
    proof {
        let u = t.take(j - i);
        if u.len() > 0 {
            assert(u.last() == s@[j - 1]);
        }
        assert(trim_end(u) == u);
        assert(u =~= r@);
    }
    r
}

} // verus!

verus! {

proof fn lemma_word_len_no_space(s: Seq<char>)
    requires
        forall|k: int| 0 <= k < s.len() ==> !is_space(#[trigger] s[k]),
    ensures
        word_len(s) == s.len(),
    decreases s.len(),
{
    if s.len() > 0 {
        let t = s.drop_first();
        assert forall|k: int| 0 <= k < t.len() implies !is_space(#[trigger] t[k]) by {
            assert(t[k] == s[k + 1]);
        }
        lemma_word_len_no_space(t);
    }
}

/// Words are maximal: a non-empty line with no whitespace in it is one word, however
/// long it is.
pub proof fn lemma_words_single(s: Seq<char>)
    requires
        s.len() > 0,
        forall|k: int| 0 <= k < s.len() ==> !is_space(#[trigger] s[k]),
    ensures
        words(s) == seq![s],
{
    lemma_word_len_no_space(s);
    assert(!is_space(s[0]));
    assert(words(s) == seq![s.take(word_len(s) as int)] + words(s.skip(word_len(s) as int)));
    assert(words(Seq::<char>::empty()) == Seq::<Seq<char>>::empty());
    assert(s.take(s.len() as int) =~= s);
    assert(s.skip(s.len() as int) =~= Seq::<char>::empty());
    assert(seq![s] + Seq::<Seq<char>>::empty() =~= seq![s]);
}

proof fn lemma_word_len_split(a: Seq<char>, w: char, b: Seq<char>)
    requires
        is_space(w),
    ensures
        word_len(a + seq![w] + b) == word_len(a),
    decreases a.len(),
{
    let s = a + seq![w] + b;
    if a.len() == 0 {
        assert(s[0] == w);
    } else {
        assert(s[0] == a[0]);
        assert(s.drop_first() =~= a.drop_first() + seq![w] + b);
        lemma_word_len_split(a.drop_first(), w, b);
    }
}

/// A whitespace character separates words: the words of `a`, a space, then `b`,
/// are the words of `a` followed by the words of `b`.
pub proof fn lemma_words_split(a: Seq<char>, w: char, b: Seq<char>)
    requires
        is_space(w),
    ensures
        words(a + seq![w] + b) == words(a) + words(b),
    decreases a.len(),
{
    let s = a + seq![w] + b;
    if a.len() == 0 {
        assert(s[0] == w);
        assert(s.drop_first() =~= b);
        assert(words(a) + words(b) =~= words(b));
    } else if is_space(a[0]) {
        assert(s[0] == a[0]);
        assert(s.drop_first() =~= a.drop_first() + seq![w] + b);
        lemma_words_split(a.drop_first(), w, b);
    } else {
        assert(s[0] == a[0]);
        lemma_word_len_split(a, w, b);
        lemma_word_len_bound(a);
        let n = word_len(a) as int;
        assert(s.take(n) =~= a.take(n));
        assert(s.skip(n) =~= a.skip(n) + seq![w] + b);
        lemma_words_split(a.skip(n), w, b);
        assert(seq![a.take(n)] + (words(a.skip(n)) + words(b)) =~= (seq![a.take(n)] + words(
            a.skip(n),
        )) + words(b));
    }
}

} // verus!
