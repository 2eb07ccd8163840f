//! Text helpers: whitespace splitting, substring search and case folding.

use vstd::prelude::*;

verus! {

/// Whether `c` has the Unicode `White_Space` property: U+0009 to U+000D, U+0020, U+0085,
/// U+00A0, U+1680, U+2000 to U+200A, U+2028, U+2029, U+202F, U+205F and U+3000.
pub open spec fn char_is_whitespace(c: char) -> bool {
    let u = c as u32;
    ||| 0x09 <= u <= 0x0D
    ||| u == 0x20
    ||| u == 0x85
    ||| u == 0xA0
    ||| u == 0x1680
    ||| 0x2000 <= u <= 0x200A
    ||| u == 0x2028
    ||| u == 0x2029
    ||| u == 0x202F
    ||| u == 0x205F
    ||| u == 0x3000
}

/// Whether `c` is whitespace, as `char::is_whitespace` decides: the Unicode
/// `White_Space` set.
pub fn is_whitespace(c: char) -> (b: bool)
    ensures
        b == char_is_whitespace(c),
{
    let u = c as u32;
    (0x09 <= u && u <= 0x0D) || u == 0x20 || u == 0x85 || u == 0xA0 || u == 0x1680 || (0x2000
        <= u && u <= 0x200A) || u == 0x2028 || u == 0x2029 || u == 0x202F || u == 0x205F || u
        == 0x3000
}

/// The whitespace-separated words of `s`: its maximal runs of non-whitespace characters,
/// in order.
pub open spec fn words(s: Seq<char>) -> Seq<Seq<char>>
    decreases s.len(),
{
    if s.len() == 0 {
        seq![]
    } else {
        let w = words(s.drop_last());
        let c = s.last();
        if char_is_whitespace(c) {
            w
        } else if s.len() > 1 && !char_is_whitespace(s[s.len() - 2]) {
            w.drop_last().push(w.last().push(c))
        } else {
            w.push(seq![c])
        }
    }
}

/// Every word is non-empty and holds no whitespace.
pub proof fn words_are_nonempty_and_unbroken(s: Seq<char>)
    ensures
        forall|k: int| 0 <= k < words(s).len() ==> #[trigger] words(s)[k].len() > 0,
        forall|k: int, j: int|
            0 <= k < words(s).len() && 0 <= j < words(s)[k].len() ==> !char_is_whitespace(
                #[trigger] words(s)[k][j],
            ),
    decreases s.len(),
{
    if s.len() > 0 {
        let rest = s.drop_last();
        words_are_nonempty_and_unbroken(rest);
        let w = words(rest);
        let c = s.last();
        if !char_is_whitespace(c) && s.len() > 1 && !char_is_whitespace(s[s.len() - 2]) {
            lemma_words_end(rest);
            let w2 = w.drop_last().push(w.last().push(c));
            assert forall|k: int, j: int|
                0 <= k < w2.len() && 0 <= j < w2[k].len() implies !char_is_whitespace(
                #[trigger] w2[k][j],
            ) by {
                if k < w.len() - 1 {
                    assert(w2[k] == w[k]);
                } else if j < w.last().len() {
                    assert(w2[k][j] == w[w.len() - 1][j]);
                }
            }
            assert forall|k: int| 0 <= k < w2.len() implies #[trigger] w2[k].len() > 0 by {
                if k < w.len() - 1 {
                    assert(w2[k] == w[k]);
                }
            }
        } else if !char_is_whitespace(c) {
            let w2 = w.push(seq![c]);
            assert forall|k: int, j: int|
                0 <= k < w2.len() && 0 <= j < w2[k].len() implies !char_is_whitespace(
                #[trigger] w2[k][j],
            ) by {
                if k < w.len() {
                    assert(w2[k] == w[k]);
                }
            }
            assert forall|k: int| 0 <= k < w2.len() implies #[trigger] w2[k].len() > 0 by {
                if k < w.len() {
                    assert(w2[k] == w[k]);
                }
            }
        }
    }
}

/// When `s` ends in a non-whitespace character it has a word, and its last word ends there.
proof fn lemma_words_end(s: Seq<char>)
    requires
        s.len() > 0,
        !char_is_whitespace(s.last()),
    ensures
        words(s).len() > 0,
{
}

/// Splitting is compositional at whitespace: the words of `a`, a whitespace character,
/// then `b`, are the words of `a` followed by the words of `b`.
pub proof fn words_split_at_whitespace(a: Seq<char>, c: char, b: Seq<char>)
    requires
        char_is_whitespace(c),
    ensures
        words(a + seq![c] + b) == words(a) + words(b),
    decreases b.len(),
{
    let s = a + seq![c] + b;
    if b.len() == 0 {
        assert(s.drop_last() =~= a);
        assert(words(b) =~= Seq::<Seq<char>>::empty());
        assert(words(a) + words(b) =~= words(a));
    } else {
        let b0 = b.drop_last();
        let x = b.last();
        words_split_at_whitespace(a, c, b0);
        assert(s.drop_last() =~= a + seq![c] + b0);
        assert(s.last() == x);
        let wa = words(a);
        let wb0 = words(b0);
        if char_is_whitespace(x) {
            assert(words(a) + words(b) =~= wa + wb0);
        } else if b0.len() > 0 && !char_is_whitespace(b0.last()) {
            assert(s[s.len() - 2] == b0.last());
            assert(b[b.len() - 2] == b0.last());
            lemma_words_end(b0);
            assert((wa + wb0).drop_last() =~= wa + wb0.drop_last());
            assert((wa + wb0).last() == wb0.last());
            assert(wa + wb0.drop_last().push(wb0.last().push(x)) =~= (wa + wb0).drop_last().push(
                (wa + wb0).last().push(x),
            ));
        } else {
            if b0.len() > 0 {
                assert(s[s.len() - 2] == b0.last());
                assert(b[b.len() - 2] == b0.last());
            } else {
                assert(s[s.len() - 2] == c);
                assert(b.drop_last() =~= Seq::<char>::empty());
                assert(words(b.drop_last()) =~= Seq::<Seq<char>>::empty());
            }
            assert(wa + wb0.push(seq![x]) =~= (wa + wb0).push(seq![x]));
        }
    }
}

/// The texts of `ws` joined with single spaces, as `join(" ")` writes them.
pub open spec fn joined_with_spaces(ws: Seq<Seq<char>>) -> Seq<char>
    decreases ws.len(),
{
    if ws.len() == 0 {
        Seq::empty()
    } else if ws.len() == 1 {
        ws[0]
    } else {
        joined_with_spaces(ws.drop_last()) + seq![' '] + ws.last()
    }
}

/// A non-empty text with no whitespace is a single word.
proof fn lemma_single_word(w: Seq<char>)
    requires
        w.len() > 0,
        forall|j: int| 0 <= j < w.len() ==> !char_is_whitespace(#[trigger] w[j]),
    ensures
        words(w) == seq![w],
    decreases w.len(),
{
    if w.len() == 1 {
        assert(w.drop_last() =~= Seq::<char>::empty());
        assert(words(w.drop_last()) =~= Seq::<Seq<char>>::empty());
        assert(seq![w.last()] =~= w);
    } else {
        let rest = w.drop_last();
        lemma_single_word(rest);
        assert(w[w.len() - 2] == rest.last());
        assert(rest.push(w.last()) =~= w);
        assert(seq![rest].drop_last().push(seq![rest].last().push(w.last())) =~= seq![w]);
    }
}

/// Joining words with spaces and splitting the result gives the words back.
pub proof fn split_undoes_join(ws: Seq<Seq<char>>)
    requires
        forall|k: int| 0 <= k < ws.len() ==> #[trigger] ws[k].len() > 0,
        forall|k: int, j: int|
            0 <= k < ws.len() && 0 <= j < ws[k].len() ==> !char_is_whitespace(#[trigger] ws[k][j]),
    ensures
        words(joined_with_spaces(ws)) == ws,
    decreases ws.len(),
{
    if ws.len() == 0 {
    } else if ws.len() == 1 {
        assert forall|j: int| 0 <= j < ws[0].len() implies !char_is_whitespace(
            #[trigger] ws[0][j],
        ) by {
            assert(!char_is_whitespace(ws[0][j]));
        }
        lemma_single_word(ws[0]);
        assert(ws =~= seq![ws[0]]);
    } else {
        let rest = ws.drop_last();
        assert forall|k: int, j: int|
            0 <= k < rest.len() && 0 <= j < rest[k].len() implies !char_is_whitespace(
            #[trigger] rest[k][j],
        ) by {
            assert(rest[k] == ws[k]);
        }
        assert forall|k: int| 0 <= k < rest.len() implies #[trigger] rest[k].len() > 0 by {
            assert(rest[k] == ws[k]);
        }
        split_undoes_join(rest);
        let w = ws.last();
        assert forall|j: int| 0 <= j < w.len() implies !char_is_whitespace(#[trigger] w[j]) by {
            assert(ws[ws.len() - 1] == w);
            assert(!char_is_whitespace(ws[ws.len() - 1][j]));
        }
        assert(ws[ws.len() - 1].len() > 0);
        lemma_single_word(w);
        assert(char_is_whitespace(' '));
        words_split_at_whitespace(joined_with_spaces(rest), ' ', w);
        assert(rest + seq![w] =~= ws);
    }
}

/// Splitting the words of any text, joined with single spaces, gives the same words.
pub proof fn resplitting_joined_words(s: Seq<char>)
    ensures
        words(joined_with_spaces(words(s))) == words(s),
{
    words_are_nonempty_and_unbroken(s);
    split_undoes_join(words(s));
}

/// Splits `s` into its whitespace-separated words, each a slice of `s`.
pub fn split_words<'a>(s: &'a str) -> (res: Vec<&'a str>)
    ensures
        res@.map_values(|w: &'a str| w@) == words(s@),
{
    let cs = chars_of(s);
    let n = cs.len();
    let mut res: Vec<&'a str> = Vec::new();
    let mut start: Option<usize> = None;
    let mut i: usize = 0;
    while i < n
        invariant
            n == s@.len(),
            cs@ == s@,
            i <= n,
            match start {
                Some(st) => {
                    &&& st < i
                    &&& !char_is_whitespace(s@[i - 1])
                    &&& words(s@.take(i as int)) == res@.map_values(|w: &'a str| w@).push(
                        s@.subrange(st as int, i as int),
                    )
                },
                None => {
                    &&& (i > 0 ==> char_is_whitespace(s@[i - 1]))
                    &&& words(s@.take(i as int)) == res@.map_values(|w: &'a str| w@)
                },
            },
        decreases n - i,
    {
        let c = cs[i];
        let ws = is_whitespace(c);
        let ghost prefix = s@.take(i as int);
        assert(s@.take(i + 1).drop_last() =~= prefix);
        assert(s@.take(i + 1).last() == c);
        if ws {
            match start {
                Some(st) => {
                    let w = s.substring_char(st, i);
                    res.push(w);
                },
                None => {},
            }
            start = None;
        } else {
            match start {
                Some(st) => {
                    assert(s@.subrange(st as int, i + 1) =~= s@.subrange(st as int, i as int).push(c));
                },
                None => {
                    start = Some(i);
                    assert(s@.subrange(i as int, i + 1) =~= seq![c]);
                },
            }
        }
        i = i + 1;
    }
    assert(s@.take(n as int) =~= s@);
    match start {
        Some(st) => {
            let w = s.substring_char(st, n);
            res.push(w);
        },
        None => {},
    }
    res
}

/// The text that an optional `String` holds.
pub open spec fn opt_text(o: Option<String>) -> Option<Seq<char>> {
    match o {
        Some(s) => Some(s@),
        None => None,
    }
}

/// The texts of a list of `String`s.
pub open spec fn texts(v: Seq<String>) -> Seq<Seq<char>> {
    v.map_values(|s: String| s@)
}

/// The whitespace-separated words of `s`, each copied into a `String` of its own.
pub fn owned_words(s: &str) -> (res: Vec<String>)
    ensures
        texts(res@) == words(s@),
{
    let ws = split_words(s);
    let mut res: Vec<String> = Vec::new();
    let mut i: usize = 0;
    while i < ws.len()
        invariant
            i <= ws@.len(),
            ws@.map_values(|w: &str| w@) == words(s@),
            texts(res@) == ws@.take(i as int).map_values(|w: &str| w@),
        decreases ws@.len() - i,
    {
        res.push(String::from_str(ws[i]));
        assert(ws@.take(i + 1).map_values(|w: &str| w@) =~= ws@.take(i as int).map_values(
            |w: &str| w@,
        ).push(ws@[i as int]@));
        assert(texts(res@) =~= texts(res@.drop_last()).push(res@.last()@));
        i = i + 1;
    }
    assert(ws@.take(ws@.len() as int) =~= ws@);
    res
}

/// The characters of `s`, in order.
pub fn chars_of(s: &str) -> (res: Vec<char>)
    ensures
        res@ == s@,
{
    let mut res: Vec<char> = Vec::new();
    for c in it: s.chars()
        invariant
            res@ == it.seq().take(it.index() as int),
            it.seq() == s@,
    {
        res.push(c);
    }
    res
}

/// Whether `pat` occurs in `s` as a run of consecutive characters.
pub open spec fn has_infix(s: Seq<char>, pat: Seq<char>) -> bool {
    exists|i: int| 0 <= i <= s.len() - pat.len() && #[trigger] s.subrange(i, i + pat.len()) == pat
}

/// A pattern ending in `'.'` occurs in two texts alike when they agree up to a `'.'` at
/// `d` and neither has a `'.'` after it.
pub(crate) proof fn lemma_infix_ending_in_dot(s: Seq<char>, s2: Seq<char>, d: int, pat: Seq<char>)
    requires
        pat.len() > 0,
        pat.last() == '.',
        s.len() == s2.len(),
        0 <= d < s.len(),
        forall|j: int| 0 <= j <= d ==> s[j] == s2[j],
        forall|j: int| d < j < s.len() ==> s[j] != '.' && s2[j] != '.',
    ensures
        has_infix(s, pat) == has_infix(s2, pat),
{
    if has_infix(s, pat) {
        let k = choose|k: int|
            0 <= k <= s.len() - pat.len() && #[trigger] s.subrange(k, k + pat.len()) == pat;
        assert(s.subrange(k, k + pat.len())[pat.len() - 1] == '.');
        assert(s2.subrange(k, k + pat.len()) =~= s.subrange(k, k + pat.len()));
    }
    if has_infix(s2, pat) {
        let k = choose|k: int|
            0 <= k <= s2.len() - pat.len() && #[trigger] s2.subrange(k, k + pat.len()) == pat;
        assert(s2.subrange(k, k + pat.len())[pat.len() - 1] == '.');
        assert(s.subrange(k, k + pat.len()) =~= s2.subrange(k, k + pat.len()));
    }
}

/// Whether `pat` occurs in `s` at index `at`.
fn occurs_at(s: &Vec<char>, pat: &Vec<char>, at: usize) -> (res: bool)
    requires
        at + pat.len() <= s.len(),
    ensures
        res == (s@.subrange(at as int, at + pat@.len()) == pat@),
{
    let mut j: usize = 0;
    while j < pat.len()
        invariant
            j <= pat@.len(),
            at + pat.len() <= s.len(),
            forall|k: int| 0 <= k < j ==> s@[at + k] == pat@[k],
        decreases pat@.len() - j,
    {
        if s[at + j] != pat[j] {
            assert(s@.subrange(at as int, at + pat@.len())[j as int] != pat@[j as int]);
            return false;
        }
        j = j + 1;
    }
    assert(s@.subrange(at as int, at + pat@.len()) =~= pat@);
    true
}

/// Whether `pat` occurs in `s`, as `str::contains` with a `&str` pattern decides.
pub fn contains_text(s: &str, pat: &str) -> (res: bool)
    ensures
        res == has_infix(s@, pat@),
{
    let cs = chars_of(s);
    let ps = chars_of(pat);
    if ps.len() > cs.len() {
        return false;
    }
    let last = cs.len() - ps.len();
    let mut i: usize = 0;
    loop
        invariant
            last == cs.len() - ps.len(),
            i <= last,
            cs@ == s@,
            ps@ == pat@,
            forall|k: int| 0 <= k < i ==> #[trigger] s@.subrange(k, k + pat@.len()) != pat@,
        decreases last - i,
    {
        if occurs_at(&cs, &ps, i) {
            return true;
        }
        if i == last {
            return false;
        }
        i = i + 1;
    }
}

/// Whether `a` and `b` hold the same characters.
pub fn same_text(a: &str, b: &str) -> (res: bool)
    ensures
        res == (a@ == b@),
{
    let ac = chars_of(a);
    let bc = chars_of(b);
    if ac.len() != bc.len() {
        return false;
    }
    assert(a@.subrange(0, b@.len() as int) =~= a@);
    occurs_at(&ac, &bc, 0)
}

/// Whether `c` is an ASCII character.
pub open spec fn is_ascii_char(c: char) -> bool {
    (c as u32) < 0x80
}

/// `c` with an ASCII capital letter turned into its small letter.
pub open spec fn ascii_lower(c: char) -> char {
    if 'A' <= c <= 'Z' {
        ((c as u32) + 0x20) as char
    } else {
        c
    }
}

/// The lowercase form of a text that is not all ASCII, as `str::to_lowercase` computes it.
pub uninterp spec fn unicode_lowercase(s: Seq<char>) -> Seq<char>;

/// The lowercase form of `s`, as `str::to_lowercase` computes it: an ASCII text has each
/// capital letter turned into its small letter and everything else kept; any other text
/// lowercases by the Unicode rules (named `unicode_lowercase`).
pub open spec fn text_lowercase(s: Seq<char>) -> Seq<char> {
    if forall|i: int| 0 <= i < s.len() ==> is_ascii_char(#[trigger] s[i]) {
        s.map_values(|c: char| ascii_lower(c))
    } else {
        unicode_lowercase(s)
    }
}

/// Calls `str::to_lowercase`.
///
/// Trusted: on ASCII text the result is the letter-by-letter ASCII lowercase form (the
/// Unicode lowercase mapping of ASCII characters); on other text it is named
/// `unicode_lowercase(s)`.
#[verifier::external_body]
pub(crate) fn lowercase(s: &str) -> (res: String)
    ensures
        (forall|i: int| 0 <= i < s@.len() ==> is_ascii_char(#[trigger] s@[i])) ==> res@
            == s@.map_values(|c: char| ascii_lower(c)),
        !(forall|i: int| 0 <= i < s@.len() ==> is_ascii_char(#[trigger] s@[i])) ==> res@
            == unicode_lowercase(s@),
{
    s.to_lowercase()
}

} // verus!
