//! Text as a sequence of characters: white space and words, trimming, searching,
//! ASCII case, dictionary order, and numbers written in decimal.

use vstd::prelude::*;

verus! {

/// `String::push`: the text grows by the given character at its end.
pub assume_specification[ String::push ](s: &mut String, c: char)
    ensures
        final(s)@ == old(s)@.push(c),
;

/// The characters with the Unicode property `White_Space`.
pub open spec fn is_space(c: char) -> bool {
    let u = c as u32;
    ||| 0x09 <= u <= 0x0d
    ||| u == 0x20
    ||| u == 0x85
    ||| u == 0xa0
    ||| u == 0x1680
    ||| 0x2000 <= u <= 0x200a
    ||| u == 0x2028
    ||| u == 0x2029
    ||| u == 0x202f
    ||| u == 0x205f
    ||| u == 0x3000
}

/// Whether `c` is white space.
pub fn space(c: char) -> (r: bool)
    ensures
        r == is_space(c),
{
    let u: u32 = c as u32;
    (0x09 <= u && u <= 0x0d) || u == 0x20 || u == 0x85 || u == 0xa0 || u == 0x1680
        || (0x2000 <= u && u <= 0x200a) || u == 0x2028 || u == 0x2029 || u == 0x202f
        || u == 0x205f || u == 0x3000
}

/// The characters of `s`.
pub fn chars_of(s: &str) -> (r: Vec<char>)
    ensures
        r@ == s@,
{
    let mut out: Vec<char> = Vec::new();
    for c in it: s.chars()
        invariant
            it.seq() == s@,
            out@ == s@.take(it.index() as int),
    {
        out.push(c);
    }
    out
}

/// The text made of `chars[from..to]`.
pub fn text_between(chars: &Vec<char>, from: usize, to: usize) -> (r: String)
    requires
        from <= to <= chars@.len(),
    ensures
        r@ == chars@.subrange(from as int, to as int),
{
    let mut out: String = String::new();
    let mut i: usize = from;
    while i < to
        invariant
            from <= i <= to <= chars@.len(),
            out@ == chars@.subrange(from as int, i as int),
        decreases to - i,
    {
        out.push(chars[i]);
        i = i + 1;
        assert(chars@.subrange(from as int, i as int) =~= chars@.subrange(
            from as int,
            i - 1,
        ).push(chars@[i - 1]));
    }
    out
}

/// Whether two texts hold the same characters.
pub fn same(a: &str, b: &str) -> (r: bool)
    ensures
        r == (a@ == b@),
{
    let x: Vec<char> = chars_of(a);
    let y: Vec<char> = chars_of(b);
    if x.len() != y.len() {
        return false;
    }
    let mut i: usize = 0;
    while i < x.len()
        invariant
            x@.len() == y@.len(),
            i <= x@.len(),
            x@ == a@,
            y@ == b@,
            forall|k: int| 0 <= k < i ==> x@[k] == y@[k],
        decreases x@.len() - i,
    {
        if x[i] != y[i] {
            assert(a@[i as int] != b@[i as int]);
            return false;
        }
        i = i + 1;
    }
    assert(a@ =~= b@);
    true
}

// ---------------------------------------------------------------------------
// Words
// ---------------------------------------------------------------------------

/// How many characters at the start of `s` are not white space.
pub open spec fn word_len(s: Seq<char>) -> nat
    decreases s.len(),
{
    if s.len() == 0 || is_space(s[0]) {
        0
    } else {
        1 + word_len(s.drop_first())
    }
}

pub proof fn lemma_word_len(s: Seq<char>)
    ensures
        word_len(s) <= s.len(),
        forall|k: int| 0 <= k < word_len(s) ==> !is_space(#[trigger] s[k]),
        word_len(s) < s.len() ==> is_space(s[word_len(s) as int]),
    decreases s.len(),
{
    if s.len() == 0 || is_space(s[0]) {
    } else {
        let t = s.drop_first();
        lemma_word_len(t);
        assert forall|k: int| 0 <= k < word_len(s) implies !is_space(#[trigger] s[k]) by {
            if k > 0 {
                assert(s[k] == t[k - 1]);
            }
        }
    }
}

/// `word_len` is pinned by the run it measures.
pub proof fn lemma_word_len_is(s: Seq<char>, n: nat)
    requires
        n <= s.len(),
        forall|k: int| 0 <= k < n ==> !is_space(#[trigger] s[k]),
        n < s.len() ==> is_space(s[n as int]),
    ensures
        word_len(s) == n,
{
    lemma_word_len(s);
    if word_len(s) < n {
        assert(!is_space(s[word_len(s) as int]));
    }
}

/// The maximal runs of characters that are not white space, in order.
pub open spec fn words(s: Seq<char>) -> Seq<Seq<char>>
    decreases s.len(),
{
    if s.len() == 0 {
        seq![]
    } else if is_space(s[0]) {
        words(s.drop_first())
    } else {
        let n = word_len(s);
        if 0 < n <= s.len() {
            seq![s.take(n as int)] + words(s.skip(n as int))
        } else {
            seq![]
        }
    }
}

/// The views of a list of texts.
pub open spec fn views(list: Seq<String>) -> Seq<Seq<char>> {
    list.map_values(|t: String| t@)
}

pub proof fn lemma_views_push(list: Seq<String>, t: String)
    ensures
        views(list.push(t)) == views(list).push(t@),
{
    assert(views(list.push(t)) =~= views(list).push(t@));
}

/// Splits a text into its words.
pub fn split_words(s: &str) -> (r: Vec<String>)
    ensures
        views(r@) == words(s@),
{
    let chars: Vec<char> = chars_of(s);
    let mut out: Vec<String> = Vec::new();
    let mut i: usize = 0;
    proof {
        assert(chars@.skip(0) =~= s@);
        assert(views(out@) + words(s@) =~= words(s@));
    }
    while i < chars.len()
        invariant
            chars@ == s@,
            i <= chars@.len(),
            words(s@) == views(out@) + words(s@.skip(i as int)),
        decreases chars@.len() - i,
    {
        let ghost rest = s@.skip(i as int);
        if space(chars[i]) {
            i = i + 1;
            assert(rest.drop_first() =~= s@.skip(i as int));
        } else {
            let start: usize = i;
            while i < chars.len() && !space(chars[i])
                invariant
                    chars@ == s@,
                    start <= i <= chars@.len(),
                    forall|k: int| start <= k < i ==> !is_space(#[trigger] chars@[k]),
                decreases chars@.len() - i,
            {
                i = i + 1;
            }
            let ghost n = (i - start) as nat;
            proof {
                assert(!is_space(rest[0]));
                if n == 0 {
                    assert(chars@[start as int] == rest[0]);
                }
                assert forall|k: int| 0 <= k < n implies !is_space(#[trigger] rest[k]) by {
                    assert(rest[k] == chars@[start + k]);
                }
                lemma_word_len_is(rest, n);
                assert(rest.skip(n as int) =~= s@.skip(i as int));
                assert(rest.take(n as int) =~= chars@.subrange(start as int, i as int));
            }
            let ghost before = out@;
            let word: String = text_between(&chars, start, i);
            out.push(word);
            proof {
                lemma_views_push(before, word);
                assert(views(out@) + words(s@.skip(i as int)) =~= views(before) + (seq![word@]
                    + words(s@.skip(i as int))));
            }
        }
    }
    assert(s@.skip(i as int) =~= Seq::<char>::empty());
    assert(views(out@) + words(s@.skip(i as int)) =~= views(out@));
    out
}

/// Whether `w` can be a word: it is not empty and holds no white space.
pub open spec fn is_word(w: Seq<char>) -> bool {
    &&& w.len() > 0
    &&& forall|k: int| 0 <= k < w.len() ==> !is_space(#[trigger] w[k])
}

/// Every word of a text is a word.
pub proof fn lemma_words_are_words(s: Seq<char>)
    ensures
        forall|i: int| 0 <= i < words(s).len() ==> is_word(#[trigger] words(s)[i]),
    decreases s.len(),
{
    if s.len() == 0 {
    } else if is_space(s[0]) {
        lemma_words_are_words(s.drop_first());
        assert(words(s) == words(s.drop_first()));
    } else {
        lemma_word_len(s);
        let n = word_len(s);
        lemma_words_are_words(s.skip(n as int));
        let tail = words(s.skip(n as int));
        assert forall|i: int| 0 <= i < words(s).len() implies is_word(#[trigger] words(s)[i]) by {
            if i == 0 {
                let w = s.take(n as int);
                assert(words(s)[0] == w);
                assert forall|k: int| 0 <= k < w.len() implies !is_space(#[trigger] w[k]) by {
                    assert(w[k] == s[k]);
                }
            } else {
                assert(words(s)[i] == tail[i - 1]);
            }
        }
    }
}

/// The parts of a list with `sep` between each two neighbours.
pub open spec fn joined(list: Seq<Seq<char>>, sep: Seq<char>) -> Seq<char>
    decreases list.len(),
{
    if list.len() == 0 {
        seq![]
    } else if list.len() == 1 {
        list[0]
    } else {
        joined(list.drop_last(), sep) + sep + list.last()
    }
}

/// Joins a list of texts.
pub fn join(list: &Vec<String>, sep: &str) -> (r: String)
    ensures
        r@ == joined(views(list@), sep@),
{
    let mut out: String = String::new();
    let mut i: usize = 0;
    let ghost all = views(list@);
    while i < list.len()
        invariant
            i <= list@.len(),
            all == views(list@),
            out@ == joined(all.take(i as int), sep@),
        decreases list@.len() - i,
    {
        if i > 0 {
            out.append(sep);
        }
        out.append(list[i].as_str());
        i = i + 1;
        proof {
            let part = all.take(i as int);
            assert(part.drop_last() =~= all.take(i - 1));
            assert(part.last() == list@[i - 1]@);
            if i == 1 {
                assert(part[0] == part.last());
                assert(out@ =~= part[0]);
            }
        }
    }
    assert(all.take(i as int) =~= all);
    out
}

/// White space between two texts parts their words.
pub proof fn lemma_words_parted(a: Seq<char>, gap: char, b: Seq<char>)
    requires
        is_space(gap),
    ensures
        words(a + seq![gap] + b) == words(a) + words(b),
    decreases a.len(),
{
    let s = a + seq![gap] + b;
    if a.len() == 0 {
        assert(s[0] == gap);
        assert(s.drop_first() =~= b);
        assert(words(a) + words(b) =~= words(b));
    } else if is_space(a[0]) {
        assert(s[0] == a[0]);
        assert(s.drop_first() =~= a.drop_first() + seq![gap] + b);
        lemma_words_parted(a.drop_first(), gap, b);
    } else {
        lemma_word_len(a);
        let n = word_len(a);
        assert(s[0] == a[0]);
        assert forall|k: int| 0 <= k < n implies !is_space(#[trigger] s[k]) by {
            assert(s[k] == a[k]);
        }
        assert(s[n as int] == if n < a.len() { a[n as int] } else { gap });
        lemma_word_len_is(s, n);
        assert(s.take(n as int) =~= a.take(n as int));
        assert(s.skip(n as int) =~= a.skip(n as int) + seq![gap] + b);
        lemma_words_parted(a.skip(n as int), gap, b);
        assert(words(s) =~= words(a) + words(b));
    }
}

/// Words joined with single spaces are found again by splitting.
pub proof fn law_split_undoes_join(list: Seq<Seq<char>>)
    requires
        forall|i: int| 0 <= i < list.len() ==> is_word(#[trigger] list[i]),
    ensures
        words(joined(list, seq![' '])) == list,
    decreases list.len(),
{
    if list.len() == 0 {
        assert(words(joined(list, seq![' '])) =~= list);
    } else {
        let w = list.last();
        assert(is_word(list[list.len() - 1]));
        assert(words(w) =~= seq![w]) by {
            lemma_word_len_is(w, w.len());
            assert(w.take(w.len() as int) =~= w);
            assert(w.skip(w.len() as int) =~= Seq::<char>::empty());
            assert(words(Seq::<char>::empty()) =~= seq![]);
            assert(!is_space(w[0]));
        }
        if list.len() == 1 {
            assert(list =~= seq![w]);
        } else {
            let init = list.drop_last();
            assert forall|i: int| 0 <= i < init.len() implies is_word(#[trigger] init[i]) by {
                assert(init[i] == list[i]);
            }
            law_split_undoes_join(init);
            lemma_words_parted(joined(init, seq![' ']), ' ', w);
            assert(words(joined(list, seq![' '])) =~= init + seq![w]);
            assert(init + seq![w] =~= list);
        }
    }
}

// ---------------------------------------------------------------------------
// Trimming
// ---------------------------------------------------------------------------

/// `s` without the white space at its start.
pub open spec fn trimmed_start(s: Seq<char>) -> Seq<char>
    decreases s.len(),
{
    if s.len() > 0 && is_space(s[0]) {
        trimmed_start(s.drop_first())
    } else {
        s
    }
}

/// `s` without the white space at its end.
pub open spec fn trimmed_end(s: Seq<char>) -> Seq<char>
    decreases s.len(),
{
    if s.len() > 0 && is_space(s.last()) {
        trimmed_end(s.drop_last())
    } else {
        s
    }
}

/// `s` without the white space at both ends.
pub open spec fn trimmed(s: Seq<char>) -> Seq<char> {
    trimmed_end(trimmed_start(s))
}

/// Trims white space from both ends.
pub fn trim(s: &str) -> (r: String)
    ensures
        r@ == trimmed(s@),
{
    let chars: Vec<char> = chars_of(s);
    let mut from: usize = 0;
    assert(chars@.skip(0) =~= s@);
    while from < chars.len() && space(chars[from])
        invariant
            from <= chars@.len(),
            trimmed_start(s@) == trimmed_start(chars@.skip(from as int)),
        decreases chars@.len() - from,
    {
        assert(chars@.skip(from as int).drop_first() =~= chars@.skip(from + 1));
        from = from + 1;
    }
    let ghost body = chars@.skip(from as int);
    assert(trimmed_start(s@) == body) by {
        if from < chars@.len() {
            assert(body[0] == chars@[from as int]);
        }
    }
    let mut to: usize = chars.len();
    assert(chars@.subrange(from as int, to as int) =~= body);
    while from < to && space(chars[to - 1])
        invariant
            from <= to <= chars@.len(),
            body == chars@.skip(from as int),
            trimmed_end(body) == trimmed_end(chars@.subrange(from as int, to as int)),
        decreases to - from,
    {
        assert(chars@.subrange(from as int, to as int).drop_last() =~= chars@.subrange(
            from as int,
            to - 1,
        ));
        to = to - 1;
    }
    proof {
        let t = chars@.subrange(from as int, to as int);
        if from < to {
            assert(t.last() == chars@[to - 1]);
        }
    }
    text_between(&chars, from, to)
}

// ---------------------------------------------------------------------------
// Searching
// ---------------------------------------------------------------------------

/// Whether `needle` stands in `s` at position `at`.
pub open spec fn stands_at(s: Seq<char>, needle: Seq<char>, at: int) -> bool {
    &&& 0 <= at
    &&& at + needle.len() <= s.len()
    &&& s.subrange(at, at + needle.len()) == needle
}

/// Whether `s` starts with `needle`.
pub open spec fn starts(s: Seq<char>, needle: Seq<char>) -> bool {
    stands_at(s, needle, 0)
}

/// Whether `s` ends with `needle`.
pub open spec fn ends(s: Seq<char>, needle: Seq<char>) -> bool {
    stands_at(s, needle, s.len() - needle.len())
}

/// Whether `needle` stands anywhere in `s`.
pub open spec fn holds(s: Seq<char>, needle: Seq<char>) -> bool {
    exists|at: int| stands_at(s, needle, at)
}

fn matches_at(s: &Vec<char>, needle: &Vec<char>, at: usize) -> (r: bool)
    requires
        at <= s@.len(),
    ensures
        r == stands_at(s@, needle@, at as int),
{
    if needle.len() > s.len() - at {
        return false;
    }
    let mut k: usize = 0;
    while k < needle.len()
        invariant
            at + needle@.len() <= s@.len() <= usize::MAX,
            k <= needle@.len(),
            forall|j: int| 0 <= j < k ==> s@[at + j] == #[trigger] needle@[j],
        decreases needle@.len() - k,
    {
        if s[at + k] != needle[k] {
            assert(s@.subrange(at as int, at + needle@.len())[k as int] != needle@[k as int]);
            return false;
        }
        k = k + 1;
    }
    assert(s@.subrange(at as int, at + needle@.len()) =~= needle@);
    true
}

/// Whether the text starts with `needle`.
pub fn starts_with(s: &str, needle: &str) -> (r: bool)
    ensures
        r == starts(s@, needle@),
{
    let x: Vec<char> = chars_of(s);
    let y: Vec<char> = chars_of(needle);
    matches_at(&x, &y, 0)
}

/// Whether the text ends with `needle`.
pub fn ends_with(s: &str, needle: &str) -> (r: bool)
    ensures
        r == ends(s@, needle@),
{
    let x: Vec<char> = chars_of(s);
    let y: Vec<char> = chars_of(needle);
    if y.len() > x.len() {
        return false;
    }
    matches_at(&x, &y, x.len() - y.len())
}

/// Whether the text holds `needle`.
pub fn contains(s: &str, needle: &str) -> (r: bool)
    ensures
        r == holds(s@, needle@),
{
    let x: Vec<char> = chars_of(s);
    let y: Vec<char> = chars_of(needle);
    let mut at: usize = 0;
    loop
        invariant
            x@ == s@,
            y@ == needle@,
            at <= x@.len(),
            forall|k: int| 0 <= k < at ==> !stands_at(s@, needle@, k),
        decreases x@.len() - at,
    {
        if matches_at(&x, &y, at) {
            return true;
        }
        if at == x.len() {
            assert forall|k: int| !stands_at(s@, needle@, k) by {}
            return false;
        }
        at = at + 1;
    }
}

// ---------------------------------------------------------------------------
// ASCII case
// ---------------------------------------------------------------------------

/// The lower-case form of an ASCII letter; every other character as it is.
pub open spec fn ascii_lower(c: char) -> char {
    if 'A' <= c <= 'Z' {
        (c as u8 + 32) as char
    } else {
        c
    }
}

/// A text with its ASCII letters in lower case.
pub open spec fn lowered(s: Seq<char>) -> Seq<char> {
    s.map_values(|c: char| ascii_lower(c))
}

/// The upper-case form of an ASCII letter; every other character as it is.
pub open spec fn ascii_upper(c: char) -> char {
    if 'a' <= c <= 'z' {
        (c as u8 - 32) as char
    } else {
        c
    }
}

/// A text with its ASCII letters in upper case.
pub open spec fn raised(s: Seq<char>) -> Seq<char> {
    s.map_values(|c: char| ascii_upper(c))
}

/// Putting ASCII letters in lower case leaves no capital among them, and undoes putting
/// them in upper case.
pub proof fn lemma_lowered(s: Seq<char>)
    ensures
        forall|k: int| 0 <= k < s.len() ==> !('A' <= #[trigger] lowered(s)[k] <= 'Z'),
        lowered(lowered(s)) == lowered(s),
        lowered(raised(s)) == lowered(s),
{
    assert(lowered(lowered(s)) =~= lowered(s));
    assert(lowered(raised(s)) =~= lowered(s));
}

/// Puts the ASCII letters of a text in lower case.
pub fn to_ascii_lower(s: &str) -> (r: String)
    ensures
        r@ == lowered(s@),
{
    let chars: Vec<char> = chars_of(s);
    let mut out: String = String::new();
    let mut i: usize = 0;
    while i < chars.len()
        invariant
            chars@ == s@,
            i <= chars@.len(),
            out@ == lowered(s@.take(i as int)),
        decreases chars@.len() - i,
    {
        let c: char = chars[i];
        if 'A' <= c && c <= 'Z' {
            out.push((c as u8 + 32) as char);
        } else {
            out.push(c);
        }
        i = i + 1;
        assert(lowered(s@.take(i as int)) =~= lowered(s@.take(i - 1)).push(ascii_lower(c)));
    }
    assert(s@.take(i as int) =~= s@);
    out
}

// ---------------------------------------------------------------------------
// Dictionary order
// ---------------------------------------------------------------------------

/// Whether `a` comes before `b` in the order by code points, first difference first.
pub open spec fn before(a: Seq<char>, b: Seq<char>) -> bool
    decreases a.len(),
{
    if b.len() == 0 {
        false
    } else if a.len() == 0 {
        true
    } else if a[0] != b[0] {
        a[0] < b[0]
    } else {
        before(a.drop_first(), b.drop_first())
    }
}

/// The order is total and strict, and it is transitive.
pub proof fn lemma_before_total(a: Seq<char>, b: Seq<char>)
    ensures
        a == b ==> !before(a, b),
        a != b ==> (before(a, b) != before(b, a)),
        before(a, b) ==> !before(b, a),
    decreases a.len(),
{
    if a.len() > 0 && b.len() > 0 {
        lemma_before_total(a.drop_first(), b.drop_first());
        if a != b && a[0] == b[0] {
            if a.drop_first() == b.drop_first() {
                assert(a =~= seq![a[0]] + a.drop_first());
                assert(b =~= seq![b[0]] + b.drop_first());
            }
        }
    } else if a.len() == 0 && b.len() == 0 {
        assert(a =~= b);
    }
}

pub proof fn lemma_before_trans(a: Seq<char>, b: Seq<char>, c: Seq<char>)
    requires
        before(a, b),
        before(b, c),
    ensures
        before(a, c),
    decreases a.len(),
{
    if a.len() > 0 && b.len() > 0 && c.len() > 0 && a[0] == b[0] && b[0] == c[0] {
        lemma_before_trans(a.drop_first(), b.drop_first(), c.drop_first());
    }
}

/// Whether `a` comes before `b`.
pub fn comes_before(a: &str, b: &str) -> (r: bool)
    ensures
        r == before(a@, b@),
{
    let x: Vec<char> = chars_of(a);
    let y: Vec<char> = chars_of(b);
    let mut i: usize = 0;
    assert(x@.skip(0) =~= x@);
    assert(y@.skip(0) =~= y@);
    loop
        invariant
            x@ == a@,
            y@ == b@,
            i <= x@.len(),
            i <= y@.len(),
            before(a@, b@) == before(x@.skip(i as int), y@.skip(i as int)),
        decreases x@.len() - i,
    {
        if i == y.len() {
            return false;
        }
        if i == x.len() {
            return true;
        }
        assert(x@.skip(i as int)[0] == x@[i as int]);
        assert(y@.skip(i as int)[0] == y@[i as int]);
        if x[i] != y[i] {
            return x[i] < y[i];
        }
        assert(x@.skip(i as int).drop_first() =~= x@.skip(i + 1));
        assert(y@.skip(i as int).drop_first() =~= y@.skip(i + 1));
        i = i + 1;
    }
}

// ---------------------------------------------------------------------------
// Decimal numbers
// ---------------------------------------------------------------------------

/// The digit of a number below ten.
pub open spec fn digit(n: nat) -> char {
    (48 + n) as char
}

/// A number in decimal, without leading zeros.
pub open spec fn decimal(n: nat) -> Seq<char>
    decreases n,
{
    if n < 10 {
        seq![digit(n)]
    } else {
        decimal(n / 10).push(digit(n % 10))
    }
}

/// A signed number in decimal, with `-` before a negative one.
pub open spec fn signed_decimal(n: int) -> Seq<char> {
    if n < 0 {
        seq!['-'] + decimal((-n) as nat)
    } else {
        decimal(n as nat)
    }
}

/// Writes a number in decimal.
pub fn decimal_text(n: u64) -> (r: String)
    ensures
        r@ == decimal(n as nat),
    decreases n,
{
    if n < 10 {
        let mut out: String = String::new();
        out.push((48u8 + n as u8) as char);
        assert(out@ =~= decimal(n as nat));
        out
    } else {
        let mut out: String = decimal_text(n / 10);
        out.push((48u8 + (n % 10) as u8) as char);
        out
    }
}

/// Writes a signed number in decimal.
pub fn signed_decimal_text(n: i64) -> (r: String)
    ensures
        r@ == signed_decimal(n as int),
{
    if n >= 0 {
        decimal_text(n as u64)
    } else {
        let size: u64 = if n == i64::MIN {
            0x8000_0000_0000_0000
        } else {
            (-n) as u64
        };
        let mut out: String = String::new();
        out.push('-');
        let digits: String = decimal_text(size);
        out.append(digits.as_str());
        assert(out@ =~= signed_decimal(n as int));
        out
    }
}

/// A number in decimal is a run of digits, two or more from ten on.
pub proof fn lemma_decimal_is_digits(n: nat)
    ensures
        decimal(n).len() >= 1,
        n >= 10 ==> decimal(n).len() >= 2,
        all_digits(decimal(n)),
    decreases n,
{
    if n >= 10 {
        lemma_decimal_is_digits(n / 10);
    }
}

/// Whether every character is one of `0` to `9`.
pub open spec fn all_digits(s: Seq<char>) -> bool {
    forall|k: int| 0 <= k < s.len() ==> '0' <= #[trigger] s[k] <= '9'
}

/// The number that a run of digits stands for.
pub open spec fn digits_value(s: Seq<char>) -> nat
    decreases s.len(),
{
    if s.len() == 0 {
        0
    } else {
        digits_value(s.drop_last()) * 10 + ((s.last() as u32 - 48) as nat)
    }
}

/// A number written as an optional `+` and one or more digits, if it fits in 64 bits.
pub open spec fn parsed_number(s: Seq<char>) -> Option<u64> {
    let body = if s.len() > 0 && s[0] == '+' {
        s.drop_first()
    } else {
        s
    };
    if body.len() > 0 && all_digits(body) && digits_value(body) <= u64::MAX {
        Some(digits_value(body) as u64)
    } else {
        None
    }
}

pub proof fn lemma_digits_value_grows(s: Seq<char>, n: int)
    requires
        0 <= n <= s.len(),
        all_digits(s),
    ensures
        digits_value(s.take(n)) <= digits_value(s),
    decreases s.len() - n,
{
    if n == s.len() {
        assert(s.take(n) =~= s);
    } else {
        lemma_digits_value_grows(s, n + 1);
        assert(s.take(n + 1).drop_last() =~= s.take(n));
        assert(s.take(n + 1).last() == s[n]);
    }
}

/// Reads a number.
pub fn parse_number(s: &str) -> (r: Option<u64>)
    ensures
        r == parsed_number(s@),
{
    let chars: Vec<char> = chars_of(s);
    let from: usize = if chars.len() > 0 && chars[0] == '+' {
        1
    } else {
        0
    };
    let ghost body = chars@.skip(from as int);
    assert(from == 1 ==> body =~= s@.drop_first());
    assert(from == 0 ==> body =~= s@);
    if from == chars.len() {
        return None;
    }
    let mut value: u64 = 0;
    let mut i: usize = from;
    assert(body.take(0) =~= Seq::<char>::empty());
    while i < chars.len()
        invariant
            from <= i <= chars@.len(),
            body == chars@.skip(from as int),
            body.len() > 0,
            body == (if s@.len() > 0 && s@[0] == '+' { s@.drop_first() } else { s@ }),
            all_digits(body.take(i - from)),
            value == digits_value(body.take(i - from)),
        decreases chars@.len() - i,
    {
        let c: char = chars[i];
        let ghost done = body.take(i - from);
        let ghost next = body.take(i - from + 1);
        assert(body[i - from] == c);
        assert(next.drop_last() =~= done);
        assert(next.last() == c);
        if c < '0' || c > '9' {
            return None;
        }
        assert forall|k: int| 0 <= k < next.len() implies '0' <= #[trigger] next[k] <= '9' by {
            if k < done.len() {
                assert(next[k] == done[k]);
            }
        }
        let d: u64 = (c as u8 - 48) as u64;
        assert(digits_value(next) == value * 10 + d);
        if value > (u64::MAX - d) / 10 {
            proof {
                if all_digits(body) {
                    lemma_digits_value_grows(body, i - from + 1);
                }
            }
            return None;
        }
        value = value * 10 + d;
        i = i + 1;
    }
    assert(body.take(i - from) =~= body);
    Some(value)
}

// ---------------------------------------------------------------------------
// What the readings and writings come to
// ---------------------------------------------------------------------------

/// Whether a text is nothing but white space.
pub open spec fn is_blank(s: Seq<char>) -> bool {
    forall|k: int| 0 <= k < s.len() ==> is_space(#[trigger] s[k])
}

/// Splitting a text takes white space away and nothing else: a text without any is one
/// word, a blank text has none, and white space between two texts parts their words.
pub proof fn law_words_are_parted_by_white_space(a: Seq<char>, gap: char, b: Seq<char>)
    ensures
        is_word(a) ==> words(a) == seq![a],
        is_blank(a) ==> words(a) == Seq::<Seq<char>>::empty(),
        is_space(gap) ==> words(a + seq![gap] + b) == words(a) + words(b),
{
    if is_word(a) {
        law_split_undoes_join(seq![a]);
    }
    if is_blank(a) {
        lemma_blank_has_no_words(a);
    }
    if is_space(gap) {
        lemma_words_parted(a, gap, b);
    }
}

proof fn lemma_blank_has_no_words(s: Seq<char>)
    requires
        is_blank(s),
    ensures
        words(s) == Seq::<Seq<char>>::empty(),
    decreases s.len(),
{
    if s.len() > 0 {
        let t = s.drop_first();
        assert(is_space(s[0]));
        assert forall|k: int| 0 <= k < t.len() implies is_space(#[trigger] t[k]) by {
            assert(t[k] == s[k + 1]);
        }
        lemma_blank_has_no_words(t);
    } else {
        assert(words(s) =~= seq![]);
    }
}

/// Joining puts the separator between each two neighbours and nowhere else: two lists
/// joined one after the other have it once between them.
pub proof fn law_joining_goes_list_by_list(
    a: Seq<Seq<char>>,
    b: Seq<Seq<char>>,
    one: Seq<char>,
    sep: Seq<char>,
)
    ensures
        joined(Seq::empty(), sep) == Seq::<char>::empty(),
        joined(seq![one], sep) == one,
        a.len() > 0 && b.len() > 0 ==> joined(a + b, sep) == joined(a, sep) + sep + joined(b, sep),
    decreases b.len(),
{
    assert(joined(Seq::empty(), sep) =~= seq![]);
    if a.len() > 0 && b.len() > 0 {
        assert((a + b).drop_last() =~= a + b.drop_last());
        assert((a + b).last() == b.last());
        if b.len() == 1 {
            assert(a + b.drop_last() =~= a);
        } else {
            law_joining_goes_list_by_list(a, b.drop_last(), one, sep);
            assert(joined(a, sep) + sep + joined(b.drop_last(), sep) + sep + b.last() =~= joined(
                a,
                sep,
            ) + sep + (joined(b.drop_last(), sep) + sep + b.last()));
        }
    }
}

/// The pieces of a text between the places where a separator stands, found from the left.
pub open spec fn split_on(s: Seq<char>, sep: Seq<char>, from: int) -> Seq<Seq<char>>
    decreases s.len(), s.len() - from,
{
    if sep.len() == 0 || from < 0 || from + sep.len() > s.len() {
        seq![s]
    } else if stands_at(s, sep, from) {
        seq![s.take(from)] + split_on(s.skip(from + sep.len()), sep, 0)
    } else {
        split_on(s, sep, from + 1)
    }
}

/// Splitting at a separator that starts with a space gives back what was joined with it,
/// as long as nothing that was joined holds a space.
pub proof fn law_split_on_undoes_join(list: Seq<Seq<char>>, sep: Seq<char>)
    requires
        list.len() > 0,
        sep.len() > 0,
        sep[0] == ' ',
        forall|i: int, k: int| 0 <= i < list.len() && 0 <= k < list[i].len() ==> #[trigger] list[i][k]
            != ' ',
    ensures
        split_on(joined(list, sep), sep, 0) == list,
    decreases list.len(),
{
    let first = list[0];
    if list.len() == 1 {
        assert forall|k: int| 0 <= k < first.len() implies #[trigger] first[k] != ' ' by {
            assert(list[0][k] != ' ');
        }
        lemma_no_split(first, sep, 0);
        assert(list =~= seq![first]);
    } else {
        let t = list.drop_first();
        assert(seq![first] + t =~= list);
        law_joining_goes_list_by_list(seq![first], t, first, sep);
        assert forall|i: int, k: int| 0 <= i < t.len() && 0 <= k < t[i].len() implies #[trigger] t[i][k]
            != ' ' by {
            assert(list[i + 1][k] != ' ');
        }
        assert forall|k: int| 0 <= k < first.len() implies #[trigger] first[k] != ' ' by {
            assert(list[0][k] != ' ');
        }
        law_split_on_undoes_join(t, sep);
        lemma_split_at_first(first, sep, joined(t, sep), 0);
    }
}

proof fn lemma_no_split(s: Seq<char>, sep: Seq<char>, from: int)
    requires
        sep.len() > 0,
        sep[0] == ' ',
        from >= 0,
        forall|k: int| 0 <= k < s.len() ==> #[trigger] s[k] != ' ',
    ensures
        split_on(s, sep, from) == seq![s],
    decreases s.len() - from,
{
    if from + sep.len() <= s.len() {
        assert(s.subrange(from, from + sep.len())[0] == s[from]);
        lemma_no_split(s, sep, from + 1);
    }
}

proof fn lemma_split_at_first(first: Seq<char>, sep: Seq<char>, rest: Seq<char>, from: int)
    requires
        sep.len() > 0,
        sep[0] == ' ',
        0 <= from <= first.len(),
        forall|k: int| 0 <= k < first.len() ==> #[trigger] first[k] != ' ',
    ensures
        split_on(first + sep + rest, sep, from) == seq![first] + split_on(rest, sep, 0),
    decreases first.len() - from,
{
    let s = first + sep + rest;
    if from == first.len() {
        assert(s.subrange(from, from + sep.len()) =~= sep);
        assert(s.take(from) =~= first);
        assert(s.skip(from + sep.len()) =~= rest);
    } else {
        assert(s.subrange(from, from + sep.len())[0] == first[from]);
        lemma_split_at_first(first, sep, rest, from + 1);
    }
}

/// Trimming takes the white space from both ends and nothing else: whatever blank text
/// stands round a text that has none at its ends, the text itself is left.
pub proof fn law_trimming_leaves_the_middle(a: Seq<char>, t: Seq<char>, b: Seq<char>)
    requires
        is_blank(a),
        is_blank(b),
        t.len() > 0 ==> !is_space(t[0]) && !is_space(t.last()),
    ensures
        trimmed(a + t + b) == t,
    decreases a.len(), b.len(),
{
    let s = a + t + b;
    if a.len() > 0 {
        assert(s[0] == a[0]);
        assert(is_space(a[0]));
        let u = a.drop_first();
        assert(s.drop_first() =~= u + t + b);
        assert forall|k: int| 0 <= k < u.len() implies is_space(#[trigger] u[k]) by {
            assert(u[k] == a[k + 1]);
        }
        law_trimming_leaves_the_middle(u, t, b);
    } else {
        assert(s =~= t + b);
        if t.len() == 0 {
            assert(s =~= b);
            lemma_trimmed_blank(b);
        } else {
            assert(s[0] == t[0]);
            lemma_trimmed_end(t, b);
        }
    }
}

proof fn lemma_trimmed_blank(s: Seq<char>)
    requires
        is_blank(s),
    ensures
        trimmed(s) == Seq::<char>::empty(),
    decreases s.len(),
{
    if s.len() > 0 {
        let t = s.drop_first();
        assert(is_space(s[0]));
        assert forall|k: int| 0 <= k < t.len() implies is_space(#[trigger] t[k]) by {
            assert(t[k] == s[k + 1]);
        }
        lemma_trimmed_blank(t);
    } else {
        assert(trimmed(s) =~= seq![]);
    }
}

proof fn lemma_trimmed_end(t: Seq<char>, b: Seq<char>)
    requires
        is_blank(b),
        t.len() > 0,
        !is_space(t.last()),
    ensures
        trimmed_end(t + b) == t,
    decreases b.len(),
{
    let s = t + b;
    if b.len() > 0 {
        assert(s.last() == b.last());
        assert(is_space(b[b.len() - 1]));
        let u = b.drop_last();
        assert(s.drop_last() =~= t + u);
        assert forall|k: int| 0 <= k < u.len() implies is_space(#[trigger] u[k]) by {
            assert(u[k] == b[k]);
        }
        lemma_trimmed_end(t, u);
    } else {
        assert(s =~= t);
    }
}

/// A text starts with, holds and ends with just what stands there: each part of a text
/// that is put together from three, and nothing that no such putting together gives.
pub proof fn law_searching_finds_what_stands_there(a: Seq<char>, b: Seq<char>, c: Seq<char>)
    ensures
        starts(a + b, a),
        ends(a + b, b),
        holds(a + b + c, b),
        starts(a, b) ==> exists|y: Seq<char>| a == #[trigger] (b + y),
        ends(a, b) ==> exists|x: Seq<char>| a == #[trigger] (x + b),
        holds(a, b) ==> exists|x: Seq<char>, y: Seq<char>| a == #[trigger] (x + b + y),
{
    assert((a + b).subrange(0, a.len() as int) =~= a);
    assert((a + b).subrange((a + b).len() - b.len(), (a + b).len() as int) =~= b);
    assert((a + b + c).subrange(a.len() as int, (a.len() + b.len()) as int) =~= b);
    assert(stands_at(a + b + c, b, a.len() as int));
    if starts(a, b) {
        assert(a =~= b + a.skip(b.len() as int));
    }
    if ends(a, b) {
        assert(a =~= a.take(a.len() - b.len()) + b);
    }
    if holds(a, b) {
        let at = choose|at: int| stands_at(a, b, at);
        assert(a =~= a.take(at) + b + a.skip(at + b.len()));
    }
}

/// Putting a text in lower case moves the letters from `A` to `Z` by 32 code points and
/// leaves every other character alone, each in its place.
pub proof fn law_lowering_moves_capitals(s: Seq<char>)
    ensures
        lowered(s).len() == s.len(),
        forall|k: int|
            0 <= k < s.len() ==> (#[trigger] lowered(s)[k]) as int == (if 'A' <= s[k] <= 'Z' {
                s[k] as int + 32
            } else {
                s[k] as int
            }),
{
    assert forall|k: int| 0 <= k < s.len() implies (#[trigger] lowered(s)[k]) as int == (if 'A'
        <= s[k] <= 'Z' {
        s[k] as int + 32
    } else {
        s[k] as int
    }) by {
        let c = s[k];
        if 'A' <= c <= 'Z' {
            assert(ascii_lower(c) == (c as u8 + 32) as char);
        }
    }
}

/// Dictionary order goes by the first difference: a text comes before every longer one
/// that starts with it, and of two that differ the one with the lower character there
/// comes first.
pub proof fn law_first_difference_decides(
    start: Seq<char>,
    x: char,
    y: char,
    u: Seq<char>,
    v: Seq<char>,
)
    ensures
        before(start, start + seq![x] + u),
        x < y ==> before(start + seq![x] + u, start + seq![y] + v),
        !before(start, start),
        before(u, v) ==> !before(v, u),
    decreases start.len(),
{
    lemma_before_total(start, start);
    lemma_before_total(u, v);
    let a = start + seq![x] + u;
    let b = start + seq![y] + v;
    if start.len() > 0 {
        law_first_difference_decides(start.drop_first(), x, y, u, v);
        assert(a.drop_first() =~= start.drop_first() + seq![x] + u);
        assert(b.drop_first() =~= start.drop_first() + seq![y] + v);
        assert(a[0] == start[0] && b[0] == start[0]);
    }
}

/// A number in decimal reads back as the number, starts with no zero unless it is zero,
/// and a negative one is its amount behind a minus.
pub proof fn law_decimal_reads_back(n: nat)
    ensures
        all_digits(decimal(n)),
        decimal(n).len() >= 1,
        decimal(n)[0] == '0' ==> n == 0 && decimal(n).len() == 1,
        digits_value(decimal(n)) == n,
        signed_decimal(n as int) == decimal(n),
        n > 0 ==> signed_decimal(-n) == seq!['-'] + decimal(n),
    decreases n,
{
    lemma_decimal_is_digits(n);
    let d = decimal(n);
    if n >= 10 {
        law_decimal_reads_back(n / 10);
        assert(d.drop_last() =~= decimal(n / 10));
        assert(d.last() == digit(n % 10));
        assert(digit(n % 10) as int == 48 + n % 10);
        assert(d[0] == decimal(n / 10)[0]);
    } else {
        assert(digit(n) as int == 48 + n);
        assert(d.drop_last() =~= Seq::<char>::empty());
        assert(digits_value(d.drop_last()) == 0);
        assert(d.last() == digit(n));
    }
}

/// The value of a run of digits goes by place: a zero in front changes nothing, and a digit
/// behind counts once while everything before it counts ten times.
pub proof fn law_digits_count_by_place(s: Seq<char>, d: char)
    requires
        all_digits(s),
        '0' <= d <= '9',
    ensures
        digits_value(s.push(d)) == 10 * digits_value(s) + (d as int - '0' as int),
        digits_value(seq!['0'] + s) == digits_value(s),
        digits_value(Seq::empty()) == 0,
    decreases s.len(),
{
    assert(s.push(d).drop_last() =~= s);
    let z = seq!['0'] + s;
    if s.len() == 0 {
        assert(z.drop_last() =~= Seq::<char>::empty());
        assert(z.last() == '0');
        assert(s =~= Seq::<char>::empty());
    } else {
        assert(all_digits(s.drop_last())) by {
            assert forall|k: int| 0 <= k < s.drop_last().len() implies '0' <= #[trigger] s.drop_last()[k]
                <= '9' by {
                assert(s[k] == s.drop_last()[k]);
            }
        }
        law_digits_count_by_place(s.drop_last(), d);
        assert(z.drop_last() =~= seq!['0'] + s.drop_last());
        assert(z.last() == s.last());
    }
}

/// A number is read from any run of digits that fits, with or without a plus before it and
/// whatever zeros it starts with. Nothing is read from a number that is too large, from an
/// empty text, or from anything else that is not all digits.
pub proof fn law_numbers_are_read(n: nat, s: Seq<char>)
    ensures
        n <= 0xffff_ffff_ffff_ffff ==> parsed_number(decimal(n)) == Some(n as u64),
        n > 0xffff_ffff_ffff_ffff ==> parsed_number(decimal(n)) is None,
        all_digits(s) && s.len() > 0 && digits_value(s) <= 0xffff_ffff_ffff_ffff ==> parsed_number(
            s,
        ) == Some(digits_value(s) as u64) && parsed_number(seq!['+'] + s) == Some(
            digits_value(s) as u64,
        ),
        all_digits(s) && digits_value(s) > 0xffff_ffff_ffff_ffff ==> parsed_number(s) is None
            && parsed_number(seq!['+'] + s) is None,
        parsed_number(Seq::empty()) is None,
        parsed_number(seq!['+']) is None,
        !all_digits(s) && (s[0] != '+' || !all_digits(s.skip(1))) ==> parsed_number(s) is None,
{
    law_decimal_reads_back(n);
    assert((seq!['+'] + s).drop_first() =~= s);
    assert((seq!['+'] + s)[0] == '+');
    assert(seq!['+'].drop_first() =~= Seq::<char>::empty());
    assert(s.len() > 0 ==> s.skip(1) =~= s.drop_first());
    if all_digits(s) && s.len() > 0 {
        assert('0' <= s[0] <= '9');
    }
    if s.len() == 0 {
        assert(digits_value(s) == 0);
    }
}

/// The digits are the ten from `0` to `9`.
pub proof fn law_what_is_all_digits(s: Seq<char>)
    ensures
        all_digits(s) <==> forall|k: int| 0 <= k < s.len() ==> '0' <= #[trigger] s[k] <= '9',
{
}

/// A word is a text that is not empty and holds no white space.
pub proof fn law_what_is_a_word(w: Seq<char>)
    ensures
        is_word(w) <==> w.len() > 0 && forall|k: int|
            0 <= k < w.len() ==> !is_space(#[trigger] w[k]),
{
}

/// A list of texts is seen whole and in order.
pub proof fn law_lists_of_texts(list: Seq<String>, i: int)
    ensures
        views(list).len() == list.len(),
        0 <= i < list.len() ==> views(list)[i] == list[i]@,
{
}

/// Nothing is left of a text when it is trimmed exactly where it is blank.
pub proof fn law_blank_is_what_trims_away(s: Seq<char>)
    ensures
        is_blank(s) <==> trimmed(s).len() == 0,
    decreases s.len(),
{
    if is_blank(s) {
        lemma_trimmed_blank(s);
    } else if is_space(s[0]) {
        let t = s.drop_first();
        assert(!is_blank(t)) by {
            let k = choose|k: int| 0 <= k < s.len() && !is_space(#[trigger] s[k]);
            assert(t[k - 1] == s[k]);
        }
        law_blank_is_what_trims_away(t);
    } else {
        lemma_trimmed_end_keeps(s);
    }
}

proof fn lemma_trimmed_end_keeps(s: Seq<char>)
    requires
        s.len() > 0,
        !is_space(s[0]),
    ensures
        trimmed_end(s).len() > 0,
    decreases s.len(),
{
    if is_space(s.last()) {
        assert(s.drop_last()[0] == s[0]);
        lemma_trimmed_end_keeps(s.drop_last());
    }
}

/// The characters that part words and are trimmed away: the ASCII controls from tab to
/// carriage return, the space, and the spaces and line ends outside ASCII.
pub proof fn law_white_space(c: char)
    ensures
        c <= '\u{7f}' ==> (is_space(c) <==> c == ' ' || '\t' <= c <= '\r'),
        c > '\u{7f}' ==> (is_space(c) <==> c == '\u{85}' || c == '\u{a0}' || c == '\u{1680}'
            || '\u{2000}' <= c <= '\u{200a}' || c == '\u{2028}' || c == '\u{2029}' || c
            == '\u{202f}' || c == '\u{205f}' || c == '\u{3000}'),
{
}

} // verus!
