//! Comparing what a visitor says with what the museum calls things.

use vstd::prelude::*;
use vstd::string::*;
use vstd::utf8;

use crate::score::{Score, CLOSE_BITS, ONE_BITS, ZERO_BITS};
use crate::text;
use crate::types::{Artwork, ArtworkView};

verus! {

// ---------------------------------------------------------------------------
// Plain form of a text
// ---------------------------------------------------------------------------

/// What `str::to_lowercase` makes of a text that is not all ASCII.
pub uninterp spec fn lowercase(s: Seq<char>) -> Seq<char>;

/// `str::to_lowercase`: of ASCII text the letters are put in lower case and nothing else
/// changes; of any other text the lower-case form is a function of the text. Either way
/// no ASCII capital is left.
pub assume_specification[ str::to_lowercase ](s: &str) -> (r: String)
    ensures
        r@ == (if utf8::is_ascii_chars(s@) {
            text::lowered(s@)
        } else {
            lowercase(s@)
        }),
        r@ == text::lowered(r@),
;

/// The lower-case form of a text, in which no ASCII capital is left.
pub open spec fn lower(s: Seq<char>) -> Seq<char> {
    if utf8::is_ascii_chars(s) {
        text::lowered(s)
    } else {
        text::lowered(lowercase(s))
    }
}

/// Whether `char::is_alphanumeric` counts a character outside ASCII as a letter or a digit.
pub uninterp spec fn alphanumeric(c: char) -> bool;

/// `char::is_alphanumeric`: in ASCII the letters and the digits; outside it, whether a
/// character is one or the other is a function of the character.
pub assume_specification[ char::is_alphanumeric ](c: char) -> (r: bool)
    ensures
        r == (if c <= '\u{7f}' {
            'a' <= c <= 'z' || 'A' <= c <= 'Z' || '0' <= c <= '9'
        } else {
            alphanumeric(c)
        }),
;

/// Whether a character is a letter or a digit.
pub open spec fn letter_or_digit(c: char) -> bool {
    if c <= '\u{7f}' {
        'a' <= c <= 'z' || 'A' <= c <= 'Z' || '0' <= c <= '9'
    } else {
        alphanumeric(c)
    }
}

/// A character, or a space in place of one that is no letter, digit or white space.
pub open spec fn blank(c: char) -> char {
    if letter_or_digit(c) || text::is_space(c) {
        c
    } else {
        ' '
    }
}

/// A text with a space in place of everything that is no letter, digit or white space.
pub open spec fn blanked(s: Seq<char>) -> Seq<char> {
    s.map_values(|c: char| blank(c))
}

/// The words of a text that are left when everything but letters and digits is blanked,
/// with single spaces between them.
pub open spec fn plain(s: Seq<char>) -> Seq<char> {
    text::joined(text::words(blanked(s)), " "@)
}

/// The form in which texts are compared: lower case, words only.
pub open spec fn normalized(s: Seq<char>) -> Seq<char> {
    plain(lower(s))
}

/// Brings a text in lower case to its words.
pub fn plain_words(lower: &str) -> (r: String)
    ensures
        r@ == plain(lower@),
{
    let chars: Vec<char> = text::chars_of(lower);
    let mut out: String = String::new();
    let mut i: usize = 0;
    while i < chars.len()
        invariant
            chars@ == lower@,
            i <= chars@.len(),
            out@ == blanked(lower@.take(i as int)),
        decreases chars@.len() - i,
    {
        let c: char = chars[i];
        let d: char = if c.is_alphanumeric() || text::space(c) {
            c
        } else {
            ' '
        };
        out.push(d);
        i = i + 1;
        assert(blanked(lower@.take(i as int)) =~= blanked(lower@.take(i - 1)).push(d));
    }
    assert(lower@.take(i as int) =~= lower@);
    let found: Vec<String> = text::split_words(out.as_str());
    text::join(&found, " ")
}

/// Brings a text to the form in which texts are compared.
pub fn normalize_text(input: &str) -> (r: String)
    ensures
        r@ == normalized(input@),
{
    let low: String = input.to_lowercase();
    plain_words(low.as_str())
}

/// The words of a normalized text are those of the blanked one, and they are made of
/// letters and digits only.
pub proof fn law_normalized_is_words_of_letters(s: Seq<char>)
    ensures
        text::words(plain(s)) == text::words(blanked(s)),
        forall|i: int, k: int|
            0 <= i < text::words(plain(s)).len() && 0 <= k < text::words(plain(s))[i].len()
                ==> letter_or_digit(#[trigger] text::words(plain(s))[i][k]),
{
    reveal_strlit(" ");
    assert(" "@ =~= seq![' ']);
    let b = blanked(s);
    let w = text::words(b);
    text::lemma_words_are_words(b);
    text::law_split_undoes_join(w);
    lemma_words_hold_chars_of(b);
    assert forall|i: int, k: int| 0 <= i < w.len() && 0 <= k < w[i].len() implies letter_or_digit(
        #[trigger] w[i][k],
    ) by {
        assert(text::is_word(w[i]));
        let c = w[i][k];
        assert(!text::is_space(c));
        assert(b.contains(c));
        let j = choose|j: int| 0 <= j < b.len() && b[j] == c;
        assert(b[j] == blank(s[j]));
    }
}

/// Joined words hold the characters of the words and the spaces between them.
proof fn lemma_joined_chars(list: Seq<Seq<char>>, pred: spec_fn(char) -> bool)
    requires
        forall|i: int, k: int|
            0 <= i < list.len() && 0 <= k < list[i].len() ==> pred(#[trigger] list[i][k]),
    ensures
        forall|k: int|
            0 <= k < text::joined(list, " "@).len() ==> pred(#[trigger] text::joined(list, " "@)[k])
                || text::joined(list, " "@)[k] == ' ',
    decreases list.len(),
{
    reveal_strlit(" ");
    assert(" "@ =~= seq![' ']);
    let d = list.drop_last();
    if list.len() > 1 {
        assert forall|i: int, k: int| 0 <= i < d.len() && 0 <= k < d[i].len() implies pred(
            #[trigger] d[i][k],
        ) by {
            assert(pred(list[i][k]));
        }
        lemma_joined_chars(d, pred);
    }
    let r = text::joined(list, " "@);
    assert forall|k: int| 0 <= k < r.len() implies pred(#[trigger] r[k]) || r[k] == ' ' by {
        if list.len() == 1 {
            assert(pred(list[0][k]));
        } else if list.len() > 1 {
            let n = text::joined(d, " "@).len() as int;
            if k < n {
                assert(r[k] == text::joined(d, " "@)[k]);
            } else if k > n {
                assert(pred(list[list.len() - 1][k - n - 1]));
            }
        }
    }
}

/// Bringing a text to its words a second time changes nothing.
pub proof fn law_plain_is_idempotent(s: Seq<char>)
    ensures
        plain(plain(s)) == plain(s),
{
    law_normalized_is_words_of_letters(s);
    let w = text::words(blanked(s));
    assert(w == text::words(plain(s)));
    lemma_joined_chars(w, |c: char| letter_or_digit(c));
    let p = plain(s);
    assert(blanked(p) =~= p);
}

/// The words of a text hold no characters but its own and spaces.
proof fn lemma_plain_chars(s: Seq<char>, pred: spec_fn(char) -> bool)
    requires
        forall|k: int| 0 <= k < s.len() ==> pred(#[trigger] s[k]),
        pred(' '),
    ensures
        forall|k: int| 0 <= k < plain(s).len() ==> pred(#[trigger] plain(s)[k]),
{
    let b = blanked(s);
    let w = text::words(b);
    lemma_words_hold_chars_of(b);
    assert forall|i: int, k: int| 0 <= i < w.len() && 0 <= k < w[i].len() implies pred(
        #[trigger] w[i][k],
    ) by {
        assert(b.contains(w[i][k]));
        let j = choose|j: int| 0 <= j < b.len() && b[j] == w[i][k];
        assert(b[j] == blank(s[j]));
        assert(pred(s[j]));
    }
    lemma_joined_chars(w, pred);
    assert forall|k: int| 0 <= k < plain(s).len() implies pred(#[trigger] plain(s)[k]) by {
        assert(pred(plain(s)[k]) || plain(s)[k] == ' ');
    }
}

/// Whether lower-casing leaves the normalized form of a text alone.
pub open spec fn stays_lower(s: Seq<char>) -> bool {
    lower(normalized(s)) == normalized(s)
}

/// Normalizing a normalized text changes nothing if lower-casing leaves it alone. That it
/// does wherever the normalized form is ASCII, which that of ASCII text is.
pub proof fn law_normalizing_is_idempotent(s: Seq<char>)
    ensures
        stays_lower(s) ==> normalized(normalized(s)) == normalized(s),
        utf8::is_ascii_chars(s) ==> utf8::is_ascii_chars(normalized(s)),
        utf8::is_ascii_chars(normalized(s)) ==> stays_lower(s) && normalized(normalized(s))
            == normalized(s),
{
    let l = lower(s);
    let n = normalized(s);
    text::lemma_lowered(if utf8::is_ascii_chars(s) {
        s
    } else {
        lowercase(s)
    });
    lemma_plain_chars(l, |c: char| !('A' <= c <= 'Z'));
    if utf8::is_ascii_chars(s) {
        assert forall|k: int| 0 <= k < l.len() implies #[trigger] l[k] <= '\u{7f}' by {
            assert(s[k] <= '\u{7f}');
        }
        lemma_plain_chars(l, |c: char| c <= '\u{7f}');
    }
    law_plain_is_idempotent(l);
    if utf8::is_ascii_chars(n) {
        assert(text::lowered(n) =~= n);
    }
}

/// Case does not matter: texts with the same lower-case form have the same normalized
/// form. ASCII texts that differ in nothing but case are such texts, so that a text in
/// capitals is normalized as the text itself.
pub proof fn law_normalizing_ignores_case(a: Seq<char>, b: Seq<char>)
    ensures
        lower(a) == lower(b) ==> normalized(a) == normalized(b),
        utf8::is_ascii_chars(a) && text::lowered(a) == text::lowered(b) ==> lower(a) == lower(b)
            && normalized(a) == normalized(b),
        utf8::is_ascii_chars(a) ==> lower(text::raised(a)) == lower(a) && normalized(
            text::raised(a),
        ) == normalized(a),
{
    if utf8::is_ascii_chars(a) {
        if text::lowered(a) == text::lowered(b) {
            lemma_ascii_by_lowered(a, b);
        }
        text::lemma_lowered(a);
        lemma_ascii_by_lowered(a, text::raised(a));
    }
}

proof fn lemma_ascii_by_lowered(a: Seq<char>, b: Seq<char>)
    requires
        utf8::is_ascii_chars(a),
        text::lowered(a) == text::lowered(b),
    ensures
        utf8::is_ascii_chars(b),
{
    assert(a.len() == text::lowered(a).len() && b.len() == text::lowered(b).len());
    assert forall|k: int| 0 <= k < b.len() implies '\0' <= #[trigger] b[k] <= '\u{7f}' by {
        assert(text::lowered(b)[k] == text::ascii_lower(b[k]));
        assert(text::lowered(a)[k] == text::ascii_lower(a[k]));
        assert(a[k] <= '\u{7f}');
    }
}

/// In a text in lower case, what is no letter and no digit parts words: which such
/// character stands there does not matter, nor how many of them.
pub proof fn law_plain_ignores_punctuation(a: Seq<char>, c: char, d: char, b: Seq<char>)
    requires
        !letter_or_digit(c),
        !letter_or_digit(d),
    ensures
        text::words(plain(a + seq![c] + b)) == text::words(plain(a)) + text::words(plain(b)),
        plain(a + seq![c] + b) == plain(a + seq![d] + b),
        plain(a + seq![c] + (seq![d] + b)) == plain(a + seq![c] + b),
{
    lemma_parted(a, c, b);
    lemma_parted(a, d, b);
    let none = Seq::<char>::empty();
    lemma_parted(none, d, b);
    assert(none + seq![d] + b =~= seq![d] + b);
    assert(blanked(none) =~= none);
    assert(text::words(none) =~= seq![]);
    assert(text::words(none) + text::words(blanked(b)) =~= text::words(blanked(b)));
    lemma_parted(a, c, seq![d] + b);
    law_normalized_is_words_of_letters(a + seq![c] + b);
    law_normalized_is_words_of_letters(a);
    law_normalized_is_words_of_letters(b);
}

proof fn lemma_parted(a: Seq<char>, c: char, b: Seq<char>)
    requires
        !letter_or_digit(c),
    ensures
        text::words(blanked(a + seq![c] + b)) == text::words(blanked(a)) + text::words(blanked(b)),
{
    assert(blanked(a + seq![c] + b) =~= blanked(a) + seq![blank(c)] + blanked(b));
    text::lemma_words_parted(blanked(a), blank(c), blanked(b));
}

/// Whether lower-casing treats what stands before and behind a character apart.
pub open spec fn lowers_apart(a: Seq<char>, c: char, b: Seq<char>) -> bool {
    lower(a + seq![c] + b) == lower(a) + seq![c] + lower(b)
}

/// What is no letter and no digit parts words: which such character stands between two
/// words does not matter, nor how many of them, if lower-casing treats what stands round
/// them apart. That it does in ASCII text.
pub proof fn law_normalizing_ignores_punctuation(a: Seq<char>, c: char, d: char, b: Seq<char>)
    requires
        !letter_or_digit(c),
        !letter_or_digit(d),
    ensures
        lowers_apart(a, c, b) ==> text::words(normalized(a + seq![c] + b)) == text::words(
            normalized(a),
        ) + text::words(normalized(b)),
        lowers_apart(a, c, b) && lowers_apart(a, d, b) ==> normalized(a + seq![c] + b)
            == normalized(a + seq![d] + b),
        lowers_apart(a, c, b) && lowers_apart(a, c, seq![d] + b) && lowers_apart(seq![], d, b)
            ==> normalized(a + seq![c] + (seq![d] + b)) == normalized(a + seq![c] + b),
        utf8::is_ascii_chars(a + seq![c, d] + b) ==> {
            &&& lowers_apart(a, c, b)
            &&& lowers_apart(a, d, b)
            &&& lowers_apart(a, c, seq![d] + b)
            &&& lowers_apart(seq![], d, b)
        },
{
    law_plain_ignores_punctuation(lower(a), c, d, lower(b));
    let none = Seq::<char>::empty();
    assert(lower(none) =~= none);
    assert(none + seq![d] + b =~= seq![d] + b);
    assert(none + seq![d] + lower(b) =~= seq![d] + lower(b));
    let all = a + seq![c, d] + b;
    if utf8::is_ascii_chars(all) {
        assert(utf8::is_ascii_chars(a)) by {
            assert forall|k: int| 0 <= k < a.len() implies '\0' <= #[trigger] a[k] <= '\u{7f}' by {
                assert(a[k] == all[k]);
            }
        }
        assert(utf8::is_ascii_chars(b)) by {
            assert forall|k: int| 0 <= k < b.len() implies '\0' <= #[trigger] b[k] <= '\u{7f}' by {
                assert(b[k] == all[a.len() as int + 2 + k]);
            }
        }
        assert(all[a.len() as int] == c && all[a.len() as int + 1] == d);
        lemma_ascii_lowers_apart(a, c, b);
        lemma_ascii_lowers_apart(a, d, b);
        lemma_ascii_lowers_apart(none, d, b);
        assert(utf8::is_ascii_chars(seq![d] + b));
        lemma_ascii_lowers_apart(a, c, seq![d] + b);
    }
}

proof fn lemma_ascii_lowers_apart(a: Seq<char>, c: char, b: Seq<char>)
    requires
        utf8::is_ascii_chars(a),
        utf8::is_ascii_chars(b),
        c <= '\u{7f}',
        !letter_or_digit(c),
    ensures
        lowers_apart(a, c, b),
{
    assert(utf8::is_ascii_chars(a + seq![c] + b));
    assert(text::lowered(a + seq![c] + b) =~= text::lowered(a) + seq![c] + text::lowered(b));
}

/// Every character of a word stands in the text.
proof fn lemma_words_hold_chars_of(s: Seq<char>)
    ensures
        forall|i: int, k: int|
            0 <= i < text::words(s).len() && 0 <= k < text::words(s)[i].len() ==> s.contains(
                #[trigger] text::words(s)[i][k],
            ),
    decreases s.len(),
{
    let w = text::words(s);
    if s.len() == 0 {
    } else if text::is_space(s[0]) {
        let t = s.drop_first();
        lemma_words_hold_chars_of(t);
        assert(w == text::words(t));
        assert forall|i: int, k: int| 0 <= i < w.len() && 0 <= k < w[i].len() implies s.contains(
            #[trigger] w[i][k],
        ) by {
            assert(t.contains(w[i][k]));
            let j = choose|j: int| 0 <= j < t.len() && t[j] == w[i][k];
            assert(s[j + 1] == w[i][k]);
        }
    } else {
        text::lemma_word_len(s);
        let n = text::word_len(s) as int;
        let t = s.skip(n);
        lemma_words_hold_chars_of(t);
        let u = text::words(t);
        assert forall|i: int, k: int| 0 <= i < w.len() && 0 <= k < w[i].len() implies s.contains(
            #[trigger] w[i][k],
        ) by {
            if i == 0 {
                assert(s[k] == w[i][k]);
            } else {
                assert(w[i] == u[i - 1]);
                assert(t.contains(u[i - 1][k]));
                let j = choose|j: int| 0 <= j < t.len() && t[j] == w[i][k];
                assert(s[j + n] == w[i][k]);
            }
        }
    }
}

// ---------------------------------------------------------------------------
// Yes and no
// ---------------------------------------------------------------------------

/// The normalized answers that mean yes.
pub open spec fn means_yes(n: Seq<char>) -> bool {
    ||| n == "yes"@
    ||| n == "y"@
    ||| n == "yeah"@
    ||| n == "yep"@
    ||| n == "correct"@
    ||| n == "right"@
    ||| n == "thats right"@
    ||| n == "that is right"@
}

/// The normalized answers that mean no.
pub open spec fn means_no(n: Seq<char>) -> bool {
    ||| n == "no"@
    ||| n == "n"@
    ||| n == "nope"@
    ||| n == "wrong"@
    ||| n == "not that one"@
}

/// Whether a normalized answer means yes.
pub fn is_yes(normalized: &str) -> (r: bool)
    ensures
        r == means_yes(normalized@),
{
    text::same(normalized, "yes") || text::same(normalized, "y") || text::same(normalized, "yeah")
        || text::same(normalized, "yep") || text::same(normalized, "correct") || text::same(
        normalized,
        "right",
    ) || text::same(normalized, "thats right") || text::same(normalized, "that is right")
}

/// Whether a normalized answer means no.
pub fn is_no(normalized: &str) -> (r: bool)
    ensures
        r == means_no(normalized@),
{
    text::same(normalized, "no") || text::same(normalized, "n") || text::same(normalized, "nope")
        || text::same(normalized, "wrong") || text::same(normalized, "not that one")
}

/// Whether an answer means yes, as the visitor wrote it.
pub open spec fn affirms(input: Seq<char>) -> bool {
    means_yes(normalized(input))
}

/// Whether an answer means no, as the visitor wrote it.
pub open spec fn denies(input: Seq<char>) -> bool {
    means_no(normalized(input))
}

/// Whether an answer means yes.
pub fn is_affirmative(input: &str) -> (r: bool)
    ensures
        r == affirms(input@),
{
    is_yes(normalize_text(input).as_str())
}

/// Whether an answer means no.
pub fn is_negative(input: &str) -> (r: bool)
    ensures
        r == denies(input@),
{
    is_no(normalize_text(input).as_str())
}

/// An answer means the same when it is normalized first: a yes stays a yes and a no a no,
/// and nothing becomes one by it if lower-casing leaves the normalized form alone, as it
/// does where that is ASCII.
pub proof fn law_answers_survive_normalizing(s: Seq<char>)
    ensures
        means_yes(normalized(s)) ==> means_yes(normalized(normalized(s))),
        means_no(normalized(s)) ==> means_no(normalized(normalized(s))),
        utf8::is_ascii_chars(normalized(s)) ==> stays_lower(s),
        stays_lower(s) ==> {
            &&& means_yes(normalized(normalized(s))) == means_yes(normalized(s))
            &&& means_no(normalized(normalized(s))) == means_no(normalized(s))
        },
{
    reveal_strlit("yes");
    reveal_strlit("y");
    reveal_strlit("yeah");
    reveal_strlit("yep");
    reveal_strlit("correct");
    reveal_strlit("right");
    reveal_strlit("thats right");
    reveal_strlit("that is right");
    reveal_strlit("no");
    reveal_strlit("n");
    reveal_strlit("nope");
    reveal_strlit("wrong");
    reveal_strlit("not that one");
    law_normalizing_is_idempotent(s);
    let n = normalized(s);
    if means_yes(n) || means_no(n) {
        assert(utf8::is_ascii_chars(n));
    }
}

/// No answer means both yes and no.
pub proof fn law_yes_and_no_exclude_each_other(n: Seq<char>)
    ensures
        !(means_yes(n) && means_no(n)),
{
    reveal_strlit("yes");
    reveal_strlit("y");
    reveal_strlit("yeah");
    reveal_strlit("yep");
    reveal_strlit("correct");
    reveal_strlit("right");
    reveal_strlit("thats right");
    reveal_strlit("that is right");
    reveal_strlit("no");
    reveal_strlit("n");
    reveal_strlit("nope");
    reveal_strlit("wrong");
    reveal_strlit("not that one");
    if means_yes(n) {
        assert(n[0] == 'y' || n[0] == 'c' || n[0] == 'r' || n[0] == 't');
    }
    if means_no(n) {
        assert(n[0] == 'n' || n[0] == 'w');
    }
}

// ---------------------------------------------------------------------------
// Finding an artwork in a list
// ---------------------------------------------------------------------------

/// The first artwork of a list that passes.
pub open spec fn first_where(
    list: Seq<ArtworkView>,
    pred: spec_fn(ArtworkView) -> bool,
) -> Option<ArtworkView>
    decreases list.len(),
{
    if list.len() == 0 {
        None
    } else if pred(list[0]) {
        Some(list[0])
    } else {
        first_where(list.drop_first(), pred)
    }
}

/// What is found stands in the list and passes; nothing is found only where nothing
/// passes.
pub proof fn lemma_first_where(list: Seq<ArtworkView>, pred: spec_fn(ArtworkView) -> bool)
    ensures
        first_where(list, pred) matches Some(a) ==> list.contains(a) && pred(a),
        first_where(list, pred) is None ==> forall|i: int|
            0 <= i < list.len() ==> !pred(#[trigger] list[i]),
    decreases list.len(),
{
    if list.len() > 0 {
        let t = list.drop_first();
        lemma_first_where(t, pred);
        if pred(list[0]) {
            assert(list.contains(list[0]));
        } else if let Some(a) = first_where(t, pred) {
            let j = choose|j: int| 0 <= j < t.len() && t[j] == a;
            assert(list[j + 1] == a);
        } else {
            assert forall|i: int| 0 <= i < list.len() implies !pred(#[trigger] list[i]) by {
                if i > 0 {
                    assert(list[i] == t[i - 1]);
                }
            }
        }
    }
}

/// The first that passes is at `i` if nothing before `i` does.
pub proof fn lemma_first_where_at(
    list: Seq<ArtworkView>,
    pred: spec_fn(ArtworkView) -> bool,
    i: int,
)
    requires
        0 <= i <= list.len(),
        forall|k: int| 0 <= k < i ==> !pred(#[trigger] list[k]),
        i < list.len() ==> pred(list[i]),
    ensures
        first_where(list, pred) == (if i < list.len() { Some(list[i]) } else { None }),
    decreases list.len(),
{
    if list.len() > 0 && i > 0 {
        let t = list.drop_first();
        assert(!pred(list[0]));
        assert forall|k: int| 0 <= k < i - 1 implies !pred(#[trigger] t[k]) by {
            assert(t[k] == list[k + 1]);
        }
        lemma_first_where_at(t, pred, i - 1);
    }
}

/// Whether one of two normalized titles stands in the other.
pub open spec fn titles_meet(a: Seq<char>, b: Seq<char>) -> bool {
    text::holds(a, b) || text::holds(b, a)
}

/// Whether one of two normalized titles stands in the other.
pub fn do_titles_meet(a: &str, b: &str) -> (r: bool)
    ensures
        r == titles_meet(a@, b@),
{
    text::contains(a, b) || text::contains(b, a)
}

/// The first artwork whose title stands in that of an audio stop, or the other way
/// round.
pub open spec fn artwork_for_title(list: Seq<ArtworkView>, title: Seq<char>) -> Option<
    ArtworkView,
> {
    first_where(
        list,
        |a: ArtworkView| titles_meet(normalized(a.official_name), normalized(title)),
    )
}

/// The first artwork whose title stands in that of an audio stop, or the other way
/// round.
pub fn find_artwork_for_audio_stop(artworks: &[Artwork], stop_title: &str) -> (r: Option<Artwork>)
    ensures
        match r {
            Some(a) => Some(a@),
            None => None,
        } == artwork_for_title(artworks@.map_values(|a: Artwork| a@), stop_title@),
{
    let title: String = normalize_text(stop_title);
    let ghost list = artworks@.map_values(|a: Artwork| a@);
    let ghost pred = |a: ArtworkView|
        titles_meet(normalized(a.official_name), normalized(stop_title@));
    let mut i: usize = 0;
    while i < artworks.len()
        invariant
            i <= artworks@.len(),
            title@ == normalized(stop_title@),
            list == artworks@.map_values(|a: Artwork| a@),
            pred == (|a: ArtworkView|
                titles_meet(normalized(a.official_name), normalized(stop_title@))),
            forall|k: int| 0 <= k < i ==> !pred(#[trigger] list[k]),
        decreases artworks@.len() - i,
    {
        let name: String = normalize_text(artworks[i].official_name.as_str());
        assert(list[i as int] == artworks@[i as int]@);
        if do_titles_meet(name.as_str(), title.as_str()) {
            proof {
                lemma_first_where_at(list, pred, i as int);
            }
            return Some(artworks[i].clone());
        }
        i = i + 1;
    }
    proof {
        lemma_first_where_at(list, pred, i as int);
    }
    None
}

/// How well a normalized title of an audio stop fits the normalized name of an artwork.
pub open spec fn title_score(title: Seq<char>, name: Seq<char>) -> Score {
    if title == name {
        Score { bits: ONE_BITS }
    } else if titles_meet(title, name) {
        Score { bits: CLOSE_BITS }
    } else {
        Score { bits: ZERO_BITS }
    }
}

/// How well a normalized title of an audio stop fits the normalized name of an artwork:
/// 1 for the same name, 0.85 where one stands in the other, else 0.
pub fn score_titles(title: &str, name: &str) -> (r: Score)
    ensures
        r == title_score(title@, name@),
{
    if text::same(title, name) {
        Score { bits: ONE_BITS }
    } else if do_titles_meet(title, name) {
        Score { bits: CLOSE_BITS }
    } else {
        Score { bits: ZERO_BITS }
    }
}

/// How well a title of an audio stop fits an artwork.
pub open spec fn stop_score(title: Seq<char>, art: ArtworkView) -> Score {
    title_score(normalized(title), normalized(art.official_name))
}

/// How well a title of an audio stop fits an artwork.
pub fn artwork_audio_stop_score(title_norm: &str, art: &Artwork) -> (r: Score)
    ensures
        r == stop_score(title_norm@, art@),
{
    let title: String = normalize_text(title_norm);
    let name: String = normalize_text(art.official_name.as_str());
    score_titles(title.as_str(), name.as_str())
}

/// An artwork is found for an audio stop exactly where some artwork scores above zero,
/// and the one that is found does.
pub proof fn law_found_artwork_scores(list: Seq<ArtworkView>, title: Seq<char>)
    ensures
        ({
            let found = first_where(
                list,
                |a: ArtworkView| titles_meet(normalized(a.official_name), normalized(title)),
            );
            &&& found matches Some(a) ==> list.contains(a) && title_score(
                normalized(title),
                normalized(a.official_name),
            ).reaches(Score { bits: CLOSE_BITS })
            &&& found is None ==> forall|i: int|
                0 <= i < list.len() ==> title_score(
                    normalized(title),
                    normalized((#[trigger] list[i]).official_name),
                ) == (Score { bits: ZERO_BITS })
        }),
{
    let pred = |a: ArtworkView| titles_meet(normalized(a.official_name), normalized(title));
    lemma_first_where(list, pred);
    if first_where(list, pred) is None {
        assert forall|i: int| 0 <= i < list.len() implies title_score(
            normalized(title),
            normalized((#[trigger] list[i]).official_name),
        ) == (Score { bits: ZERO_BITS }) by {
            assert(!pred(list[i]));
            let n = normalized(title);
            if n == normalized(list[i].official_name) {
                assert(n.subrange(0, n.len() as int) =~= n);
                assert(text::stands_at(n, n, 0));
            }
        }
    }
}

// ---------------------------------------------------------------------------
// Full-text search
// ---------------------------------------------------------------------------

/// Words that say nothing about an artwork.
pub open spec fn is_stopword(w: Seq<char>) -> bool {
    ||| w == "with"@
    ||| w == "the"@
    ||| w == "and"@
    ||| w == "big"@
    ||| w == "small"@
    ||| w == "very"@
    ||| w == "that"@
    ||| w == "this"@
    ||| w == "painting"@
}

fn stopword(w: &str) -> (r: bool)
    ensures
        r == is_stopword(w@),
{
    text::same(w, "with") || text::same(w, "the") || text::same(w, "and") || text::same(w, "big")
        || text::same(w, "small") || text::same(w, "very") || text::same(w, "that") || text::same(
        w,
        "this",
    ) || text::same(w, "painting")
}

/// The size of a text in UTF-8.
pub open spec fn size(s: Seq<char>) -> nat {
    utf8::encode_utf8(s).len()
}

/// Whether a word is searched for: it is long enough and says something.
pub open spec fn is_term(w: Seq<char>) -> bool {
    size(w) >= 3 && !is_stopword(w)
}

/// A text without the letters `s` at its end.
pub open spec fn without_final_s(w: Seq<char>) -> Seq<char>
    decreases w.len(),
{
    if w.len() > 0 && w.last() == 's' {
        without_final_s(w.drop_last())
    } else {
        w
    }
}

/// A plural brought to a singular, by its ending alone.
pub open spec fn singular(w: Seq<char>) -> Seq<char> {
    if text::ends(w, "ies"@) {
        w.take(w.len() - 3).push('y')
    } else if w.len() > 0 && w.last() == 's' && size(w) > 3 {
        without_final_s(w)
    } else {
        w
    }
}

/// Brings a plural to a singular.
pub fn singularize_term(term: &str) -> (r: String)
    ensures
        r@ == singular(term@),
{
    let chars: Vec<char> = text::chars_of(term);
    if text::ends_with(term, "ies") {
        proof {
            reveal_strlit("ies");
        }
        let mut out: String = text::text_between(&chars, 0, chars.len() - 3);
        out.push('y');
        assert(chars@.subrange(0, chars@.len() - 3) =~= term@.take(term@.len() - 3));
        return out;
    }
    let bytes: usize = term.as_bytes().len();
    if chars.len() > 0 && chars[chars.len() - 1] == 's' && bytes > 3 {
        let mut to: usize = chars.len();
        assert(chars@.take(to as int) =~= term@);
        while to > 0 && chars[to - 1] == 's'
            invariant
                to <= chars@.len(),
                without_final_s(term@) == without_final_s(chars@.take(to as int)),
            decreases to,
        {
            assert(chars@.take(to as int).drop_last() =~= chars@.take(to - 1));
            to = to - 1;
        }
        proof {
            let t = chars@.take(to as int);
            assert(to > 0 ==> t.last() == chars@[to - 1]);
            assert(chars@.subrange(0, to as int) =~= t);
        }
        text::text_between(&chars, 0, to)
    } else {
        term.to_owned()
    }
}

/// The terms of a normalized text, in the order of the text.
pub open spec fn search_terms(n: Seq<char>) -> Seq<Seq<char>> {
    text::words(n).filter(|w: Seq<char>| is_term(w)).map_values(|w: Seq<char>| singular(w))
}

/// A list in dictionary order with one more text, unless it stands there already.
pub open spec fn with_term(list: Seq<Seq<char>>, t: Seq<char>) -> Seq<Seq<char>>
    decreases list.len(),
{
    if list.len() == 0 {
        seq![t]
    } else if t == list[0] {
        list
    } else if text::before(t, list[0]) {
        seq![t] + list
    } else {
        seq![list[0]] + with_term(list.drop_first(), t)
    }
}

/// The texts of a list in dictionary order, each once.
pub open spec fn in_order(list: Seq<Seq<char>>) -> Seq<Seq<char>>
    decreases list.len(),
{
    if list.len() == 0 {
        seq![]
    } else {
        with_term(in_order(list.drop_last()), list.last())
    }
}

/// The query for a normalized text: any of its terms, or the text itself where it has
/// none.
pub open spec fn fts_query(n: Seq<char>) -> Seq<char> {
    if search_terms(n).len() == 0 {
        n
    } else {
        text::joined(in_order(search_terms(n)), " OR "@)
    }
}

proof fn lemma_with_term_at(list: Seq<Seq<char>>, t: Seq<char>, i: int)
    requires
        0 <= i <= list.len(),
        forall|k: int| 0 <= k < i ==> text::before(#[trigger] list[k], t),
        i < list.len() ==> !text::before(list[i], t),
    ensures
        with_term(list, t) == (if i < list.len() && list[i] == t {
            list
        } else {
            list.insert(i, t)
        }),
    decreases list.len(),
{
    if list.len() == 0 {
        assert(list.insert(i, t) =~= seq![t]);
    } else if i == 0 {
        text::lemma_before_total(list[0], t);
        assert(list.insert(0, t) =~= seq![t] + list);
    } else {
        let u = list.drop_first();
        assert(text::before(list[0], t));
        text::lemma_before_total(list[0], t);
        assert forall|k: int| 0 <= k < i - 1 implies text::before(#[trigger] u[k], t) by {
            assert(u[k] == list[k + 1]);
        }
        lemma_with_term_at(u, t, i - 1);
        if i < list.len() && list[i] == t {
            assert(seq![list[0]] + u =~= list);
        } else {
            assert(seq![list[0]] + u.insert(i - 1, t) =~= list.insert(i, t));
        }
    }
}

/// Adds a term to an ordered list, unless it stands there already.
fn add_term(list: &mut Vec<String>, term: String)
    ensures
        text::views(final(list)@) == with_term(text::views(old(list)@), term@),
{
    let ghost v = text::views(list@);
    let mut i: usize = 0;
    while i < list.len() && text::comes_before(list[i].as_str(), term.as_str())
        invariant
            i <= list@.len(),
            v == text::views(list@),
            list@ == old(list)@,
            forall|k: int| 0 <= k < i ==> text::before(#[trigger] v[k], term@),
        decreases list@.len() - i,
    {
        assert(v[i as int] == list@[i as int]@);
        i = i + 1;
    }
    proof {
        if i < list@.len() {
            assert(v[i as int] == list@[i as int]@);
        }
        lemma_with_term_at(v, term@, i as int);
    }
    if i < list.len() && text::same(list[i].as_str(), term.as_str()) {
        return;
    }
    list.insert(i, term);
    assert(text::views(list@) =~= v.insert(i as int, term@));
}

/// Builds the query for a normalized text.
pub fn fts_query_of(normalized: &str) -> (r: String)
    ensures
        r@ == fts_query(normalized@),
{
    let found: Vec<String> = text::split_words(normalized);
    let ghost all = text::views(found@);
    let ghost pred = |w: Seq<char>| is_term(w);
    let ghost single = |w: Seq<char>| singular(w);
    let mut terms: Vec<String> = Vec::new();
    let mut any: bool = false;
    let mut i: usize = 0;
    while i < found.len()
        invariant
            i <= found@.len(),
            all == text::views(found@),
            pred == (|w: Seq<char>| is_term(w)),
            single == (|w: Seq<char>| singular(w)),
            text::views(terms@) == in_order(all.take(i as int).filter(pred).map_values(single)),
            any == (all.take(i as int).filter(pred).len() > 0),
        decreases found@.len() - i,
    {
        let word: &str = found[i].as_str();
        let ghost done = all.take(i as int).filter(pred);
        let ghost next = all.take(i + 1).filter(pred);
        proof {
            reveal(Seq::filter);
            assert(all.take(i + 1).drop_last() =~= all.take(i as int));
            assert(all.take(i + 1).last() == word@);
        }
        if word.as_bytes().len() >= 3 && !stopword(word) {
            proof {
                assert(next == done.push(word@));
                let m = next.map_values(single);
                assert(m.drop_last() =~= done.map_values(single));
                assert(m.last() == singular(word@));
            }
            any = true;
            let term: String = singularize_term(word);
            add_term(&mut terms, term);
        }
        i = i + 1;
    }
    assert(all.take(i as int) =~= all);
    if !any {
        return normalized.to_owned();
    }
    text::join(&terms, " OR ")
}

/// The full-text query for what a visitor says.
pub open spec fn query_for(input: Seq<char>) -> Seq<char> {
    fts_query(normalized(input))
}

/// Builds the full-text query for what a visitor says.
pub fn build_fts_query(input: &str) -> (r: String)
    ensures
        r@ == query_for(input@),
{
    fts_query_of(normalize_text(input).as_str())
}

/// Whether a list is in dictionary order with nothing twice.
pub open spec fn is_ordered(list: Seq<Seq<char>>) -> bool {
    forall|i: int, j: int| 0 <= i < j < list.len() ==> text::before(list[i], list[j])
}

proof fn lemma_with_term(list: Seq<Seq<char>>, t: Seq<char>)
    requires
        is_ordered(list),
    ensures
        is_ordered(with_term(list, t)),
        forall|x: Seq<char>|
            #![trigger with_term(list, t).contains(x)]
            #![trigger list.contains(x)]
            with_term(list, t).contains(x) <==> list.contains(x) || x == t,
    decreases list.len(),
{
    let r = with_term(list, t);
    if list.len() == 0 {
        assert(r[0] == t);
    } else if t == list[0] {
        assert(list.contains(t));
    } else if text::before(t, list[0]) {
        assert forall|i: int, j: int| 0 <= i < j < r.len() implies text::before(r[i], r[j]) by {
            if i == 0 {
                if j > 1 {
                    text::lemma_before_trans(t, list[0], list[j - 1]);
                }
                assert(r[j] == list[j - 1]);
            } else {
                assert(r[i] == list[i - 1] && r[j] == list[j - 1]);
            }
        }
        assert forall|x: Seq<char>| r.contains(x) <==> list.contains(x) || x == t by {
            assert(r[0] == t);
            if list.contains(x) {
                let k = choose|k: int| 0 <= k < list.len() && list[k] == x;
                assert(r[k + 1] == x);
            }
            if r.contains(x) && x != t {
                let k = choose|k: int| 0 <= k < r.len() && r[k] == x;
                assert(list[k - 1] == x);
            }
        }
    } else {
        let u = list.drop_first();
        assert forall|i: int, j: int| 0 <= i < j < u.len() implies text::before(u[i], u[j]) by {
            assert(u[i] == list[i + 1] && u[j] == list[j + 1]);
        }
        lemma_with_term(u, t);
        let q = with_term(u, t);
        text::lemma_before_total(list[0], t);
        assert forall|i: int, j: int| 0 <= i < j < r.len() implies text::before(r[i], r[j]) by {
            assert(r[j] == q[j - 1]);
            if i == 0 {
                assert(q.contains(q[j - 1]));
                if q[j - 1] != t {
                    let k = choose|k: int| 0 <= k < u.len() && u[k] == q[j - 1];
                    assert(u[k] == list[k + 1]);
                }
            } else {
                assert(r[i] == q[i - 1]);
            }
        }
        assert forall|x: Seq<char>| r.contains(x) <==> list.contains(x) || x == t by {
            assert(r[0] == list[0]);
            if list.contains(x) || x == t {
                if x == list[0] {
                } else {
                    if list.contains(x) {
                        let k = choose|k: int| 0 <= k < list.len() && list[k] == x;
                        assert(u[k - 1] == x);
                    }
                    assert(q.contains(x));
                    let k = choose|k: int| 0 <= k < q.len() && q[k] == x;
                    assert(r[k + 1] == x);
                }
            }
            if r.contains(x) {
                let k = choose|k: int| 0 <= k < r.len() && r[k] == x;
                if k > 0 {
                    assert(q[k - 1] == x);
                    assert(q.contains(x));
                    if x != t {
                        let m = choose|m: int| 0 <= m < u.len() && u[m] == x;
                        assert(list[m + 1] == x);
                    }
                }
            }
        }
    }
}

/// The terms of a query are in dictionary order, each once, and they are the terms of
/// the text.
pub proof fn law_query_terms_are_ordered(list: Seq<Seq<char>>)
    ensures
        is_ordered(in_order(list)),
        forall|x: Seq<char>|
            #![trigger in_order(list).contains(x)]
            #![trigger list.contains(x)]
            in_order(list).contains(x) <==> list.contains(x),
    decreases list.len(),
{
    if list.len() > 0 {
        let init = list.drop_last();
        law_query_terms_are_ordered(init);
        lemma_with_term(in_order(init), list.last());
        assert forall|x: Seq<char>| in_order(list).contains(x) <==> list.contains(x) by {
            if list.contains(x) && x != list.last() {
                let k = choose|k: int| 0 <= k < list.len() && list[k] == x;
                assert(init[k] == x);
            }
            if init.contains(x) {
                let k = choose|k: int| 0 <= k < init.len() && init[k] == x;
                assert(list[k] == x);
            }
            assert(list[list.len() - 1] == list.last());
        }
    }
}

/// Two ordered lists that hold the same are the same.
proof fn lemma_ordered_unique(a: Seq<Seq<char>>, b: Seq<Seq<char>>)
    requires
        is_ordered(a),
        is_ordered(b),
        forall|x: Seq<char>| a.contains(x) <==> #[trigger] b.contains(x),
    ensures
        a == b,
    decreases a.len(),
{
    if a.len() == 0 {
        if b.len() > 0 {
            assert(b.contains(b[0]));
        }
        assert(a =~= b);
    } else {
        assert(a.contains(a[0]));
        assert(b.contains(a[0]));
        let j = choose|j: int| 0 <= j < b.len() && b[j] == a[0];
        assert(b.contains(b[0]));
        let i = choose|i: int| 0 <= i < a.len() && a[i] == b[0];
        text::lemma_before_total(a[0], b[0]);
        assert(a[0] == b[0]);
        let t = a.drop_first();
        let u = b.drop_first();
        assert forall|m: int, n: int| 0 <= m < n < t.len() implies text::before(t[m], t[n]) by {
            assert(t[m] == a[m + 1] && t[n] == a[n + 1]);
        }
        assert forall|m: int, n: int| 0 <= m < n < u.len() implies text::before(u[m], u[n]) by {
            assert(u[m] == b[m + 1] && u[n] == b[n + 1]);
        }
        assert forall|x: Seq<char>| t.contains(x) <==> #[trigger] u.contains(x) by {
            lemma_rest_contains(a, x);
            lemma_rest_contains(b, x);
            assert(a.contains(x) <==> b.contains(x));
        }
        lemma_ordered_unique(t, u);
        assert(a =~= seq![a[0]] + t);
        assert(b =~= seq![b[0]] + u);
    }
}

proof fn lemma_rest_contains(a: Seq<Seq<char>>, x: Seq<char>)
    requires
        is_ordered(a),
        a.len() > 0,
    ensures
        a.drop_first().contains(x) <==> a.contains(x) && x != a[0],
{
    let t = a.drop_first();
    if t.contains(x) {
        let k = choose|k: int| 0 <= k < t.len() && t[k] == x;
        assert(a[k + 1] == x);
        assert(text::before(a[0], a[k + 1]));
        text::lemma_before_total(a[0], x);
    }
    if a.contains(x) && x != a[0] {
        let k = choose|k: int| 0 <= k < a.len() && a[k] == x;
        assert(t[k - 1] == x);
    }
}

/// The terms of a text are the singulars of those of its words that are searched for.
proof fn lemma_terms(n: Seq<char>, x: Seq<char>)
    ensures
        search_terms(n).contains(x) <==> exists|w: Seq<char>| #[trigger]
            text::words(n).contains(w) && is_term(w) && singular(w) == x,
{
    let words = text::words(n);
    let pred = |w: Seq<char>| is_term(w);
    let kept = words.filter(pred);
    if search_terms(n).contains(x) {
        let k = choose|k: int| 0 <= k < search_terms(n).len() && search_terms(n)[k] == x;
        assert(search_terms(n)[k] == singular(kept[k]));
        words.lemma_filter_pred(pred, k);
        assert(kept.contains(kept[k]));
        words.lemma_filter_contains_rev(pred, kept[k]);
    }
    if exists|w: Seq<char>| #[trigger] words.contains(w) && is_term(w) && singular(w) == x {
        let w = choose|w: Seq<char>| #[trigger]
            words.contains(w) && is_term(w) && singular(w) == x;
        let i = choose|i: int| 0 <= i < words.len() && words[i] == w;
        words.lemma_filter_contains(pred, i);
        let k = choose|k: int| 0 <= k < kept.len() && kept[k] == w;
        assert(search_terms(n)[k] == x);
    }
}

/// The query depends on nothing but which words a normalized text has, if any of them is
/// searched for: in what order they stand and how often makes no difference.
pub proof fn law_query_depends_on_the_words(a: Seq<char>, b: Seq<char>)
    requires
        search_terms(a).len() > 0,
        forall|w: Seq<char>| text::words(a).contains(w) <==> #[trigger] text::words(b).contains(w),
    ensures
        fts_query(a) == fts_query(b),
{
    let x = search_terms(a);
    let y = search_terms(b);
    assert forall|t: Seq<char>| x.contains(t) <==> #[trigger] y.contains(t) by {
        lemma_terms(a, t);
        lemma_terms(b, t);
        if x.contains(t) {
            let w = choose|w: Seq<char>| #[trigger]
                text::words(a).contains(w) && is_term(w) && singular(w) == t;
            assert(text::words(b).contains(w));
        }
        if y.contains(t) {
            let w = choose|w: Seq<char>| #[trigger]
                text::words(b).contains(w) && is_term(w) && singular(w) == t;
            assert(text::words(a).contains(w));
        }
    }
    assert(x.contains(x[0]));
    assert(y.contains(x[0]));
    law_query_terms_are_ordered(x);
    law_query_terms_are_ordered(y);
    assert forall|t: Seq<char>| in_order(x).contains(t) <==> #[trigger] in_order(y).contains(t) by {
        assert(x.contains(t) <==> y.contains(t));
    }
    lemma_ordered_unique(in_order(x), in_order(y));
}

/// The query for what a visitor says does not depend on case, nor on which punctuation
/// stands between two words, nor on how much of it: texts with the same lower-case form
/// have the same query, and so have texts that differ in punctuation which lower-casing
/// treats apart from what stands round it. ASCII texts are such texts.
pub proof fn law_query_ignores_case_and_punctuation(
    a: Seq<char>,
    c: char,
    d: char,
    b: Seq<char>,
    other: Seq<char>,
)
    requires
        !letter_or_digit(c),
        !letter_or_digit(d),
    ensures
        lower(a) == lower(other) ==> fts_query(normalized(a)) == fts_query(normalized(other)),
        utf8::is_ascii_chars(a) && text::lowered(a) == text::lowered(other) ==> lower(a) == lower(
            other,
        ),
        lowers_apart(a, c, b) && lowers_apart(a, d, b) ==> fts_query(normalized(a + seq![c] + b))
            == fts_query(normalized(a + seq![d] + b)),
        lowers_apart(a, c, b) && lowers_apart(a, c, seq![d] + b) && lowers_apart(seq![], d, b)
            ==> fts_query(normalized(a + seq![c] + (seq![d] + b))) == fts_query(
            normalized(a + seq![c] + b),
        ),
        utf8::is_ascii_chars(a + seq![c, d] + b) ==> {
            &&& lowers_apart(a, c, b)
            &&& lowers_apart(a, d, b)
            &&& lowers_apart(a, c, seq![d] + b)
            &&& lowers_apart(seq![], d, b)
        },
{
    law_normalizing_ignores_case(a, other);
    law_normalizing_ignores_punctuation(a, c, d, b);
}

// ---------------------------------------------------------------------------
// What the comparisons come to
// ---------------------------------------------------------------------------

/// In ASCII just the letters and the digits stay when a text is brought to its words;
/// outside it, what `char::is_alphanumeric` counts.
pub proof fn law_letters_and_digits(c: char)
    ensures
        c <= '\u{7f}' ==> (letter_or_digit(c) <==> 'a' <= c <= 'z' || 'A' <= c <= 'Z' || '0' <= c
            <= '9'),
        c > '\u{7f}' ==> (letter_or_digit(c) <==> alphanumeric(c)),
{
}

/// Words that are parted by single spaces and made of letters and digits are left as they
/// are; a text that holds no letter and no digit comes to nothing.
pub proof fn law_plain_keeps_words(list: Seq<Seq<char>>, s: Seq<char>)
    requires
        forall|i: int| 0 <= i < list.len() ==> text::is_word(#[trigger] list[i]),
        forall|i: int, k: int|
            0 <= i < list.len() && 0 <= k < list[i].len() ==> letter_or_digit(
                #[trigger] list[i][k],
            ),
        forall|k: int| 0 <= k < s.len() ==> !letter_or_digit(#[trigger] s[k]),
    ensures
        plain(text::joined(list, " "@)) == text::joined(list, " "@),
        plain(s) == Seq::<char>::empty(),
{
    reveal_strlit(" ");
    assert(" "@ =~= seq![' ']);
    let t = text::joined(list, " "@);
    lemma_joined_chars(list, |c: char| letter_or_digit(c));
    assert(blanked(t) =~= t);
    text::law_split_undoes_join(list);
    let b = blanked(s);
    assert forall|k: int| 0 <= k < b.len() implies text::is_space(#[trigger] b[k]) by {
        assert(b[k] == blank(s[k]));
    }
    text::law_words_are_parted_by_white_space(b, ' ', b);
    assert(plain(s) =~= Seq::<char>::empty());
}

/// A text is lower-cased as a whole before it is brought to its words.
pub proof fn law_normalizing_lowers_first(s: Seq<char>)
    ensures
        utf8::is_ascii_chars(s) ==> normalized(s) == plain(text::lowered(s)),
        !utf8::is_ascii_chars(s) ==> normalized(s) == plain(text::lowered(lowercase(s))),
{
}

/// These answers mean yes, these mean no, and no others do.
pub proof fn law_answers_are_listed(n: Seq<char>)
    ensures
        means_yes(n) <==> seq![
            "yes"@,
            "y"@,
            "yeah"@,
            "yep"@,
            "correct"@,
            "right"@,
            "thats right"@,
            "that is right"@,
        ].contains(n),
        means_no(n) <==> seq!["no"@, "n"@, "nope"@, "wrong"@, "not that one"@].contains(n),
{
    let yes = seq![
        "yes"@,
        "y"@,
        "yeah"@,
        "yep"@,
        "correct"@,
        "right"@,
        "thats right"@,
        "that is right"@,
    ];
    let no = seq!["no"@, "n"@, "nope"@, "wrong"@, "not that one"@];
    assert(yes[0] == "yes"@ && yes[1] == "y"@ && yes[2] == "yeah"@ && yes[3] == "yep"@ && yes[4]
        == "correct"@ && yes[5] == "right"@ && yes[6] == "thats right"@ && yes[7]
        == "that is right"@);
    assert(no[0] == "no"@ && no[1] == "n"@ && no[2] == "nope"@ && no[3] == "wrong"@ && no[4]
        == "not that one"@);
}

/// The artwork for an audio stop is the first of the list one of whose normalized titles
/// stands in the other, and there is none only where no artwork is like that.
pub proof fn law_first_meeting_title_is_found(
    list: Seq<ArtworkView>,
    title: Seq<char>,
    i: int,
)
    requires
        0 <= i <= list.len(),
        forall|k: int|
            0 <= k < i ==> !text::holds(
                normalized((#[trigger] list[k]).official_name),
                normalized(title),
            ) && !text::holds(normalized(title), normalized(list[k].official_name)),
    ensures
        i == list.len() ==> artwork_for_title(list, title) is None,
        i < list.len() && (text::holds(normalized(list[i].official_name), normalized(title))
            || text::holds(normalized(title), normalized(list[i].official_name)))
            ==> artwork_for_title(list, title) == Some(list[i]),
{
    let pred = |a: ArtworkView| titles_meet(normalized(a.official_name), normalized(title));
    assert forall|k: int| 0 <= k < i implies !pred(#[trigger] list[k]) by {
        assert(!text::holds(normalized(list[k].official_name), normalized(title)));
    }
    if i == list.len() || pred(list[i]) {
        lemma_first_where_at(list, pred, i);
    }
}

/// Titles score one where they are the same, 0.85 where one stands in the other and
/// nothing otherwise, whichever of them comes first.
pub proof fn law_titles_score_alike(a: Seq<char>, b: Seq<char>)
    ensures
        title_score(a, a).bits == 0x3ff0_0000_0000_0000,
        a != b && (text::holds(a, b) || text::holds(b, a)) ==> title_score(a, b).bits
            == 0x3feb_3333_3333_3333,
        a != b && !text::holds(a, b) && !text::holds(b, a) ==> title_score(a, b).bits == 0,
        title_score(a, b) == title_score(b, a),
{
}

/// A plural in `ies` is brought to `y`, whatever stands before it; of any other word of
/// more than three bytes the letters `s` at its end go, all of them and nothing else; every
/// other word stays as it is.
pub proof fn law_singulars(stem: Seq<char>, count: nat)
    ensures
        singular(stem + "ies"@) == stem + "y"@,
        (stem.len() == 0 || stem.last() != 's') ==> {
            let w = stem + Seq::new(count, |k: int| 's');
            &&& count == 0 ==> singular(w) == stem
            &&& count > 0 && !text::ends(w, "ies"@) && utf8::encode_utf8(w).len() > 3 ==> singular(w)
                == stem
            &&& count > 0 && !text::ends(w, "ies"@) && utf8::encode_utf8(w).len() <= 3 ==> singular(
                w,
            ) == w
        },
{
    reveal_strlit("ies");
    reveal_strlit("y");
    let p = stem + "ies"@;
    assert(p.subrange(p.len() - 3, p.len() as int) =~= "ies"@);
    assert(p.take(p.len() - 3).push('y') =~= stem + "y"@);
    if stem.len() == 0 || stem.last() != 's' {
        let w = stem + Seq::new(count, |k: int| 's');
        if count == 0 {
            assert(w =~= stem);
            if text::ends(w, "ies"@) {
                assert(w.subrange(w.len() - 3, w.len() as int)[2] == w.last());
            }
        } else {
            assert(w.last() == 's');
            lemma_without_final_s(stem, count);
        }
    }
}

proof fn lemma_without_final_s(stem: Seq<char>, count: nat)
    requires
        stem.len() == 0 || stem.last() != 's',
    ensures
        without_final_s(stem + Seq::new(count, |k: int| 's')) == stem,
    decreases count,
{
    let w = stem + Seq::new(count, |k: int| 's');
    if count == 0 {
        assert(w =~= stem);
    } else {
        assert(w.last() == 's');
        assert(w.drop_last() =~= stem + Seq::new((count - 1) as nat, |k: int| 's'));
        lemma_without_final_s(stem, (count - 1) as nat);
    }
}

/// The words that are never searched for.
pub open spec fn unsaying() -> Seq<Seq<char>> {
    seq!["with"@, "the"@, "and"@, "big"@, "small"@, "very"@, "that"@, "this"@, "painting"@]
}

/// A word is searched for if it is three bytes long at least and none of those that say
/// nothing.
pub proof fn law_which_words_are_searched(w: Seq<char>)
    ensures
        is_term(w) <==> utf8::encode_utf8(w).len() >= 3 && !unsaying().contains(w),
{
    let u = unsaying();
    assert(u[0] == "with"@ && u[1] == "the"@ && u[2] == "and"@ && u[3] == "big"@ && u[4]
        == "small"@ && u[5] == "very"@ && u[6] == "that"@ && u[7] == "this"@ && u[8]
        == "painting"@);
}

proof fn lemma_singular_has_no_space(w: Seq<char>)
    requires
        forall|k: int| 0 <= k < w.len() ==> #[trigger] w[k] != ' ',
    ensures
        forall|k: int| 0 <= k < singular(w).len() ==> #[trigger] singular(w)[k] != ' ',
{
    lemma_without_final_s_is_prefix(w);
    let s = singular(w);
    assert forall|k: int| 0 <= k < s.len() implies #[trigger] s[k] != ' ' by {
        if text::ends(w, "ies"@) {
            reveal_strlit("ies");
            if k < s.len() - 1 {
                assert(s[k] == w[k]);
            }
        } else if w.len() > 0 && w.last() == 's' && size(w) > 3 {
            assert(s == w.take(s.len() as int));
            assert(s[k] == w[k]);
        } else {
            assert(s[k] == w[k]);
        }
    }
}

proof fn lemma_without_final_s_is_prefix(w: Seq<char>)
    ensures
        without_final_s(w).len() <= w.len(),
        without_final_s(w) == w.take(without_final_s(w).len() as int),
    decreases w.len(),
{
    if w.len() > 0 && w.last() == 's' {
        lemma_without_final_s_is_prefix(w.drop_last());
        let r = without_final_s(w);
        assert(w.drop_last().take(r.len() as int) =~= w.take(r.len() as int));
    } else {
        assert(w.take(w.len() as int) =~= w);
    }
}

/// A query asks for any of the terms of a text and for nothing else. Where a word of the
/// text is searched for, the query falls apart at each ` OR ` into the singulars of just
/// those words, in dictionary order and each once, however many there are; otherwise it is
/// the text itself.
pub proof fn law_query_is_any_of_the_terms(n: Seq<char>)
    ensures
        ({
            let asked = text::split_on(fts_query(n), " OR "@, 0);
            if exists|w: Seq<char>| #[trigger]
                text::words(n).contains(w) && utf8::encode_utf8(w).len() >= 3
                    && !unsaying().contains(w) {
                &&& forall|i: int, j: int|
                    0 <= i < j < asked.len() ==> text::before(asked[i], asked[j])
                &&& forall|x: Seq<char>| #[trigger]
                    asked.contains(x) <==> exists|w: Seq<char>| #[trigger]
                        text::words(n).contains(w) && utf8::encode_utf8(w).len() >= 3
                            && !unsaying().contains(w) && singular(w) == x
                &&& fts_query(n) == text::joined(asked, " OR "@)
            } else {
                fts_query(n) == n
            }
        }),
{
    let words = text::words(n);
    let terms = search_terms(n);
    let list = in_order(terms);
    law_query_terms_are_ordered(terms);
    assert forall|w: Seq<char>| #[trigger] words.contains(w) implies (is_term(w)
        <==> utf8::encode_utf8(w).len() >= 3 && !unsaying().contains(w)) by {
        law_which_words_are_searched(w);
    }
    assert forall|x: Seq<char>| #[trigger] list.contains(x) <==> exists|w: Seq<char>| #[trigger]
        words.contains(w) && utf8::encode_utf8(w).len() >= 3 && !unsaying().contains(w) && singular(
            w,
        ) == x by {
        lemma_terms(n, x);
        assert(list.contains(x) <==> terms.contains(x));
        if terms.contains(x) {
            let w = choose|w: Seq<char>| #[trigger]
                words.contains(w) && is_term(w) && singular(w) == x;
            assert(words.contains(w) && utf8::encode_utf8(w).len() >= 3 && !unsaying().contains(w)
                && singular(w) == x);
        }
    }
    if exists|w: Seq<char>| #[trigger]
        words.contains(w) && utf8::encode_utf8(w).len() >= 3 && !unsaying().contains(w) {
        let w = choose|w: Seq<char>| #[trigger]
            words.contains(w) && utf8::encode_utf8(w).len() >= 3 && !unsaying().contains(w);
        assert(list.contains(singular(w)));
        assert(terms.contains(singular(w)));
        assert(terms.len() > 0);
        reveal_strlit(" OR ");
        text::lemma_words_are_words(n);
        assert forall|i: int, k: int| 0 <= i < list.len() && 0 <= k < list[i].len() implies #[trigger] list[i][k]
            != ' ' by {
            let x = list[i];
            assert(list.contains(x));
            lemma_terms(n, x);
            assert(terms.contains(x));
            let v = choose|v: Seq<char>| #[trigger]
                words.contains(v) && is_term(v) && singular(v) == x;
            let m = choose|m: int| 0 <= m < words.len() && words[m] == v;
            assert(text::is_word(words[m]));
            assert forall|q: int| 0 <= q < v.len() implies #[trigger] v[q] != ' ' by {
                assert(!text::is_space(v[q]));
            }
            lemma_singular_has_no_space(v);
        }
        text::law_split_on_undoes_join(list, " OR "@);
    } else if terms.len() > 0 {
        assert(terms.contains(terms[0]));
        lemma_terms(n, terms[0]);
    }
}

/// A text that was brought to its words is nothing but those words with single spaces
/// between them.
pub proof fn law_plain_is_words_and_spaces(s: Seq<char>)
    ensures
        plain(s) == text::joined(text::words(plain(s)), " "@),
{
    law_normalized_is_words_of_letters(s);
}

/// The first that passes is found, wherever it stands, and nothing only where nothing
/// passes.
pub proof fn law_first_that_passes_is_found(
    list: Seq<ArtworkView>,
    pred: spec_fn(ArtworkView) -> bool,
    i: int,
)
    requires
        0 <= i <= list.len(),
        forall|k: int| 0 <= k < i ==> !pred(#[trigger] list[k]),
    ensures
        i < list.len() && pred(list[i]) ==> first_where(list, pred) == Some(list[i]),
        i == list.len() ==> first_where(list, pred) is None,
{
    if i == list.len() || pred(list[i]) {
        lemma_first_where_at(list, pred, i);
    }
}

/// Answers, titles and descriptions are taken by their normalized forms, whatever they are:
/// an answer means yes or no if that form does, a title fits as well as the forms do, and the
/// query is the one for the form.
pub proof fn law_everything_goes_by_the_normalized_form(input: Seq<char>, art: ArtworkView)
    ensures
        affirms(input) <==> means_yes(normalized(input)),
        denies(input) <==> means_no(normalized(input)),
        stop_score(input, art) == title_score(normalized(input), normalized(art.official_name)),
        query_for(input) == fts_query(normalized(input)),
{
}

/// A yes is a yes and a no a no in capitals as well, and no answer is both.
pub proof fn law_answers_in_capitals(a: Seq<char>)
    requires
        utf8::is_ascii_chars(a),
    ensures
        affirms(text::raised(a)) <==> affirms(a),
        denies(text::raised(a)) <==> denies(a),
        !(affirms(a) && denies(a)),
{
    law_normalizing_ignores_case(a, a);
    law_yes_and_no_exclude_each_other(normalized(a));
}

} // verus!
