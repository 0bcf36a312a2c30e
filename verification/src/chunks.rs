//! Splitting a long message into parts that a chat service takes.
//!
//! Sizes are those of the UTF-8 encoding, so the model is a sequence of bytes.

use vstd::prelude::*;
use vstd::string::*;
use vstd::utf8;

verus! {

/// The byte of a line break.
pub const NEWLINE: u8 = 0x0a;

/// The start of the last two line breaks in a row among the first `n` bytes.
pub open spec fn last_pair(b: Seq<u8>, n: int) -> Option<int>
    decreases n,
{
    if n < 2 {
        None
    } else if b[n - 1] == NEWLINE && b[n - 2] == NEWLINE {
        Some(n - 2)
    } else {
        last_pair(b, n - 1)
    }
}

/// The last line break among the first `n` bytes.
pub open spec fn last_newline(b: Seq<u8>, n: int) -> Option<int>
    decreases n,
{
    if n < 1 {
        None
    } else if b[n - 1] == NEWLINE {
        Some(n - 1)
    } else {
        last_newline(b, n - 1)
    }
}

/// Where a text that is longer than `max` is cut: at the last paragraph break within
/// the limit, else at the last line break, else at the limit.
pub open spec fn cut(b: Seq<u8>, max: int) -> int {
    match last_pair(b, max) {
        Some(p) => p,
        None => match last_newline(b, max) {
            Some(p) => p,
            None => max,
        },
    }
}

/// How many line breaks a text starts with.
pub open spec fn leading_newlines(b: Seq<u8>) -> int
    decreases b.len(),
{
    if b.len() > 0 && b[0] == NEWLINE {
        1 + leading_newlines(b.drop_first())
    } else {
        0
    }
}

/// What is left after the first part: the line breaks at the cut are dropped.
pub open spec fn rest(b: Seq<u8>, max: int) -> Seq<u8> {
    let tail = b.skip(cut(b, max));
    tail.skip(leading_newlines(tail))
}

/// Whether every cut falls between two characters and leaves less to be cut.
pub open spec fn splittable(b: Seq<u8>, max: int) -> bool
    decreases b.len(),
{
    b.len() <= max || {
        &&& utf8::is_char_boundary(b, max)
        &&& rest(b, max).len() < b.len()
        &&& splittable(rest(b, max), max)
    }
}

/// The parts of a text that is not empty.
pub open spec fn pieces(b: Seq<u8>, max: int) -> Seq<Seq<u8>>
    decreases b.len(),
{
    if b.len() == 0 {
        seq![]
    } else if b.len() <= max {
        seq![b]
    } else if rest(b, max).len() < b.len() {
        seq![b.take(cut(b, max))] + pieces(rest(b, max), max)
    } else {
        seq![]
    }
}

/// The parts of a message. A message within the limit is one part, even if it is empty.
pub open spec fn message_parts(b: Seq<u8>, max: int) -> Seq<Seq<u8>> {
    if b.len() <= max {
        seq![b]
    } else {
        pieces(b, max)
    }
}

/// The encodings of a list of texts.
pub open spec fn encodings(list: Seq<&str>) -> Seq<Seq<u8>> {
    list.map_values(|t: &str| t.spec_bytes())
}

// ---------------------------------------------------------------------------
// Facts on cuts
// ---------------------------------------------------------------------------

proof fn lemma_last_pair(b: Seq<u8>, n: int)
    requires
        n <= b.len(),
    ensures
        last_pair(b, n) matches Some(p) ==> 0 <= p && p + 2 <= n && b[p] == NEWLINE && b[p + 1]
            == NEWLINE,
    decreases n,
{
    if n >= 2 {
        lemma_last_pair(b, n - 1);
    }
}

proof fn lemma_last_newline(b: Seq<u8>, n: int)
    requires
        n <= b.len(),
    ensures
        last_newline(b, n) matches Some(p) ==> 0 <= p < n && b[p] == NEWLINE,
    decreases n,
{
    if n >= 1 {
        lemma_last_newline(b, n - 1);
    }
}

proof fn lemma_cut(b: Seq<u8>, max: int)
    requires
        0 <= max < b.len(),
    ensures
        0 <= cut(b, max) <= max,
        cut(b, max) == max || b[cut(b, max)] == NEWLINE,
{
    lemma_last_pair(b, max);
    lemma_last_newline(b, max);
}

proof fn lemma_leading_newlines(b: Seq<u8>)
    ensures
        0 <= leading_newlines(b) <= b.len(),
        forall|k: int| 0 <= k < leading_newlines(b) ==> #[trigger] b[k] == NEWLINE,
        leading_newlines(b) < b.len() ==> b[leading_newlines(b)] != NEWLINE,
    decreases b.len(),
{
    if b.len() > 0 && b[0] == NEWLINE {
        let t = b.drop_first();
        lemma_leading_newlines(t);
        assert forall|k: int| 0 <= k < leading_newlines(b) implies #[trigger] b[k] == NEWLINE by {
            if k > 0 {
                assert(b[k] == t[k - 1]);
            }
        }
    }
}

/// Line breaks at the start of a text end on a character boundary.
proof fn lemma_boundary_after_newlines(b: Seq<u8>, k: int)
    requires
        utf8::valid_utf8(b),
        0 <= k <= leading_newlines(b),
    ensures
        utf8::is_char_boundary(b, k),
    decreases k,
{
    if k > 0 {
        lemma_leading_newlines(b);
        assert(b[0] == NEWLINE);
        assert(utf8::pop_first_scalar(b) =~= b.drop_first());
        lemma_boundary_after_newlines(b.drop_first(), k - 1);
    }
}

// ---------------------------------------------------------------------------
// Splitting
// ---------------------------------------------------------------------------

fn find_cut(b: &[u8], max: usize) -> (r: usize)
    requires
        max < b@.len(),
    ensures
        r == cut(b@, max as int),
{
    let mut n: usize = max;
    while n >= 2
        invariant
            n <= max < b@.len(),
            last_pair(b@, max as int) == last_pair(b@, n as int),
        decreases n,
    {
        if b[n - 1] == NEWLINE && b[n - 2] == NEWLINE {
            return n - 2;
        }
        n = n - 1;
    }
    let mut m: usize = max;
    while m >= 1
        invariant
            m <= max < b@.len(),
            last_pair(b@, max as int) is None,
            last_newline(b@, max as int) == last_newline(b@, m as int),
        decreases m,
    {
        if b[m - 1] == NEWLINE {
            return m - 1;
        }
        m = m - 1;
    }
    max
}

fn count_newlines(b: &[u8]) -> (r: usize)
    ensures
        r == leading_newlines(b@),
{
    let mut k: usize = 0;
    assert(b@.skip(0) =~= b@);
    while k < b.len() && b[k] == NEWLINE
        invariant
            k <= b@.len(),
            leading_newlines(b@) == k + leading_newlines(b@.skip(k as int)),
        decreases b@.len() - k,
    {
        assert(b@.skip(k as int).drop_first() =~= b@.skip(k + 1));
        assert(b@.skip(k as int)[0] == b@[k as int]);
        k = k + 1;
    }
    assert(k < b@.len() ==> b@.skip(k as int)[0] == b@[k as int]);
    k
}

/// The parts of a message, if it can be split.
pub open spec fn split(b: Seq<u8>, max: int) -> Option<Seq<Seq<u8>>> {
    if splittable(b, max) {
        Some(message_parts(b, max))
    } else {
        None
    }
}

/// The encodings of a list of texts that may be missing.
pub open spec fn encodings_in(list: Option<Vec<&str>>) -> Option<Seq<Seq<u8>>> {
    match list {
        Some(parts) => Some(encodings(parts@)),
        None => None,
    }
}

/// Splits a message into parts of at most `max_len` bytes, at paragraph or line breaks
/// where there are any; `None` where a part would have to end inside a character, or
/// where the limit leaves no room for one.
pub fn try_split_message(text: &str, max_len: usize) -> (r: Option<Vec<&str>>)
    ensures
        r is Some == splittable(text.spec_bytes(), max_len as int),
        encodings_in(r) == split(text.spec_bytes(), max_len as int),
{
    let ghost all = text.spec_bytes();
    let ghost max = max_len as int;
    let mut parts: Vec<&str> = Vec::new();
    if text.as_bytes().len() <= max_len {
        parts.push(text);
        assert(encodings(parts@) =~= seq![all]);
        return Some(parts);
    }
    let mut remaining: &str = text;
    assert(encodings(parts@) + pieces(all, max) =~= pieces(all, max));
    while remaining.as_bytes().len() > 0
        invariant
            all == text.spec_bytes(),
            max == max_len,
            all.len() > max,
            splittable(all, max) == splittable(remaining.spec_bytes(), max),
            splittable(all, max) ==> pieces(all, max) == encodings(parts@) + pieces(
                remaining.spec_bytes(),
                max,
            ),
        decreases remaining.spec_bytes().len(),
    {
        let ghost b = remaining.spec_bytes();
        let bytes: &[u8] = remaining.as_bytes();
        let ghost before = parts@;
        if bytes.len() <= max_len {
            parts.push(remaining);
            assert(encodings(parts@) =~= encodings(before) + seq![b]);
            return Some(parts);
        }
        if !remaining.is_char_boundary(max_len) {
            return None;
        }
        let at: usize = find_cut(bytes, max_len);
        proof {
            utf8::encode_utf8_valid_utf8(remaining@);
            lemma_cut(b, max);
            if at < max {
                utf8::is_char_boundary_iff_not_is_continuation_byte(b, at as int);
            }
        }
        let (part, tail) = remaining.split_at(at);
        let ghost t = tail.spec_bytes();
        assert(part.spec_bytes() =~= b.take(at as int));
        assert(t =~= b.skip(at as int));
        let breaks: usize = count_newlines(tail.as_bytes());
        proof {
            utf8::encode_utf8_valid_utf8(tail@);
            lemma_leading_newlines(t);
            lemma_boundary_after_newlines(t, breaks as int);
        }
        let (dropped, next) = tail.split_at(breaks);
        assert(next.spec_bytes() =~= rest(b, max));
        if next.as_bytes().len() == remaining.as_bytes().len() {
            return None;
        }
        parts.push(part);
        proof {
            assert(encodings(parts@) =~= encodings(before) + seq![b.take(at as int)]);
            assert(encodings(parts@) + pieces(rest(b, max), max) =~= encodings(before) + (
            seq![b.take(at as int)] + pieces(rest(b, max), max)));
        }
        remaining = next;
    }
    assert(encodings(parts@) + pieces(remaining.spec_bytes(), max) =~= encodings(parts@));
    Some(parts)
}

/// Splits a message into parts of at most `max_len` bytes, at paragraph or line breaks
/// where there are any.
pub fn split_message(text: &str, max_len: usize) -> (r: Vec<&str>)
    requires
        splittable(text.spec_bytes(), max_len as int),
    ensures
        encodings(r@) == message_parts(text.spec_bytes(), max_len as int),
{
    match try_split_message(text, max_len) {
        Some(parts) => parts,
        None => Vec::new(),
    }
}

// ---------------------------------------------------------------------------
// What splitting keeps
// ---------------------------------------------------------------------------

/// A text without its line breaks.
pub open spec fn unbroken(b: Seq<u8>) -> Seq<u8> {
    b.filter(|x: u8| x != NEWLINE)
}

/// The parts one after the other.
pub open spec fn together(parts: Seq<Seq<u8>>) -> Seq<u8>
    decreases parts.len(),
{
    if parts.len() == 0 {
        seq![]
    } else {
        parts[0] + together(parts.drop_first())
    }
}

proof fn lemma_unbroken_newlines(b: Seq<u8>, k: int)
    requires
        0 <= k <= leading_newlines(b),
    ensures
        unbroken(b.take(k)) == Seq::<u8>::empty(),
    decreases k,
{
    reveal(Seq::filter);
    lemma_leading_newlines(b);
    if k > 0 {
        lemma_unbroken_newlines(b, k - 1);
        assert(b.take(k).drop_last() =~= b.take(k - 1));
        assert(b.take(k).last() == b[k - 1]);
    } else {
        assert(unbroken(b.take(k)) =~= Seq::<u8>::empty());
    }
}

#[verifier::spinoff_prover]
#[verifier::rlimit(40)]
proof fn lemma_pieces(b: Seq<u8>, max: int)
    requires
        max >= 0,
        splittable(b, max),
    ensures
        unbroken(together(pieces(b, max))) == unbroken(b),
        forall|i: int| 0 <= i < pieces(b, max).len() ==> #[trigger] pieces(b, max)[i].len() <= max,
    decreases b.len(),
{
    reveal(Seq::filter);
    if b.len() == 0 {
        assert(together(pieces(b, max)) =~= b);
    } else if b.len() <= max {
        let p = pieces(b, max);
        assert(p.drop_first() =~= Seq::<Seq<u8>>::empty());
        assert(together(p.drop_first()) =~= Seq::<u8>::empty());
        assert(together(p) =~= b);
    } else {
        let at = cut(b, max);
        let head = b.take(at);
        let tail = b.skip(at);
        let k = leading_newlines(tail);
        let r = rest(b, max);
        lemma_cut(b, max);
        lemma_leading_newlines(tail);
        lemma_pieces(r, max);
        let p = pieces(b, max);
        let q = pieces(r, max);
        assert(p.drop_first() =~= q);
        assert(together(p) == head + together(q));
        lemma_unbroken_newlines(tail, k);
        assert(tail =~= tail.take(k) + r);
        assert(b =~= head + tail);
        let keep = |x: u8| x != NEWLINE;
        Seq::filter_distributes_over_add(head, together(q), keep);
        Seq::filter_distributes_over_add(tail.take(k), r, keep);
        Seq::filter_distributes_over_add(head, tail, keep);
        assert(Seq::<u8>::empty() + unbroken(r) =~= unbroken(r));
        assert forall|i: int| 0 <= i < p.len() implies #[trigger] p[i].len() <= max by {
            if i > 0 {
                assert(p[i] == q[i - 1]);
            }
        }
    }
}

/// Every part is within the limit, there is at least one part, and the parts in order
/// hold the message: only line breaks are lost.
pub proof fn law_parts_hold_the_message(b: Seq<u8>, max: int)
    requires
        max >= 0,
        splittable(b, max),
    ensures
        forall|i: int|
            0 <= i < message_parts(b, max).len() ==> #[trigger] message_parts(b, max)[i].len()
                <= max,
        message_parts(b, max).len() >= 1,
        unbroken(together(message_parts(b, max))) == unbroken(b),
{
    lemma_pieces(b, max);
    if b.len() <= max {
        let p = message_parts(b, max);
        assert(p.drop_first() =~= Seq::<Seq<u8>>::empty());
        assert(together(p.drop_first()) =~= Seq::<u8>::empty());
        assert(together(p) =~= b);
    }
}

/// A message of ASCII characters can always be split, where the limit leaves room.
pub proof fn law_ascii_is_splittable(chars: Seq<char>, max: int)
    requires
        max >= 1,
        utf8::is_ascii_chars(chars),
    ensures
        splittable(utf8::encode_utf8(chars), max),
    decreases chars.len(),
{
    utf8::encode_utf8_valid_utf8(chars);
    utf8::is_ascii_chars_encode_utf8(chars);
    let b = utf8::encode_utf8(chars);
    if b.len() > max {
        assert(b[max] == chars[max] as u8);
        utf8::is_char_boundary_iff_not_is_continuation_byte(b, max);
        lemma_cut(b, max);
        let at = cut(b, max);
        let tail = b.skip(at);
        lemma_leading_newlines(tail);
        let k = leading_newlines(tail);
        if at == 0 {
            assert(tail[0] == NEWLINE);
        }
        assert(rest(b, max) =~= b.skip(at + k));
        let next = chars.skip(at + k);
        assert forall|i: int| 0 <= i < next.len() implies '\0' <= #[trigger] next[i] <= '\u{7f}' by {
            assert(next[i] == chars[at + k + i]);
        }
        utf8::is_ascii_chars_encode_utf8(next);
        assert(utf8::encode_utf8(next) =~= b.skip(at + k)) by {
            assert forall|i: int| 0 <= i < next.len() implies utf8::encode_utf8(next)[i] == #[trigger] b.skip(at + k)[i] by {
                assert(next[i] == chars[at + k + i]);
                assert(utf8::encode_utf8(next)[i] == next[i] as u8);
                assert(b[at + k + i] == chars[at + k + i] as u8);
            }
        }
        law_ascii_is_splittable(next, max);
    }
}

// ---------------------------------------------------------------------------
// Where messages are cut
// ---------------------------------------------------------------------------

/// A message that is too long is cut at the last paragraph break within the limit; where
/// there is none, at the last line break; and at the limit where there is none either.
pub proof fn law_where_messages_are_cut(b: Seq<u8>, max: int, p: int)
    requires
        0 <= max <= b.len(),
    ensures
        0 <= p && p + 2 <= max && b[p] == 10 && b[p + 1] == 10 && (forall|q: int|
            p < q && q + 2 <= max ==> !(#[trigger] b[q] == 10 && b[q + 1] == 10)) ==> cut(b, max)
            == p,
        (forall|q: int| 0 <= q && q + 2 <= max ==> !(#[trigger] b[q] == 10 && b[q + 1] == 10))
            && 0 <= p < max && b[p] == 10 && (forall|q: int|
            p < q < max ==> #[trigger] b[q] != 10) ==> cut(b, max) == p,
        (forall|q: int| 0 <= q < max ==> #[trigger] b[q] != 10) ==> cut(b, max) == max,
{
    if 0 <= p && p + 2 <= max && b[p] == 10 && b[p + 1] == 10 && (forall|q: int|
        p < q && q + 2 <= max ==> !(#[trigger] b[q] == 10 && b[q + 1] == 10)) {
        lemma_last_pair_is(b, max, p);
    }
    if forall|q: int| 0 <= q && q + 2 <= max ==> !(#[trigger] b[q] == 10 && b[q + 1] == 10) {
        lemma_no_pair(b, max);
        if 0 <= p < max && b[p] == 10 && (forall|q: int| p < q < max ==> #[trigger] b[q] != 10) {
            lemma_last_newline_is(b, max, p);
        }
    }
    if forall|q: int| 0 <= q < max ==> #[trigger] b[q] != 10 {
        lemma_no_pair(b, max);
        lemma_last_newline(b, max);
    }
}

proof fn lemma_last_pair_is(b: Seq<u8>, n: int, p: int)
    requires
        n <= b.len(),
        0 <= p,
        p + 2 <= n,
        b[p] == 10,
        b[p + 1] == 10,
        forall|q: int| p < q && q + 2 <= n ==> !(#[trigger] b[q] == 10 && b[q + 1] == 10),
    ensures
        last_pair(b, n) == Some(p),
    decreases n,
{
    if p + 2 < n {
        let q = n - 2;
        assert(!(b[q] == 10 && b[q + 1] == 10));
        lemma_last_pair_is(b, n - 1, p);
    }
}

proof fn lemma_no_pair(b: Seq<u8>, n: int)
    requires
        n <= b.len(),
        forall|q: int| 0 <= q && q + 2 <= n ==> !(#[trigger] b[q] == 10 && b[q + 1] == 10),
    ensures
        last_pair(b, n) is None,
    decreases n,
{
    if n >= 2 {
        let q = n - 2;
        assert(!(b[q] == 10 && b[q + 1] == 10));
        lemma_no_pair(b, n - 1);
    }
}

proof fn lemma_last_newline_is(b: Seq<u8>, n: int, p: int)
    requires
        n <= b.len(),
        0 <= p < n,
        b[p] == 10,
        forall|q: int| p < q < n ==> #[trigger] b[q] != 10,
    ensures
        last_newline(b, n) == Some(p),
    decreases n,
{
    if p + 1 < n {
        assert(b[n - 1] != 10);
        lemma_last_newline_is(b, n - 1, p);
    }
}

/// The line breaks at a cut are dropped, all of them and nothing else.
pub proof fn law_line_breaks_at_a_cut_go(b: Seq<u8>, max: int, k: int)
    requires
        0 <= max < b.len(),
        cut(b, max) <= k <= b.len(),
        forall|q: int| cut(b, max) <= q < k ==> #[trigger] b[q] == 10,
        k < b.len() ==> b[k] != 10,
    ensures
        rest(b, max) == b.skip(k),
{
    lemma_cut(b, max);
    let at = cut(b, max);
    let tail = b.skip(at);
    lemma_leading_newlines(tail);
    let n = leading_newlines(tail);
    if n < k - at {
        assert(tail[n] == b[at + n]);
    }
    if n > k - at {
        assert(tail[k - at] == b[k]);
    }
    assert(tail.skip(n) =~= b.skip(k));
}

/// A message within the limit is one part, as it is, even if it is empty. A longer one is
/// its start up to the cut, and then the parts of what is left, if anything is.
pub proof fn law_parts_come_one_by_one(b: Seq<u8>, max: int)
    ensures
        b.len() <= max ==> message_parts(b, max) == seq![b],
        b.len() > max && rest(b, max).len() < b.len() ==> message_parts(b, max) == seq![
            b.take(cut(b, max)),
        ] + (if rest(b, max).len() > 0 {
            message_parts(rest(b, max), max)
        } else {
            Seq::<Seq<u8>>::empty()
        }),
{
    if b.len() > max && rest(b, max).len() < b.len() {
        let r = rest(b, max);
        if r.len() == 0 {
            assert(pieces(r, max) =~= Seq::<Seq<u8>>::empty());
        }
        if b.len() == 0 {
            assert(false);
        }
    }
}

/// A message can be split exactly where it is within the limit already, or the limit falls
/// between two characters of it, something goes with the first part, and the rest can be
/// split.
pub proof fn law_what_can_be_split(b: Seq<u8>, max: int)
    ensures
        b.len() <= max ==> splittable(b, max),
        b.len() > max ==> (splittable(b, max) <==> utf8::is_char_boundary(b, max) && rest(
            b,
            max,
        ).len() < b.len() && splittable(rest(b, max), max)),
{
}

/// Parts are seen whole and in order, by their bytes.
pub proof fn law_lists_of_parts(list: Seq<&str>, i: int)
    ensures
        encodings(list).len() == list.len(),
        0 <= i < list.len() ==> encodings(list)[i] == list[i].spec_bytes(),
{
}

/// Splitting a message: one within the limit is its only part; of a longer one the start up
/// to the cut is a part, and what is left is split in turn. It fails only where the limit
/// falls within a character, where nothing would go with the first part, or where what is
/// left cannot be split.
pub proof fn law_how_messages_are_split(b: Seq<u8>, max: int)
    ensures
        b.len() <= max ==> split(b, max) == Some(seq![b]),
        b.len() > max && utf8::is_char_boundary(b, max) && rest(b, max).len() < b.len() ==> {
            let left = rest(b, max);
            let first = seq![b.take(cut(b, max))];
            &&& left.len() > 0 && split(left, max) is Some ==> split(b, max) == Some(
                first + split(left, max)->0,
            )
            &&& left.len() > 0 && split(left, max) is None ==> split(b, max) is None
            &&& left.len() == 0 && max >= 0 ==> split(b, max) == Some(first)
        },
        b.len() > max && !utf8::is_char_boundary(b, max) ==> split(b, max) is None,
        b.len() > max && rest(b, max).len() >= b.len() ==> split(b, max) is None,
{
    law_parts_come_one_by_one(b, max);
    if b.len() > max && rest(b, max).len() < b.len() && rest(b, max).len() == 0 {
        let first = seq![b.take(cut(b, max))];
        assert(first + Seq::<Seq<u8>>::empty() =~= first);
    }
}

} // verus!
