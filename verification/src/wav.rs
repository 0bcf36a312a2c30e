//! The RIFF/WAVE container: finding the `data` chunk and repairing the two size
//! fields that streaming producers leave at a placeholder.

use vstd::prelude::*;
use vstd::slice::slice_to_vec;

verus! {

/// The largest size that a 32-bit field can hold.
pub const MAX_FIELD: u32 = 0xffff_ffff;

/// Whether the bytes start as a RIFF file of type WAVE does.
pub open spec fn is_wave(b: Seq<u8>) -> bool {
    &&& b.len() >= 12
    &&& b[0] == 0x52 && b[1] == 0x49 && b[2] == 0x46 && b[3] == 0x46
    &&& b[8] == 0x57 && b[9] == 0x41 && b[10] == 0x56 && b[11] == 0x45
}

/// The 32-bit little-endian number at position `at`.
pub open spec fn field(b: Seq<u8>, at: int) -> int {
    b[at] + b[at + 1] * 0x100 + b[at + 2] * 0x1_0000 + b[at + 3] * 0x100_0000
}

/// The bytes with the 32-bit little-endian number `n` at position `at`.
pub open spec fn with_field(b: Seq<u8>, at: int, n: int) -> Seq<u8> {
    b.update(at, (n % 0x100) as u8).update(at + 1, (n / 0x100 % 0x100) as u8).update(
        at + 2,
        (n / 0x1_0000 % 0x100) as u8,
    ).update(at + 3, (n / 0x100_0000 % 0x100) as u8)
}

/// Whether the chunk that starts at `at` is a `data` chunk.
pub open spec fn is_data(b: Seq<u8>, at: int) -> bool {
    b[at] == 0x64 && b[at + 1] == 0x61 && b[at + 2] == 0x74 && b[at + 3] == 0x61
}

/// Where the chunk after the one at `at` starts: its payload is padded to an even size.
pub open spec fn next_chunk(b: Seq<u8>, at: int) -> int {
    at + 8 + field(b, at + 4) + field(b, at + 4) % 2
}

/// The start of the first `data` chunk from `at` on, if the chunks lead to one.
pub open spec fn data_chunk(b: Seq<u8>, at: int) -> Option<int>
    decreases b.len() - at,
{
    if at < 0 || at + 8 > b.len() {
        None
    } else if is_data(b, at) {
        Some(at)
    } else if at < next_chunk(b, at) <= b.len() {
        data_chunk(b, next_chunk(b, at))
    } else {
        None
    }
}

/// A size as a 32-bit field holds it: the largest value stands for anything above.
pub open spec fn clamped(n: int) -> int {
    if n > MAX_FIELD {
        MAX_FIELD as int
    } else {
        n
    }
}

/// The bytes with the RIFF size set to what follows that field.
pub open spec fn riff_sized(b: Seq<u8>) -> Seq<u8> {
    with_field(b, 4, clamped(b.len() - 8))
}

/// Whether the size of the `data` chunk at `at` is in need of repair: it is the placeholder
/// of a stream, or the chunk would run past the end.
pub open spec fn data_size_is_wrong(b: Seq<u8>, at: int) -> bool {
    field(b, at + 4) == MAX_FIELD || at + 8 + field(b, at + 4) > b.len()
}

/// The bytes with the size of the RIFF file set to what is there, and that of its `data`
/// chunk where it is in need of repair; anything that is not a WAVE file is left alone.
pub open spec fn sized(b: Seq<u8>) -> Seq<u8> {
    if !is_wave(b) {
        b
    } else {
        let r = riff_sized(b);
        match data_chunk(r, 12) {
            Some(at) => if data_size_is_wrong(r, at) {
                with_field(r, at + 4, clamped(r.len() - at - 8))
            } else {
                r
            },
            None => r,
        }
    }
}

fn read_field(b: &Vec<u8>, at: usize) -> (r: u32)
    requires
        at + 4 <= b.len(),
    ensures
        r == field(b@, at as int),
{
    b[at] as u32 + b[at + 1] as u32 * 0x100 + b[at + 2] as u32 * 0x1_0000 + b[at + 3] as u32
        * 0x100_0000
}

fn write_field(b: &mut Vec<u8>, at: usize, n: u32)
    requires
        at + 4 <= old(b).len(),
    ensures
        final(b)@ == with_field(old(b)@, at as int, n as int),
{
    b.set(at, (n % 0x100) as u8);
    b.set(at + 1, (n / 0x100 % 0x100) as u8);
    b.set(at + 2, (n / 0x1_0000 % 0x100) as u8);
    b.set(at + 3, (n / 0x100_0000 % 0x100) as u8);
}

fn clamp_size(n: usize) -> (r: u32)
    ensures
        r == clamped(n as int),
{
    if n > MAX_FIELD as usize {
        MAX_FIELD
    } else {
        n as u32
    }
}

/// Sets the RIFF size of a WAVE file to what is there, and the size of its `data` chunk if
/// that is a placeholder or would run past the end.
///
/// Some speech providers stream the file and leave both sizes at a placeholder,
/// which strict readers reject although the payload is fine. A `data` size that fits is
/// left as it is, so that chunks behind the `data` chunk stay what they are.
pub fn normalize_wav_header(audio: &[u8]) -> (r: Vec<u8>)
    ensures
        r@ == sized(audio@),
{
    let mut out: Vec<u8> = slice_to_vec(audio);
    assert(out@ =~= audio@);
    let len: usize = out.len();
    if len < 12 || out[0] != 0x52 || out[1] != 0x49 || out[2] != 0x46 || out[3] != 0x46 || out[8]
        != 0x57 || out[9] != 0x41 || out[10] != 0x56 || out[11] != 0x45 {
        return out;
    }
    write_field(&mut out, 4, clamp_size(len - 8));
    let ghost r = riff_sized(audio@);
    let mut at: usize = 12;
    while len - at >= 8
        invariant
            12 <= at <= len,
            len == out@.len(),
            out@ == r,
            is_wave(audio@),
            r == riff_sized(audio@),
            data_chunk(r, 12) == data_chunk(r, at as int),
        decreases len - at,
    {
        let size: u32 = read_field(&out, at + 4);
        if out[at] == 0x64 && out[at + 1] == 0x61 && out[at + 2] == 0x74 && out[at + 3] == 0x61 {
            if size == MAX_FIELD || size as u64 > (len - at - 8) as u64 {
                write_field(&mut out, at + 4, clamp_size(len - at - 8));
            }
            return out;
        }
        let room: usize = len - at - 8;
        let odd: u32 = size % 2;
        if size as u64 + odd as u64 > room as u64 {
            return out;
        }
        assert(next_chunk(r, at as int) == at + 8 + size + odd);
        at = at + 8 + size as usize + odd as usize;
    }
    out
}

// ---------------------------------------------------------------------------
// What the repair keeps
// ---------------------------------------------------------------------------

#[verifier::spinoff_prover]
proof fn lemma_field_roundtrip(b: Seq<u8>, at: int, n: int)
    requires
        0 <= at,
        at + 4 <= b.len(),
        0 <= n <= MAX_FIELD,
    ensures
        field(with_field(b, at, n), at) == n,
        with_field(b, at, n).len() == b.len(),
        forall|k: int|
            0 <= k < b.len() && !(at <= k < at + 4) ==> with_field(b, at, n)[k] == #[trigger] b[k],
{
    lemma_number_of_bytes(n);
    let w = with_field(b, at, n);
    assert(w[at] == n % 0x100);
    assert(w[at + 1] == n / 0x100 % 0x100);
    assert(w[at + 2] == n / 0x1_0000 % 0x100);
    assert(w[at + 3] == n / 0x100_0000 % 0x100);
}

#[verifier::spinoff_prover]
proof fn lemma_number_of_bytes(n: int)
    requires
        0 <= n <= MAX_FIELD,
    ensures
        n % 0x100 + n / 0x100 % 0x100 * 0x100 + n / 0x1_0000 % 0x100 * 0x1_0000 + n / 0x100_0000
            % 0x100 * 0x100_0000 == n,
{
    let a = n / 0x100;
    let b = a / 0x100;
    let c = b / 0x100;
    assert(n / 0x1_0000 == b);
    assert(n / 0x100_0000 == c);
    assert(0 <= c < 0x100);
    assert(n == a * 0x100 + n % 0x100);
    assert(a == b * 0x100 + a % 0x100);
    assert(b == c * 0x100 + b % 0x100);
}

/// Walking the chunks reads only their headers: two byte strings that agree from
/// `at` on, save in the size field of a `data` chunk, lead to the same `data` chunk.
proof fn lemma_data_chunk_agrees(a: Seq<u8>, b: Seq<u8>, at: int, hole: int)
    requires
        a.len() == b.len(),
        at >= 0,
        forall|k: int| at <= k < a.len() && !(hole <= k < hole + 4) ==> #[trigger] a[k] == b[k],
        hole + 4 <= at || data_chunk(a, at) == Some(hole - 4),
    ensures
        data_chunk(a, at) == data_chunk(b, at),
    decreases a.len() - at,
{
    if at + 8 <= a.len() && !is_data(a, at) {
        lemma_data_chunk_at(a, at);
        if at < next_chunk(a, at) <= a.len() {
            lemma_data_chunk_at(a, next_chunk(a, at));
            assert(field(a, at + 4) == field(b, at + 4));
            lemma_data_chunk_agrees(a, b, next_chunk(a, at), hole);
        }
    } else if at + 8 <= a.len() {
        assert(is_data(b, at));
    }
}

/// The `data` chunk that is found lies in the bytes, at or after the start of the walk.
proof fn lemma_data_chunk_at(b: Seq<u8>, at: int)
    requires
        at >= 0,
    ensures
        data_chunk(b, at) matches Some(p) ==> at <= p && p + 8 <= b.len() && is_data(b, p),
        (data_chunk(b, at) is Some && !is_data(b, at)) ==> data_chunk(b, at)->0 >= next_chunk(
            b,
            at,
        ) > at,
    decreases b.len() - at,
{
    if at + 8 <= b.len() && !is_data(b, at) && at < next_chunk(b, at) <= b.len() {
        lemma_data_chunk_at(b, next_chunk(b, at));
    }
}

/// Repairing a header changes no byte but those of the RIFF size and of the size of
/// the `data` chunk, and never the length.
pub proof fn law_repair_touches_only_sizes(b: Seq<u8>)
    ensures
        sized(b).len() == b.len(),
        forall|k: int|
            0 <= k < b.len() && !(4 <= k < 8) && !(data_chunk(b, 12) matches Some(at) && at + 4 <= k
                < at + 8) ==> sized(b)[k] == #[trigger] b[k],
        !is_wave(b) ==> sized(b) == b,
{
    if is_wave(b) {
        let r = riff_sized(b);
        lemma_field_roundtrip(b, 4, clamped(b.len() - 8));
        lemma_data_chunk_agrees(b, r, 12, 4);
        lemma_data_chunk_at(r, 12);
        if let Some(at) = data_chunk(r, 12) {
            lemma_field_roundtrip(r, at + 4, clamped(r.len() - at - 8));
        }
    }
}

/// After the repair the RIFF size says what is there; the size of the `data` chunk does so
/// too if it was in need of repair, and is as before otherwise; and the `data` chunk does
/// not run past the end.
pub proof fn law_repaired_sizes_are_true(b: Seq<u8>)
    requires
        is_wave(b),
    ensures
        field(sized(b), 4) == clamped(b.len() - 8),
        data_chunk(sized(b), 12) == data_chunk(b, 12),
        data_chunk(b, 12) matches Some(at) ==> {
            &&& field(sized(b), at + 4) == (if data_size_is_wrong(b, at) {
                clamped(b.len() - at - 8)
            } else {
                field(b, at + 4)
            })
            &&& at + 8 + field(sized(b), at + 4) <= b.len()
        },
{
    let r = riff_sized(b);
    lemma_field_roundtrip(b, 4, clamped(b.len() - 8));
    lemma_data_chunk_agrees(b, r, 12, 4);
    lemma_data_chunk_at(r, 12);
    if let Some(at) = data_chunk(r, 12) {
        lemma_field_roundtrip(r, at + 4, clamped(r.len() - at - 8));
        lemma_data_chunk_agrees(r, sized(b), 12, at + 4);
    }
}

/// Wrong sizes leave no trace: two WAVE files that differ at most in the RIFF size and in
/// the size of the `data` chunk come out the same if that size is in need of repair in
/// both, or is the same in both.
pub proof fn law_wrong_sizes_leave_no_trace(a: Seq<u8>, b: Seq<u8>)
    requires
        is_wave(a),
        a.len() == b.len(),
        forall|k: int|
            0 <= k < a.len() && !(4 <= k < 8) && !(data_chunk(a, 12) matches Some(at) && at + 4 <= k
                < at + 8) ==> #[trigger] a[k] == b[k],
        data_chunk(a, 12) matches Some(at) ==> (data_size_is_wrong(a, at) && data_size_is_wrong(
            b,
            at,
        )) || field(a, at + 4) == field(b, at + 4),
    ensures
        sized(a) == sized(b),
{
    lemma_data_chunk_at(a, 12);
    assert(is_wave(b));
    match data_chunk(a, 12) {
        Some(at) => {
            lemma_data_chunk_agrees(a, b, 12, at + 4);
            if field(a, at + 4) == field(b, at + 4) {
                lemma_field_bytes(a, b, at + 4);
            }
        },
        None => {
            lemma_data_chunk_agrees(a, b, 12, 4);
        },
    }
    law_repair_touches_only_sizes(a);
    law_repair_touches_only_sizes(b);
    law_repaired_sizes_are_true(a);
    law_repaired_sizes_are_true(b);
    lemma_field_bytes(sized(a), sized(b), 4);
    if let Some(at) = data_chunk(a, 12) {
        lemma_field_bytes(sized(a), sized(b), at + 4);
    }
    assert forall|k: int| 0 <= k < a.len() implies sized(a)[k] == sized(b)[k] by {
        if !(4 <= k < 8) && !(data_chunk(a, 12) matches Some(at) && at + 4 <= k < at + 8) {
            assert(a[k] == b[k]);
            assert(sized(a)[k] == a[k]);
            assert(sized(b)[k] == b[k]);
        }
    }
    assert(sized(a) =~= sized(b));
}

/// A repaired file needs no repair.
pub proof fn law_repair_is_idempotent(b: Seq<u8>)
    ensures
        sized(sized(b)) == sized(b),
{
    if is_wave(b) {
        law_repair_touches_only_sizes(b);
        law_repaired_sizes_are_true(b);
        let s = sized(b);
        assert(is_wave(s)) by {
            lemma_data_chunk_at(b, 12);
        }
        law_repair_touches_only_sizes(s);
        law_repaired_sizes_are_true(s);
        let t = sized(s);
        lemma_field_bytes(s, t, 4);
        if let Some(at) = data_chunk(s, 12) {
            lemma_data_chunk_at(s, 12);
            lemma_field_bytes(s, t, at + 4);
        }
        assert(t =~= s);
    }
}

/// Equal fields hold equal bytes.
proof fn lemma_field_bytes(a: Seq<u8>, b: Seq<u8>, at: int)
    requires
        field(a, at) == field(b, at),
    ensures
        a[at] == b[at],
        a[at + 1] == b[at + 1],
        a[at + 2] == b[at + 2],
        a[at + 3] == b[at + 3],
{
}

// ---------------------------------------------------------------------------
// What the bytes mean
// ---------------------------------------------------------------------------

/// A WAVE file is told by the letters `RIFF` at its start and `WAVE` behind the size.
pub proof fn law_what_is_a_wave_file(b: Seq<u8>)
    ensures
        is_wave(b) <==> {
            &&& b.len() >= 12
            &&& b[0] as char == 'R' && b[1] as char == 'I' && b[2] as char == 'F' && b[3] as char
                == 'F'
            &&& b[8] as char == 'W' && b[9] as char == 'A' && b[10] as char == 'V' && b[11] as char
                == 'E'
        },
{
}

/// A size is written with its lowest byte first.
pub proof fn law_sizes_start_with_the_lowest_byte(b: Seq<u8>, at: int, n: int)
    requires
        0 <= at,
        at + 4 <= b.len(),
        0 <= n <= 0xffff_ffff,
    ensures
        field(b, at) == b[at] + 256 * (b[at + 1] + 256 * (b[at + 2] + 256 * b[at + 3])),
        field(with_field(b, at, n), at) == n,
        with_field(b, at, n).len() == b.len(),
        forall|k: int|
            0 <= k < b.len() && !(at <= k < at + 4) ==> with_field(b, at, n)[k] == #[trigger] b[k],
{
    lemma_field_roundtrip(b, at, n);
}

/// The `data` chunk is found by going from chunk to chunk: it is the one with the letters
/// `data`; any other chunk is passed over with its payload and the byte that makes its size
/// even; and there is none where the chunks end or run past the end first.
pub proof fn law_chunks_are_passed_over(b: Seq<u8>, at: int)
    requires
        at >= 0,
    ensures
        at + 8 > b.len() ==> data_chunk(b, at) is None,
        at + 8 <= b.len() ==> {
            let named = b[at] as char == 'd' && b[at + 1] as char == 'a' && b[at + 2] as char == 't'
                && b[at + 3] as char == 'a';
            let size = field(b, at + 4);
            let next = at + 8 + size + (if size % 2 == 1 {
                1int
            } else {
                0
            });
            &&& named ==> data_chunk(b, at) == Some(at)
            &&& !named && next <= b.len() ==> data_chunk(b, at) == data_chunk(b, next)
            &&& !named && next > b.len() ==> data_chunk(b, at) is None
        },
{
    if at + 8 <= b.len() {
        let size = field(b, at + 4);
        assert(size >= 0);
    }
}

/// The repaired sizes in numbers: what follows the RIFF size, and what follows the size of
/// the `data` chunk if that was the placeholder of a stream or more than is there, each as
/// far as four bytes can say it.
pub proof fn law_repaired_sizes_in_numbers(b: Seq<u8>)
    requires
        is_wave(b),
    ensures
        field(sized(b), 4) == (if b.len() - 8 <= 0xffff_ffff {
            b.len() - 8
        } else {
            0xffff_ffff
        }),
        data_chunk(b, 12) matches Some(at) ==> {
            let said = field(b, at + 4);
            let there = b.len() - at - 8;
            field(sized(b), at + 4) == (if said < 0xffff_ffff && said <= there {
                said
            } else if there <= 0xffff_ffff {
                there
            } else {
                0xffff_ffff
            })
        },
{
    law_repaired_sizes_are_true(b);
    lemma_data_chunk_at(b, 12);
}

} // verus!
