use vstd::prelude::*;

use crate::constants::{FEATURE_DIM, MAX_VECTORS_PER_REQUEST, REQUEST_HEADER_LEN};

verus! {

/// Result of attempting to parse a request from a byte buffer.
pub enum ParseResult {
    /// A whole request is present: its vector count and its length in bytes.
    Complete { num_vectors: u32, bytes_consumed: usize },
    /// More bytes are needed: at least this many.
    Incomplete(usize),
    /// The header holds a vector count out of range.
    Error(&'static str),
}

/// What a parse attempt decides, without the error text.
pub enum ParseView {
    Complete { num_vectors: nat, bytes_consumed: nat },
    Incomplete(nat),
    Error,
}

impl ParseResult {
    pub open spec fn view(&self) -> ParseView {
        match *self {
            ParseResult::Complete { num_vectors, bytes_consumed } => ParseView::Complete {
                num_vectors: num_vectors as nat,
                bytes_consumed: bytes_consumed as nat,
            },
            ParseResult::Incomplete(n) => ParseView::Incomplete(n as nat),
            ParseResult::Error(_) => ParseView::Error,
        }
    }
}

/// The little-endian `u32` held by four bytes.
pub open spec fn le_u32(b0: u8, b1: u8, b2: u8, b3: u8) -> u32 {
    ((b0 as u32) | ((b1 as u32) << 8u32) | ((b2 as u32) << 16u32) | ((b3 as u32) << 24u32)) as u32
}

/// The `k`-th little-endian byte of `x`, for `k` in `0..4`.
pub open spec fn le_byte(x: u32, k: int) -> u8 {
    if k == 0 {
        (x & 0xffu32) as u8
    } else if k == 1 {
        ((x >> 8u32) & 0xffu32) as u8
    } else if k == 2 {
        ((x >> 16u32) & 0xffu32) as u8
    } else {
        ((x >> 24u32) & 0xffu32) as u8
    }
}

/// The word stored little-endian at bytes `4 * i .. 4 * i + 4` of `b`.
pub open spec fn word_at(b: Seq<u8>, i: int) -> u32 {
    le_u32(b[4 * i], b[4 * i + 1], b[4 * i + 2], b[4 * i + 3])
}

/// Each word of `ws` as four little-endian bytes, one after the other.
pub open spec fn words_le(ws: Seq<u32>) -> Seq<u8> {
    Seq::new(4 * ws.len(), |j: int| le_byte(ws[j / 4], j % 4))
}

/// Length in bytes of a request that carries `n` vectors.
pub open spec fn request_len(n: int) -> int {
    REQUEST_HEADER_LEN + n * FEATURE_DIM * 4
}

/// The vector count in the header at the start of `buf` (four bytes or more).
pub open spec fn header_count(buf: Seq<u8>) -> u32 {
    le_u32(buf[0], buf[1], buf[2], buf[3])
}

/// Whether a vector count is allowed in a request.
pub open spec fn count_in_range(n: int) -> bool {
    1 <= n <= MAX_VECTORS_PER_REQUEST
}

/// What parsing the start of `buf` decides.
pub open spec fn parse_view(buf: Seq<u8>) -> ParseView {
    if buf.len() < REQUEST_HEADER_LEN {
        ParseView::Incomplete((REQUEST_HEADER_LEN - buf.len()) as nat)
    } else if !count_in_range(header_count(buf) as int) {
        ParseView::Error
    } else if buf.len() < request_len(header_count(buf) as int) {
        ParseView::Incomplete((request_len(header_count(buf) as int) - buf.len()) as nat)
    } else {
        ParseView::Complete {
            num_vectors: header_count(buf) as nat,
            bytes_consumed: request_len(header_count(buf) as int) as nat,
        }
    }
}

/// Reads the little-endian `u32` from four bytes.
pub fn u32_from_le(b0: u8, b1: u8, b2: u8, b3: u8) -> (r: u32)
    ensures
        r == le_u32(b0, b1, b2, b3),
{
    (b0 as u32) | ((b1 as u32) << 8u32) | ((b2 as u32) << 16u32) | ((b3 as u32) << 24u32)
}

/// Tries to parse one request from the start of `buf`: its vector count and its
/// length, how many more bytes are needed, or an error for a count out of range.
/// The features start at offset 4.
pub fn try_parse_request(buf: &[u8]) -> (r: ParseResult)
    ensures
        r@ == parse_view(buf@),
{
    if buf.len() < REQUEST_HEADER_LEN {
        return ParseResult::Incomplete(REQUEST_HEADER_LEN - buf.len());
    }
    let num_vectors = u32_from_le(buf[0], buf[1], buf[2], buf[3]);
    if num_vectors == 0 || num_vectors as usize > MAX_VECTORS_PER_REQUEST {
        return ParseResult::Error("num_vectors out of range");
    }
    let total_size = REQUEST_HEADER_LEN + num_vectors as usize * FEATURE_DIM * 4;
    if buf.len() < total_size {
        return ParseResult::Incomplete(total_size - buf.len());
    }
    ParseResult::Complete { num_vectors, bytes_consumed: total_size }
}


/// Splits `x` into its four little-endian bytes.
pub fn u32_to_le(x: u32) -> (r: [u8; 4])
    ensures
        r@ == seq![le_byte(x, 0), le_byte(x, 1), le_byte(x, 2), le_byte(x, 3)],
{
    [(x & 0xffu32) as u8, ((x >> 8u32) & 0xffu32) as u8, ((x >> 16u32) & 0xffu32) as u8, ((x >> 24u32) & 0xffu32) as u8]
}

/// Four little-endian bytes read back give the word they came from.
pub proof fn lemma_le_round_trip(x: u32)
    ensures
        le_u32(le_byte(x, 0), le_byte(x, 1), le_byte(x, 2), le_byte(x, 3)) == x,
{
    assert(((((x & 0xffu32) as u8) as u32) | (((((x >> 8u32) & 0xffu32) as u8) as u32) << 8u32)
        | (((((x >> 16u32) & 0xffu32) as u8) as u32) << 16u32) | (((((x >> 24u32) & 0xffu32) as u8) as u32) << 24u32)) == x)
        by (bit_vector);
}

/// The words encoded by `words_le` are read back by `word_at`.
pub proof fn lemma_words_le_word_at(ws: Seq<u32>, i: int)
    requires
        0 <= i < ws.len(),
    ensures
        words_le(ws).len() == 4 * ws.len(),
        word_at(words_le(ws), i) == ws[i],
{
    let b = words_le(ws);
    assert((4 * i) / 4 == i && (4 * i) % 4 == 0);
    assert((4 * i + 1) / 4 == i && (4 * i + 1) % 4 == 1);
    assert((4 * i + 2) / 4 == i && (4 * i + 2) % 4 == 2);
    assert((4 * i + 3) / 4 == i && (4 * i + 3) % 4 == 3);
    lemma_le_round_trip(ws[i]);
}

/// Decodes the features of a request: word `i` of `dst` becomes the
/// little-endian word at bytes `4 * i .. 4 * i + 4` of `src`, for each of the
/// `num_vectors * FEATURE_DIM` scalars; the rest of `dst` is left as it was.
pub fn copy_features(src: &[u8], dst: &mut Vec<u32>, num_vectors: u32)
    requires
        src@.len() >= 4 * (num_vectors * FEATURE_DIM),
        old(dst)@.len() >= num_vectors * FEATURE_DIM,
    ensures
        final(dst)@.len() == old(dst)@.len(),
        forall|i: int| 0 <= i < num_vectors * FEATURE_DIM ==> final(dst)@[i] == word_at(src@, i),
        forall|i: int| num_vectors * FEATURE_DIM <= i < old(dst)@.len() ==> final(dst)@[i] == old(dst)@[i],
{
    let dst_len = dst.len();
    let src_len = src.len();
    assert(num_vectors * FEATURE_DIM <= dst_len && 4 * (num_vectors * FEATURE_DIM) <= src_len);
    let count = num_vectors as usize * FEATURE_DIM;
    let mut i: usize = 0;
    while i < count
        invariant
            count == num_vectors * FEATURE_DIM,
            4 * count <= src_len == src@.len(),
            i <= count,
            src@.len() >= 4 * count,
            dst@.len() == old(dst)@.len(),
            dst@.len() >= count,
            forall|k: int| 0 <= k < i ==> dst@[k] == word_at(src@, k),
            forall|k: int| i <= k < dst@.len() ==> dst@[k] == old(dst)@[k],
        decreases count - i,
    {
        let offset = i * 4;
        dst[i] = u32_from_le(src[offset], src[offset + 1], src[offset + 2], src[offset + 3]);
        i += 1;
    }
}

/// Appends one response in wire form to `buf`: the vector count as one byte,
/// then the first `num_vectors` results as little-endian words.
pub fn write_response(buf: &mut Vec<u8>, num_vectors: u32, results: &[u32])
    requires
        num_vectors <= 255,
        num_vectors <= results@.len(),
    ensures
        final(buf)@ == old(buf)@ + response_bytes(num_vectors as u8, results@.subrange(0, num_vectors as int)),
{
    buf.push(num_vectors as u8);
    let ghost start = buf@;
    let mut i: usize = 0;
    while i < num_vectors as usize
        invariant
            i <= num_vectors <= results@.len(),
            buf@ == start + words_le(results@.subrange(0, i as int)),
        decreases num_vectors - i,
    {
        let bytes = u32_to_le(results[i]);
        buf.push(bytes[0]);
        buf.push(bytes[1]);
        buf.push(bytes[2]);
        buf.push(bytes[3]);
        proof {
            let ws = results@.subrange(0, i as int);
            let ws2 = results@.subrange(0, i + 1);
            assert(ws2 == ws.push(results@[i as int]));
            lemma_words_le_push(ws, results@[i as int]);
        }
        i += 1;
    }
    proof {
        assert(start == old(buf)@ + seq![num_vectors as u8]);
    }
}

/// One response on the wire: the count byte, then the results.
pub open spec fn response_bytes(num_vectors: u8, results: Seq<u32>) -> Seq<u8> {
    seq![num_vectors] + words_le(results)
}

/// A request on the wire: the count header, then the features.
pub open spec fn request_bytes(num_vectors: u32, features: Seq<u32>) -> Seq<u8> {
    seq![le_byte(num_vectors, 0), le_byte(num_vectors, 1), le_byte(num_vectors, 2), le_byte(num_vectors, 3)]
        + words_le(features)
}

/// Encoding one more word appends its four bytes.
pub proof fn lemma_words_le_push(ws: Seq<u32>, x: u32)
    ensures
        words_le(ws.push(x)) == words_le(ws) + seq![le_byte(x, 0), le_byte(x, 1), le_byte(x, 2), le_byte(x, 3)],
{
    let a = words_le(ws.push(x));
    let b = words_le(ws) + seq![le_byte(x, 0), le_byte(x, 1), le_byte(x, 2), le_byte(x, 3)];
    assert(a.len() == b.len());
    assert forall|j: int| 0 <= j < a.len() implies a[j] == b[j] by {
        if j < 4 * ws.len() {
            assert(j / 4 < ws.len()) by (nonlinear_arith)
                requires 0 <= j < 4 * ws.len();
        } else {
            assert(j / 4 == ws.len()) by (nonlinear_arith)
                requires 4 * ws.len() <= j < 4 * ws.len() + 4;
            assert(j % 4 == j - 4 * ws.len()) by (nonlinear_arith)
                requires 4 * ws.len() <= j < 4 * ws.len() + 4;
        }
    }
    assert(a =~= b);
}

/// Parsing a request that was encoded with a count in range and that many
/// vectors of features gives back the count and the whole length.
pub proof fn lemma_parse_round_trip(num_vectors: u32, features: Seq<u32>)
    requires
        count_in_range(num_vectors as int),
        features.len() == FEATURE_DIM * num_vectors,
    ensures
        parse_view(request_bytes(num_vectors, features)) == (ParseView::Complete {
            num_vectors: num_vectors as nat,
            bytes_consumed: (4 + 4 * FEATURE_DIM * num_vectors) as nat,
        }),
{
    let b = request_bytes(num_vectors, features);
    lemma_le_round_trip(num_vectors);
    assert(b[0] == le_byte(num_vectors, 0) && b[1] == le_byte(num_vectors, 1));
    assert(b[2] == le_byte(num_vectors, 2) && b[3] == le_byte(num_vectors, 3));
    assert(header_count(b) == num_vectors);
    assert(FEATURE_DIM == 16 && REQUEST_HEADER_LEN == 4);
    assert(b.len() >= REQUEST_HEADER_LEN);
    assert(count_in_range(header_count(b) as int));
    let n = num_vectors as int;
    assert(n * FEATURE_DIM * 4 == 4 * (FEATURE_DIM * n) && 4 * (FEATURE_DIM * n) == 4 * FEATURE_DIM * n)
        by (nonlinear_arith);
    assert(request_len(n) == 4 + 4 * FEATURE_DIM * num_vectors);
    assert(b.len() >= request_len(header_count(b) as int));
    assert(b.len() == 4 + 4 * features.len());
}

} // verus!
