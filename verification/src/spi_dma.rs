//! How the DMA SPI display interface cuts display data into DMA transfers.
//!
//! Slices are sent as one transfer through the DMA buffer; iterators are
//! streamed through two alternating buffers of [`DMA_BUFFER_SIZE`] bytes,
//! the first transfer cut to the remainder of the average length hint so
//! that the following ones are full buffers. Sending the transfers over the
//! bus is left to the driver.
use byte_slice_cast::AsByteSlice;
use vstd::prelude::*;

verus! {

/// The size of each DMA buffer, in bytes.
pub const DMA_BUFFER_SIZE: usize = 4096;

/// Display data as the display-interface crate hands it over, with each
/// iterator drained into a vector.
pub enum DisplayData {
    /// Bytes, sent as they are.
    U8(Vec<u8>),
    /// 16-bit words in the machine's own byte order.
    U16(Vec<u16>),
    /// 16-bit words, sent big-endian.
    U16BE(Vec<u16>),
    /// 16-bit words, sent little-endian.
    U16LE(Vec<u16>),
    /// A stream of bytes.
    U8Iter(Vec<u8>),
    /// A stream of 16-bit words, sent big-endian.
    U16BEIter(Vec<u16>),
    /// A stream of 16-bit words, sent little-endian.
    U16LEIter(Vec<u16>),
    /// A format that this interface does not send.
    Other,
}

/// Why display data could not be sent.
#[derive(Clone, Copy, Debug, PartialEq, Eq, Structural)]
pub enum TransferError {
    DataFormatNotImplemented,
}

/// The high byte of a word, then the low one.
pub open spec fn be_bytes(words: Seq<u16>) -> Seq<u8> {
    Seq::new(
        2 * words.len(),
        |i: int|
            if i % 2 == 0 {
                (words[i / 2] / 256) as u8
            } else {
                (words[i / 2] % 256) as u8
            },
    )
}

/// The low byte of a word, then the high one.
pub open spec fn le_bytes(words: Seq<u16>) -> Seq<u8> {
    Seq::new(
        2 * words.len(),
        |i: int|
            if i % 2 == 0 {
                (words[i / 2] % 256) as u8
            } else {
                (words[i / 2] / 256) as u8
            },
    )
}

/// The number of bytes that a buffer is filled to before it is sent, for
/// words of `w` bytes (1 or 2) and a target of `limit` bytes: whole words,
/// at least one, until `limit` is reached.
pub open spec fn want_len(limit: int, w: int) -> int {
    if limit <= 0 {
        w
    } else if w == 2 && limit % 2 == 1 {
        limit + 1
    } else {
        limit
    }
}

/// The length of the next transfer when `remaining` bytes are left.
pub open spec fn chunk_len(remaining: int, w: int, limit: int) -> int {
    if remaining < want_len(limit, w) {
        remaining
    } else {
        want_len(limit, w)
    }
}

/// The transfers that a stream is cut into: the first one filled towards
/// `limit`, every later one towards a full buffer.
pub open spec fn chunked(stream: Seq<u8>, w: int, limit: int) -> Seq<Seq<u8>>
    decreases stream.len(),
{
    if stream.len() == 0 || w < 1 {
        Seq::empty()
    } else {
        let c = chunk_len(stream.len() as int, w, limit);
        if c < 1 {
            Seq::empty()
        } else {
            seq![stream.take(c)] + chunked(stream.skip(c), w, DMA_BUFFER_SIZE as int)
        }
    }
}

/// The bytes of each transfer.
pub open spec fn transfers_view(t: Seq<Vec<u8>>) -> Seq<Seq<u8>> {
    t.map_values(|v: Vec<u8>| v@)
}

/// Reading a pair of bytes back gives the word: in big-endian order the
/// first byte times 256 plus the second, in little-endian order the other
/// way round.
pub proof fn lemma_word_bytes_round_trip(words: Seq<u16>, k: int)
    requires
        0 <= k < words.len(),
    ensures
        be_bytes(words)[2 * k] * 256 + be_bytes(words)[2 * k + 1] == words[k],
        le_bytes(words)[2 * k + 1] * 256 + le_bytes(words)[2 * k] == words[k],
{
    assert((2 * k) / 2 == k && (2 * k) % 2 == 0);
    assert((2 * k + 1) / 2 == k && (2 * k + 1) % 2 == 1);
    let w = words[k];
    assert((w / 256) as u8 == w / 256);
    assert((w % 256) as u8 == w % 256);
}

/// Cutting a stream into transfers loses, repeats and reorders nothing:
/// joined, the transfers give back the stream. None is empty and none is
/// larger than a buffer.
pub proof fn lemma_chunked_rejoins(stream: Seq<u8>, w: int, limit: int)
    requires
        w == 1 || w == 2,
        w == 2 ==> stream.len() % 2 == 0,
        limit <= DMA_BUFFER_SIZE,
    ensures
        chunked(stream, w, limit).flatten() == stream,
        forall|i: int|
            0 <= i < chunked(stream, w, limit).len() ==> 1 <= (#[trigger] chunked(stream, w, limit)[i]).len()
                <= DMA_BUFFER_SIZE,
    decreases stream.len(),
{
    let ch = chunked(stream, w, limit);
    if stream.len() > 0 {
        let c = chunk_len(stream.len() as int, w, limit);
        let rest = stream.skip(c);
        lemma_chunked_rejoins(rest, w, DMA_BUFFER_SIZE as int);
        let tail = chunked(rest, w, DMA_BUFFER_SIZE as int);
        assert(ch == seq![stream.take(c)] + tail);
        assert(ch.first() == stream.take(c));
        assert(ch.drop_first() =~= tail);
        assert(stream.take(c) + rest =~= stream);
        assert forall|i: int| 0 <= i < ch.len() implies 1 <= (#[trigger] ch[i]).len() <= DMA_BUFFER_SIZE by {
            if i > 0 {
                assert(ch[i] == tail[i - 1]);
            }
        }
    } else {
        assert(ch =~= Seq::<Seq<u8>>::empty());
    }
}

/// Every transfer of a stream cut towards full buffers, but the last one,
/// fills a whole buffer.
proof fn lemma_chunked_full(stream: Seq<u8>, w: int)
    requires
        w == 1 || w == 2,
        w == 2 ==> stream.len() % 2 == 0,
    ensures
        forall|i: int|
            0 <= i < chunked(stream, w, DMA_BUFFER_SIZE as int).len() - 1 ==> (#[trigger] chunked(
                stream,
                w,
                DMA_BUFFER_SIZE as int,
            )[i]).len() == DMA_BUFFER_SIZE,
    decreases stream.len(),
{
    let ch = chunked(stream, w, DMA_BUFFER_SIZE as int);
    if stream.len() > 0 {
        let c = chunk_len(stream.len() as int, w, DMA_BUFFER_SIZE as int);
        let rest = stream.skip(c);
        lemma_chunked_full(rest, w);
        let tail = chunked(rest, w, DMA_BUFFER_SIZE as int);
        assert(ch == seq![stream.take(c)] + tail);
        assert forall|i: int| 0 <= i < ch.len() - 1 implies (#[trigger] ch[i]).len() == DMA_BUFFER_SIZE by {
            if i == 0 {
                if c < DMA_BUFFER_SIZE {
                    assert(rest.len() == 0);
                    assert(tail =~= Seq::<Seq<u8>>::empty());
                }
            } else {
                assert(ch[i] == tail[i - 1]);
            }
        }
    }
}

/// After the first transfer of a stream, every transfer but the last fills
/// a whole buffer.
pub proof fn lemma_chunked_full_buffers(stream: Seq<u8>, w: int, limit: int)
    requires
        w == 1 || w == 2,
        w == 2 ==> stream.len() % 2 == 0,
        limit <= DMA_BUFFER_SIZE,
    ensures
        forall|i: int|
            1 <= i < chunked(stream, w, limit).len() - 1 ==> (#[trigger] chunked(stream, w, limit)[i]).len()
                == DMA_BUFFER_SIZE,
{
    let ch = chunked(stream, w, limit);
    if stream.len() > 0 {
        let c = chunk_len(stream.len() as int, w, limit);
        let rest = stream.skip(c);
        lemma_chunked_full(rest, w);
        let tail = chunked(rest, w, DMA_BUFFER_SIZE as int);
        assert(ch == seq![stream.take(c)] + tail);
        assert forall|i: int| 1 <= i < ch.len() - 1 implies (#[trigger] ch[i]).len() == DMA_BUFFER_SIZE by {
            assert(ch[i] == tail[i - 1]);
        }
    }
}

/// The target of the first streamed transfer: what is left of the average
/// length hint after whole buffers.
pub fn first_chunk_target(avg_data_len_hint: usize) -> (r: usize)
    ensures
        r == avg_data_len_hint % DMA_BUFFER_SIZE,
        r < DMA_BUFFER_SIZE,
{
    avg_data_len_hint - (avg_data_len_hint / DMA_BUFFER_SIZE) * DMA_BUFFER_SIZE
}

/// Each word as its high byte, then its low byte.
pub fn encode_be(words: &Vec<u16>) -> (r: Vec<u8>)
    requires
        words@.len() * 2 <= usize::MAX,
    ensures
        r@ == be_bytes(words@),
{
    let mut out: Vec<u8> = Vec::new();
    let mut k: usize = 0;
    while k < words.len()
        invariant
            k <= words@.len(),
            out@.len() == 2 * k,
            forall|i: int|
                0 <= i < 2 * k ==> #[trigger] out@[i] == if i % 2 == 0 {
                    (words@[i / 2] / 256) as u8
                } else {
                    (words@[i / 2] % 256) as u8
                },
        decreases words@.len() - k,
    {
        let w = words[k];
        out.push((w / 256) as u8);
        out.push((w % 256) as u8);
        k += 1;
    }
    assert(out@ =~= be_bytes(words@));
    out
}

/// Each word as its low byte, then its high byte.
pub fn encode_le(words: &Vec<u16>) -> (r: Vec<u8>)
    requires
        words@.len() * 2 <= usize::MAX,
    ensures
        r@ == le_bytes(words@),
{
    let mut out: Vec<u8> = Vec::new();
    let mut k: usize = 0;
    while k < words.len()
        invariant
            k <= words@.len(),
            out@.len() == 2 * k,
            forall|i: int|
                0 <= i < 2 * k ==> #[trigger] out@[i] == if i % 2 == 0 {
                    (words@[i / 2] % 256) as u8
                } else {
                    (words@[i / 2] / 256) as u8
                },
        decreases words@.len() - k,
    {
        let w = words[k];
        out.push((w % 256) as u8);
        out.push((w / 256) as u8);
        k += 1;
    }
    assert(out@ =~= le_bytes(words@));
    out
}

/// `AsByteSlice::as_byte_slice` on 16-bit words: their bytes as they lie in
/// memory, two per word, all in the machine's byte order: the big-endian
/// bytes of the words on a big-endian machine, the little-endian bytes on a
/// little-endian one (which machine is not stated).
#[verifier::external_body]
fn native_bytes(words: &[u16]) -> (r: Vec<u8>)
    ensures
        r@ == be_bytes(words@) || r@ == le_bytes(words@),
{
    words.as_byte_slice().to_vec()
}

/// Cut a stream of `word_len`-byte words into DMA transfers: a buffer is
/// filled word by word and sent once it holds `first_limit` bytes (at least
/// one word) or the stream ends; every later buffer is filled to
/// [`DMA_BUFFER_SIZE`]. No transfer is empty, and none is larger than a
/// buffer.
pub fn split_transfers(stream: &Vec<u8>, word_len: usize, first_limit: usize) -> (r: Vec<Vec<u8>>)
    requires
        word_len == 1 || word_len == 2,
        word_len == 2 ==> stream@.len() % 2 == 0,
        first_limit <= DMA_BUFFER_SIZE,
    ensures
        transfers_view(r@) == chunked(stream@, word_len as int, first_limit as int),
        forall|i: int| 0 <= i < r@.len() ==> 1 <= (#[trigger] r@[i])@.len() <= DMA_BUFFER_SIZE,
{
    let n = stream.len();
    let w = word_len;
    let mut r: Vec<Vec<u8>> = Vec::new();
    let mut pos: usize = 0;
    let mut limit: usize = first_limit;
    assert(stream@.skip(0) =~= stream@);
    while pos < n
        invariant
            w == word_len,
            w == 1 || w == 2,
            n == stream@.len(),
            w == 2 ==> n % 2 == 0,
            w == 2 ==> pos % 2 == 0,
            pos <= n,
            limit <= DMA_BUFFER_SIZE,
            transfers_view(r@) + chunked(stream@.skip(pos as int), w as int, limit as int) == chunked(
                stream@,
                w as int,
                first_limit as int,
            ),
            forall|i: int| 0 <= i < r@.len() ==> 1 <= (#[trigger] r@[i])@.len() <= DMA_BUFFER_SIZE,
        decreases n - pos,
    {
        let mut chunk: Vec<u8> = Vec::new();
        let mut idx: usize = 0;
        while pos + idx < n && (idx == 0 || idx < limit)
            invariant
                w == 1 || w == 2,
                n == stream@.len(),
                w == 2 ==> n % 2 == 0,
                w == 2 ==> pos % 2 == 0,
                w == 2 ==> idx % 2 == 0,
                pos < n,
                pos + idx <= n,
                limit <= DMA_BUFFER_SIZE,
                idx <= want_len(limit as int, w as int),
                chunk@ == stream@.subrange(pos as int, pos + idx),
            decreases n - pos - idx,
        {
            chunk.push(stream[pos + idx]);
            if w == 2 {
                chunk.push(stream[pos + idx + 1]);
            }
            idx += w;
            assert(chunk@ =~= stream@.subrange(pos as int, pos + idx));
        }
        let ghost rest = stream@.skip(pos as int);
        proof {
            assert(idx == chunk_len(rest.len() as int, w as int, limit as int));
            assert(rest.take(idx as int) =~= chunk@);
            assert(rest.skip(idx as int) =~= stream@.skip(pos + idx));
            assert(chunked(rest, w as int, limit as int) == seq![rest.take(idx as int)] + chunked(
                rest.skip(idx as int),
                w as int,
                DMA_BUFFER_SIZE as int,
            ));
        }
        let ghost before = r@;
        r.push(chunk);
        proof {
            assert(transfers_view(r@) =~= transfers_view(before).push(chunk@));
            assert(transfers_view(r@) + chunked(stream@.skip(pos + idx), w as int, DMA_BUFFER_SIZE as int)
                =~= transfers_view(before) + chunked(rest, w as int, limit as int));
        }
        pos += idx;
        limit = DMA_BUFFER_SIZE;
    }
    proof {
        assert(stream@.skip(pos as int).len() == 0);
        assert(transfers_view(r@) + Seq::<Seq<u8>>::empty() =~= transfers_view(r@));
    }
    r
}

/// The DMA transfers that sending `data` makes: a slice goes out whole in
/// one transfer (16-bit words two bytes each, in the order that the format
/// names); a stream is cut by [`split_transfers`], its first transfer
/// towards what is left of `avg_data_len_hint` after whole buffers. Any
/// other format is refused.
pub fn plan_transfers(data: &DisplayData, avg_data_len_hint: usize) -> (r: Result<Vec<Vec<u8>>, TransferError>)
    requires
        data matches DisplayData::U8(v) ==> v@.len() <= DMA_BUFFER_SIZE,
        data matches DisplayData::U16(v) ==> v@.len() * 2 <= DMA_BUFFER_SIZE,
        data matches DisplayData::U16BE(v) ==> v@.len() * 2 <= DMA_BUFFER_SIZE,
        data matches DisplayData::U16LE(v) ==> v@.len() * 2 <= DMA_BUFFER_SIZE,
        data matches DisplayData::U16BEIter(v) ==> v@.len() * 2 <= usize::MAX,
        data matches DisplayData::U16LEIter(v) ==> v@.len() * 2 <= usize::MAX,
    ensures
        ({
            let first = (avg_data_len_hint % DMA_BUFFER_SIZE) as int;
            match *data {
                DisplayData::U8(v) => r matches Ok(t) && transfers_view(t@) == seq![v@],
                DisplayData::U16(v) => r matches Ok(t) && t@.len() == 1 && (t@[0]@ == be_bytes(v@) || t@[0]@ == le_bytes(
                    v@,
                )),
                DisplayData::U16BE(v) => r matches Ok(t) && transfers_view(t@) == seq![be_bytes(v@)],
                DisplayData::U16LE(v) => r matches Ok(t) && transfers_view(t@) == seq![le_bytes(v@)],
                DisplayData::U8Iter(v) => r matches Ok(t) && transfers_view(t@) == chunked(v@, 1, first),
                DisplayData::U16BEIter(v) => r matches Ok(t) && transfers_view(t@) == chunked(be_bytes(v@), 2, first),
                DisplayData::U16LEIter(v) => r matches Ok(t) && transfers_view(t@) == chunked(le_bytes(v@), 2, first),
                DisplayData::Other => r == Err::<Vec<Vec<u8>>, TransferError>(TransferError::DataFormatNotImplemented),
            }
        }),
{
    match data {
        DisplayData::U8(v) => {
            let mut t: Vec<Vec<u8>> = Vec::new();
            t.push(v.clone());
            assert(transfers_view(t@) =~= seq![v@]);
            Ok(t)
        },
        DisplayData::U16(v) => {
            let mut t: Vec<Vec<u8>> = Vec::new();
            t.push(native_bytes(v.as_slice()));
            Ok(t)
        },
        DisplayData::U16BE(v) => {
            let mut t: Vec<Vec<u8>> = Vec::new();
            t.push(encode_be(v));
            assert(transfers_view(t@) =~= seq![be_bytes(v@)]);
            Ok(t)
        },
        DisplayData::U16LE(v) => {
            let mut t: Vec<Vec<u8>> = Vec::new();
            t.push(encode_le(v));
            assert(transfers_view(t@) =~= seq![le_bytes(v@)]);
            Ok(t)
        },
        DisplayData::U8Iter(v) => Ok(split_transfers(v, 1, first_chunk_target(avg_data_len_hint))),
        DisplayData::U16BEIter(v) => {
            let bytes = encode_be(v);
            Ok(split_transfers(&bytes, 2, first_chunk_target(avg_data_len_hint)))
        },
        DisplayData::U16LEIter(v) => {
            let bytes = encode_le(v);
            Ok(split_transfers(&bytes, 2, first_chunk_target(avg_data_len_hint)))
        },
        DisplayData::Other => Err(TransferError::DataFormatNotImplemented),
    }
}

} // verus!
