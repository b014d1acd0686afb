//! The framing encoder: a byte string becomes a sequence of records.

use vstd::prelude::*;
use vstd::slice::slice_subrange;
use vstd::slice::slice_to_vec;
use vstd::utf8::encode_utf8;

verus! {

/// The largest payload of one data record, in bytes.
pub const CHUNK_BYTES: usize = 255;

/// The amount by which the address base grows from one segment to the next.
pub const BASE_STEP: u64 = 5;

/// One framing record.
#[derive(Debug, PartialEq, Eq)]
pub enum Frame {
    /// A new address base for the data records that follow.
    ExtendedAddress(u64),
    /// One chunk of the result.
    Data { offset: u16, payload: Vec<u8> },
    /// The end of the response.
    EndOfFile,
}

/// What a record says, as mathematics.
pub enum FrameModel {
    ExtendedAddress(nat),
    Data { offset: nat, payload: Seq<u8> },
    EndOfFile,
}

impl View for Frame {
    type V = FrameModel;

    open spec fn view(&self) -> FrameModel {
        match *self {
            Frame::ExtendedAddress(base) => FrameModel::ExtendedAddress(base as nat),
            Frame::Data { offset, payload } => FrameModel::Data {
                offset: offset as nat,
                payload: payload@,
            },
            Frame::EndOfFile => FrameModel::EndOfFile,
        }
    }
}

/// The models of a sequence of records, in order.
pub open spec fn models(records: Seq<Frame>) -> Seq<FrameModel> {
    records.map_values(|f: Frame| f@)
}

/// The number of chunks that `len` bytes are split into.
pub open spec fn chunk_count(len: nat) -> nat {
    (len + 254) / 255
}

/// The `k`-th chunk of `bytes`: 255 bytes, or what is left of them.
pub open spec fn chunk(bytes: Seq<u8>, k: nat) -> Seq<u8> {
    let start = 255 * (k as int);
    let end = if start + 255 <= bytes.len() {
        start + 255
    } else {
        bytes.len() as int
    };
    bytes.subrange(start, end)
}

/// The records that the `k`-th chunk gives rise to: its data record, and
/// before it an address record where a new segment begins.
pub open spec fn chunk_frames(bytes: Seq<u8>, k: nat) -> Seq<FrameModel> {
    let data = FrameModel::Data { offset: 255 * (k % 256), payload: chunk(bytes, k) };
    if k > 0 && k % 256 == 0 {
        seq![FrameModel::ExtendedAddress(5 * (k / 256)), data]
    } else {
        seq![data]
    }
}

/// The records of the first `n` chunks of `bytes`.
pub open spec fn frames_of_chunks(bytes: Seq<u8>, n: nat) -> Seq<FrameModel>
    decreases n,
{
    if n == 0 {
        Seq::empty()
    } else {
        frames_of_chunks(bytes, (n - 1) as nat) + chunk_frames(bytes, (n - 1) as nat)
    }
}

/// The record sequence of `bytes`: the records of all its chunks, then the
/// terminator.
pub open spec fn frames(bytes: Seq<u8>) -> Seq<FrameModel> {
    frames_of_chunks(bytes, chunk_count(bytes.len())) + seq![FrameModel::EndOfFile]
}

/// The payload bytes of the data records of `records`, joined in order.
pub open spec fn payloads(records: Seq<FrameModel>) -> Seq<u8>
    decreases records.len(),
{
    if records.len() == 0 {
        Seq::empty()
    } else {
        let front = payloads(records.drop_last());
        match records.last() {
            FrameModel::Data { payload, .. } => front + payload,
            _ => front,
        }
    }
}

/// The data records of `records`, in order.
pub open spec fn data_records(records: Seq<FrameModel>) -> Seq<FrameModel>
    decreases records.len(),
{
    if records.len() == 0 {
        Seq::empty()
    } else {
        let front = data_records(records.drop_last());
        if records.last() is Data {
            front.push(records.last())
        } else {
            front
        }
    }
}

/// A record sequence that is fit to be sent: it ends in the one terminator
/// it holds, and each data record carries between 1 and 255 bytes at an
/// offset of 16 bits.
pub open spec fn well_formed(records: Seq<FrameModel>) -> bool {
    &&& records.len() > 0
    &&& records.last() is EndOfFile
    &&& forall|i: int| 0 <= i < records.len() - 1 ==> !(#[trigger] records[i] is EndOfFile)
    &&& forall|i: int|
        0 <= i < records.len() ==> (#[trigger] records[i] matches FrameModel::Data {
            offset,
            payload,
        } ==> 1 <= payload.len() <= 255 && offset <= 0xFFFF)
}

/// The largest address base among `records` is at most `bound`.
pub open spec fn bases_within(records: Seq<FrameModel>, bound: nat) -> bool {
    forall|i: int|
        0 <= i < records.len() ==> (#[trigger] records[i] matches FrameModel::ExtendedAddress(
            base,
        ) ==> base <= bound)
}

/// The number of bytes that the first `n` chunks of `bytes` hold.
pub open spec fn covered(bytes: Seq<u8>, n: nat) -> int {
    if 255 * (n as int) <= bytes.len() {
        255 * (n as int)
    } else {
        bytes.len() as int
    }
}

proof fn lemma_payloads_concat(a: Seq<FrameModel>, b: Seq<FrameModel>)
    ensures
        payloads(a + b) == payloads(a) + payloads(b),
    decreases b.len(),
{
    if b.len() == 0 {
        assert(a + b =~= a);
        assert(payloads(a) + payloads(b) =~= payloads(a));
    } else {
        assert((a + b).drop_last() =~= a + b.drop_last());
        assert((a + b).last() == b.last());
        lemma_payloads_concat(a, b.drop_last());
        assert(payloads(a) + (payloads(b.drop_last()) + b.last()->payload) =~= (payloads(a)
            + payloads(b.drop_last())) + b.last()->payload);
    }
}

proof fn lemma_payloads_single(f: FrameModel)
    ensures
        payloads(seq![f]) == match f {
            FrameModel::Data { payload, .. } => payload,
            _ => Seq::empty(),
        },
{
    reveal_with_fuel(payloads, 2);
    let one = seq![f];
    assert(one.drop_last() =~= Seq::<FrameModel>::empty());
    assert(payloads(one.drop_last()) =~= Seq::<u8>::empty());
    match f {
        FrameModel::Data { payload, .. } => {
            assert(Seq::<u8>::empty() + payload =~= payload);
        },
        _ => {},
    }
}

proof fn lemma_payloads_of_chunk(bytes: Seq<u8>, k: nat)
    ensures
        payloads(chunk_frames(bytes, k)) == chunk(bytes, k),
{
    let data = FrameModel::Data { offset: 255 * (k % 256), payload: chunk(bytes, k) };
    lemma_payloads_single(data);
    if k > 0 && k % 256 == 0 {
        let base = FrameModel::ExtendedAddress(5 * (k / 256));
        lemma_payloads_single(base);
        assert(chunk_frames(bytes, k) =~= seq![base] + seq![data]);
        lemma_payloads_concat(seq![base], seq![data]);
        assert(Seq::<u8>::empty() + chunk(bytes, k) =~= chunk(bytes, k));
    }
}

proof fn lemma_payloads_of_chunks(bytes: Seq<u8>, n: nat)
    requires
        n <= chunk_count(bytes.len()),
    ensures
        payloads(frames_of_chunks(bytes, n)) == bytes.subrange(0, covered(bytes, n)),
    decreases n,
{
    if n == 0 {
        assert(payloads(frames_of_chunks(bytes, 0)) =~= bytes.subrange(0, 0));
    } else {
        let m = (n - 1) as nat;
        lemma_payloads_of_chunks(bytes, m);
        lemma_payloads_of_chunk(bytes, m);
        lemma_payloads_concat(frames_of_chunks(bytes, m), chunk_frames(bytes, m));
        assert(bytes.subrange(0, covered(bytes, m)) + chunk(bytes, m) =~= bytes.subrange(
            0,
            covered(bytes, n),
        ));
    }
}

/// Nothing is lost and nothing is added: the payloads of the data records,
/// joined in the order of the records, are the bytes that were encoded.
pub proof fn lemma_lossless(bytes: Seq<u8>)
    ensures
        payloads(frames(bytes)) == bytes,
{
    let n = chunk_count(bytes.len());
    let body = frames_of_chunks(bytes, n);
    let tail = seq![FrameModel::EndOfFile];
    lemma_payloads_of_chunks(bytes, n);
    lemma_payloads_concat(body, tail);
    lemma_payloads_single(FrameModel::EndOfFile);
    assert(bytes.subrange(0, bytes.len() as int) =~= bytes);
    assert(payloads(body) + payloads(tail) =~= bytes);
}

/// The empty byte string is encoded as the terminator alone.
pub proof fn lemma_empty(bytes: Seq<u8>)
    requires
        bytes.len() == 0,
    ensures
        frames(bytes) == seq![FrameModel::EndOfFile],
{
    assert(frames(bytes) =~= seq![FrameModel::EndOfFile]);
}

/// Between 1 and 255 bytes are encoded as one data record at offset 0 that
/// carries them all, and the terminator.
pub proof fn lemma_single_chunk(bytes: Seq<u8>)
    requires
        1 <= bytes.len() <= 255,
    ensures
        frames(bytes) == seq![
            FrameModel::Data { offset: 0, payload: bytes },
            FrameModel::EndOfFile,
        ],
{
    reveal_with_fuel(frames_of_chunks, 2);
    assert(chunk(bytes, 0) =~= bytes);
    assert(frames(bytes) =~= seq![
        FrameModel::Data { offset: 0, payload: bytes },
        FrameModel::EndOfFile,
    ]);
}

/// Between 256 and 510 bytes (300, say) are encoded as two data records and
/// the terminator, with no address record: the first 255 bytes at offset 0,
/// the others at offset 255.
pub proof fn lemma_two_chunks(bytes: Seq<u8>)
    requires
        255 < bytes.len() <= 510,
    ensures
        frames(bytes) == seq![
            FrameModel::Data { offset: 0, payload: bytes.subrange(0, 255) },
            FrameModel::Data { offset: 255, payload: bytes.subrange(255, bytes.len() as int) },
            FrameModel::EndOfFile,
        ],
{
    reveal_with_fuel(frames_of_chunks, 3);
    assert(chunk(bytes, 0) =~= bytes.subrange(0, 255));
    assert(chunk(bytes, 1) =~= bytes.subrange(255, bytes.len() as int));
    assert(frames(bytes) =~= seq![
        FrameModel::Data { offset: 0, payload: bytes.subrange(0, 255) },
        FrameModel::Data { offset: 255, payload: bytes.subrange(255, bytes.len() as int) },
        FrameModel::EndOfFile,
    ]);
}

proof fn lemma_data_records_concat(a: Seq<FrameModel>, b: Seq<FrameModel>)
    ensures
        data_records(a + b) == data_records(a) + data_records(b),
    decreases b.len(),
{
    if b.len() == 0 {
        assert(a + b =~= a);
        assert(data_records(a) + data_records(b) =~= data_records(a));
    } else {
        assert((a + b).drop_last() =~= a + b.drop_last());
        assert((a + b).last() == b.last());
        lemma_data_records_concat(a, b.drop_last());
        assert(data_records(a) + data_records(b.drop_last()).push(b.last()) =~= (data_records(a)
            + data_records(b.drop_last())).push(b.last()));
    }
}

proof fn lemma_data_records_single(f: FrameModel)
    ensures
        data_records(seq![f]) == if f is Data {
            seq![f]
        } else {
            Seq::empty()
        },
{
    reveal_with_fuel(data_records, 2);
    let one = seq![f];
    assert(one.drop_last() =~= Seq::<FrameModel>::empty());
    assert(data_records(one.drop_last()) =~= Seq::<FrameModel>::empty());
    assert(Seq::<FrameModel>::empty().push(f) =~= seq![f]);
}

proof fn lemma_data_records_of_chunks(bytes: Seq<u8>, n: nat)
    ensures
        data_records(frames_of_chunks(bytes, n)).len() == n,
        forall|k: int|
            0 <= k < n ==> #[trigger] data_records(frames_of_chunks(bytes, n))[k]
                == (FrameModel::Data {
                offset: (255 * (k % 256)) as nat,
                payload: chunk(bytes, k as nat),
            }),
    decreases n,
{
    if n > 0 {
        let m = (n - 1) as nat;
        let data = FrameModel::Data { offset: 255 * (m % 256), payload: chunk(bytes, m) };
        lemma_data_records_of_chunks(bytes, m);
        lemma_data_records_concat(frames_of_chunks(bytes, m), chunk_frames(bytes, m));
        lemma_data_records_single(data);
        if m > 0 && m % 256 == 0 {
            let base = FrameModel::ExtendedAddress(5 * (m / 256));
            lemma_data_records_single(base);
            assert(chunk_frames(bytes, m) =~= seq![base] + seq![data]);
            lemma_data_records_concat(seq![base], seq![data]);
            assert(Seq::<FrameModel>::empty() + seq![data] =~= seq![data]);
        }
        assert(data_records(chunk_frames(bytes, m)) == seq![data]);
    }
}

/// There is one data record for each chunk, in the order of the chunks.  The
/// record of chunk `k` carries that chunk, at the offset that its place in
/// its segment of 256 chunks gives it.
pub proof fn lemma_data_records(bytes: Seq<u8>)
    ensures
        data_records(frames(bytes)).len() == chunk_count(bytes.len()),
        forall|k: int|
            0 <= k < chunk_count(bytes.len()) ==> #[trigger] data_records(frames(bytes))[k]
                == (FrameModel::Data {
                offset: (255 * (k % 256)) as nat,
                payload: chunk(bytes, k as nat),
            }),
{
    let n = chunk_count(bytes.len());
    let body = frames_of_chunks(bytes, n);
    lemma_data_records_of_chunks(bytes, n);
    lemma_data_records_concat(body, seq![FrameModel::EndOfFile]);
    lemma_data_records_single(FrameModel::EndOfFile);
    assert(data_records(body) + Seq::<FrameModel>::empty() =~= data_records(body));
}

/// From one data record to the next the offset grows by one chunk, that is
/// by 255, unless the next record is the first of a new segment.
pub proof fn lemma_offsets_step(bytes: Seq<u8>, k: nat)
    requires
        k + 1 < chunk_count(bytes.len()),
        (k + 1) % 256 != 0,
    ensures
        data_records(frames(bytes))[k as int + 1]->offset == data_records(
            frames(bytes),
        )[k as int]->offset
            + 255,
{
    lemma_data_records(bytes);
    let records = data_records(frames(bytes));
    assert(records[k as int]->offset == 255 * (k % 256));
    assert(records[k as int + 1]->offset == 255 * ((k + 1) % 256));
}

proof fn lemma_chunks_well_formed(bytes: Seq<u8>, n: nat)
    requires
        n <= chunk_count(bytes.len()),
    ensures
        forall|i: int|
            0 <= i < frames_of_chunks(bytes, n).len() ==> match #[trigger] frames_of_chunks(
                bytes,
                n,
            )[i] {
                FrameModel::Data { offset, payload } => 1 <= payload.len() <= 255 && offset
                    <= 65025,
                FrameModel::ExtendedAddress(base) => n > 0 && base <= 5 * ((n - 1) / 256),
                FrameModel::EndOfFile => false,
            },
    decreases n,
{
    if n > 0 {
        let m = (n - 1) as nat;
        lemma_chunks_well_formed(bytes, m);
        let front = frames_of_chunks(bytes, m);
        let back = chunk_frames(bytes, m);
        assert forall|i: int| 0 <= i < (front + back).len() implies match #[trigger] (front
            + back)[i] {
            FrameModel::Data { offset, payload } => 1 <= payload.len() <= 255 && offset <= 65025,
            FrameModel::ExtendedAddress(base) => base <= 5 * (m / 256),
            FrameModel::EndOfFile => false,
        } by {
            if i < front.len() {
                assert((front + back)[i] == front[i]);
            } else {
                assert((front + back)[i] == back[i - front.len()]);
            }
        }
    }
}

/// What is encoded is fit to be sent, and its address bases stay within
/// five times the number of segments begun after the first.
pub proof fn lemma_frames_well_formed(bytes: Seq<u8>)
    ensures
        well_formed(frames(bytes)),
        bases_within(frames(bytes), 5 * (chunk_count(bytes.len()) / 256)),
{
    let n = chunk_count(bytes.len());
    let body = frames_of_chunks(bytes, n);
    let all = frames(bytes);
    lemma_chunks_well_formed(bytes, n);
    assert forall|i: int| 0 <= i < all.len() - 1 implies all[i] == #[trigger] body[i] by {}
    assert(all.last() == FrameModel::EndOfFile);
    assert forall|i: int| 0 <= i < all.len() - 1 implies !(#[trigger] all[i] is EndOfFile) by {
        assert(all[i] == body[i]);
    }
    assert forall|i: int| 0 <= i < all.len() implies (#[trigger] all[i] matches FrameModel::Data {
        offset,
        payload,
    } ==> 1 <= payload.len() <= 255 && offset <= 0xFFFF) by {
        if i < all.len() - 1 {
            assert(all[i] == body[i]);
        }
    }
    assert forall|i: int| 0 <= i < all.len() implies (
    #[trigger] all[i] matches FrameModel::ExtendedAddress(base) ==> base <= 5 * (n / 256)) by {
        if i < all.len() - 1 {
            assert(all[i] == body[i]);
        }
    }
}

/// Splits `bytes` into records.  Each run of 255 bytes, and what is left
/// at the end, goes into a data record; the offsets of the data records
/// count up in steps of 255.  After 256 data records the count starts again
/// at 0, behind an address record whose base is 5 more than the last.  The
/// terminator closes the sequence.
pub fn encode_bytes(bytes: &[u8]) -> (records: Vec<Frame>)
    ensures
        models(records@) == frames(bytes@),
{
    let len = bytes.len();
    let mut records: Vec<Frame> = Vec::new();
    let mut chunk_offset: u16 = 0;
    let mut address_base: u64 = 0;
    let mut start: usize = 0;
    let ghost mut k: nat = 0;
    assert(models(records@) =~= frames_of_chunks(bytes@, 0));
    while start < len
        invariant
            len == bytes@.len(),
            start <= len,
            start == 255 * k || (start == len && 255 * k >= len),
            k > 0 ==> 255 * (k - 1) < len,
            k == 0 ==> chunk_offset == 0 && address_base == 0,
            k > 0 ==> chunk_offset == (k - 1) % 256 + 1 && address_base == 5 * ((k - 1) / 256),
            models(records@) == frames_of_chunks(bytes@, k),
        decreases len - start,
    {
        let ghost before = records@;
        if chunk_offset > 255 {
            chunk_offset = 0;
            address_base = address_base + BASE_STEP;
            records.push(Frame::ExtendedAddress(address_base));
        }
        let end: usize = if len - start > CHUNK_BYTES {
            start + CHUNK_BYTES
        } else {
            len
        };
        let payload = slice_to_vec(slice_subrange(bytes, start, end));
        records.push(Frame::Data { offset: chunk_offset * 255, payload });
        proof {
            assert(payload@ == chunk(bytes@, k));
            assert(chunk_offset == k % 256);
            assert(address_base == 5 * (k / 256));
            assert(models(records@) =~= models(before) + chunk_frames(bytes@, k));
        }
        chunk_offset = chunk_offset + 1;
        start = end;
        proof {
            k = k + 1;
        }
    }
    records.push(Frame::EndOfFile);
    proof {
        assert(k == chunk_count(len as nat));
        assert(models(records@) =~= frames_of_chunks(bytes@, k) + seq![FrameModel::EndOfFile]);
    }
    records
}

/// Splits the UTF-8 bytes of `text` into records.
pub fn encode(text: &str) -> (records: Vec<Frame>)
    ensures
        models(records@) == frames(encode_utf8(text@)),
{
    encode_bytes(text.as_bytes())
}

} // verus!
