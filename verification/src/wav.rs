//! WAV files with 16-bit samples.

use crate::audio::{pcm_samples, samples_of};
use vstd::prelude::*;
use vstd::slice::slice_subrange;

verus! {

/// How long the header of a file is.
pub const HEADER_LEN: usize = 44;

/// The two bytes of a number, the low one first.
pub open spec fn le16(n: int) -> Seq<u8> {
    seq![(n % 256) as u8, (n / 256 % 256) as u8]
}

/// The four bytes of a number, the lowest one first.
pub open spec fn le32(n: int) -> Seq<u8> {
    seq![
        (n % 256) as u8,
        (n / 256 % 256) as u8,
        (n / 65536 % 256) as u8,
        (n / 16777216 % 256) as u8,
    ]
}

/// The number with the two bytes at position `i`.
pub open spec fn number16(data: Seq<u8>, i: int) -> int {
    data[i] + 256 * data[i + 1]
}

/// The number with the four bytes at position `i`.
pub open spec fn number32(data: Seq<u8>, i: int) -> int {
    data[i] + 256 * data[i + 1] + 65536 * data[i + 2] + 16777216 * data[i + 3]
}

/// The beginning of a file with `data_len` bytes of samples: how much follows it.
#[verifier::opaque]
pub open spec fn riff_chunk(data_len: int) -> Seq<u8> {
    seq![82u8, 73, 70, 70] + le32(36 + data_len) + seq![87u8, 65, 86, 69]
}

/// The format of a file: 16000 samples per second of 16 bits each, on one channel.
#[verifier::opaque]
pub open spec fn format_chunk() -> Seq<u8> {
    seq![102u8, 109, 116, 32] + le32(16) + le16(1) + le16(1) + le32(16000) + le32(32000) + le16(2)
        + le16(16)
}

/// What stands before `data_len` bytes of samples.
#[verifier::opaque]
pub open spec fn data_chunk(data_len: int) -> Seq<u8> {
    seq![100u8, 97, 116, 97] + le32(data_len)
}

/// The header of a file with `data_len` bytes of samples.
pub open spec fn header(data_len: int) -> Seq<u8> {
    riff_chunk(data_len) + format_chunk() + data_chunk(data_len)
}

/// Byte `i` of raw 16-bit audio: the low byte of each sample stands before its high byte.
pub open spec fn pcm_byte(samples: Seq<i16>, i: int) -> u8 {
    let n = samples[i / 2] as int % 65536;
    if i % 2 == 0 {
        (n % 256) as u8
    } else {
        (n / 256) as u8
    }
}

/// The bytes of raw 16-bit audio.
pub open spec fn pcm_bytes(samples: Seq<i16>) -> Seq<u8> {
    Seq::new(2 * samples.len(), |i: int| pcm_byte(samples, i))
}

/// The length that the header of a file with `n` samples says. It has 32 bits.
pub open spec fn data_len(n: int) -> int {
    2 * n % 0x1_0000_0000
}

/// A file with the given samples.
pub open spec fn file(samples: Seq<i16>) -> Seq<u8> {
    header(data_len(samples.len() as int)) + pcm_bytes(samples)
}

/// What a file holds.
#[derive(Debug)]
pub struct Wav {
    pub channels: u16,
    pub rate: u32,
    pub bits: u16,
    pub samples: Vec<i16>,
}

/// The error of reading what is no WAV file.
#[derive(Debug)]
pub struct NotWav;

/// Whether some bytes are taken for a WAV file: they have room for a header and begin as one
/// does.
pub open spec fn is_wav(data: Seq<u8>) -> bool {
    data.len() >= HEADER_LEN && data.take(4) == seq![82u8, 73, 70, 70]
}

fn read16(data: &[u8], i: usize) -> (r: u16)
    requires
        i + 2 <= data@.len(),
    ensures
        r == number16(data@, i as int),
{
    data[i] as u16 + 256 * (data[i + 1] as u16)
}

/// Reads a WAV file. Everything behind the header is taken for samples.
pub fn parse_wav(data: &[u8]) -> (r: Result<Wav, NotWav>)
    ensures
        match r {
            Ok(wav) => {
                &&& is_wav(data@)
                &&& wav.channels == number16(data@, 22)
                &&& wav.rate == number32(data@, 24)
                &&& wav.bits == number16(data@, 34)
                &&& wav.samples@ == samples_of(data@.skip(HEADER_LEN as int))
            },
            Err(_) => !is_wav(data@),
        },
{
    let n: usize = data.len();
    if n < HEADER_LEN {
        return Err(NotWav);
    }
    if data[0] != 82 || data[1] != 73 || data[2] != 70 || data[3] != 70 {
        assert(data@.take(4)[0] == data@[0] && data@.take(4)[1] == data@[1] && data@.take(4)[2]
            == data@[2] && data@.take(4)[3] == data@[3]);
        return Err(NotWav);
    }
    assert(data@.take(4) =~= seq![82u8, 73, 70, 70]);
    let bits: u16 = read16(data, 34);
    let channels: u16 = read16(data, 22);
    let rate: u32 = read16(data, 24) as u32 + 65536 * (read16(data, 26) as u32);
    let pcm = slice_subrange(data, HEADER_LEN, n);
    assert(pcm@ =~= data@.skip(HEADER_LEN as int));
    Ok(Wav { channels, rate, bits, samples: pcm_samples(pcm) })
}

fn push16(out: &mut Vec<u8>, n: u16)
    ensures
        final(out)@ == old(out)@ + le16(n as int),
{
    out.push((n % 256) as u8);
    out.push((n / 256) as u8);
    assert(out@ =~= old(out)@ + le16(n as int));
}

fn push32(out: &mut Vec<u8>, n: u32)
    ensures
        final(out)@ == old(out)@ + le32(n as int),
{
    out.push((n % 256) as u8);
    out.push((n / 256 % 256) as u8);
    out.push((n / 65536 % 256) as u8);
    out.push((n / 16777216) as u8);
    assert(out@ =~= old(out)@ + le32(n as int));
}

fn push_tag(out: &mut Vec<u8>, a: u8, b: u8, c: u8, d: u8)
    ensures
        final(out)@ == old(out)@ + seq![a, b, c, d],
{
    out.push(a);
    out.push(b);
    out.push(c);
    out.push(d);
    assert(out@ =~= old(out)@ + seq![a, b, c, d]);
}

/// A WAV file with the given samples, 16000 per second, on one channel.
pub fn wav_bytes(samples: &[i16]) -> (r: Vec<u8>)
    requires
        2 * samples@.len() <= usize::MAX,
        data_len(samples@.len() as int) + 36 <= u32::MAX,
    ensures
        r@ == file(samples@),
{
    let n: usize = samples.len();
    let total: u64 = (2 * n) as u64;
    let data_len: u32 = (total % 0x1_0000_0000) as u32;
    let mut r: Vec<u8> = Vec::new();
    push_tag(&mut r, 82, 73, 70, 70);
    push32(&mut r, 36 + data_len);
    push_tag(&mut r, 87, 65, 86, 69);
    push_tag(&mut r, 102, 109, 116, 32);
    push32(&mut r, 16);
    push16(&mut r, 1);
    push16(&mut r, 1);
    push32(&mut r, 16000);
    push32(&mut r, 32000);
    push16(&mut r, 2);
    push16(&mut r, 16);
    push_tag(&mut r, 100, 97, 116, 97);
    push32(&mut r, data_len);
    let ghost head = header(data_len as int);
    assert(r@ =~= head) by {
        reveal(riff_chunk);
        reveal(format_chunk);
        reveal(data_chunk);
    }
    assert(head + pcm_bytes(samples@).take(0) =~= head);
    for i in 0..n
        invariant
            n == samples@.len(),
            r@ == head + pcm_bytes(samples@).take(2 * i as int),
    {
        let ghost before = r@;
        let s: i32 = samples[i] as i32;
        let unsigned: u16 = if s < 0 {
            (s + 65536) as u16
        } else {
            s as u16
        };
        push16(&mut r, unsigned);
        proof {
            let all = pcm_bytes(samples@);
            assert(unsigned == samples@[i as int] as int % 65536);
            assert(all[2 * i] == le16(unsigned as int)[0]);
            assert(all[2 * i + 1] == le16(unsigned as int)[1]);
            assert(all.take(2 * (i + 1)) =~= all.take(2 * i as int) + le16(unsigned as int));
            assert(r@ =~= head + all.take(2 * (i + 1)));
        }
    }
    assert(pcm_bytes(samples@).take(2 * n as int) =~= pcm_bytes(samples@));
    r
}

proof fn riff_chunk_is_read_back(n: int)
    ensures
        riff_chunk(n).len() == 12,
        riff_chunk(n).take(4) == seq![82u8, 73, 70, 70],
{
    reveal(riff_chunk);
    assert(riff_chunk(n).take(4) =~= seq![82u8, 73, 70, 70]);
}

proof fn format_chunk_is_read_back()
    ensures
        format_chunk().len() == 24,
        number16(format_chunk(), 10) == 1,
        number32(format_chunk(), 12) == 16000,
        number16(format_chunk(), 22) == 16,
{
    reveal(format_chunk);
}

proof fn data_chunk_is_read_back(n: int)
    requires
        0 <= n < 0x1_0000_0000,
    ensures
        data_chunk(n).len() == 8,
        number32(data_chunk(n), 4) == n,
{
    reveal(data_chunk);
}

proof fn samples_are_read_back(samples: Seq<i16>)
    ensures
        samples_of(pcm_bytes(samples)) == samples,
{
    let bytes = pcm_bytes(samples);
    assert forall|i: int| 0 <= i < samples.len() implies #[trigger] samples_of(bytes)[i]
        == samples[i] by {
        assert(bytes[2 * i] == pcm_byte(samples, 2 * i));
        assert(bytes[2 * i + 1] == pcm_byte(samples, 2 * i + 1));
        assert(2 * i / 2 == i && (2 * i + 1) / 2 == i);
    }
    assert(samples_of(bytes) =~= samples);
}

/// Reading what was written gives back the samples, and the format in which they were written.
pub proof fn files_are_read_back(samples: Seq<i16>)
    ensures
        is_wav(file(samples)),
        number16(file(samples), 22) == 1,
        number32(file(samples), 24) == 16000,
        number16(file(samples), 34) == 16,
        number32(file(samples), 40) == data_len(samples.len() as int),
        samples_of(file(samples).skip(HEADER_LEN as int)) == samples,
{
    let n = data_len(samples.len() as int);
    let data = file(samples);
    riff_chunk_is_read_back(n);
    format_chunk_is_read_back();
    data_chunk_is_read_back(n);
    samples_are_read_back(samples);
    assert(data.take(4) =~= riff_chunk(n).take(4));
    let (f, d) = (format_chunk(), data_chunk(n));
    assert(data[22] == f[10] && data[23] == f[11]);
    assert(data[24] == f[12] && data[25] == f[13] && data[26] == f[14] && data[27] == f[15]);
    assert(data[34] == f[22] && data[35] == f[23]);
    assert(data[40] == d[4] && data[41] == d[5] && data[42] == d[6] && data[43] == d[7]);
    assert(data.skip(HEADER_LEN as int) =~= pcm_bytes(samples));
}

/// A number is read from its bytes, the lowest one first, and its bytes are the ones that it is
/// read from.
pub proof fn numbers_are_read_from_their_bytes(data: Seq<u8>, i: int)
    requires
        0 <= i <= data.len() - 4,
    ensures
        0 <= number32(data, i) < 0x1_0000_0000,
        le32(number32(data, i)) == data.subrange(i, i + 4),
        0 <= number16(data, i) < 0x1_0000,
        le16(number16(data, i)) == data.subrange(i, i + 2),
{
    let n = number32(data, i);
    let (a, b, c, d) = (data[i] as int, data[i + 1] as int, data[i + 2] as int, data[i + 3] as int);
    assert(n == a + 256 * (b + 256 * (c + 256 * d)));
    assert(n % 256 == a);
    assert(n / 256 == b + 256 * (c + 256 * d));
    assert(n / 65536 == c + 256 * d);
    assert(n / 16777216 == d);
    assert(le32(n) =~= data.subrange(i, i + 4));
    assert(le16(number16(data, i)) =~= data.subrange(i, i + 2));
}

/// Bytes are taken for a file exactly if there are at least 44 of them and the first four spell
/// "RIFF".
pub proof fn files_begin_with_riff(data: Seq<u8>)
    ensures
        is_wav(data) <==> data.len() >= 44 && data[0] == 'R' as u8 && data[1] == 'I' as u8
            && data[2] == 'F' as u8 && data[3] == 'F' as u8,
{
    if data.len() >= 44 {
        let tag = seq![82u8, 73, 70, 70];
        assert(data.take(4)[0] == data[0] && data.take(4)[1] == data[1] && data.take(4)[2]
            == data[2] && data.take(4)[3] == data[3]);
        assert(tag[0] == 82 && tag[1] == 73 && tag[2] == 70 && tag[3] == 70);
        if data[0] == 82 && data[1] == 73 && data[2] == 70 && data[3] == 70 {
            assert(data.take(4) =~= tag);
        }
    }
}

proof fn riff_chunk_is_complete(n: int)
    requires
        0 <= n,
        n + 36 < 0x1_0000_0000,
    ensures
        riff_chunk(n).len() == 12,
        number32(riff_chunk(n), 4) == n + 36,
        riff_chunk(n).subrange(8, 12) == seq![87u8, 65, 86, 69],
{
    reveal(riff_chunk);
    let m = n + 36;
    assert(m % 256 + 256 * (m / 256 % 256) + 65536 * (m / 65536 % 256) + 16777216 * (m / 16777216
        % 256) == m);
    assert(riff_chunk(n).subrange(8, 12) =~= seq![87u8, 65, 86, 69]);
}

proof fn format_chunk_is_complete()
    ensures
        format_chunk().len() == 24,
        format_chunk().take(4) == seq![102u8, 109, 116, 32],
        number32(format_chunk(), 4) == 16,
        number16(format_chunk(), 8) == 1,
        number32(format_chunk(), 16) == 32000,
        number16(format_chunk(), 20) == 2,
{
    reveal(format_chunk);
    assert(format_chunk().take(4) =~= seq![102u8, 109, 116, 32]);
}

proof fn data_chunk_is_complete(n: int)
    ensures
        data_chunk(n).len() == 8,
        data_chunk(n).take(4) == seq![100u8, 97, 116, 97],
{
    reveal(data_chunk);
    assert(data_chunk(n).take(4) =~= seq![100u8, 97, 116, 97]);
}

/// What stands in a file besides what is read back: how long it is, that it holds uncompressed
/// audio, and how much of it makes up a sample and a second.
pub proof fn headers_are_complete(samples: Seq<i16>)
    requires
        2 * samples.len() + 36 < 0x1_0000_0000,
    ensures
        ({
            let data = file(samples);
            &&& data.len() == 44 + 2 * samples.len()
            &&& number32(data, 4) == data.len() - 8
            &&& data.subrange(8, 16) == seq![87u8, 65, 86, 69, 102, 109, 116, 32]
            &&& number32(data, 16) == 16
            &&& number16(data, 20) == 1
            &&& number32(data, 28) == 32000
            &&& number16(data, 32) == 2
            &&& data.subrange(36, 40) == seq![100u8, 97, 116, 97]
            &&& number32(data, 40) == 2 * samples.len()
        }),
{
    let n = data_len(samples.len() as int);
    let data = file(samples);
    files_are_read_back(samples);
    riff_chunk_is_complete(n);
    format_chunk_is_complete();
    data_chunk_is_complete(n);
    let (r, f, d) = (riff_chunk(n), format_chunk(), data_chunk(n));
    assert(data[4] == r[4] && data[5] == r[5] && data[6] == r[6] && data[7] == r[7]);
    assert forall|i: int| 0 <= i < 8 implies data[8 + i] == seq![
        87u8,
        65,
        86,
        69,
        102,
        109,
        116,
        32,
    ][i] by {
        if i < 4 {
            assert(data[8 + i] == r.subrange(8, 12)[i]);
        } else {
            assert(data[8 + i] == f.take(4)[i - 4]);
        }
    }
    assert(data.subrange(8, 16) =~= seq![87u8, 65, 86, 69, 102, 109, 116, 32]);
    assert(data[16] == f[4] && data[17] == f[5] && data[18] == f[6] && data[19] == f[7]);
    assert(data[20] == f[8] && data[21] == f[9]);
    assert(data[28] == f[16] && data[29] == f[17] && data[30] == f[18] && data[31] == f[19]);
    assert(data[32] == f[20] && data[33] == f[21]);
    assert forall|i: int| 0 <= i < 4 implies data[36 + i] == d.take(4)[i] by {}
    assert(data.subrange(36, 40) =~= d.take(4));
}

/// What is written is read back: the samples as they were, and the format in which they were
/// written.
pub proof fn reading_undoes_writing(
    samples: &[i16],
    bytes: Vec<u8>,
    data: &[u8],
    r: Result<Wav, NotWav>,
)
    requires
        call_ensures(wav_bytes, (samples,), bytes),
        data@ == bytes@,
        call_ensures(parse_wav, (data,), r),
    ensures
        r matches Ok(wav) && wav.samples@ == samples@ && wav.channels == 1 && wav.rate == 16000
            && wav.bits == 16,
{
    files_are_read_back(samples@);
}

} // verus!
