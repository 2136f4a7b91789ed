//! Recognising a media container from the first bytes of a file, whatever its extension says.
use vstd::prelude::*;

verus! {

/// A container recognised from a file's leading bytes.
#[derive(Clone, Copy, Debug, PartialEq, Eq, Structural)]
pub enum DetectedFormat {
    MpegTs,
    Mp4,
    Mp3,
    Wav,
    Flac,
    Ogg,
    Webm,
}

/// Whether `data[i..]` begins with the bytes `k`.
pub open spec fn bytes_at(data: Seq<u8>, i: int, k: Seq<u8>) -> bool {
    0 <= i && i + k.len() <= data.len() && data.subrange(i, i + k.len()) == k
}

/// Whether `data[i..]` begins with the bytes `k`.
pub fn has_bytes_at(data: &[u8], i: usize, k: &[u8]) -> (r: bool)
    ensures
        r == bytes_at(data@, i as int, k@),
{
    let n = data.len();
    if i > n || k.len() > n - i {
        return false;
    }
    let mut j: usize = 0;
    while j < k.len()
        invariant
            n == data@.len(),
            i + k@.len() <= data@.len(),
            j <= k@.len(),
            forall|m: int| 0 <= m < j ==> data@[i + m] == k@[m],
        decreases k.len() - j,
    {
        if data[i + j] != k[j] {
            assert(data@.subrange(i as int, i + k@.len())[j as int] != k@[j as int]);
            return false;
        }
        j += 1;
    }
    assert(data@.subrange(i as int, i + k@.len()) =~= k@);
    true
}

/// With packets of `packet_size` bytes starting at `offset`, the number of packet starts that
/// the check looks at (at most 5), at least 3 of which must be there, each a sync byte `0x47`.
pub open spec fn ts_sync_from(data: Seq<u8>, packet_size: int, offset: int) -> bool {
    let possible = if (data.len() - offset) / packet_size < 5 {
        (data.len() - offset) / packet_size
    } else {
        5
    };
    possible >= 3 && forall|nth: int|
        0 <= nth < possible ==> #[trigger] data[offset + nth * packet_size] == 0x47
}

/// An MPEG transport stream: for a packet size of 188, 192 or 204 bytes, some offset below the
/// packet size (and within the first 8 packets) starts at least 3 sync bytes a packet apart.
pub open spec fn ts_like(data: Seq<u8>) -> bool {
    exists|packet_size: int, offset: int|
        (packet_size == 188 || packet_size == 192 || packet_size == 204) && 0 <= offset
            && offset < packet_size && offset < data.len() && offset < packet_size * 8
            && #[trigger] ts_sync_from(data, packet_size, offset)
}

fn ts_sync_exec(data: &[u8], packet_size: usize, offset: usize) -> (r: bool)
    requires
        offset < data@.len(),
        packet_size == 188 || packet_size == 192 || packet_size == 204,
    ensures
        r == ts_sync_from(data@, packet_size as int, offset as int),
{
    let possible = if (data.len() - offset) / packet_size < 5 {
        (data.len() - offset) / packet_size
    } else {
        5
    };
    if possible < 3 {
        return false;
    }
    let mut nth: usize = 0;
    let mut index = offset;
    while nth < possible
        invariant
            packet_size == 188 || packet_size == 192 || packet_size == 204,
            offset < data@.len(),
            possible <= 5,
            possible <= (data@.len() - offset) / packet_size as int,
            nth <= possible,
            index == offset + nth * packet_size,
            forall|k: int| 0 <= k < nth ==> #[trigger] data@[offset + k * packet_size] == 0x47,
        decreases possible - nth,
    {
        assert(index < data@.len()) by (nonlinear_arith)
            requires
                index == offset + nth * packet_size,
                nth < possible,
                possible <= (data@.len() - offset) / packet_size as int,
                packet_size > 0,
                offset < data@.len(),
        ;
        if data[index] != 0x47 {
            return false;
        }
        assert(index + packet_size == offset + (nth + 1) * packet_size) by (nonlinear_arith)
            requires
                index == offset + nth * packet_size,
        ;
        nth += 1;
        index += packet_size;
    }
    true
}

/// Whether the leading bytes look like an MPEG transport stream (see `ts_like`).
pub fn looks_like_mpeg_ts(data: &[u8]) -> (r: bool)
    ensures
        r == ts_like(data@),
{
    let sizes = [188usize, 192, 204];
    let mut s: usize = 0;
    while s < 3
        invariant
            s <= 3,
            sizes@ == seq![188usize, 192, 204],
            forall|packet_size: int, offset: int|
                (packet_size == 188 && s > 0 || packet_size == 192 && s > 1 || packet_size == 204
                    && s > 2) && 0 <= offset && offset < packet_size && offset < data@.len()
                    && offset < packet_size * 8 ==> !#[trigger] ts_sync_from(
                    data@,
                    packet_size,
                    offset,
                ),
        decreases 3 - s,
    {
        let packet_size = sizes[s];
        let search_len = if data.len() < packet_size * 8 {
            data.len()
        } else {
            packet_size * 8
        };
        let limit = if packet_size < search_len {
            packet_size
        } else {
            search_len
        };
        let mut offset: usize = 0;
        while offset < limit
            invariant
                sizes@ == seq![188usize, 192, 204],
                packet_size == sizes@[s as int],
                s < 3,
                limit <= packet_size,
                limit <= data@.len(),
                limit == packet_size || limit == data@.len() || limit == packet_size * 8,
                limit == (if packet_size < search_len { packet_size } else { search_len }),
                search_len == (if data@.len() < packet_size * 8 { data@.len() as int } else { packet_size * 8 }),
                offset <= limit,
                forall|k: int| 0 <= k < offset ==> !#[trigger] ts_sync_from(data@, packet_size as int, k),
            decreases limit - offset,
        {
            if ts_sync_exec(data, packet_size, offset) {
                return true;
            }
            offset += 1;
        }
        s += 1;
    }
    false
}

/// An MPEG audio frame sync (`0xff` then three set high bits) among the first 1024 byte pairs.
pub open spec fn mp3_sync_like(data: Seq<u8>) -> bool {
    exists|i: int|
        0 <= i < 1024 && i + 1 < data.len() && #[trigger] data[i] == 0xff && (data[i + 1] & 0xe0)
            == 0xe0
}

pub fn looks_like_mp3_frame(data: &[u8]) -> (r: bool)
    ensures
        r == mp3_sync_like(data@),
{
    let mut i: usize = 0;
    while i < 1024 && i + 1 < data.len()
        invariant
            i <= 1024,
            forall|k: int| 0 <= k < i && k + 1 < data@.len() ==> !(#[trigger] data@[k] == 0xff && (data@[k + 1] & 0xe0) == 0xe0),
        decreases 1024 - i,
    {
        if data[i] == 0xff && data[i + 1] & 0xe0 == 0xe0 {
            return true;
        }
        i += 1;
    }
    false
}

/// The container that the leading bytes `data` of a file show, in this order of precedence:
/// a PDF header means none; then MPEG-TS, MP4 (`ftyp`), WebM, MP3, WAV, FLAC, Ogg.
pub open spec fn sniffed_format(data: Seq<u8>) -> Option<DetectedFormat> {
    if bytes_at(data, 0, seq![0x25u8, 0x50, 0x44, 0x46, 0x2d]) {
        None
    } else if ts_like(data) {
        Some(DetectedFormat::MpegTs)
    } else if data.len() >= 12 && bytes_at(data, 4, seq![0x66u8, 0x74, 0x79, 0x70]) {
        Some(DetectedFormat::Mp4)
    } else if bytes_at(data, 0, seq![0x1au8, 0x45, 0xdf, 0xa3]) {
        Some(DetectedFormat::Webm)
    } else if bytes_at(data, 0, seq![0x49u8, 0x44, 0x33]) || mp3_sync_like(data) {
        Some(DetectedFormat::Mp3)
    } else if bytes_at(data, 0, seq![0x52u8, 0x49, 0x46, 0x46]) && bytes_at(
        data,
        8,
        seq![0x57u8, 0x41, 0x56, 0x45],
    ) {
        Some(DetectedFormat::Wav)
    } else if bytes_at(data, 0, seq![0x66u8, 0x4c, 0x61, 0x43]) {
        Some(DetectedFormat::Flac)
    } else if bytes_at(data, 0, seq![0x4fu8, 0x67, 0x67, 0x53]) {
        Some(DetectedFormat::Ogg)
    } else {
        None
    }
}

/// Bytes that are no PDF, no transport stream, no MP4 (`ftyp` at offset 4) and no WebM are
/// taken for MP3 when they open with an `ID3` tag, or when an MPEG audio frame sync (`0xff`,
/// then a byte with its three high bits set) starts at one of the first 1024 offsets: an MP3
/// without a tag, or under another extension, is recognised by its frames.
pub proof fn lemma_mp3_recognised(data: Seq<u8>, i: int)
    requires
        !(data.len() >= 5 && data[0] == 0x25 && data[1] == 0x50 && data[2] == 0x44 && data[3] == 0x46 && data[4] == 0x2d),
        !ts_like(data),
        !(data.len() >= 12 && data[4] == 0x66 && data[5] == 0x74 && data[6] == 0x79 && data[7] == 0x70),
        !(data.len() >= 4 && data[0] == 0x1a && data[1] == 0x45 && data[2] == 0xdf && data[3] == 0xa3),
        (data.len() >= 3 && data[0] == 0x49 && data[1] == 0x44 && data[2] == 0x33)
            || (0 <= i < 1024 && i + 1 < data.len() && data[i] == 0xff && data[i + 1] & 0xe0 == 0xe0),
    ensures
        sniffed_format(data) == Some(DetectedFormat::Mp3),
{
    let pdf = seq![0x25u8, 0x50, 0x44, 0x46, 0x2d];
    if bytes_at(data, 0, pdf) {
        assert(data.subrange(0, 5)[0] == pdf[0] && data.subrange(0, 5)[1] == pdf[1] && data.subrange(0, 5)[2] == pdf[2]
            && data.subrange(0, 5)[3] == pdf[3] && data.subrange(0, 5)[4] == pdf[4]);
    }
    let ftyp = seq![0x66u8, 0x74, 0x79, 0x70];
    if data.len() >= 12 && bytes_at(data, 4, ftyp) {
        assert(data.subrange(4, 8)[0] == ftyp[0] && data.subrange(4, 8)[1] == ftyp[1] && data.subrange(4, 8)[2] == ftyp[2]
            && data.subrange(4, 8)[3] == ftyp[3]);
    }
    let webm = seq![0x1au8, 0x45, 0xdf, 0xa3];
    if bytes_at(data, 0, webm) {
        assert(data.subrange(0, 4)[0] == webm[0] && data.subrange(0, 4)[1] == webm[1] && data.subrange(0, 4)[2] == webm[2]
            && data.subrange(0, 4)[3] == webm[3]);
    }
    let id3 = seq![0x49u8, 0x44, 0x33];
    if data.len() >= 3 && data[0] == 0x49 && data[1] == 0x44 && data[2] == 0x33 {
        assert(data.subrange(0, 3) =~= id3);
    } else {
        assert(mp3_sync_like(data));
    }
}

/// The container that the leading bytes of a file (the first 64 KiB read from it) show.
pub fn sniff_file_format(data: &[u8]) -> (r: Option<DetectedFormat>)
    ensures
        r == sniffed_format(data@),
{
    let pdf = [0x25u8, 0x50, 0x44, 0x46, 0x2d];
    assert(pdf@ =~= seq![0x25u8, 0x50, 0x44, 0x46, 0x2d]);
    if has_bytes_at(data, 0, &pdf) {
        return None;
    }
    if looks_like_mpeg_ts(data) {
        return Some(DetectedFormat::MpegTs);
    }
    let ftyp = [0x66u8, 0x74, 0x79, 0x70];
    assert(ftyp@ =~= seq![0x66u8, 0x74, 0x79, 0x70]);
    if data.len() >= 12 && has_bytes_at(data, 4, &ftyp) {
        return Some(DetectedFormat::Mp4);
    }
    let webm = [0x1au8, 0x45, 0xdf, 0xa3];
    assert(webm@ =~= seq![0x1au8, 0x45, 0xdf, 0xa3]);
    if has_bytes_at(data, 0, &webm) {
        return Some(DetectedFormat::Webm);
    }
    let id3 = [0x49u8, 0x44, 0x33];
    assert(id3@ =~= seq![0x49u8, 0x44, 0x33]);
    if has_bytes_at(data, 0, &id3) || looks_like_mp3_frame(data) {
        return Some(DetectedFormat::Mp3);
    }
    let riff = [0x52u8, 0x49, 0x46, 0x46];
    let wave = [0x57u8, 0x41, 0x56, 0x45];
    assert(riff@ =~= seq![0x52u8, 0x49, 0x46, 0x46]);
    assert(wave@ =~= seq![0x57u8, 0x41, 0x56, 0x45]);
    if has_bytes_at(data, 0, &riff) && has_bytes_at(data, 8, &wave) {
        return Some(DetectedFormat::Wav);
    }
    let flac = [0x66u8, 0x4c, 0x61, 0x43];
    assert(flac@ =~= seq![0x66u8, 0x4c, 0x61, 0x43]);
    if has_bytes_at(data, 0, &flac) {
        return Some(DetectedFormat::Flac);
    }
    let ogg = [0x4fu8, 0x67, 0x67, 0x53];
    assert(ogg@ =~= seq![0x4fu8, 0x67, 0x67, 0x53]);
    if has_bytes_at(data, 0, &ogg) {
        return Some(DetectedFormat::Ogg);
    }
    None
}

} // verus!
