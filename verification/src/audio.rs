//! Timing of MP3 and WAV audio, read from the file's bytes.
use vstd::prelude::*;
use crate::bytes::{le_u32, read_le_u32};
use crate::sniff::{bytes_at, has_bytes_at};

verus! {

/// Lengths of in-memory byte buffers never exceed `isize::MAX`.
pub open spec fn buffer_len_ok(n: int) -> bool {
    n <= isize::MAX
}

/// The size of a leading ID3v2 tag (its 10-byte header and its syncsafe size), or 0.
pub open spec fn id3v2_len(data: Seq<u8>) -> int {
    if data.len() < 10 || !bytes_at(data, 0, seq![0x49u8, 0x44, 0x33]) {
        0
    } else {
        10 + ((((data[6] as usize) & 0x7f) << 21usize) | (((data[7] as usize) & 0x7f) << 14usize)
            | (((data[8] as usize) & 0x7f) << 7usize) | ((data[9] as usize) & 0x7f)) as int
    }
}

pub fn skip_id3v2(data: &[u8]) -> (r: usize)
    ensures
        r == id3v2_len(data@),
{
    let id3 = [0x49u8, 0x44, 0x33];
    assert(id3@ =~= seq![0x49u8, 0x44, 0x33]);
    if data.len() < 10 || !has_bytes_at(data, 0, &id3) {
        return 0;
    }
    let (b6, b7, b8, b9) = (data[6], data[7], data[8], data[9]);
    let size = (((b6 as usize) & 0x7f) << 21usize) | (((b7 as usize) & 0x7f) << 14usize)
        | (((b8 as usize) & 0x7f) << 7usize) | ((b9 as usize) & 0x7f);
    assert(size < 0x1000_0000) by (bit_vector)
        requires
            size == (((b6 as usize) & 0x7f) << 21usize) | (((b7 as usize) & 0x7f) << 14usize)
                | (((b8 as usize) & 0x7f) << 7usize) | ((b9 as usize) & 0x7f),
    ;
    10 + size
}

/// The bitrate table (kbit/s by index) for an MPEG version (1, 2 or 25 for 2.5) and layer.
pub open spec fn bitrate_table(version: u8, layer: u8) -> Option<Seq<u16>> {
    if version == 1 && layer == 1 {
        Some(seq![0u16, 32, 64, 96, 128, 160, 192, 224, 256, 288, 320, 352, 384, 416, 448, 0])
    } else if version == 1 && layer == 2 {
        Some(seq![0u16, 32, 48, 56, 64, 80, 96, 112, 128, 160, 192, 224, 256, 320, 384, 0])
    } else if version == 1 && layer == 3 {
        Some(seq![0u16, 32, 40, 48, 56, 64, 80, 96, 112, 128, 160, 192, 224, 256, 320, 0])
    } else if version != 1 && layer == 1 {
        Some(seq![0u16, 32, 48, 56, 64, 80, 96, 112, 128, 144, 160, 176, 192, 224, 256, 0])
    } else if version != 1 && (layer == 2 || layer == 3) {
        Some(seq![0u16, 8, 16, 24, 32, 40, 48, 56, 64, 80, 96, 112, 128, 144, 160, 0])
    } else {
        None
    }
}

/// The bitrate in kbit/s of an MPEG audio frame header's bitrate index.
pub open spec fn mp3_bitrate_of(version: u8, layer: u8, index: usize) -> Option<u16> {
    match bitrate_table(version, layer) {
        Some(t) => if index < t.len() && t[index as int] > 0 {
            Some(t[index as int])
        } else {
            None
        },
        None => None,
    }
}

pub fn mp3_bitrate(version: u8, layer: u8, index: usize) -> (r: Option<u16>)
    ensures
        r == mp3_bitrate_of(version, layer, index),
{
    let table: [u16; 16] = if version == 1 && layer == 1 {
        [0u16, 32, 64, 96, 128, 160, 192, 224, 256, 288, 320, 352, 384, 416, 448, 0]
    } else if version == 1 && layer == 2 {
        [0u16, 32, 48, 56, 64, 80, 96, 112, 128, 160, 192, 224, 256, 320, 384, 0]
    } else if version == 1 && layer == 3 {
        [0u16, 32, 40, 48, 56, 64, 80, 96, 112, 128, 160, 192, 224, 256, 320, 0]
    } else if version != 1 && layer == 1 {
        [0u16, 32, 48, 56, 64, 80, 96, 112, 128, 144, 160, 176, 192, 224, 256, 0]
    } else if version != 1 && (layer == 2 || layer == 3) {
        [0u16, 8, 16, 24, 32, 40, 48, 56, 64, 80, 96, 112, 128, 144, 160, 0]
    } else {
        return None;
    };
    assert(bitrate_table(version, layer) == Some(table@));
    if index < 16 && table[index] > 0 {
        Some(table[index])
    } else {
        None
    }
}

/// The sample rate of an MPEG audio frame header's sample-rate index.
pub open spec fn mp3_sample_rate_of(version: u8, index: usize) -> Option<u32> {
    if index >= 3 {
        None
    } else {
        let base: u32 = if index == 0 {
            44_100
        } else if index == 1 {
            48_000
        } else {
            32_000
        };
        if version == 1 {
            Some(base)
        } else if version == 2 {
            Some(base / 2)
        } else if version == 25 {
            Some(base / 4)
        } else {
            None
        }
    }
}

pub fn mp3_sample_rate(version: u8, index: usize) -> (r: Option<u32>)
    ensures
        r == mp3_sample_rate_of(version, index),
{
    if index >= 3 {
        return None;
    }
    let base: u32 = if index == 0 {
        44_100
    } else if index == 1 {
        48_000
    } else {
        32_000
    };
    if version == 1 {
        Some(base)
    } else if version == 2 {
        Some(base / 2)
    } else if version == 25 {
        Some(base / 4)
    } else {
        None
    }
}

/// One MPEG audio frame: its length in bytes, and its duration as samples at a sample rate.
#[derive(Clone, Copy, Debug)]
pub struct Mp3Frame {
    pub length: usize,
    pub samples: u32,
    pub sample_rate: u32,
}

/// The frame that the 4-byte header `h` describes.
pub open spec fn mp3_frame_of(h: Seq<u8>) -> Option<Mp3Frame> {
    if h.len() < 4 {
        None
    } else {
        let version_id = (h[1] >> 3u8) & 0x03;
        let layer = (h[1] >> 1u8) & 0x03;
        let bitrate_index = (h[2] >> 4u8) & 0x0f;
        let sample_rate_index = (h[2] >> 2u8) & 0x03;
        let padding = ((h[2] >> 1u8) & 0x01) as int;
        if version_id == 1 || layer == 0 || bitrate_index == 0 || bitrate_index == 0x0f
            || sample_rate_index == 3 {
            None
        } else {
            let version: u8 = if version_id == 3 {
                1
            } else if version_id == 2 {
                2
            } else {
                25
            };
            let layer_number = (4 - layer) as u8;
            match (
                mp3_bitrate_of(version, layer_number, bitrate_index as usize),
                mp3_sample_rate_of(version, sample_rate_index as usize),
            ) {
                (Some(kbps), Some(rate)) => {
                    let bitrate = kbps as int * 1000;
                    let samples: u32 = if layer_number == 1 {
                        384
                    } else if layer_number == 3 && version != 1 {
                        576
                    } else {
                        1152
                    };
                    let length = if layer_number == 1 {
                        ((12 * bitrate / rate as int) + padding) * 4
                    } else if layer_number == 3 && version != 1 {
                        (72 * bitrate / rate as int) + padding
                    } else {
                        (144 * bitrate / rate as int) + padding
                    };
                    Some(Mp3Frame { length: length as usize, samples, sample_rate: rate })
                },
                _ => None,
            }
        }
    }
}

/// Samples per frame and sample rates follow the MPEG audio standard. A frame holds 384
/// samples in Layer I (layer bits `11`), 1152 in Layer II (`10`) and in MPEG-1 Layer III, and
/// 576 in MPEG-2 and MPEG-2.5 Layer III (version bits `10` or `00`, layer bits `01`). MPEG-1
/// frames run at 44.1, 48 or 32 kHz, MPEG-2 frames at half of that and MPEG-2.5 frames at a
/// quarter, so a frame's duration `samples / sample_rate` is what the header says.
pub proof fn lemma_mp3_frame_samples(h: Seq<u8>)
    requires
        mp3_frame_of(h) is Some,
    ensures
        ({
            let f = mp3_frame_of(h).unwrap();
            let version_bits = (h[1] >> 3u8) & 0x03;
            let layer_bits = (h[1] >> 1u8) & 0x03;
            let rate_bits = (h[2] >> 2u8) & 0x03;
            let base: u32 = if rate_bits == 0 { 44_100 } else if rate_bits == 1 { 48_000 } else { 32_000 };
            &&& layer_bits == 3 ==> f.samples == 384
            &&& layer_bits == 2 ==> f.samples == 1152
            &&& layer_bits == 1 && version_bits == 3 ==> f.samples == 1152
            &&& layer_bits == 1 && (version_bits == 2 || version_bits == 0) ==> f.samples == 576
            &&& version_bits == 3 ==> f.sample_rate == base
            &&& version_bits == 2 ==> f.sample_rate * 2 == base
            &&& version_bits == 0 ==> f.sample_rate * 4 == base
            &&& rate_bits != 3 && version_bits != 1 && layer_bits != 0
        }),
{
    let version_bits = (h[1] >> 3u8) & 0x03;
    let layer_bits = (h[1] >> 1u8) & 0x03;
    let h1 = h[1];
    assert(version_bits <= 3 && layer_bits <= 3) by (bit_vector)
        requires
            version_bits == (h1 >> 3u8) & 0x03,
            layer_bits == (h1 >> 1u8) & 0x03,
    ;
}

/// The frame that an MPEG audio frame header describes; its duration in seconds is
/// `samples / sample_rate`.
pub fn parse_mp3_frame(header: &[u8]) -> (r: Option<Mp3Frame>)
    ensures
        r == mp3_frame_of(header@),
{
    if header.len() < 4 {
        return None;
    }
    let h1 = header[1];
    let h2 = header[2];
    let version_id = (h1 >> 3u8) & 0x03;
    let layer = (h1 >> 1u8) & 0x03;
    let bitrate_index = (h2 >> 4u8) & 0x0f;
    let sample_rate_index = (h2 >> 2u8) & 0x03;
    let pad_bit = (h2 >> 1u8) & 0x01;
    assert(layer <= 3) by (bit_vector)
        requires
            layer == (h1 >> 1u8) & 0x03,
    ;
    assert(pad_bit <= 1) by (bit_vector)
        requires
            pad_bit == (h2 >> 1u8) & 0x01,
    ;
    let padding = pad_bit as usize;
    if version_id == 1 || layer == 0 || bitrate_index == 0 || bitrate_index == 0x0f
        || sample_rate_index == 3 {
        return None;
    }
    let version: u8 = if version_id == 3 {
        1
    } else if version_id == 2 {
        2
    } else {
        25
    };
    let layer_number = 4 - layer;
    let kbps = match mp3_bitrate(version, layer_number, bitrate_index as usize) {
        Some(b) => b,
        None => return None,
    };
    let rate = match mp3_sample_rate(version, sample_rate_index as usize) {
        Some(s) => s,
        None => return None,
    };
    assert(kbps <= 448) by {
        let t = bitrate_table(version, layer_number).unwrap();
        assert(t.contains(kbps));
    }
    assert(rate >= 8000);
    let bitrate = kbps as usize * 1000;
    let sample_rate = rate as usize;
    let samples: u32 = if layer_number == 1 {
        384
    } else if layer_number == 3 && version != 1 {
        576
    } else {
        1152
    };
    let length = if layer_number == 1 {
        ((12 * bitrate / sample_rate) + padding) * 4
    } else if layer_number == 3 && version != 1 {
        (72 * bitrate / sample_rate) + padding
    } else {
        (144 * bitrate / sample_rate) + padding
    };
    Some(Mp3Frame { length, samples, sample_rate: rate })
}

/// Whether `data[i]`, `data[i + 1]` look like an MPEG audio frame sync.
pub open spec fn frame_sync_at(data: Seq<u8>, i: int) -> bool {
    data[i] == 0xff && data[i + 1] & 0xe0 == 0xe0
}

/// The frames met scanning `data` from `offset`: at each sync a frame header is tried; a good
/// one is taken and skipped over, anything else advances by one byte.
pub open spec fn frames_from(data: Seq<u8>, offset: int) -> Seq<Mp3Frame>
    decreases data.len() - offset,
{
    if offset < 0 || offset + 4 > data.len() {
        Seq::empty()
    } else if !frame_sync_at(data, offset) {
        frames_from(data, offset + 1)
    } else {
        match mp3_frame_of(data.subrange(offset, offset + 4)) {
            None => frames_from(data, offset + 1),
            Some(f) => {
                let next = offset + if f.length >= 1 {
                    f.length as int
                } else {
                    1
                };
                seq![f] + if next <= data.len() {
                    frames_from(data, next)
                } else {
                    Seq::empty()
                }
            },
        }
    }
}

/// The frames of an MP3 file, scanned from the end of its ID3v2 tag; the file's duration is
/// the sum of their durations.
pub fn mp3_frames(data: &[u8]) -> (r: Vec<Mp3Frame>)
    requires
        buffer_len_ok(data@.len() as int),
    ensures
        r@ == frames_from(data@, id3v2_len(data@)),
{
    let n = data.len();
    let mut offset = skip_id3v2(data);
    let mut frames: Vec<Mp3Frame> = Vec::new();
    let ghost start = offset as int;
    assert(frames@ + frames_from(data@, offset as int) =~= frames_from(data@, start));
    while offset <= n && n - offset >= 4
        invariant
            n == data@.len(),
            buffer_len_ok(n as int),
            start == id3v2_len(data@),
            frames@ + frames_from(data@, offset as int) == frames_from(data@, start),
        decreases n + 1 - offset,
    {
        if data[offset] != 0xff || data[offset + 1] & 0xe0 != 0xe0 {
            offset += 1;
            continue;
        }
        let header = [data[offset], data[offset + 1], data[offset + 2], data[offset + 3]];
        assert(header@ =~= data@.subrange(offset as int, offset + 4));
        match parse_mp3_frame(&header) {
            None => {
                offset += 1;
            },
            Some(frame) => {
                let ghost before = frames@;
                frames.push(frame);
                let step = if frame.length >= 1 {
                    frame.length
                } else {
                    1
                };
                assert(frame_sync_at(data@, offset as int));
                assert(mp3_frame_of(data@.subrange(offset as int, offset + 4)) == Some(frame));
                if step > n - offset {
                    assert(frames_from(data@, offset as int) =~= seq![frame]);
                    assert(frames@ =~= before + frames_from(data@, offset as int));
                    return frames;
                }
                assert(before + frames_from(data@, offset as int) =~= frames@ + frames_from(
                    data@,
                    offset + step,
                ));
                offset = offset + step;
            },
        }
    }
    assert(frames_from(data@, offset as int) =~= Seq::<Mp3Frame>::empty());
    assert(frames@ + frames_from(data@, offset as int) =~= frames@);
    frames
}

/// Walking the RIFF chunks of a WAV file from `offset`: the byte rate of its `fmt ` chunk
/// and the size of its `data` chunk, the last of each met.
pub open spec fn wav_walk(data: Seq<u8>, offset: int, byte_rate: Option<u32>, data_size: Option<u32>) -> (
    Option<u32>,
    Option<u32>,
)
    decreases data.len() - offset,
{
    if offset < 0 || offset + 8 > data.len() {
        (byte_rate, data_size)
    } else {
        let size = le_u32(data, offset + 4) as int;
        let chunk_start = offset + 8;
        let chunk_end = if chunk_start + size < data.len() {
            chunk_start + size
        } else {
            data.len() as int
        };
        let is_fmt = bytes_at(data, offset, seq![0x66u8, 0x6d, 0x74, 0x20]);
        let is_data = bytes_at(data, offset, seq![0x64u8, 0x61, 0x74, 0x61]);
        let (br, ds) = if is_fmt && chunk_start + 12 <= chunk_end {
            (Some(le_u32(data, chunk_start + 8)), data_size)
        } else if is_data {
            (byte_rate, Some(le_u32(data, offset + 4)))
        } else {
            (byte_rate, data_size)
        };
        let next = chunk_start + size + size % 2;
        if next <= data.len() {
            wav_walk(data, next, br, ds)
        } else {
            (br, ds)
        }
    }
}

/// The `(data size, byte rate)` of a WAV file (its duration in seconds is their quotient), or
/// `None` where it is not RIFF/WAVE, lacks either chunk, or has a zero byte rate.
pub open spec fn wav_timing(data: Seq<u8>) -> Option<(u32, u32)> {
    if !bytes_at(data, 0, seq![0x52u8, 0x49, 0x46, 0x46]) || !bytes_at(
        data,
        8,
        seq![0x57u8, 0x41, 0x56, 0x45],
    ) {
        None
    } else {
        match wav_walk(data, 12, None, None) {
            (Some(br), Some(ds)) => if br > 0 {
                Some((ds, br))
            } else {
                None
            },
            _ => None,
        }
    }
}

pub fn wav_data_timing(data: &[u8]) -> (r: Option<(u32, u32)>)
    requires
        buffer_len_ok(data@.len() as int),
    ensures
        r == wav_timing(data@),
{
    let riff = [0x52u8, 0x49, 0x46, 0x46];
    let wave = [0x57u8, 0x41, 0x56, 0x45];
    assert(riff@ =~= seq![0x52u8, 0x49, 0x46, 0x46]);
    assert(wave@ =~= seq![0x57u8, 0x41, 0x56, 0x45]);
    if !has_bytes_at(data, 0, &riff) || !has_bytes_at(data, 8, &wave) {
        return None;
    }
    let fmt = [0x66u8, 0x6d, 0x74, 0x20];
    let dat = [0x64u8, 0x61, 0x74, 0x61];
    assert(fmt@ =~= seq![0x66u8, 0x6d, 0x74, 0x20]);
    assert(dat@ =~= seq![0x64u8, 0x61, 0x74, 0x61]);
    let n = data.len();
    let mut offset: usize = 12;
    let mut byte_rate: Option<u32> = None;
    let mut data_size: Option<u32> = None;
    let ghost total = wav_walk(data@, 12, None, None);
    while offset <= n && n - offset >= 8
        invariant
            n == data@.len(),
            buffer_len_ok(n as int),
            total == wav_walk(data@, offset as int, byte_rate, data_size),
            fmt@ == seq![0x66u8, 0x6d, 0x74, 0x20],
            dat@ == seq![0x64u8, 0x61, 0x74, 0x61],
        ensures
            total == (byte_rate, data_size),
        decreases n + 1 - offset,
    {
        let ghost before = (byte_rate, data_size);
        let size = read_le_u32(data, offset + 4) as usize;
        let chunk_start = offset + 8;
        let chunk_end = if size < n - chunk_start {
            chunk_start + size
        } else {
            n
        };
        if has_bytes_at(data, offset, &fmt) && chunk_end >= 12 && chunk_start <= chunk_end - 12 {
            byte_rate = Some(read_le_u32(data, chunk_start + 8));
        } else if has_bytes_at(data, offset, &dat) {
            data_size = Some(read_le_u32(data, offset + 4));
        }
        let pad = size % 2;
        let ghost is_fmt = bytes_at(data@, offset as int, seq![0x66u8, 0x6d, 0x74, 0x20]);
        let ghost is_data = bytes_at(data@, offset as int, seq![0x64u8, 0x61, 0x74, 0x61]);
        assert(chunk_end == (if chunk_start + size < data@.len() { chunk_start + size } else { data@.len() as int }));
        assert((byte_rate, data_size) == (if is_fmt && chunk_start + 12 <= chunk_end {
            (Some(le_u32(data@, chunk_start + 8)), before.1)
        } else if is_data {
            (before.0, Some(le_u32(data@, offset + 4)))
        } else {
            before
        }));
        if size > n - chunk_start || pad > n - chunk_start - size {
            assert(total == (byte_rate, data_size));
            break;
        }
        offset = chunk_start + size + pad;
    }
    assert(total == (byte_rate, data_size));
    assert(wav_timing(data@) == match total {
        (Some(br), Some(ds)) => if br > 0 { Some((ds, br)) } else { None },
        _ => None,
    });
    match (byte_rate, data_size) {
        (Some(br), Some(ds)) => {
            if br > 0 {
                Some((ds, br))
            } else {
                None
            }
        },
        _ => None,
    }
}

} // verus!
