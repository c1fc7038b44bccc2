//! The canonical RIFF/WAVE header: its parsed form, the byte-level
//! specification of every field, parsing, validation and serialization.

use vstd::prelude::*;
use vstd::bytes::spec_u16_from_le_bytes;
use vstd::bytes::spec_u16_to_le_bytes;
use vstd::bytes::spec_u32_from_le_bytes;
use vstd::bytes::spec_u32_to_le_bytes;
use vstd::bytes::u16_from_le_bytes;
use vstd::bytes::u32_from_le_bytes;
use vstd::slice::slice_subrange;

verus! {

/// Why a buffer could not be parsed as a canonical WAV file.
#[derive(Clone, Copy, PartialEq, Eq, Debug)]
pub enum WavParseError {
    /// The RIFF/WAVE/fmt magic sequence is absent at the expected offsets,
    /// or the buffer is too short to hold the fixed header fields.
    NotWavFormat,
    /// No usable `"data"` tag was located within the buffer bounds.
    DataChunkNotFound,
}

/// The fields of a canonical RIFF/WAVE header, one value per parsed buffer,
/// together with the byte offset at which sample data begins.
#[derive(Clone, Copy, PartialEq, Eq, Debug)]
pub struct WAVHeaderData {
    pub chunk_id: [u8; 4],
    pub chunk_size: u32,
    pub format: [u8; 4],
    pub subchunk1_id: [u8; 4],
    pub subchunk1_size: u32,
    pub audio_format: u16,
    pub num_channels: u16,
    pub sample_rate: u32,
    pub byte_rate: u32,
    pub block_align: u16,
    pub bits_per_sample: u16,
    pub subchunk2_id: [u8; 4],
    pub subchunk2_size: u32,
    pub data_begin: usize,
}

/// The ASCII bytes of `"RIFF"`.
pub open spec fn riff_tag() -> Seq<u8> {
    seq![0x52u8, 0x49u8, 0x46u8, 0x46u8]
}

/// The ASCII bytes of `"WAVE"`.
pub open spec fn wave_tag() -> Seq<u8> {
    seq![0x57u8, 0x41u8, 0x56u8, 0x45u8]
}

/// The ASCII bytes of `"fmt "`.
pub open spec fn fmt_tag() -> Seq<u8> {
    seq![0x66u8, 0x6du8, 0x74u8, 0x20u8]
}

/// The ASCII bytes of `"data"`.
pub open spec fn data_tag() -> Seq<u8> {
    seq![0x64u8, 0x61u8, 0x74u8, 0x61u8]
}

/// The u16 stored little-endian at byte offset `i` of `b`.
pub open spec fn spec_le16_at(b: Seq<u8>, i: int) -> u16 {
    spec_u16_from_le_bytes(b.subrange(i, i + 2))
}

/// The u32 stored little-endian at byte offset `i` of `b`.
pub open spec fn spec_le32_at(b: Seq<u8>, i: int) -> u32 {
    spec_u32_from_le_bytes(b.subrange(i, i + 4))
}

/// The fused magic-number check: bytes `[0..4)` read `"RIFF"` and bytes
/// `[8..16)` read `"WAVEfmt "`, which assumes the `fmt` subchunk follows
/// `"WAVE"` immediately (the canonical layout).
pub open spec fn has_wav_magic(b: Seq<u8>) -> bool {
    &&& b.len() >= 16
    &&& b[0] == 0x52u8
    &&& b[1] == 0x49u8
    &&& b[2] == 0x46u8
    &&& b[3] == 0x46u8
    &&& b[8] == 0x57u8
    &&& b[9] == 0x41u8
    &&& b[10] == 0x56u8
    &&& b[11] == 0x45u8
    &&& b[12] == 0x66u8
    &&& b[13] == 0x6du8
    &&& b[14] == 0x74u8
    &&& b[15] == 0x20u8
}

/// The four bytes of `b` starting at offset `i` spell `"data"`.
pub open spec fn is_data_tag_at(b: Seq<u8>, i: int) -> bool {
    &&& 0 <= i
    &&& i + 4 <= b.len()
    &&& b[i] == 0x64u8
    &&& b[i + 1] == 0x61u8
    &&& b[i + 2] == 0x74u8
    &&& b[i + 3] == 0x61u8
}

/// The smallest offset at or after `i` where `"data"` occurs in `b`;
/// `b.len()` when there is none.
pub open spec fn first_data_tag_from(b: Seq<u8>, i: int) -> int
    decreases b.len() - i + 4,
{
    if i + 4 > b.len() {
        b.len() as int
    } else if is_data_tag_at(b, i) {
        i
    } else {
        first_data_tag_from(b, i + 1)
    }
}

/// The offset at which sample data begins: 8 bytes past the first `"data"`
/// tag (4 for the tag, 4 for the size field that follows it).
pub open spec fn spec_data_begin(b: Seq<u8>) -> int {
    first_data_tag_from(b, 0) + 8
}

/// A `"data"` tag was found, with room for its 4-byte size field.
pub open spec fn spec_has_data(b: Seq<u8>) -> bool {
    spec_data_begin(b) <= b.len()
}

/// The buffer parses as a canonical WAV header: it is long enough for the
/// fixed fields, carries the magic tags, and holds a usable `"data"` tag.
pub open spec fn spec_parse_ok(b: Seq<u8>) -> bool {
    &&& b.len() >= 36
    &&& has_wav_magic(b)
    &&& spec_has_data(b)
}

/// The error that parsing `b` reports when `!spec_parse_ok(b)`.
pub open spec fn spec_parse_err(b: Seq<u8>) -> WavParseError {
    if !(b.len() >= 36 && has_wav_magic(b)) {
        WavParseError::NotWavFormat
    } else {
        WavParseError::DataChunkNotFound
    }
}

/// The declared sample payload length: the u32 in the 4 bytes after the
/// first `"data"` tag.
pub open spec fn spec_sub2(b: Seq<u8>) -> u32 {
    spec_le32_at(b, spec_data_begin(b) - 4)
}

/// The raw sample payload: every byte from `spec_data_begin(b)` on.
pub open spec fn spec_payload(b: Seq<u8>) -> Seq<u8> {
    b.subrange(spec_data_begin(b), b.len() as int)
}

/// `h` holds exactly the fields that parsing buffer `b` extracts.
pub open spec fn parsed_from(h: WAVHeaderData, b: Seq<u8>) -> bool {
    &&& h.chunk_id@ == riff_tag()
    &&& h.chunk_size == spec_le32_at(b, 4)
    &&& h.format@ == wave_tag()
    &&& h.subchunk1_id@ == fmt_tag()
    &&& h.subchunk1_size == spec_le32_at(b, 16)
    &&& h.audio_format == spec_le16_at(b, 20)
    &&& h.num_channels == spec_le16_at(b, 22)
    &&& h.sample_rate == spec_le32_at(b, 24)
    &&& h.byte_rate == spec_le32_at(b, 28)
    &&& h.block_align == spec_le16_at(b, 32)
    &&& h.bits_per_sample == spec_le16_at(b, 34)
    &&& h.subchunk2_id@ == data_tag()
    &&& h.data_begin as int == spec_data_begin(b)
    &&& h.subchunk2_size == spec_sub2(b)
}

/// When `"data"` stands at `i` and nowhere before it, the scan from any
/// point at or before `i` stops exactly at `i`.
proof fn lemma_first_tag_found(b: Seq<u8>, k: int, i: int)
    requires
        0 <= k <= i,
        forall|j: int| k <= j < i ==> !is_data_tag_at(b, j),
        is_data_tag_at(b, i),
    ensures
        first_data_tag_from(b, k) == i,
    decreases i - k,
{
    if k < i {
        lemma_first_tag_found(b, k + 1, i);
    }
}

/// When `"data"` stands nowhere at or after `k`, the scan from `k` reports
/// the buffer length.
proof fn lemma_no_tag_found(b: Seq<u8>, k: int)
    requires
        0 <= k,
        forall|j: int| k <= j ==> !is_data_tag_at(b, j),
    ensures
        first_data_tag_from(b, k) == b.len(),
    decreases b.len() - k + 4,
{
    if k + 4 <= b.len() {
        lemma_no_tag_found(b, k + 1);
    }
}

/// What the scan's result means: when it reports an offset inside the
/// buffer, `"data"` stands there and nowhere between `k` and it; when it
/// reports the buffer length, no usable tag exists at or after `k`.
pub proof fn lemma_first_tag_props(b: Seq<u8>, k: int)
    requires
        0 <= k,
    ensures
        k <= first_data_tag_from(b, k) || first_data_tag_from(b, k) == b.len(),
        first_data_tag_from(b, k) <= b.len(),
        first_data_tag_from(b, k) < b.len() ==> is_data_tag_at(b, first_data_tag_from(b, k)),
        forall|j: int|
            k <= j < first_data_tag_from(b, k) ==> !is_data_tag_at(b, j),
    decreases b.len() - k + 4,
{
    if k + 4 <= b.len() && !is_data_tag_at(b, k) {
        lemma_first_tag_props(b, k + 1);
    }
}

/// Reads the u16 stored little-endian at offset `i` of `buffer`.
fn read_le16(buffer: &Vec<u8>, i: usize) -> (x: u16)
    requires
        i + 2 <= buffer@.len(),
    ensures
        x == spec_le16_at(buffer@, i as int),
{
    let n: usize = buffer.len();
    assert(i + 2 <= n);
    u16_from_le_bytes(slice_subrange(buffer.as_slice(), i, i + 2))
}

/// Reads the u32 stored little-endian at offset `i` of `buffer`.
fn read_le32(buffer: &Vec<u8>, i: usize) -> (x: u32)
    requires
        i + 4 <= buffer@.len(),
    ensures
        x == spec_le32_at(buffer@, i as int),
{
    let n: usize = buffer.len();
    assert(i + 4 <= n);
    u32_from_le_bytes(slice_subrange(buffer.as_slice(), i, i + 4))
}

/// Parses the canonical RIFF/WAVE header of `buffer`.
///
/// Succeeds exactly when the buffer is at least 36 bytes long, carries the
/// `"RIFF"`/`"WAVEfmt "` magic, and holds a `"data"` tag with room for the
/// 4-byte size field after it; the first `"data"` occurrence found scanning
/// from offset 0 is used, even an incidental one inside an earlier field.
/// Purely read-only over the input; never panics.
pub fn get_wav_header(buffer: &Vec<u8>) -> (r: Result<WAVHeaderData, WavParseError>)
    ensures
        match r {
            Ok(h) => spec_parse_ok(buffer@) && parsed_from(h, buffer@),
            Err(e) => !spec_parse_ok(buffer@) && e == spec_parse_err(buffer@),
        },
{
    if buffer.len() < 36 {
        return Err(WavParseError::NotWavFormat);
    }
    let magic_ok: bool = buffer[0] == 0x52 && buffer[1] == 0x49 && buffer[2] == 0x46 && buffer[3]
        == 0x46 && buffer[8] == 0x57 && buffer[9] == 0x41 && buffer[10] == 0x56 && buffer[11]
        == 0x45 && buffer[12] == 0x66 && buffer[13] == 0x6d && buffer[14] == 0x74 && buffer[15]
        == 0x20;
    if !magic_ok {
        return Err(WavParseError::NotWavFormat);
    }
    let n: usize = buffer.len();
    let mut i: usize = 0;
    while i <= n - 4
        invariant
            n == buffer@.len(),
            36 <= n,
            i <= n,
            has_wav_magic(buffer@),
            forall|j: int| 0 <= j < i ==> !is_data_tag_at(buffer@, j),
        decreases n - i,
    {
        if buffer[i] == 0x64 && buffer[i + 1] == 0x61 && buffer[i + 2] == 0x74 && buffer[i + 3]
            == 0x61 {
            proof {
                lemma_first_tag_found(buffer@, 0, i as int);
            }
            if i <= n - 8 {
                let data_begin: usize = i + 8;
                let h = WAVHeaderData {
                    chunk_id: [0x52u8, 0x49u8, 0x46u8, 0x46u8],
                    chunk_size: read_le32(buffer, 4),
                    format: [0x57u8, 0x41u8, 0x56u8, 0x45u8],
                    subchunk1_id: [0x66u8, 0x6du8, 0x74u8, 0x20u8],
                    subchunk1_size: read_le32(buffer, 16),
                    audio_format: read_le16(buffer, 20),
                    num_channels: read_le16(buffer, 22),
                    sample_rate: read_le32(buffer, 24),
                    byte_rate: read_le32(buffer, 28),
                    block_align: read_le16(buffer, 32),
                    bits_per_sample: read_le16(buffer, 34),
                    subchunk2_id: [0x64u8, 0x61u8, 0x74u8, 0x61u8],
                    subchunk2_size: read_le32(buffer, i + 4),
                    data_begin,
                };
                proof {
                    assert(h.chunk_id@ =~= riff_tag());
                    assert(h.format@ =~= wave_tag());
                    assert(h.subchunk1_id@ =~= fmt_tag());
                    assert(h.subchunk2_id@ =~= data_tag());
                }
                return Ok(h);
            } else {
                return Err(WavParseError::DataChunkNotFound);
            }
        }
        i = i + 1;
    }
    proof {
        assert(forall|j: int| 0 <= j ==> !is_data_tag_at(buffer@, j));
        lemma_no_tag_found(buffer@, 0);
    }
    Err(WavParseError::DataChunkNotFound)
}

/// The two arithmetic consistency invariants of one header:
/// `byte_rate == sample_rate * num_channels * bits_per_sample / 8` and
/// `block_align == num_channels * bits_per_sample / 8`.
pub open spec fn spec_header_self_consistent(h: WAVHeaderData) -> bool {
    &&& h.byte_rate as int == (h.sample_rate as int * h.num_channels as int
        * h.bits_per_sample as int) / 8
    &&& h.block_align as int == (h.num_channels as int * h.bits_per_sample as int) / 8
}

/// Format compatibility of `h` against a reference header `r`: `h` is
/// self-consistent and the sample-format fields agree pairwise.
pub open spec fn spec_header_compatible(h: WAVHeaderData, r: WAVHeaderData) -> bool {
    &&& spec_header_self_consistent(h)
    &&& h.audio_format == r.audio_format
    &&& h.num_channels == r.num_channels
    &&& h.sample_rate == r.sample_rate
    &&& h.byte_rate == r.byte_rate
    &&& h.block_align == r.block_align
}

/// True iff both self-consistency invariants hold of `header`; a total
/// function with no side effects.
pub fn verify_wav_header(header: &WAVHeaderData) -> (r: bool)
    ensures
        r == spec_header_self_consistent(*header),
{
    proof {
        let sr: int = header.sample_rate as int;
        let nc: int = header.num_channels as int;
        let bps: int = header.bits_per_sample as int;
        assert(sr * nc <= 0xffff_ffff * 0xffff && sr * nc * bps <= 0xffff_ffff * 0xffff * 0xffff
            && nc * bps <= 0xffff * 0xffff) by (nonlinear_arith)
            requires
                0 <= sr <= 0xffff_ffff,
                0 <= nc <= 0xffff,
                0 <= bps <= 0xffff,
        ;
    }
    let product: u64 = (header.sample_rate as u64) * (header.num_channels as u64)
        * (header.bits_per_sample as u64);
    let rate_ok: bool = (header.byte_rate as u64) == product / 8;
    let align: u32 = (header.num_channels as u32) * (header.bits_per_sample as u32);
    let align_ok: bool = (header.block_align as u32) == align / 8;
    rate_ok && align_ok
}

/// True iff `header` is self-consistent and format-compatible with
/// `reference`; a total function with no side effects. `bits_per_sample`
/// is not compared directly: with equal channel counts and sample rates it
/// is pinned through `block_align` and `byte_rate` equality.
pub fn verify_wav_header_compatibility(header: &WAVHeaderData, reference: &WAVHeaderData) -> (r:
    bool)
    ensures
        r == spec_header_compatible(*header, *reference),
{
    let self_ok: bool = verify_wav_header(header);
    self_ok && header.audio_format == reference.audio_format && header.num_channels
        == reference.num_channels && header.sample_rate == reference.sample_rate
        && header.byte_rate == reference.byte_rate && header.block_align == reference.block_align
}

/// Returns the bytes of `bytes` from `data_offset` on: the raw sample
/// payload of a buffer whose header ends at `data_offset`.
pub fn remove_wav_header(bytes: Vec<u8>, data_offset: usize) -> (r: Vec<u8>)
    requires
        data_offset <= bytes@.len(),
    ensures
        r@ == bytes@.subrange(data_offset as int, bytes@.len() as int),
{
    let mut out: Vec<u8> = Vec::new();
    let mut i: usize = data_offset;
    while i < bytes.len()
        invariant
            data_offset <= i <= bytes@.len(),
            out@ == bytes@.subrange(data_offset as int, i as int),
        decreases bytes@.len() - i,
    {
        out.push(bytes[i]);
        i = i + 1;
        assert(out@ =~= bytes@.subrange(data_offset as int, i as int));
    }
    assert(out@ =~= bytes@.subrange(data_offset as int, bytes@.len() as int));
    out
}

/// The canonical 44-byte little-endian encoding of a header: the four ASCII
/// tags as raw bytes, every numeric field as little-endian of its width.
pub open spec fn header_bytes(h: WAVHeaderData) -> Seq<u8> {
    h.chunk_id@ + spec_u32_to_le_bytes(h.chunk_size) + h.format@ + h.subchunk1_id@
        + spec_u32_to_le_bytes(h.subchunk1_size) + spec_u16_to_le_bytes(h.audio_format)
        + spec_u16_to_le_bytes(h.num_channels) + spec_u32_to_le_bytes(h.sample_rate)
        + spec_u32_to_le_bytes(h.byte_rate) + spec_u16_to_le_bytes(h.block_align)
        + spec_u16_to_le_bytes(h.bits_per_sample) + h.subchunk2_id@ + spec_u32_to_le_bytes(
        h.subchunk2_size,
    )
}

/// Appends the four bytes of `tag` to `out`.
fn push_tag(out: &mut Vec<u8>, tag: &[u8; 4])
    ensures
        final(out)@ == old(out)@ + tag@,
{
    out.push(tag[0]);
    out.push(tag[1]);
    out.push(tag[2]);
    out.push(tag[3]);
    assert(out@ =~= old(out)@ + tag@);
}

/// Returns `bytes` with its first 44 bytes overwritten by the canonical
/// encoding of `new_header_data`, every byte from offset 44 on unchanged.
pub fn overwrite_wav_header(bytes: Vec<u8>, new_header_data: WAVHeaderData) -> (r: Vec<u8>)
    requires
        bytes@.len() >= 44,
    ensures
        r@ == header_bytes(new_header_data) + bytes@.subrange(44, bytes@.len() as int),
        r@.len() == bytes@.len(),
{
    proof {
        vstd::bytes::lemma_auto_spec_u16_to_from_le_bytes();
        vstd::bytes::lemma_auto_spec_u32_to_from_le_bytes();
    }
    let h = new_header_data;
    let mut out: Vec<u8> = Vec::new();
    push_tag(&mut out, &h.chunk_id);
    let mut piece: Vec<u8> = vstd::bytes::u32_to_le_bytes(h.chunk_size);
    out.append(&mut piece);
    push_tag(&mut out, &h.format);
    push_tag(&mut out, &h.subchunk1_id);
    let mut piece: Vec<u8> = vstd::bytes::u32_to_le_bytes(h.subchunk1_size);
    out.append(&mut piece);
    let mut piece: Vec<u8> = vstd::bytes::u16_to_le_bytes(h.audio_format);
    out.append(&mut piece);
    let mut piece: Vec<u8> = vstd::bytes::u16_to_le_bytes(h.num_channels);
    out.append(&mut piece);
    let mut piece: Vec<u8> = vstd::bytes::u32_to_le_bytes(h.sample_rate);
    out.append(&mut piece);
    let mut piece: Vec<u8> = vstd::bytes::u32_to_le_bytes(h.byte_rate);
    out.append(&mut piece);
    let mut piece: Vec<u8> = vstd::bytes::u16_to_le_bytes(h.block_align);
    out.append(&mut piece);
    let mut piece: Vec<u8> = vstd::bytes::u16_to_le_bytes(h.bits_per_sample);
    out.append(&mut piece);
    push_tag(&mut out, &h.subchunk2_id);
    let mut piece: Vec<u8> = vstd::bytes::u32_to_le_bytes(h.subchunk2_size);
    out.append(&mut piece);
    let mut tail: Vec<u8> = vstd::slice::slice_to_vec(
        slice_subrange(bytes.as_slice(), 44, bytes.len()),
    );
    out.append(&mut tail);
    out
}

/// A valid single canonical WAV buffer: the magic tags, the `"data"` tag at
/// offset 36 and nowhere earlier, room for the 44-byte header, and encoded
/// fields that satisfy both self-consistency invariants.
pub open spec fn spec_canonical_wav(b: Seq<u8>) -> bool {
    &&& b.len() >= 44
    &&& has_wav_magic(b)
    &&& is_data_tag_at(b, 36)
    &&& (forall|j: int| 0 <= j < 36 ==> !is_data_tag_at(b, j))
    &&& spec_le32_at(b, 28) as int == (spec_le32_at(b, 24) as int * spec_le16_at(b, 22) as int
        * spec_le16_at(b, 34) as int) / 8
    &&& spec_le16_at(b, 32) as int == (spec_le16_at(b, 22) as int * spec_le16_at(b, 34) as int) / 8
}

/// Every valid canonical WAV buffer parses, its sample data begins at
/// offset 44, and the header it parses to passes the self-consistency check.
pub proof fn lemma_canonical_parses(b: Seq<u8>)
    requires
        spec_canonical_wav(b),
    ensures
        spec_parse_ok(b),
        spec_data_begin(b) == 44,
        forall|h: WAVHeaderData| parsed_from(h, b) ==> spec_header_self_consistent(h),
{
    lemma_first_tag_found(b, 0, 36);
}

/// Re-encoding a header and parsing the result gives the header back: for
/// any `h` whose four tag fields are canonical and whose encoding holds no
/// stray `"data"` tag before offset 36, parsing `header_bytes(h) + rest`
/// succeeds, finds the sample data at offset 44, and extracts every field
/// of `h` unchanged, whatever bytes `rest` holds.
pub proof fn lemma_serialize_parse_roundtrip(h: WAVHeaderData, rest: Seq<u8>)
    requires
        h.chunk_id@ == riff_tag(),
        h.format@ == wave_tag(),
        h.subchunk1_id@ == fmt_tag(),
        h.subchunk2_id@ == data_tag(),
        forall|j: int| 0 <= j < 36 ==> !is_data_tag_at(header_bytes(h) + rest, j),
    ensures
        spec_parse_ok(header_bytes(h) + rest),
        spec_data_begin(header_bytes(h) + rest) == 44,
        forall|g: WAVHeaderData|
            parsed_from(g, header_bytes(h) + rest) ==> g == (WAVHeaderData {
                data_begin: 44usize,
                ..h
            }),
{
    vstd::bytes::lemma_auto_spec_u16_to_from_le_bytes();
    vstd::bytes::lemma_auto_spec_u32_to_from_le_bytes();
    let s = header_bytes(h) + rest;
    assert(header_bytes(h).len() == 44);
    assert(s.subrange(0, 4) =~= h.chunk_id@);
    assert(s.subrange(4, 8) =~= spec_u32_to_le_bytes(h.chunk_size));
    assert(s.subrange(8, 12) =~= h.format@);
    assert(s.subrange(12, 16) =~= h.subchunk1_id@);
    assert(s.subrange(16, 20) =~= spec_u32_to_le_bytes(h.subchunk1_size));
    assert(s.subrange(20, 22) =~= spec_u16_to_le_bytes(h.audio_format));
    assert(s.subrange(22, 24) =~= spec_u16_to_le_bytes(h.num_channels));
    assert(s.subrange(24, 28) =~= spec_u32_to_le_bytes(h.sample_rate));
    assert(s.subrange(28, 32) =~= spec_u32_to_le_bytes(h.byte_rate));
    assert(s.subrange(32, 34) =~= spec_u16_to_le_bytes(h.block_align));
    assert(s.subrange(34, 36) =~= spec_u16_to_le_bytes(h.bits_per_sample));
    assert(s.subrange(36, 40) =~= h.subchunk2_id@);
    assert(s.subrange(40, 44) =~= spec_u32_to_le_bytes(h.subchunk2_size));
    assert(is_data_tag_at(s, 36));
    lemma_first_tag_found(s, 0, 36);
    assert forall|g: WAVHeaderData| parsed_from(g, s) implies g == (WAVHeaderData {
        data_begin: 44usize,
        ..h
    }) by {
        assert(g.chunk_id@ =~= h.chunk_id@);
        assert(g.format@ =~= h.format@);
        assert(g.subchunk1_id@ =~= h.subchunk1_id@);
        assert(g.subchunk2_id@ =~= h.subchunk2_id@);
        assert(g.chunk_id =~= h.chunk_id);
        assert(g.format =~= h.format);
        assert(g.subchunk1_id =~= h.subchunk1_id);
        assert(g.subchunk2_id =~= h.subchunk2_id);
    }
}

} // verus!
