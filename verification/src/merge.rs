//! The concatenation driver: parses and validates every input buffer
//! against the first one, then splices their sample payloads behind a
//! single rewritten header.

use vstd::prelude::*;
use vstd::bytes::spec_u32_to_le_bytes;
use crate::header::WAVHeaderData;
use crate::header::WavParseError;
use crate::header::data_tag;
use crate::header::get_wav_header;
use crate::header::is_data_tag_at;
use crate::header::header_bytes;
use crate::header::overwrite_wav_header;
use crate::header::parsed_from;
use crate::header::riff_tag;
use crate::header::spec_data_begin;
use crate::header::spec_le16_at;
use crate::header::spec_le32_at;
use crate::header::spec_parse_err;
use crate::header::spec_parse_ok;
use crate::header::spec_payload;
use crate::header::spec_sub2;
use crate::header::verify_wav_header;
use crate::header::verify_wav_header_compatibility;

verus! {

/// Why a whole concatenation was abandoned. No output is produced on any
/// error: validation of every buffer precedes the first write.
#[derive(Clone, Copy, PartialEq, Eq, Debug)]
pub enum ConcatError {
    /// The input sequence holds no buffers.
    EmptyInput,
    /// The first buffer's own header fails the self-consistency checks, or
    /// that buffer is too short to carry the rewritten 44-byte header.
    InvalidReferenceHeader,
    /// The buffer at `index` could not be parsed as a WAV file.
    ParseFailed { index: usize, error: WavParseError },
    /// The header of the buffer at `index` fails self-consistency or the
    /// cross-format equality checks against the reference header.
    IncompatibleHeader { index: usize },
    /// The combined payload length does not fit the 32-bit size fields.
    SizeOverflow,
}

/// The views of a sequence of byte vectors.
pub open spec fn seq_views(ds: Seq<Vec<u8>>) -> Seq<Seq<u8>> {
    ds.map_values(|d: Vec<u8>| d@)
}

/// Self-consistency of the header encoded in `b`, read off the bytes.
pub open spec fn spec_self_ok(b: Seq<u8>) -> bool {
    &&& spec_le32_at(b, 28) as int == (spec_le32_at(b, 24) as int * spec_le16_at(b, 22) as int
        * spec_le16_at(b, 34) as int) / 8
    &&& spec_le16_at(b, 32) as int == (spec_le16_at(b, 22) as int * spec_le16_at(b, 34) as int) / 8
}

/// Format compatibility of the header encoded in `b` against the one
/// encoded in `r`: self-consistency of `b`'s header plus pairwise equality
/// of audio format, channel count, sample rate, byte rate and block align.
pub open spec fn spec_compat(b: Seq<u8>, r: Seq<u8>) -> bool {
    &&& spec_self_ok(b)
    &&& spec_le16_at(b, 20) == spec_le16_at(r, 20)
    &&& spec_le16_at(b, 22) == spec_le16_at(r, 22)
    &&& spec_le32_at(b, 24) == spec_le32_at(r, 24)
    &&& spec_le32_at(b, 28) == spec_le32_at(r, 28)
    &&& spec_le16_at(b, 32) == spec_le16_at(r, 32)
}

/// The first failure among the per-buffer checks at or after index `i`:
/// every buffer must parse and be format-compatible with the first.
pub open spec fn spec_first_check_error(bs: Seq<Seq<u8>>, i: int) -> Option<ConcatError>
    decreases bs.len() - i,
{
    if i >= bs.len() {
        None
    } else if !spec_parse_ok(bs[i]) {
        Some(ConcatError::ParseFailed { index: i as usize, error: spec_parse_err(bs[i]) })
    } else if !spec_compat(bs[i], bs[0]) {
        Some(ConcatError::IncompatibleHeader { index: i as usize })
    } else {
        spec_first_check_error(bs, i + 1)
    }
}

/// The sum of the declared payload sizes over all buffers.
pub open spec fn spec_total_sub2(bs: Seq<Seq<u8>>) -> int
    decreases bs.len(),
{
    if bs.len() == 0 {
        0
    } else {
        spec_total_sub2(bs.drop_last()) + spec_sub2(bs.last())
    }
}

/// The raw payloads of the buffers with indices in `[from, to)`,
/// concatenated in input order.
pub open spec fn spec_payloads(bs: Seq<Seq<u8>>, from: int, to: int) -> Seq<u8>
    decreases to - from,
{
    if from >= to {
        Seq::empty()
    } else {
        spec_payloads(bs, from, to - 1) + spec_payload(bs[to - 1])
    }
}

/// The first 44 bytes of the synthesized output: the first buffer's header
/// with `chunk_size` rewritten to `36 + total` (the RIFF-standard formula),
/// the `"data"` tag placed at offset 36, and `subchunk2_size` rewritten to
/// the combined payload total.
pub open spec fn spec_output_head(bs: Seq<Seq<u8>>) -> Seq<u8> {
    bs[0].subrange(0, 4) + spec_u32_to_le_bytes((36 + spec_total_sub2(bs)) as u32)
        + bs[0].subrange(8, 36) + data_tag() + spec_u32_to_le_bytes(spec_total_sub2(bs) as u32)
}

/// The synthesized output stream: the rewritten header, the first buffer's
/// bytes from offset 44 on, then the raw payload of every later buffer.
pub open spec fn spec_output(bs: Seq<Seq<u8>>) -> Seq<u8> {
    spec_output_head(bs) + bs[0].subrange(44, bs[0].len() as int) + spec_payloads(
        bs,
        1,
        bs.len() as int,
    )
}

/// The whole concatenation, pinned down as a function of the input
/// buffers: either the exact output bytes or the exact error.
pub open spec fn spec_concat_result(bs: Seq<Seq<u8>>) -> Result<Seq<u8>, ConcatError> {
    if bs.len() == 0 {
        Err(ConcatError::EmptyInput)
    } else if !spec_parse_ok(bs[0]) {
        Err(ConcatError::ParseFailed { index: 0, error: spec_parse_err(bs[0]) })
    } else if !spec_self_ok(bs[0]) || bs[0].len() < 44 {
        Err(ConcatError::InvalidReferenceHeader)
    } else {
        match spec_first_check_error(bs, 0) {
            Some(e) => Err(e),
            None => if 36 + spec_total_sub2(bs) > u32::MAX {
                Err(ConcatError::SizeOverflow)
            } else {
                Ok(spec_output(bs))
            },
        }
    }
}

/// Walking the checks from `k` up to a failing index `i` reports exactly
/// the failure at `i` when every index before it passes.
proof fn lemma_first_check_error_at(bs: Seq<Seq<u8>>, k: int, i: int)
    requires
        0 <= k <= i < bs.len(),
        forall|j: int| k <= j < i ==> spec_parse_ok(bs[j]) && spec_compat(bs[j], bs[0]),
        !(spec_parse_ok(bs[i]) && spec_compat(bs[i], bs[0])),
    ensures
        spec_first_check_error(bs, k) == (if !spec_parse_ok(bs[i]) {
            Some(ConcatError::ParseFailed { index: i as usize, error: spec_parse_err(bs[i]) })
        } else {
            Some(ConcatError::IncompatibleHeader { index: i as usize })
        }),
    decreases i - k,
{
    if k < i {
        lemma_first_check_error_at(bs, k + 1, i);
    }
}

/// When every buffer from `k` on passes its checks, the walk reports no
/// failure.
proof fn lemma_first_check_error_none(bs: Seq<Seq<u8>>, k: int)
    requires
        0 <= k,
        forall|j: int| k <= j < bs.len() ==> spec_parse_ok(bs[j]) && spec_compat(bs[j], bs[0]),
    ensures
        spec_first_check_error(bs, k) == None::<ConcatError>,
    decreases bs.len() - k,
{
    if k < bs.len() {
        lemma_first_check_error_none(bs, k + 1);
    }
}

/// Extending a prefix by one buffer adds that buffer's declared payload
/// size to the running total.
proof fn lemma_total_sub2_take_step(bs: Seq<Seq<u8>>, i: int)
    requires
        0 <= i < bs.len(),
    ensures
        spec_total_sub2(bs.take(i + 1)) == spec_total_sub2(bs.take(i)) + spec_sub2(bs[i]),
{
    assert(bs.take(i + 1).drop_last() =~= bs.take(i));
    assert(bs.take(i + 1).last() == bs[i]);
}

/// Concatenates an ordered sequence of WAV byte buffers into one WAV byte
/// stream, or reports exactly why the whole operation was abandoned.
///
/// Every buffer is parsed and validated against the first one before a
/// single output byte is produced, so a failure never leaves partial
/// output. On success the result is the first buffer with its header
/// rewritten -- `subchunk2_size` set to the sum of all declared payload
/// sizes and `chunk_size` set to that sum plus 36, the RIFF-standard
/// formula -- followed by the raw payload of every later buffer.
pub fn wav_concat(datas: &Vec<Vec<u8>>) -> (r: Result<Vec<u8>, ConcatError>)
    ensures
        match r {
            Ok(out) => spec_concat_result(seq_views(datas@)) == Ok::<Seq<u8>, ConcatError>(out@),
            Err(e) => spec_concat_result(seq_views(datas@)) == Err::<Seq<u8>, ConcatError>(e),
        },
{
    let ghost bs = seq_views(datas@);
    let n: usize = datas.len();
    if n == 0 {
        return Err(ConcatError::EmptyInput);
    }
    let first: &Vec<u8> = &datas[0];
    let ref_header: WAVHeaderData = match get_wav_header(first) {
        Ok(h) => h,
        Err(e) => {
            return Err(ConcatError::ParseFailed { index: 0, error: e });
        },
    };
    if !verify_wav_header(&ref_header) || first.len() < 44 {
        return Err(ConcatError::InvalidReferenceHeader);
    }
    let mut begins: Vec<usize> = Vec::new();
    let mut total: u64 = 0;
    let mut i: usize = 0;
    while i < n
        invariant
            n == datas@.len(),
            bs == seq_views(datas@),
            bs.len() == n,
            0 < n,
            i <= n,
            parsed_from(ref_header, bs[0]),
            spec_parse_ok(bs[0]),
            spec_self_ok(bs[0]),
            bs[0].len() >= 44,
            forall|j: int| 0 <= j < i ==> spec_parse_ok(bs[j]) && spec_compat(bs[j], bs[0]),
            begins@.len() == i,
            forall|j: int| 0 <= j < i ==> begins@[j] as int == spec_data_begin(bs[j]),
            total <= 0x1_ffff_fffeu64,
            total <= 0xffff_ffffu64 ==> total as int == spec_total_sub2(bs.take(i as int)),
            total > 0xffff_ffffu64 ==> spec_total_sub2(bs.take(i as int)) >= total,
        decreases n - i,
    {
        let data: &Vec<u8> = &datas[i];
        let h: WAVHeaderData = match get_wav_header(data) {
            Ok(h) => h,
            Err(e) => {
                proof {
                    lemma_first_check_error_at(bs, 0, i as int);
                }
                return Err(ConcatError::ParseFailed { index: i, error: e });
            },
        };
        if !verify_wav_header_compatibility(&h, &ref_header) {
            proof {
                lemma_first_check_error_at(bs, 0, i as int);
            }
            return Err(ConcatError::IncompatibleHeader { index: i });
        }
        proof {
            assert(bs[i as int] == datas@[i as int]@);
            assert forall|j: int| 0 <= j < i as int + 1 implies spec_parse_ok(bs[j])
                && spec_compat(bs[j], bs[0]) by {
                if j == i as int {
                    assert(spec_parse_ok(bs[j]) && spec_compat(bs[j], bs[0]));
                }
            }
        }
        begins.push(h.data_begin);
        if total <= 0xffff_ffffu64 {
            total = total + (h.subchunk2_size as u64);
        }
        proof {
            lemma_total_sub2_take_step(bs, i as int);
        }
        i = i + 1;
    }
    proof {
        lemma_first_check_error_none(bs, 0);
        assert(bs.take(n as int) =~= bs);
    }
    if total > 0xffff_ffffu64 - 36 {
        return Err(ConcatError::SizeOverflow);
    }
    let total32: u32 = total as u32;
    let mut synthesized: WAVHeaderData = ref_header;
    synthesized.subchunk2_size = total32;
    synthesized.chunk_size = 36 + total32;
    let first_copy: Vec<u8> = vstd::slice::slice_to_vec(first.as_slice());
    let mut out: Vec<u8> = overwrite_wav_header(first_copy, synthesized);
    proof {
        vstd::bytes::lemma_auto_spec_u16_to_from_le_bytes();
        vstd::bytes::lemma_auto_spec_u32_to_from_le_bytes();
        assert(riff_tag() =~= bs[0].subrange(0, 4));
        assert(synthesized.format@ =~= bs[0].subrange(8, 12));
        assert(synthesized.subchunk1_id@ =~= bs[0].subrange(12, 16));
        assert(spec_u32_to_le_bytes(synthesized.subchunk1_size) == bs[0].subrange(16, 20));
        assert(vstd::bytes::spec_u16_to_le_bytes(synthesized.audio_format) == bs[0].subrange(
            20,
            22,
        ));
        assert(vstd::bytes::spec_u16_to_le_bytes(synthesized.num_channels) == bs[0].subrange(
            22,
            24,
        ));
        assert(spec_u32_to_le_bytes(synthesized.sample_rate) == bs[0].subrange(24, 28));
        assert(spec_u32_to_le_bytes(synthesized.byte_rate) == bs[0].subrange(28, 32));
        assert(vstd::bytes::spec_u16_to_le_bytes(synthesized.block_align) == bs[0].subrange(
            32,
            34,
        ));
        assert(vstd::bytes::spec_u16_to_le_bytes(synthesized.bits_per_sample) == bs[0].subrange(
            34,
            36,
        ));
        assert(header_bytes(synthesized) =~= spec_output_head(bs));
        assert(out@ =~= spec_output_head(bs) + bs[0].subrange(44, bs[0].len() as int)
            + spec_payloads(bs, 1, 1));
    }
    let mut k: usize = 1;
    while k < n
        invariant
            n == datas@.len(),
            bs == seq_views(datas@),
            bs.len() == n,
            1 <= k <= n,
            begins@.len() == n,
            forall|j: int| 0 <= j < n ==> spec_parse_ok(bs[j]),
            forall|j: int| 0 <= j < n ==> begins@[j] as int == spec_data_begin(bs[j]),
            out@ == spec_output_head(bs) + bs[0].subrange(44, bs[0].len() as int) + spec_payloads(
                bs,
                1,
                k as int,
            ),
        decreases n - k,
    {
        let data: &Vec<u8> = &datas[k];
        let begin: usize = begins[k];
        let ghost out_snap = out@;
        let mut j: usize = begin;
        while j < data.len()
            invariant
                data@ == bs[k as int],
                begin as int == spec_data_begin(bs[k as int]),
                begin <= j <= data@.len(),
                out@ == out_snap + data@.subrange(begin as int, j as int),
            decreases data@.len() - j,
        {
            out.push(data[j]);
            j = j + 1;
            assert(out@ =~= out_snap + data@.subrange(begin as int, j as int));
        }
        proof {
            assert(data@.subrange(begin as int, data@.len() as int) == spec_payload(
                bs[k as int],
            ));
            assert(out@ =~= spec_output_head(bs) + bs[0].subrange(44, bs[0].len() as int)
                + spec_payloads(bs, 1, k as int + 1));
        }
        k = k + 1;
    }
    proof {
        assert(out@ =~= spec_output(bs));
    }
    Ok(out)
}

/// The sum of the byte lengths of all buffers.
pub open spec fn spec_sum_len(bs: Seq<Seq<u8>>) -> int
    decreases bs.len(),
{
    if bs.len() == 0 {
        0
    } else {
        spec_sum_len(bs.drop_last()) + bs.last().len()
    }
}

/// Concatenating a single buffer with itself as a one-element sequence
/// yields that buffer back byte for byte, whenever its header is
/// self-consistent, its sample data begins at the canonical offset 44, and
/// its declared RIFF chunk size already carries the standard value
/// `36 + subchunk2_size`.
pub proof fn lemma_concat_single_identity(b: Seq<u8>)
    requires
        spec_parse_ok(b),
        spec_self_ok(b),
        spec_data_begin(b) == 44,
        spec_le32_at(b, 4) as int == 36 + spec_sub2(b) as int,
    ensures
        spec_concat_result(seq![b]) == Ok::<Seq<u8>, ConcatError>(b),
{
    vstd::bytes::lemma_auto_spec_u32_to_from_le_bytes();
    let bs = seq![b];
    assert(bs[0] == b);
    assert(spec_compat(b, b));
    lemma_first_check_error_none(bs, 0);
    assert(bs.drop_last() =~= Seq::<Seq<u8>>::empty());
    assert(bs.last() == b);
    assert(spec_total_sub2(Seq::<Seq<u8>>::empty()) == 0);
    assert(spec_total_sub2(bs) == spec_sub2(b) as int);
    crate::header::lemma_first_tag_props(b, 0);
    assert(is_data_tag_at(b, 36));
    assert((36 + spec_total_sub2(bs)) as u32 == spec_le32_at(b, 4));
    assert(spec_u32_to_le_bytes((36 + spec_total_sub2(bs)) as u32) == b.subrange(4, 8));
    assert(spec_u32_to_le_bytes(spec_total_sub2(bs) as u32) == b.subrange(40, 44));
    assert(data_tag() =~= b.subrange(36, 40));
    assert(spec_output(bs) =~= b);
}

/// The running total of declared payload sizes is a sum of unsigned
/// values, so it is never negative.
proof fn lemma_total_sub2_nonneg(bs: Seq<Seq<u8>>)
    ensures
        spec_total_sub2(bs) >= 0,
    decreases bs.len(),
{
    if bs.len() > 0 {
        lemma_total_sub2_nonneg(bs.drop_last());
    }
}

/// By induction: when every buffer's declared payload size matches its
/// actual payload length, the running total is the summed byte length
/// minus one 44-byte header per buffer.
proof fn lemma_totals_ind(bs: Seq<Seq<u8>>)
    requires
        forall|i: int| 0 <= i < bs.len() ==> spec_parse_ok(bs[i]),
        forall|i: int| 0 <= i < bs.len() ==> spec_data_begin(bs[i]) == 44,
        forall|i: int| 0 <= i < bs.len() ==> spec_sub2(bs[i]) as int == bs[i].len() - 44,
    ensures
        spec_total_sub2(bs) == spec_sum_len(bs) - 44 * bs.len(),
    decreases bs.len(),
{
    if bs.len() > 0 {
        lemma_totals_ind(bs.drop_last());
    }
}

/// By induction: the spliced payloads of buffers `[1, to)` are exactly
/// their summed byte lengths minus one 44-byte header each.
proof fn lemma_payloads_len(bs: Seq<Seq<u8>>, to: int)
    requires
        1 <= to <= bs.len(),
        forall|i: int| 0 <= i < bs.len() ==> spec_parse_ok(bs[i]),
        forall|i: int| 0 <= i < bs.len() ==> spec_data_begin(bs[i]) == 44,
    ensures
        spec_payloads(bs, 1, to).len() == spec_sum_len(bs.take(to)) - bs[0].len() - 44 * (to - 1),
    decreases to,
{
    if to == 1 {
        assert(bs.take(1).drop_last() =~= Seq::<Seq<u8>>::empty());
        assert(bs.take(1).last() == bs[0]);
        assert(spec_sum_len(Seq::<Seq<u8>>::empty()) == 0);
    } else {
        lemma_payloads_len(bs, to - 1);
        assert(bs.take(to).drop_last() =~= bs.take(to - 1));
        assert(bs.take(to).last() == bs[to - 1]);
        assert(spec_payload(bs[to - 1]).len() == bs[to - 1].len() - 44);
    }
}

/// Concatenating buffers that all share the first buffer's format and
/// declare their true payload lengths succeeds; the output declares a
/// payload equal to the exact sum of the inputs' payload byte lengths, and
/// its total byte length is the sum of all input lengths minus one 44-byte
/// header for each buffer after the first.
pub proof fn lemma_concat_totals(bs: Seq<Seq<u8>>)
    requires
        bs.len() >= 1,
        spec_self_ok(bs[0]),
        forall|i: int| 0 <= i < bs.len() ==> spec_parse_ok(bs[i]) && spec_compat(bs[i], bs[0]),
        forall|i: int| 0 <= i < bs.len() ==> spec_data_begin(bs[i]) == 44,
        forall|i: int| 0 <= i < bs.len() ==> spec_sub2(bs[i]) as int == bs[i].len() - 44,
        36 + spec_total_sub2(bs) <= u32::MAX,
    ensures
        spec_concat_result(bs) == Ok::<Seq<u8>, ConcatError>(spec_output(bs)),
        spec_le32_at(spec_output(bs), 40) as int == spec_total_sub2(bs),
        spec_total_sub2(bs) == spec_sum_len(bs) - 44 * bs.len(),
        spec_output(bs).len() == spec_sum_len(bs) - 44 * (bs.len() - 1),
{
    vstd::bytes::lemma_auto_spec_u32_to_from_le_bytes();
    lemma_first_check_error_none(bs, 0);
    lemma_totals_ind(bs);
    lemma_total_sub2_nonneg(bs);
    lemma_payloads_len(bs, bs.len() as int);
    assert(bs.take(bs.len() as int) =~= bs);
    assert(spec_output(bs).subrange(40, 44) =~= spec_u32_to_le_bytes(spec_total_sub2(bs) as u32));
    assert(spec_le32_at(spec_output(bs), 40) as int == spec_total_sub2(bs));
}

/// Concatenating two buffers whose headers declare different sample rates
/// fails with `IncompatibleHeader` at index 1; no output is produced.
pub proof fn lemma_concat_rate_mismatch(b0: Seq<u8>, b1: Seq<u8>)
    requires
        spec_parse_ok(b0),
        spec_self_ok(b0),
        b0.len() >= 44,
        spec_parse_ok(b1),
        spec_le32_at(b0, 24) != spec_le32_at(b1, 24),
    ensures
        spec_concat_result(seq![b0, b1]) == Err::<Seq<u8>, ConcatError>(
            ConcatError::IncompatibleHeader { index: 1 },
        ),
{
    let bs = seq![b0, b1];
    assert(bs[0] == b0);
    assert(bs[1] == b1);
    assert(spec_compat(b0, b0));
    assert(!spec_compat(b1, b0));
    lemma_first_check_error_at(bs, 0, 1);
}

} // verus!
