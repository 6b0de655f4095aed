//! The tile-layer data pipeline: turn the encoded, possibly compressed
//! payload of a layer's `data` element into the ordered list of 32-bit tile
//! GIDs, or fail with the precise error the input deserves.
//!
//! CSV text is scanned for maximal runs of ASCII digits; everything else in
//! the text separates runs. Base64 text is trimmed of surrounding ASCII
//! whitespace, decoded, optionally decompressed, and reinterpreted as packed
//! little-endian unsigned 32-bit words.

use vstd::prelude::*;

use crate::TmxError;
use crate::codec::{
    b64_decode, b64_decode_spec, gzip_decompress, gzip_decompress_spec, zlib_decompress,
    zlib_decompress_spec,
};
use crate::text::{
    all_digit_bytes, dec_val_bytes, digit_byte_val, is_digit_byte, is_space_byte,
    lemma_dec_val_bytes_nonneg, str_eq,
};

verus! {

/// How a layer's payload text encodes its tile GIDs. `XML` is the inline
/// element-per-tile form, used when the `encoding` attribute is absent.
#[derive(Debug, Clone, Copy, PartialEq, Eq, Structural)]
pub enum DataEncoding {
    Base64,
    CSV,
    XML,
}

/// How a base64 payload is compressed, if at all.
#[derive(Debug, Clone, Copy, PartialEq, Eq, Structural)]
pub enum DataCompression {
    Uncompressed,
    Zlib,
    Gzip,
}

// ---------------------------------------------------------------------------
// Whitespace trimming.
// ---------------------------------------------------------------------------

/// The input without its leading and trailing ASCII whitespace.
pub open spec fn trim_spec(s: Seq<u8>) -> Seq<u8>
    decreases s.len(),
{
    if s.len() == 0 {
        s
    } else if is_space_byte(s[0]) {
        trim_spec(s.drop_first())
    } else if is_space_byte(s.last()) {
        trim_spec(s.drop_last())
    } else {
        s
    }
}

/// A sequence with no whitespace anywhere is left unchanged by trimming.
pub proof fn lemma_trim_spec_no_space(s: Seq<u8>)
    requires
        forall|i: int| 0 <= i < s.len() ==> !is_space_byte(#[trigger] s[i]),
    ensures
        trim_spec(s) == s,
{
}

fn is_space_b(b: u8) -> (r: bool)
    ensures
        r == is_space_byte(b),
{
    b == 32 || (9 <= b && b <= 13)
}

fn trim_ascii(text: &[u8]) -> (r: &[u8])
    ensures
        r@ == trim_spec(text@),
{
    let ghost s = text@;
    let mut a: usize = 0;
    let mut b: usize = text.len();
    proof {
        assert(s.subrange(0, s.len() as int) =~= s);
    }
    while a < b && is_space_b(text[a])
        invariant
            0 <= a <= b <= s.len(),
            text@ == s,
            trim_spec(s) == trim_spec(s.subrange(a as int, b as int)),
        decreases b - a,
    {
        proof {
            let sub = s.subrange(a as int, b as int);
            assert(sub.drop_first() =~= s.subrange(a as int + 1, b as int));
        }
        a = a + 1;
    }
    while a < b && is_space_b(text[b - 1])
        invariant
            0 <= a <= b <= s.len(),
            text@ == s,
            trim_spec(s) == trim_spec(s.subrange(a as int, b as int)),
            a == b || !is_space_byte(s[a as int]),
        decreases b - a,
    {
        proof {
            let sub = s.subrange(a as int, b as int);
            assert(sub.drop_last() =~= s.subrange(a as int, b as int - 1));
        }
        b = b - 1;
    }
    proof {
        let sub = s.subrange(a as int, b as int);
        if a == b {
            assert(sub =~= Seq::<u8>::empty());
        } else {
            assert(sub[0] == s[a as int]);
            assert(sub.last() == s[b as int - 1]);
            assert(trim_spec(sub) == sub);
        }
    }
    &text[a..b]
}

// ---------------------------------------------------------------------------
// CSV scanning: maximal runs of ASCII digits, in document order.
// ---------------------------------------------------------------------------

/// The digit runs of `s`, given a run `cur` already in progress.
pub open spec fn csv_runs_acc(s: Seq<u8>, cur: Seq<u8>) -> Seq<Seq<u8>>
    decreases s.len(),
{
    if s.len() == 0 {
        if cur.len() > 0 {
            seq![cur]
        } else {
            Seq::empty()
        }
    } else if is_digit_byte(s[0]) {
        csv_runs_acc(s.drop_first(), cur.push(s[0]))
    } else if cur.len() > 0 {
        seq![cur] + csv_runs_acc(s.drop_first(), Seq::empty())
    } else {
        csv_runs_acc(s.drop_first(), Seq::empty())
    }
}

/// Every maximal run of ASCII digits in `s`, in order.
pub open spec fn csv_runs(s: Seq<u8>) -> Seq<Seq<u8>> {
    csv_runs_acc(s, Seq::empty())
}

/// Every digit run of `s` fits in an unsigned 32-bit integer.
pub open spec fn csv_ok(s: Seq<u8>) -> bool {
    forall|i: int|
        0 <= i < csv_runs(s).len() ==> dec_val_bytes(#[trigger] csv_runs(s)[i]) <= u32::MAX
}

/// The numeric values of the digit runs of `s`.
pub open spec fn csv_values(s: Seq<u8>) -> Seq<u32> {
    csv_runs(s).map_values(|r: Seq<u8>| dec_val_bytes(r) as u32)
}

/// What CSV decoding returns on the bytes of the payload text.
pub open spec fn csv_decode_spec(s: Seq<u8>) -> Result<Seq<u32>, TmxError> {
    if csv_ok(s) {
        Ok(csv_values(s))
    } else {
        Err(TmxError::MalformedTileData)
    }
}

/// The first run that `csv_runs_acc` emits while a run is open is the open
/// run extended by at least the digit under the cursor, so its value is at
/// least the value accumulated so far.
proof fn lemma_first_run_value(s: Seq<u8>, cur: Seq<u8>)
    requires
        s.len() > 0,
        is_digit_byte(s[0]),
        all_digit_bytes(cur),
    ensures
        csv_runs_acc(s, cur).len() >= 1,
        dec_val_bytes(csv_runs_acc(s, cur)[0]) >= dec_val_bytes(cur.push(s[0])),
    decreases s.len(),
{
    let cur2 = cur.push(s[0]);
    assert(all_digit_bytes(cur2));
    assert(cur2.drop_last() =~= cur);
    let s2 = s.drop_first();
    assert(csv_runs_acc(s, cur) == csv_runs_acc(s2, cur2));
    if s2.len() == 0 {
        assert(csv_runs_acc(s2, cur2) == seq![cur2]);
    } else if is_digit_byte(s2[0]) {
        lemma_first_run_value(s2, cur2);
        assert(cur2.push(s2[0]).drop_last() =~= cur2);
        lemma_dec_val_bytes_nonneg(cur2);
        assert(dec_val_bytes(cur2.push(s2[0])) >= dec_val_bytes(cur2));
    } else {
        assert(csv_runs_acc(s2, cur2)[0] == cur2);
    }
}

/// Decode CSV payload text: the values of its digit runs, or
/// `MalformedTileData` when some run exceeds `u32::MAX`.
fn csv_decode(text: &[u8]) -> (r: Result<Vec<u32>, TmxError>)
    ensures
        tile_result_matches(r, csv_decode_spec(text@)),
{
    let ghost s = text@;
    let n = text.len();
    let mut out: Vec<u32> = Vec::new();
    let ghost mut done: Seq<Seq<u8>> = Seq::empty();
    let ghost mut cur: Seq<u8> = Seq::empty();
    let mut acc: u64 = 0;
    let mut in_run: bool = false;
    let mut i: usize = 0;
    proof {
        assert(s.skip(0) =~= s);
        assert(Seq::<Seq<u8>>::empty() + csv_runs(s) =~= csv_runs(s));
    }
    while i < n
        invariant
            n == s.len(),
            text@ == s,
            0 <= i <= n,
            csv_runs(s) == done + csv_runs_acc(s.skip(i as int), cur),
            in_run <==> cur.len() > 0,
            all_digit_bytes(cur),
            acc == dec_val_bytes(cur),
            acc <= u32::MAX,
            done.len() == out@.len(),
            forall|j: int|
                0 <= j < done.len() ==> dec_val_bytes(#[trigger] done[j]) <= u32::MAX
                    && out@[j] as int == dec_val_bytes(done[j]),
        decreases n - i,
    {
        let b = text[i];
        let ghost rest = s.skip(i as int);
        proof {
            assert(rest.len() == n - i);
            assert(rest[0] == s[i as int]);
            assert(rest.drop_first() =~= s.skip(i as int + 1));
        }
        if 48 <= b && b <= 57 {
            let d = (b - 48) as u64;
            let a2 = acc * 10 + d;
            if a2 > 0xFFFF_FFFF {
                proof {
                    lemma_first_run_value(rest, cur);
                    assert(cur.push(b).drop_last() =~= cur);
                    let k = done.len() as int;
                    assert(csv_runs(s)[k] == csv_runs_acc(rest, cur)[0]);
                    assert(dec_val_bytes(csv_runs(s)[k]) > u32::MAX);
                    assert(!csv_ok(s));
                }
                return Err(TmxError::MalformedTileData);
            }
            proof {
                assert(csv_runs_acc(rest, cur) == csv_runs_acc(
                    s.skip(i as int + 1),
                    cur.push(b),
                ));
                assert(cur.push(b).drop_last() =~= cur);
                cur = cur.push(b);
            }
            acc = a2;
            in_run = true;
        } else {
            if in_run {
                out.push(acc as u32);
                proof {
                    let tail = csv_runs_acc(s.skip(i as int + 1), Seq::empty());
                    assert(csv_runs_acc(rest, cur) == seq![cur] + tail);
                    assert(done + (seq![cur] + tail) =~= done.push(cur) + tail);
                    done = done.push(cur);
                    cur = Seq::empty();
                }
                acc = 0;
                in_run = false;
            } else {
                proof {
                    assert(cur =~= Seq::<u8>::empty());
                    assert(csv_runs_acc(rest, cur) == csv_runs_acc(
                        s.skip(i as int + 1),
                        Seq::empty(),
                    ));
                }
            }
        }
        i = i + 1;
    }
    proof {
        assert(s.skip(n as int) =~= Seq::<u8>::empty());
    }
    if in_run {
        out.push(acc as u32);
        proof {
            assert(csv_runs_acc(s.skip(n as int), cur) == seq![cur]);
            assert(done + seq![cur] =~= done.push(cur));
            done = done.push(cur);
            cur = Seq::empty();
        }
    } else {
        proof {
            assert(csv_runs_acc(s.skip(n as int), cur) == Seq::<Seq<u8>>::empty());
            assert(done + Seq::<Seq<u8>>::empty() =~= done);
        }
    }
    proof {
        assert(csv_runs(s) == done);
        assert(csv_ok(s));
        assert(csv_values(s) =~= out@);
    }
    Ok(out)
}

// ---------------------------------------------------------------------------
// Little-endian 32-bit reinterpretation.
// ---------------------------------------------------------------------------

/// The unsigned 32-bit value of four bytes, least significant first.
pub open spec fn le_u32_val(b0: u8, b1: u8, b2: u8, b3: u8) -> u32 {
    (b0 as int + b1 as int * 256 + b2 as int * 65536 + b3 as int * 16777216) as u32
}

/// The packed little-endian 32-bit words of a byte sequence, four bytes per
/// word; a trailing remainder of one to three bytes is ignored here and
/// rejected by the callers.
pub open spec fn le_words_spec(s: Seq<u8>) -> Seq<u32> {
    Seq::new(s.len() / 4, |i: int| le_u32_val(s[4 * i], s[4 * i + 1], s[4 * i + 2], s[4 * i + 3]))
}

fn le_words(bytes: &[u8]) -> (r: Vec<u32>)
    requires
        bytes@.len() % 4 == 0,
    ensures
        r@ == le_words_spec(bytes@),
{
    let n = bytes.len();
    let words = n / 4;
    let mut out: Vec<u32> = Vec::new();
    let mut k: usize = 0;
    while k < words
        invariant
            n == bytes@.len(),
            words == n / 4,
            n % 4 == 0,
            0 <= k <= words,
            out@ =~= le_words_spec(bytes@).take(k as int),
        decreases words - k,
    {
        let b0 = bytes[4 * k];
        let b1 = bytes[4 * k + 1];
        let b2 = bytes[4 * k + 2];
        let b3 = bytes[4 * k + 3];
        let w: u32 = b0 as u32 + b1 as u32 * 256 + b2 as u32 * 65536 + b3 as u32 * 16777216;
        out.push(w);
        proof {
            assert(le_words_spec(bytes@).take(k as int + 1) =~= le_words_spec(bytes@).take(
                k as int,
            ).push(le_words_spec(bytes@)[k as int]));
        }
        k = k + 1;
    }
    proof {
        assert(le_words_spec(bytes@).take(words as int) =~= le_words_spec(bytes@));
    }
    out
}

// ---------------------------------------------------------------------------
// The assembled pipeline.
// ---------------------------------------------------------------------------

/// What decompression yields under the given tag: the identity for `None`,
/// the named zlib/gzip results otherwise.
pub open spec fn decompress_spec(comp: DataCompression, raw: Seq<u8>) -> Option<Seq<u8>> {
    match comp {
        DataCompression::Uncompressed => Some(raw),
        DataCompression::Zlib => zlib_decompress_spec(raw),
        DataCompression::Gzip => gzip_decompress_spec(raw),
    }
}

/// What the full tile-data pipeline returns for an encoding, a compression
/// tag, and the bytes of the payload text.
pub open spec fn tile_data_spec(
    enc: DataEncoding,
    comp: DataCompression,
    text: Seq<u8>,
) -> Result<Seq<u32>, TmxError> {
    match enc {
        DataEncoding::CSV => {
            if comp != DataCompression::Uncompressed {
                Err(TmxError::IncompatibleEncodingCompression)
            } else {
                csv_decode_spec(text)
            }
        },
        DataEncoding::Base64 => {
            match b64_decode_spec(trim_spec(text)) {
                Option::None => Err(TmxError::EncodingError),
                Option::Some(raw) => {
                    match decompress_spec(comp, raw) {
                        Option::None => Err(TmxError::DecompressionError),
                        Option::Some(d) => {
                            if d.len() % 4 != 0 {
                                Err(TmxError::TruncatedTileData)
                            } else {
                                Ok(le_words_spec(d))
                            }
                        },
                    }
                },
            }
        },
        DataEncoding::XML => Err(TmxError::UnexpectedTextData),
    }
}

/// An executable pipeline result agrees with the specified one: same success
/// or failure, same values, same error.
pub open spec fn tile_result_matches(
    r: Result<Vec<u32>, TmxError>,
    s: Result<Seq<u32>, TmxError>,
) -> bool {
    match r {
        Ok(v) => s matches Ok(sv) && v@ == sv,
        Err(e) => s matches Err(se) && e == se,
    }
}

impl DataEncoding {
    /// Decode one layer's payload text under this encoding and the given
    /// compression tag.
    pub fn decode(&self, text: &[u8], compression: &DataCompression) -> (r: Result<
        Vec<u32>,
        TmxError,
    >)
        ensures
            tile_result_matches(r, tile_data_spec(*self, *compression, text@)),
    {
        match self {
            DataEncoding::CSV => {
                if *compression != DataCompression::Uncompressed {
                    Err(TmxError::IncompatibleEncodingCompression)
                } else {
                    csv_decode(text)
                }
            },
            DataEncoding::Base64 => {
                let trimmed = trim_ascii(text);
                match b64_decode(trimmed) {
                    Option::None => Err(TmxError::EncodingError),
                    Option::Some(raw) => {
                        let decompressed: Option<Vec<u8>> = match compression {
                            DataCompression::Uncompressed => Some(raw),
                            DataCompression::Zlib => zlib_decompress(raw.as_slice()),
                            DataCompression::Gzip => gzip_decompress(raw.as_slice()),
                        };
                        match decompressed {
                            Option::None => Err(TmxError::DecompressionError),
                            Option::Some(d) => {
                                if d.len() % 4 != 0 {
                                    Err(TmxError::TruncatedTileData)
                                } else {
                                    Ok(le_words(d.as_slice()))
                                }
                            },
                        }
                    },
                }
            },
            DataEncoding::XML => Err(TmxError::UnexpectedTextData),
        }
    }

    /// Resolve the `encoding` attribute: absent means the inline
    /// element-per-tile form; anything but `base64` or `csv` is rejected.
    pub fn from_tag(tag: Option<&str>) -> (r: Result<DataEncoding, TmxError>)
        ensures
            match tag {
                Option::None => r == Ok::<DataEncoding, TmxError>(DataEncoding::XML),
                Option::Some(t) => {
                    if t@ == "base64"@ {
                        r == Ok::<DataEncoding, TmxError>(DataEncoding::Base64)
                    } else if t@ == "csv"@ {
                        r == Ok::<DataEncoding, TmxError>(DataEncoding::CSV)
                    } else {
                        r matches Err(e) && e matches TmxError::UnknownEncoding(u) && u@ == t@
                    }
                },
            },
    {
        match tag {
            Option::None => Ok(DataEncoding::XML),
            Option::Some(t) => {
                if str_eq(t, "base64") {
                    Ok(DataEncoding::Base64)
                } else if str_eq(t, "csv") {
                    Ok(DataEncoding::CSV)
                } else {
                    Err(TmxError::UnknownEncoding(t.to_owned()))
                }
            },
        }
    }
}

impl DataCompression {
    /// Resolve the `compression` attribute: absent means uncompressed;
    /// anything but `zlib` or `gzip` is rejected.
    pub fn from_tag(tag: Option<&str>) -> (r: Result<DataCompression, TmxError>)
        ensures
            match tag {
                Option::None => r == Ok::<DataCompression, TmxError>(DataCompression::Uncompressed),
                Option::Some(t) => {
                    if t@ == "zlib"@ {
                        r == Ok::<DataCompression, TmxError>(DataCompression::Zlib)
                    } else if t@ == "gzip"@ {
                        r == Ok::<DataCompression, TmxError>(DataCompression::Gzip)
                    } else {
                        r matches Err(e) && e matches TmxError::UnknownCompression(u) && u@ == t@
                    }
                },
            },
    {
        match tag {
            Option::None => Ok(DataCompression::Uncompressed),
            Option::Some(t) => {
                if str_eq(t, "zlib") {
                    Ok(DataCompression::Zlib)
                } else if str_eq(t, "gzip") {
                    Ok(DataCompression::Gzip)
                } else {
                    Err(TmxError::UnknownCompression(t.to_owned()))
                }
            },
        }
    }
}

/// One tile layer's resolved payload: its encoding and compression tags and
/// the decoded tile GIDs, one per cell in row-major order. The caller is
/// responsible for checking the count against the layer's dimensions; the
/// decoder cannot see them.
#[derive(Debug)]
pub struct Data {
    pub encoding: DataEncoding,
    pub compression: DataCompression,
    pub tile_gids: Vec<u32>,
}

impl Data {
    /// Decode a layer's textual payload (the bytes of the element's text)
    /// through the full pipeline.
    pub fn from_text(
        encoding: DataEncoding,
        compression: DataCompression,
        text: &[u8],
    ) -> (r: Result<Data, TmxError>)
        ensures
            match r {
                Ok(d) => {
                    &&& d.encoding == encoding
                    &&& d.compression == compression
                    &&& tile_data_spec(encoding, compression, text@) matches Ok(g)
                        && d.tile_gids@ == g
                },
                Err(e) => tile_data_spec(encoding, compression, text@) matches Err(e2) && e == e2,
            },
    {
        match encoding.decode(text, &compression) {
            Ok(gids) => Ok(Data { encoding, compression, tile_gids: gids }),
            Err(e) => Err(e),
        }
    }

    /// Assemble inline element-per-tile data: the `gid` attributes in
    /// document order, bypassing decompression; a compression tag on such
    /// data is rejected.
    pub fn from_tiles(
        encoding: DataEncoding,
        compression: DataCompression,
        gids: Vec<u32>,
    ) -> (r: Result<Data, TmxError>)
        ensures
            match r {
                Ok(d) => {
                    &&& compression == DataCompression::Uncompressed
                    &&& d.encoding == encoding
                    &&& d.compression == compression
                    &&& d.tile_gids@ == gids@
                },
                Err(e) => compression != DataCompression::Uncompressed
                    && e == TmxError::IncompatibleEncodingCompression,
            },
    {
        if compression != DataCompression::Uncompressed {
            Err(TmxError::IncompatibleEncodingCompression)
        } else {
            Ok(Data { encoding, compression, tile_gids: gids })
        }
    }

    /// An absent payload: no cells at all.
    pub fn empty(encoding: DataEncoding, compression: DataCompression) -> (r: Data)
        ensures
            r.encoding == encoding,
            r.compression == compression,
            r.tile_gids@ == Seq::<u32>::empty(),
    {
        Data { encoding, compression, tile_gids: Vec::new() }
    }
}

// ---------------------------------------------------------------------------
// The encoding directions, proved inverse to the decoder.
// ---------------------------------------------------------------------------

/// The decimal digits of `n`, most significant first, without leading zeros
/// (a lone `0` for zero). Meaningful for `n >= 0`.
pub open spec fn dec_text(n: int) -> Seq<u8>
    decreases n,
{
    if n < 10 {
        seq![(48 + n) as u8]
    } else {
        dec_text(n / 10).push((48 + n % 10) as u8)
    }
}

pub proof fn lemma_dec_text_digits(n: int)
    requires
        0 <= n,
    ensures
        all_digit_bytes(dec_text(n)),
        dec_val_bytes(dec_text(n)) == n,
        dec_text(n).len() >= 1,
    decreases n,
{
    if n < 10 {
        let t = seq![(48 + n) as u8];
        assert(dec_text(n) =~= t);
        assert(t.drop_last() =~= Seq::<u8>::empty());
        assert(t.last() == (48 + n) as u8);
        assert(dec_val_bytes(t) == dec_val_bytes(Seq::<u8>::empty()) * 10 + digit_byte_val(
            t.last(),
        ));
        assert(dec_val_bytes(dec_text(n)) == n);
    } else {
        lemma_dec_text_digits(n / 10);
        let d = (48 + n % 10) as u8;
        assert(dec_text(n / 10).push(d).drop_last() =~= dec_text(n / 10));
        vstd::arithmetic::div_mod::lemma_fundamental_div_mod(n, 10);
        assert(all_digit_bytes(dec_text(n))) by {
            let t = dec_text(n / 10).push(d);
            assert(forall|i: int|
                0 <= i < t.len() - 1 ==> t[i] == #[trigger] dec_text(n / 10)[i]);
        }
    }
}

/// The separated tail of a CSV rendering: a comma before each further value.
pub open spec fn rest_render(v: Seq<u32>) -> Seq<u8>
    decreases v.len(),
{
    if v.len() == 0 {
        Seq::empty()
    } else {
        seq![44u8] + dec_text(v[0] as int) + rest_render(v.drop_first())
    }
}

/// The comma-separated decimal rendering of a GID sequence.
pub open spec fn csv_render_spec(v: Seq<u32>) -> Seq<u8> {
    if v.len() == 0 {
        Seq::empty()
    } else {
        dec_text(v[0] as int) + rest_render(v.drop_first())
    }
}

/// Scanning consumes a leading all-digit block into the open run.
proof fn lemma_runs_absorb_digits(d: Seq<u8>, rest: Seq<u8>, cur: Seq<u8>)
    requires
        all_digit_bytes(d),
    ensures
        csv_runs_acc(d + rest, cur) == csv_runs_acc(rest, cur + d),
    decreases d.len(),
{
    if d.len() == 0 {
        assert(d + rest =~= rest);
        assert(cur + d =~= cur);
    } else {
        let s = d + rest;
        assert(s[0] == d[0]);
        assert(s.drop_first() =~= d.drop_first() + rest);
        assert(all_digit_bytes(d.drop_first()));
        lemma_runs_absorb_digits(d.drop_first(), rest, cur.push(d[0]));
        assert(cur.push(d[0]) + d.drop_first() =~= cur + d);
    }
}

/// Scanning the separated tail of a rendering closes the open run and then
/// finds exactly the rendered values' digit runs.
proof fn lemma_rest_render_runs(v: Seq<u32>, cur: Seq<u8>)
    requires
        cur.len() > 0,
    ensures
        csv_runs_acc(rest_render(v), cur) == seq![cur] + v.map_values(
            |x: u32| dec_text(x as int),
        ),
    decreases v.len(),
{
    let target = v.map_values(|x: u32| dec_text(x as int));
    if v.len() == 0 {
        assert(csv_runs_acc(rest_render(v), cur) == seq![cur]);
        assert(seq![cur] + target =~= seq![cur]);
    } else {
        let v2 = v.drop_first();
        let d0 = dec_text(v[0] as int);
        let s = rest_render(v);
        assert(s == seq![44u8] + d0 + rest_render(v2));
        assert(s.len() > 0 && s[0] == 44u8);
        assert(!is_digit_byte(s[0]));
        assert(s.drop_first() =~= d0 + rest_render(v2));
        assert(csv_runs_acc(s, cur) == seq![cur] + csv_runs_acc(
            d0 + rest_render(v2),
            Seq::empty(),
        ));
        lemma_dec_text_digits(v[0] as int);
        lemma_runs_absorb_digits(d0, rest_render(v2), Seq::empty());
        assert(Seq::<u8>::empty() + d0 =~= d0);
        lemma_rest_render_runs(v2, d0);
        let t2 = v2.map_values(|x: u32| dec_text(x as int));
        assert(csv_runs_acc(s, cur) == seq![cur] + (seq![d0] + t2));
        assert(seq![cur] + (seq![d0] + t2) =~= seq![cur] + target) by {
            assert(target.len() == 1 + t2.len());
            assert(target[0] == d0);
            assert(forall|i: int| 0 <= i < t2.len() ==> target[i + 1] == #[trigger] t2[i]);
        }
    }
}

/// The digit runs of a rendering are exactly the renderings of its values.
proof fn lemma_render_runs(v: Seq<u32>)
    ensures
        csv_runs(csv_render_spec(v)) == v.map_values(|x: u32| dec_text(x as int)),
{
    let target = v.map_values(|x: u32| dec_text(x as int));
    if v.len() == 0 {
        assert(csv_runs(csv_render_spec(v)) =~= target);
    } else {
        let v2 = v.drop_first();
        let d0 = dec_text(v[0] as int);
        lemma_dec_text_digits(v[0] as int);
        lemma_runs_absorb_digits(d0, rest_render(v2), Seq::empty());
        assert(csv_render_spec(v) == d0 + rest_render(v2));
        assert(Seq::<u8>::empty() + d0 =~= d0);
        let t2 = v2.map_values(|x: u32| dec_text(x as int));
        if v2.len() == 0 {
            assert(csv_runs_acc(rest_render(v2), d0) == seq![d0]);
            assert(seq![d0] =~= target);
        } else {
            lemma_rest_render_runs(v2, d0);
            assert(seq![d0] + t2 =~= target) by {
                assert(target.len() == 1 + t2.len());
                assert(target[0] == d0);
                assert(forall|i: int| 0 <= i < t2.len() ==> target[i + 1] == #[trigger] t2[i]);
            }
        }
    }
}

/// Round trip for CSV: decoding the comma-separated decimal rendering of any
/// GID sequence gives back exactly that sequence.
pub proof fn lemma_csv_round_trip(v: Seq<u32>)
    ensures
        csv_decode_spec(csv_render_spec(v)) == Ok::<Seq<u32>, TmxError>(v),
        tile_data_spec(DataEncoding::CSV, DataCompression::Uncompressed, csv_render_spec(v))
            == Ok::<Seq<u32>, TmxError>(v),
{
    lemma_render_runs(v);
    let runs = csv_runs(csv_render_spec(v));
    assert forall|i: int| 0 <= i < runs.len() implies dec_val_bytes(#[trigger] runs[i])
        <= u32::MAX by {
        lemma_dec_text_digits(v[i] as int);
    }
    assert(csv_ok(csv_render_spec(v)));
    assert(csv_values(csv_render_spec(v)) =~= v) by {
        assert forall|i: int| 0 <= i < v.len() implies csv_values(csv_render_spec(v))[i]
            == v[i] by {
            lemma_dec_text_digits(v[i] as int);
        }
    }
}

fn push_decimal(out: &mut Vec<u8>, n: u32)
    ensures
        final(out)@ == old(out)@ + dec_text(n as int),
{
    let ghost base = out@;
    if n == 0 {
        out.push(48);
        proof {
            assert(base + dec_text(0) =~= base.push(48u8));
        }
        return;
    }
    let mut tmp: Vec<u8> = Vec::new();
    let mut m: u32 = n;
    while m > 0
        invariant
            dec_text(n as int) == if m > 0 {
                dec_text(m as int) + tmp@.reverse()
            } else {
                tmp@.reverse()
            },
        decreases m,
    {
        let d = (48 + m % 10) as u8;
        proof {
            assert((tmp@.push(d)).reverse() =~= seq![d] + tmp@.reverse());
            if m >= 10 {
                assert(dec_text(m as int) == dec_text(m as int / 10).push(d));
                assert(dec_text(m as int / 10).push(d) + tmp@.reverse() =~= dec_text(
                    m as int / 10,
                ) + (seq![d] + tmp@.reverse()));
            } else {
                assert(dec_text(m as int) =~= seq![d]);
                assert(seq![d] + tmp@.reverse() =~= (tmp@.push(d)).reverse());
            }
        }
        tmp.push(d);
        m = m / 10;
    }
    let count = tmp.len();
    let mut k: usize = 0;
    while k < count
        invariant
            count == tmp@.len(),
            0 <= k <= count,
            out@ == base + tmp@.reverse().take(k as int),
        decreases count - k,
    {
        let b = tmp[count - 1 - k];
        proof {
            assert(tmp@.reverse()[k as int] == tmp@[count - 1 - k as int]);
            assert(tmp@.reverse().take(k as int + 1) =~= tmp@.reverse().take(k as int).push(
                tmp@.reverse()[k as int],
            ));
            assert(base + tmp@.reverse().take(k as int + 1) =~= (base + tmp@.reverse().take(
                k as int,
            )).push(tmp@.reverse()[k as int]));
        }
        out.push(b);
        k = k + 1;
    }
    proof {
        assert(tmp@.reverse().take(count as int) =~= tmp@.reverse());
    }
}

/// How a rendering grows when one more value is appended.
proof fn lemma_render_snoc(u: Seq<u32>, x: u32)
    ensures
        csv_render_spec(u.push(x)) == if u.len() == 0 {
            dec_text(x as int)
        } else {
            csv_render_spec(u) + seq![44u8] + dec_text(x as int)
        },
    decreases u.len(),
{
    if u.len() == 0 {
        assert(u.push(x)[0] == x);
        assert(u.push(x).drop_first() =~= Seq::<u32>::empty());
        assert(dec_text(x as int) + rest_render(Seq::empty()) =~= dec_text(x as int));
    } else {
        lemma_rest_render_snoc(u.drop_first(), x);
        assert(u.push(x)[0] == u[0]);
        assert(u.push(x).drop_first() =~= u.drop_first().push(x));
        assert(dec_text(u[0] as int) + (rest_render(u.drop_first()) + seq![44u8] + dec_text(
            x as int,
        )) =~= csv_render_spec(u) + seq![44u8] + dec_text(x as int));
    }
}

proof fn lemma_rest_render_snoc(u: Seq<u32>, x: u32)
    ensures
        rest_render(u.push(x)) == rest_render(u) + seq![44u8] + dec_text(x as int),
    decreases u.len(),
{
    if u.len() == 0 {
        assert(u.push(x)[0] == x);
        assert(u.push(x).drop_first() =~= Seq::<u32>::empty());
        assert(rest_render(u.push(x)) == seq![44u8] + dec_text(x as int) + rest_render(
            Seq::empty(),
        ));
        assert(seq![44u8] + dec_text(x as int) + Seq::<u8>::empty() =~= rest_render(u) + seq![
            44u8,
        ] + dec_text(x as int));
    } else {
        let u2 = u.drop_first();
        assert(u.push(x)[0] == u[0]);
        assert(u.push(x).drop_first() =~= u2.push(x));
        lemma_rest_render_snoc(u2, x);
        assert(seq![44u8] + dec_text(u[0] as int) + (rest_render(u2) + seq![44u8] + dec_text(
            x as int,
        )) =~= (seq![44u8] + dec_text(u[0] as int) + rest_render(u2)) + seq![44u8] + dec_text(
            x as int,
        ));
    }
}

impl Data {
    /// Render a GID sequence as comma-separated decimal text; the CSV decoder
    /// reproduces the sequence from it exactly.
    pub fn render_csv(gids: &Vec<u32>) -> (r: Vec<u8>)
        ensures
            r@ == csv_render_spec(gids@),
            tile_data_spec(DataEncoding::CSV, DataCompression::Uncompressed, r@)
                == Ok::<Seq<u32>, TmxError>(gids@),
    {
        let mut out: Vec<u8> = Vec::new();
        let mut k: usize = 0;
        let count = gids.len();
        proof {
            assert(gids@.take(0) =~= Seq::<u32>::empty());
        }
        while k < count
            invariant
                count == gids@.len(),
                0 <= k <= count,
                out@ == csv_render_spec(gids@.take(k as int)),
            decreases count - k,
        {
            let ghost pre = gids@.take(k as int);
            proof {
                assert(gids@.take(k as int + 1) =~= pre.push(gids@[k as int]));
                lemma_render_snoc(pre, gids@[k as int]);
            }
            if k > 0 {
                out.push(44);
            }
            push_decimal(&mut out, gids[k]);
            proof {
                if k > 0 {
                    assert(csv_render_spec(pre) + seq![44u8] + dec_text(gids@[k as int] as int)
                        =~= (csv_render_spec(pre).push(44u8)) + dec_text(gids@[k as int] as int));
                } else {
                    assert(pre.len() == 0);
                    assert(csv_render_spec(pre) =~= Seq::<u8>::empty());
                    assert(Seq::<u8>::empty() + dec_text(gids@[k as int] as int) =~= dec_text(
                        gids@[k as int] as int,
                    ));
                }
            }
            k = k + 1;
        }
        proof {
            assert(gids@.take(count as int) =~= gids@);
            lemma_csv_round_trip(gids@);
        }
        out
    }

    /// Pack a GID sequence as little-endian 32-bit words.
    pub fn render_le(gids: &Vec<u32>) -> (r: Vec<u8>)
        ensures
            r@.len() == 4 * gids@.len(),
            le_words_spec(r@) == gids@,
    {
        let count = gids.len();
        let mut out: Vec<u8> = Vec::new();
        let mut k: usize = 0;
        while k < count
            invariant
                count == gids@.len(),
                0 <= k <= count,
                out@.len() == 4 * k,
                forall|j: int| 0 <= j < k ==> le_words_spec(out@)[j] == #[trigger] gids@[j],
            decreases count - k,
        {
            let ghost prev = out@;
            let n = gids[k];
            let b0 = (n % 256) as u8;
            let r1 = n / 256;
            let b1 = (r1 % 256) as u8;
            let r2 = r1 / 256;
            let b2 = (r2 % 256) as u8;
            let b3 = (r2 / 256) as u8;
            out.push(b0);
            out.push(b1);
            out.push(b2);
            out.push(b3);
            proof {
                assert(n as int == b0 as int + b1 as int * 256 + b2 as int * 65536 + b3 as int
                    * 16777216);
                assert(le_u32_val(b0, b1, b2, b3) == n);
                assert forall|j: int| 0 <= j < k + 1 implies le_words_spec(out@)[j]
                    == #[trigger] gids@[j] by {
                    if j < k {
                        assert(out@[4 * j] == prev[4 * j]);
                        assert(out@[4 * j + 1] == prev[4 * j + 1]);
                        assert(out@[4 * j + 2] == prev[4 * j + 2]);
                        assert(out@[4 * j + 3] == prev[4 * j + 3]);
                        assert(le_words_spec(prev)[j] == gids@[j]);
                    } else {
                        assert(out@[4 * j] == b0);
                        assert(out@[4 * j + 1] == b1);
                        assert(out@[4 * j + 2] == b2);
                        assert(out@[4 * j + 3] == b3);
                    }
                }
            }
            k = k + 1;
        }
        proof {
            assert(le_words_spec(out@) =~= gids@);
        }
        out
    }

    /// Build a base64 payload, compressed under the given tag, that the full
    /// pipeline decodes back to exactly the given GIDs: the round trip
    /// through compression, base64, and little-endian reinterpretation.
    pub fn encode_tile_data(gids: &Vec<u32>, compression: DataCompression) -> (r: Vec<u8>)
        ensures
            tile_data_spec(DataEncoding::Base64, compression, r@) == Ok::<Seq<u32>, TmxError>(
                gids@,
            ),
    {
        let bytes = Self::render_le(gids);
        let packed: Vec<u8> = match compression {
            DataCompression::Uncompressed => bytes,
            DataCompression::Zlib => crate::codec::zlib_compress(bytes.as_slice()),
            DataCompression::Gzip => crate::codec::gzip_compress(bytes.as_slice()),
        };
        let text = crate::codec::b64_encode(packed.as_slice());
        proof {
            lemma_trim_spec_no_space(text@);
        }
        text
    }
}

// ---------------------------------------------------------------------------
// Laws of the pipeline.
// ---------------------------------------------------------------------------

/// A compression tag on CSV data fails with
/// `IncompatibleEncodingCompression`, whatever the text holds, before any
/// decoding or decompression is considered.
pub proof fn lemma_csv_rejects_compression(comp: DataCompression, text: Seq<u8>)
    requires
        comp != DataCompression::Uncompressed,
    ensures
        tile_data_spec(DataEncoding::CSV, comp, text) == Err::<Seq<u32>, TmxError>(
            TmxError::IncompatibleEncodingCompression,
        ),
{
}

/// A base64 payload that decodes and decompresses to a byte count not
/// divisible by four fails with `TruncatedTileData`: the remainder is never
/// dropped or padded.
pub proof fn lemma_truncation_rejected(
    comp: DataCompression,
    text: Seq<u8>,
    raw: Seq<u8>,
    payload: Seq<u8>,
)
    requires
        b64_decode_spec(trim_spec(text)) == Some(raw),
        decompress_spec(comp, raw) == Some(payload),
        payload.len() % 4 != 0,
    ensures
        tile_data_spec(DataEncoding::Base64, comp, text) == Err::<Seq<u32>, TmxError>(
            TmxError::TruncatedTileData,
        ),
{
}

/// The successful base64 path, spelled out: when the text decodes and the
/// result decompresses to a whole number of 32-bit words, the pipeline
/// returns exactly those words, little-endian, in order.
pub proof fn lemma_base64_pipeline(
    comp: DataCompression,
    text: Seq<u8>,
    raw: Seq<u8>,
    payload: Seq<u8>,
)
    requires
        b64_decode_spec(trim_spec(text)) == Some(raw),
        decompress_spec(comp, raw) == Some(payload),
        payload.len() % 4 == 0,
    ensures
        tile_data_spec(DataEncoding::Base64, comp, text) == Ok::<Seq<u32>, TmxError>(
            le_words_spec(payload),
        ),
{
}

} // verus!
