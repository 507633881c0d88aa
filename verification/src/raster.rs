//! The raster codec: a monochrome bitmap packed eight pixels per byte,
//! most-significant bit first, rows padded to a whole byte, emitted as two
//! uppercase hexadecimal characters per byte; and the decoder that recovers
//! the declared geometry and payload from a serialized raster command.

use vstd::prelude::*;

use crate::text::{push_hex2, spec_hex2, string_from_chars};

verus! {

/// One pixel, as the three color channels the luminance weighs.
#[derive(Debug, Clone, Copy, PartialEq, Eq, Structural)]
pub struct Rgb {
    pub r: u8,
    pub g: u8,
    pub b: u8,
}

/// A bitmap held as plain values: `width * height` pixels, row-major.
#[derive(Debug, Clone, PartialEq)]
pub struct RasterImage {
    pub width: u32,
    pub height: u32,
    pub pixels: Vec<Rgb>,
}

/// The luminance of a pixel, by the fixed integer weights 299, 587 and 114
/// per thousand.
pub open spec fn spec_luminance(p: Rgb) -> int {
    (p.r * 299 + p.g * 587 + p.b * 114) / 1000
}

impl RasterImage {
    /// Well-formed: the pixel buffer holds exactly one entry per coordinate.
    pub open spec fn wf(self) -> bool {
        self.pixels@.len() == self.width * self.height
    }

    /// The pixel at a coordinate.
    pub open spec fn px(self, x: int, y: int) -> Rgb {
        self.pixels@[y * self.width + x]
    }

    /// Whether the pixel at a coordinate is classified black: its luminance
    /// lies strictly below the threshold.
    pub open spec fn dark(self, t: u8, x: int, y: int) -> bool {
        spec_luminance(self.px(x, y)) < t
    }
}

/// Converts a pixel to its luminance.
pub fn rgb_to_grayscale(p: Rgb) -> (r: u8)
    ensures
        r == spec_luminance(p),
{
    let v: u32 = (p.r as u32) * 299 + (p.g as u32) * 587 + (p.b as u32) * 114;
    (v / 1000) as u8
}

/// The bit mask of pixel `k` within its byte: the most significant bit is
/// pixel 0.
pub open spec fn spec_bit_mask(k: int) -> u8 {
    1u8 << ((7 - k) as u8)
}

/// The low `k` pixels of byte `i` in row `y`, packed: bit `7 - j` is set
/// exactly when pixel `8 i + j` exists and is dark, for `j < k`.
pub open spec fn spec_byte_bits(img: RasterImage, t: u8, y: int, i: int, k: int) -> u8
    decreases k,
{
    if k <= 0 {
        0
    } else {
        let b = spec_byte_bits(img, t, y, i, k - 1);
        let x = 8 * i + (k - 1);
        if x < img.width && img.dark(t, x, y) {
            b | spec_bit_mask(k - 1)
        } else {
            b
        }
    }
}

/// The fully packed byte `i` of row `y`.
pub open spec fn spec_row_byte(img: RasterImage, t: u8, y: int, i: int) -> u8 {
    spec_byte_bits(img, t, y, i, 8)
}

/// The first `upto` bytes of row `y`, as hexadecimal text.
pub open spec fn spec_row_hex(img: RasterImage, t: u8, y: int, upto: int) -> Seq<char>
    decreases upto,
{
    if upto <= 0 {
        Seq::empty()
    } else {
        spec_row_hex(img, t, y, upto - 1) + spec_hex2(spec_row_byte(img, t, y, upto - 1))
    }
}

/// The first `rows` rows of the raster, as hexadecimal text, rows
/// concatenated without separators.
pub open spec fn spec_rows_hex(img: RasterImage, t: u8, rows: int) -> Seq<char>
    decreases rows,
{
    if rows <= 0 {
        Seq::empty()
    } else {
        spec_rows_hex(img, t, rows - 1) + spec_row_hex(
            img,
            t,
            rows - 1,
            crate::zpl::spec_bytes_per_row(img.width as int),
        )
    }
}

/// The full hexadecimal payload of a bitmap at a threshold.
pub open spec fn spec_encode_hex(img: RasterImage, t: u8) -> Seq<char> {
    spec_rows_hex(img, t, img.height as int)
}

/// A lower threshold classifies no more pixels black: any pixel dark under
/// a threshold stays dark under every higher one.
pub proof fn lemma_threshold_monotone(img: RasterImage, t1: u8, t2: u8, x: int, y: int)
    requires
        t1 <= t2,
        img.dark(t1, x, y),
    ensures
        img.dark(t2, x, y),
{
}

proof fn lemma_byte_bits_pad(img: RasterImage, t: u8, y: int, i: int, k: int)
    requires
        0 <= k <= 8,
        img.width <= 8 * i + k,
    ensures
        spec_byte_bits(img, t, y, i, 8) == spec_byte_bits(img, t, y, i, k),
    decreases 8 - k,
{
    if k < 8 {
        lemma_byte_bits_pad(img, t, y, i, k + 1);
    }
}

/// Encodes one row into `out`.
fn push_row_hex(img: &RasterImage, t: u8, y: u32, out: &mut Vec<char>)
    requires
        img.wf(),
        y < img.height,
    ensures
        final(out)@ == old(out)@ + spec_row_hex(
            *img,
            t,
            y as int,
            crate::zpl::spec_bytes_per_row(img.width as int),
        ),
{
    let bpr: u64 = ((img.width as u64) + 7) / 8;
    let mut row_bytes: Vec<u8> = Vec::new();
    let mut j: u64 = 0;
    while j < bpr
        invariant
            0 <= j <= bpr,
            bpr == crate::zpl::spec_bytes_per_row(img.width as int),
            row_bytes@.len() == j,
            forall|q: int| 0 <= q < j ==> row_bytes@[q] == 0,
        decreases bpr - j,
    {
        row_bytes.push(0u8);
        j = j + 1;
    }
    let mut x: u32 = 0;
    while x < img.width
        invariant
            img.wf(),
            y < img.height,
            0 <= x <= img.width,
            bpr == crate::zpl::spec_bytes_per_row(img.width as int),
            row_bytes@.len() == bpr,
            forall|q: int|
                0 <= q < bpr ==> row_bytes@[q] == spec_byte_bits(
                    *img,
                    t,
                    y as int,
                    q,
                    if x >= 8 * q + 8 {
                        8
                    } else if x >= 8 * q {
                        x - 8 * q
                    } else {
                        0
                    },
                ),
        decreases img.width - x,
    {
        let y64: u64 = y as u64;
        let w64: u64 = img.width as u64;
        let npx: usize = img.pixels.len();
        proof {
            assert(img.pixels@.len() == npx);
            assert((y64 as int) * (w64 as int) + (x as int) < (img.height as int) * (
            img.width as int)) by (nonlinear_arith)
                requires
                    (y64 as int) < (img.height as int),
                    (x as int) < (w64 as int),
                    w64 == img.width,
                    0 <= x,
                    0 <= y64,
            ;
            assert((img.height as int) * (img.width as int) == (img.width as int) * (
            img.height as int)) by (nonlinear_arith);
            assert((img.height as int) * (img.width as int) == img.pixels@.len());
        }
        let idx64: u64 = y64 * w64 + (x as u64);
        proof {
            assert(idx64 < img.pixels@.len());
        }
        let p = img.pixels[idx64 as usize];
        let gray = rgb_to_grayscale(p);
        let ghost before = row_bytes@;
        if gray < t {
            let bi: usize = (x / 8) as usize;
            let sh: u8 = 7 - ((x % 8) as u8);
            let mask: u8 = 1u8 << sh;
            let updated: u8 = row_bytes[bi] | mask;
            row_bytes.set(bi, updated);
            proof {
                assert(mask == spec_bit_mask((x % 8) as int));
            }
        }
        proof {
            let xi = x as int;
            let q0 = xi / 8;
            assert(8 * q0 <= xi < 8 * q0 + 8);
            assert(forall|q: int|
                0 <= q < bpr ==> row_bytes@[q] == spec_byte_bits(
                    *img,
                    t,
                    y as int,
                    q,
                    if xi + 1 >= 8 * q + 8 {
                        8
                    } else if xi + 1 >= 8 * q {
                        xi + 1 - 8 * q
                    } else {
                        0
                    },
                )) by {
                assert forall|q: int|
                    0 <= q < bpr implies row_bytes@[q] == spec_byte_bits(
                        *img,
                        t,
                        y as int,
                        q,
                        if xi + 1 >= 8 * q + 8 {
                            8
                        } else if xi + 1 >= 8 * q {
                            xi + 1 - 8 * q
                        } else {
                            0
                        },
                    ) by {
                    if q == q0 {
                        assert(row_bytes@[q] == spec_byte_bits(
                            *img,
                            t,
                            y as int,
                            q,
                            xi + 1 - 8 * q,
                        ));
                    } else {
                        assert(row_bytes@[q] == before[q]);
                    }
                }
            }
        }
        x = x + 1;
    }
    proof {
        assert(forall|q: int|
            0 <= q < bpr ==> row_bytes@[q] == spec_row_byte(*img, t, y as int, q)) by {
            assert forall|q: int|
                0 <= q < bpr implies row_bytes@[q] == spec_row_byte(*img, t, y as int, q) by {
                if img.width as int >= 8 * q + 8 {
                } else if img.width as int >= 8 * q {
                    lemma_byte_bits_pad(*img, t, y as int, q, img.width - 8 * q);
                } else {
                    lemma_byte_bits_pad(*img, t, y as int, q, 0);
                }
            }
        }
    }
    let mut j2: usize = 0;
    while j2 < row_bytes.len()
        invariant
            0 <= j2 <= row_bytes@.len(),
            row_bytes@.len() == bpr,
            bpr == crate::zpl::spec_bytes_per_row(img.width as int),
            forall|q: int| 0 <= q < bpr ==> row_bytes@[q] == spec_row_byte(*img, t, y as int, q),
            out@ == old(out)@ + spec_row_hex(*img, t, y as int, j2 as int),
        decreases row_bytes@.len() - j2,
    {
        push_hex2(out, row_bytes[j2]);
        j2 = j2 + 1;
    }
}

/// Encodes a bitmap into the hexadecimal raster payload: for each pixel, the
/// luminance is compared with the threshold (lower threshold, fewer black
/// pixels); bits are packed most-significant-first, rows padded to a byte.
pub fn image_to_zpl_hex(image: &RasterImage, threshold: u8) -> (r: String)
    requires
        image.wf(),
    ensures
        r@ == spec_encode_hex(*image, threshold),
{
    let mut out: Vec<char> = Vec::new();
    let mut y: u32 = 0;
    while y < image.height
        invariant
            image.wf(),
            0 <= y <= image.height,
            out@ == spec_rows_hex(*image, threshold, y as int),
        decreases image.height - y,
    {
        push_row_hex(image, threshold, y, &mut out);
        y = y + 1;
    }
    string_from_chars(&out)
}

/// Builds the raster-carrying command of a bitmap: the declared geometry is
/// the bitmap's own, the payload its encoding at the threshold.
pub fn create_graphic_field_from_image(image: &RasterImage, threshold: u8) -> (r:
    crate::zpl::ZplCommand)
    requires
        image.wf(),
    ensures
        r matches crate::zpl::ZplCommand::GraphicField { width, height, data } && width
            == image.width && height == image.height && data@ == spec_encode_hex(*image, threshold),
{
    let data = image_to_zpl_hex(image, threshold);
    crate::zpl::ZplCommand::GraphicField { width: image.width, height: image.height, data }
}

/// The decoded form of a raster command found in wire text: the command is
/// located case-insensitively; its comma-separated section runs to the next
/// caret or the end; the first and third fields are the total and per-row
/// byte counts, from which the height and the padded width are recovered;
/// everything after the third comma, normalized, is the payload. A per-row
/// byte count of zero must not be divided into, so it fails the parse, as
/// does a geometry whose padded width cannot be represented.
pub open spec fn spec_parse_gf(s: Seq<char>) -> Option<(u32, u32, Seq<char>)> {
    let g = crate::text::spec_find_ci(s, "^GF"@);
    if g < 0 {
        Option::None
    } else if !(g + 5 <= s.len() && crate::text::spec_ascii_upper(s[g + 3]) == 'A' && s[g + 4]
        == ',') {
        Option::None
    } else {
        let e = crate::text::spec_find_char_from(s, g + 5, '^');
        let section_end = if e < 0 {
            s.len() as int
        } else {
            e
        };
        let section = s.subrange(g + 5, section_end);
        let parts = crate::text::spec_split(section, ',');
        if parts.len() < 4 {
            Option::None
        } else {
            let tb_t = crate::text::spec_trim(parts[0]);
            let bpr_t = crate::text::spec_trim(parts[2]);
            if !(crate::text::spec_u32_dec_ok(tb_t) && crate::text::spec_u32_dec_ok(bpr_t)) {
                Option::None
            } else {
                let total = crate::text::spec_u32_dec(tb_t);
                let bpr = crate::text::spec_u32_dec(bpr_t);
                if bpr == 0 {
                    Option::None
                } else if bpr * 8 > 0xFFFF_FFFF {
                    Option::None
                } else {
                    let payload = crate::text::spec_norm_hex(
                        crate::text::spec_concat(parts.skip(3)),
                    );
                    Option::Some(((bpr * 8) as u32, (total / bpr) as u32, payload))
                }
            }
        }
    }
}

/// Decodes a previously generated raster command fragment: recovers the
/// padded width, the height and the normalized payload, or nothing when the
/// fragment does not hold a well-formed raster command header with a
/// nonzero per-row byte count.
pub fn parse_graphic_field_from_zpl(zpl: &str) -> (r: Option<(u32, u32, String)>)
    ensures
        match r {
            Option::Some(t) => spec_parse_gf(zpl@) matches Option::Some(st) && st.0 == t.0 && st.1
                == t.1 && st.2 == t.2@,
            Option::None => spec_parse_gf(zpl@) is None,
        },
{
    let cs = crate::text::chars_of(zpl);
    proof {
        reveal_strlit("^GF");
        assert("^GF"@.len() == 3);
    }
    let g = match crate::text::find_ci(&cs, "^GF") {
        Some(g) => g,
        None => {
            return None;
        },
    };
    if cs.len() < 5 || g > cs.len() - 5 {
        return None;
    }
    let a = crate::text::ascii_upper(cs[g + 3]);
    if !(a == 'A' && cs[g + 4] == ',') {
        return None;
    }
    let section_end = match crate::text::find_char_from(&cs, g + 5, '^') {
        Some(e) => e,
        None => cs.len(),
    };
    let section = crate::text::sub_vec(&cs, g + 5, section_end);
    let parts = crate::text::split_char(&section, ',');
    if parts.len() < 4 {
        proof {
            assert(parts.deep_view().len() == parts@.len());
        }
        return None;
    }
    proof {
        assert(parts.deep_view()[0] == parts@[0].deep_view());
        assert(parts@[0].deep_view() =~= parts@[0]@);
        assert(parts.deep_view()[2] == parts@[2].deep_view());
        assert(parts@[2].deep_view() =~= parts@[2]@);
    }
    let tb_t = crate::text::trim(&parts[0]);
    let bpr_t = crate::text::trim(&parts[2]);
    let total = match crate::text::parse_u32_dec(&tb_t) {
        Some(v) => v,
        None => {
            return None;
        },
    };
    let bpr = match crate::text::parse_u32_dec(&bpr_t) {
        Some(v) => v,
        None => {
            return None;
        },
    };
    if bpr == 0 {
        return None;
    }
    let w64: u64 = (bpr as u64) * 8;
    if w64 > 0xFFFF_FFFF {
        return None;
    }
    let height: u32 = total / bpr;
    let joined = crate::text::concat_from(&parts, 3);
    let norm = crate::text::normalize_hex(&joined);
    let payload = crate::text::string_from_chars(&norm);
    Some((w64 as u32, height, payload))
}

/// Whether `c` is one of the characters the encoder emits: an uppercase
/// hexadecimal digit.
pub open spec fn is_wire_hex(c: char) -> bool {
    (48 <= c as u32 && c as u32 <= 57) || (65 <= c as u32 && c as u32 <= 70)
}

pub open spec fn all_wire_hex(s: Seq<char>) -> bool {
    forall|i: int| 0 <= i < s.len() ==> is_wire_hex(#[trigger] s[i])
}

proof fn lemma_all_wire_hex_concat(a: Seq<char>, b: Seq<char>)
    requires
        all_wire_hex(a),
        all_wire_hex(b),
    ensures
        all_wire_hex(a + b),
{
    assert forall|i: int| 0 <= i < (a + b).len() implies is_wire_hex(#[trigger] (a + b)[i]) by {
        if i < a.len() {
            assert((a + b)[i] == a[i]);
        } else {
            assert((a + b)[i] == b[i - a.len()]);
        }
    }
}

proof fn lemma_row_hex_chars(img: RasterImage, t: u8, y: int, upto: int)
    ensures
        all_wire_hex(spec_row_hex(img, t, y, upto)),
    decreases upto,
{
    if upto <= 0 {
        assert(all_wire_hex(spec_row_hex(img, t, y, upto)));
    } else {
        lemma_row_hex_chars(img, t, y, upto - 1);
        let b = spec_row_byte(img, t, y, upto - 1);
        assert(all_wire_hex(spec_hex2(b))) by {
            assert(spec_hex2(b)[0] == crate::text::spec_hex_digit(b as int / 16));
            assert(spec_hex2(b)[1] == crate::text::spec_hex_digit(b as int % 16));
            assert(is_wire_hex(crate::text::spec_hex_digit(b as int / 16)));
            assert(is_wire_hex(crate::text::spec_hex_digit(b as int % 16)));
        }
        lemma_all_wire_hex_concat(spec_row_hex(img, t, y, upto - 1), spec_hex2(b));
    }
}

/// Every character the encoder emits is an uppercase hexadecimal digit.
pub proof fn lemma_rows_hex_chars(img: RasterImage, t: u8, rows: int)
    ensures
        all_wire_hex(spec_rows_hex(img, t, rows)),
    decreases rows,
{
    if rows <= 0 {
        assert(all_wire_hex(spec_rows_hex(img, t, rows)));
    } else {
        lemma_rows_hex_chars(img, t, rows - 1);
        lemma_row_hex_chars(img, t, rows - 1, crate::zpl::spec_bytes_per_row(img.width as int));
        lemma_all_wire_hex_concat(
            spec_rows_hex(img, t, rows - 1),
            spec_row_hex(img, t, rows - 1, crate::zpl::spec_bytes_per_row(img.width as int)),
        );
    }
}

/// The serialized raster text has the shape the decoder looks for: the
/// command opens the text, no caret follows the header, and the section
/// splits into exactly the four emitted fields.
#[verifier::rlimit(100)]
#[verifier::spinoff_prover]
proof fn lemma_gf_text_shape(s1: Seq<char>, s3: Seq<char>, data: Seq<char>, text: Seq<char>)
    requires
        crate::text::all_dec_digits(s1),
        crate::text::all_dec_digits(s3),
        s1.len() >= 1,
        s3.len() >= 1,
        all_wire_hex(data),
        text == "^GFA,"@ + s1 + ","@ + s1 + ","@ + s3 + ","@ + data,
    ensures
        crate::text::spec_find_ci(text, "^GF"@) == 0,
        text.len() >= 5 + s1.len() + s1.len() + s3.len() + 3,
        crate::text::spec_ascii_upper(text[3]) == 'A',
        text[4] == ',',
        crate::text::spec_find_char_from(text, 5, '^') == -1,
        crate::text::spec_split(text.subrange(5, text.len() as int), ',') == seq![
            s1,
            s1,
            s3,
            data,
        ],
{
    reveal_strlit("^GFA,");
    reveal_strlit(",");
    reveal_strlit("^GF");
    let section = s1 + ","@ + s1 + ","@ + s3 + ","@ + data;
    assert(","@.len() == 1 && ","@[0] == ',');
    assert("^GFA,"@.len() == 5);
    assert(text.len() == 5 + section.len());
    assert(forall|i: int| 0 <= i < section.len() ==> #[trigger] text[5 + i] == section[i]);
    // the command is found at the very start
    assert(crate::text::spec_matches_ci_at(text, 0, "^GF"@)) by {
        assert(text[0] == '^' && text[1] == 'G' && text[2] == 'F');
        assert(crate::text::spec_ascii_upper('^') == '^');
        assert(crate::text::spec_ascii_upper('G') == 'G');
        assert(crate::text::spec_ascii_upper('F') == 'F');
        assert(forall|j: int|
            0 <= j < 3 ==> crate::text::spec_ascii_upper(text[0 + j]) == #[trigger] "^GF"@[j]);
    }
    assert(crate::text::spec_find_ci(text, "^GF"@) == 0);
    assert(text[3] == 'A' && text[4] == ',');
    assert(crate::text::spec_ascii_upper('A') == 'A');
    // no caret anywhere past the header
    assert forall|k: int| 5 <= k < text.len() implies text[k] != '^' by {
        let i = k - 5;
        assert(text[k] == section[i]);
        lemma_section_char(s1, s3, data, i);
    }
    crate::text::lemma_find_char_none(text, 5, '^');
    assert(text.subrange(5, text.len() as int) =~= section);
    // the section splits into exactly the four emitted fields
    let commas = Set::empty().insert(',');
    let rest1 = s1 + ","@ + s3 + ","@ + data;
    let rest2 = s3 + ","@ + data;
    assert(crate::text::spec_split(section, ',') == seq![s1, s1, s3, data]) by {
        assert(section[s1.len() as int] == ',');
        assert(forall|k: int| 0 <= k < s1.len() ==> !commas.contains(#[trigger] section[k]));
        crate::text::lemma_split_first_sep(section, commas, s1.len() as int);
        assert(section.take(s1.len() as int) =~= s1);
        assert(section.skip(s1.len() as int + 1) =~= rest1);
        assert(rest1[s1.len() as int] == ',');
        assert(forall|k: int| 0 <= k < s1.len() ==> !commas.contains(#[trigger] rest1[k]));
        crate::text::lemma_split_first_sep(rest1, commas, s1.len() as int);
        assert(rest1.take(s1.len() as int) =~= s1);
        assert(rest1.skip(s1.len() as int + 1) =~= rest2);
        assert(rest2[s3.len() as int] == ',');
        assert(forall|k: int| 0 <= k < s3.len() ==> !commas.contains(#[trigger] rest2[k]));
        crate::text::lemma_split_first_sep(rest2, commas, s3.len() as int);
        assert(rest2.take(s3.len() as int) =~= s3);
        assert(rest2.skip(s3.len() as int + 1) =~= data);
        assert(forall|k: int| 0 <= k < data.len() ==> !commas.contains(#[trigger] data[k]));
        crate::text::lemma_split_no_sep(data, commas);
        assert(crate::text::spec_split(section, ',') =~~= seq![s1, s1, s3, data]);
    }
}

/// Round trip: serializing the raster command built from a bitmap whose
/// width is a positive multiple of eight, then decoding the wire text,
/// recovers the declared width and height exactly, and a payload identical
/// to the encoding. The width must be a whole number of bytes, since the
/// decoder can only recover the byte-padded width; and the byte count must
/// fit the decoder's 32-bit header fields.
///
/// Law: encode, serialize, decode is the identity on the geometry and the
/// payload.
#[verifier::rlimit(100)]
#[verifier::spinoff_prover]
pub proof fn lemma_raster_round_trip(img: RasterImage, t: u8, c: crate::zpl::ZplCommand)
    requires
        img.wf(),
        img.width > 0,
        img.width % 8 == 0,
        crate::zpl::spec_bytes_per_row(img.width as int) * img.height < 0x1_0000_0000,
        c matches crate::zpl::ZplCommand::GraphicField { width, height, data } && width
            == img.width && height == img.height && data@ == spec_encode_hex(img, t),
    ensures
        spec_parse_gf(crate::zpl::spec_zpl_text(c)) matches Option::Some(st) && st.0 == img.width
            && st.1 == img.height && st.2 == spec_encode_hex(img, t),
{
    reveal(crate::zpl::spec_zpl_text);
    let w = img.width as int;
    let h = img.height as int;
    let bpr = crate::zpl::spec_bytes_per_row(w);
    let tb = bpr * h;
    let data = spec_encode_hex(img, t);
    lemma_rows_hex_chars(img, t, h);
    assert(crate::text::spec_norm_hex(data) == data) by {
        assert(forall|i: int|
            0 <= i < data.len() ==> !crate::text::is_raster_sep(#[trigger] data[i]) && !(97 <= data[i]
                as u32 && data[i] as u32 <= 122));
        crate::text::lemma_norm_hex_id(data);
    }
    assert(tb >= 0) by (nonlinear_arith)
        requires
            bpr >= 0,
            h >= 0,
            tb == bpr * h,
    ;
    let s1 = crate::text::spec_dec(tb);
    let s3 = crate::text::spec_dec(bpr);
    crate::text::lemma_dec_chars(tb);
    crate::text::lemma_dec_chars(bpr);
    crate::text::lemma_dec_val_inverse(tb);
    crate::text::lemma_dec_val_inverse(bpr);
    let text = crate::zpl::spec_zpl_text(c);
    assert(text == "^GFA,"@ + s1 + ","@ + s1 + ","@ + s3 + ","@ + data);
    lemma_gf_text_shape(s1, s3, data, text);
    let parts = crate::text::spec_split(text.subrange(5, text.len() as int), ',');
    assert(parts.len() == 4);
    // the numeric fields read back as the emitted values
    assert(crate::text::spec_trim(s1) == s1) by {
        crate::text::lemma_trim_id(s1);
    }
    assert(crate::text::spec_trim(s3) == s3) by {
        crate::text::lemma_trim_id(s3);
    }
    assert(crate::text::spec_num_body(s1) == s1);
    assert(crate::text::spec_num_body(s3) == s3);
    assert(crate::text::spec_u32_dec_ok(s1));
    assert(crate::text::spec_u32_dec_ok(s3));
    assert(crate::text::spec_u32_dec(s1) == tb);
    assert(crate::text::spec_u32_dec(s3) == bpr);
    // geometry arithmetic
    assert(bpr == w / 8);
    assert(bpr * 8 == w) by (nonlinear_arith)
        requires
            w % 8 == 0,
            w >= 0,
            bpr == (w + 7) / 8,
    ;
    assert(bpr > 0);
    assert(tb / bpr == h) by (nonlinear_arith)
        requires
            bpr > 0,
            h >= 0,
            tb == bpr * h,
    ;
    // the payload is the untouched encoding
    assert(parts.skip(3) =~~= seq![data]);
    assert(crate::text::spec_concat(seq![data]) == data) by {
        assert(seq![data].drop_first() =~~= Seq::<Seq<char>>::empty());
        assert(crate::text::spec_concat(Seq::<Seq<char>>::empty()) == Seq::<char>::empty());
        assert(crate::text::spec_concat(seq![data]) =~= data);
    }
}

proof fn lemma_section_char(s1: Seq<char>, s3: Seq<char>, data: Seq<char>, i: int)
    requires
        crate::text::all_dec_digits(s1),
        crate::text::all_dec_digits(s3),
        all_wire_hex(data),
        0 <= i < (s1 + ","@ + s1 + ","@ + s3 + ","@ + data).len(),
    ensures
        (s1 + ","@ + s1 + ","@ + s3 + ","@ + data)[i] != '^',
{
    reveal_strlit(",");
    let section = s1 + ","@ + s1 + ","@ + s3 + ","@ + data;
    let n1 = s1.len() as int;
    let n3 = s3.len() as int;
    if i < n1 {
        assert(section[i] == s1[i]);
    } else if i == n1 {
        assert(section[i] == ',');
    } else if i < 2 * n1 + 1 {
        assert(section[i] == s1[i - n1 - 1]);
    } else if i == 2 * n1 + 1 {
        assert(section[i] == ',');
    } else if i < 2 * n1 + 2 + n3 {
        assert(section[i] == s3[i - (2 * n1 + 2)]);
    } else if i == 2 * n1 + 2 + n3 {
        assert(section[i] == ',');
    } else {
        assert(section[i] == data[i - (2 * n1 + 3 + n3)]);
    }
}

} // verus!
