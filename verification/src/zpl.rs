//! The typed command model and its serializer: a closed set of command
//! variants, each with exactly one total, deterministic wire form, and the
//! function joining a command sequence into the wire text.

use vstd::prelude::*;

use crate::text::{
    chars_of, normalize_hex, push_chars, push_dec_u64, push_lit, push_string, spec_dec, spec_digit,
    spec_norm_hex, string_from_chars,
};

verus! {

/// The two command prefixes of the wire syntax.
#[derive(Debug, Clone, Copy)]
pub enum ZplPrefix {
    Caret,
    Tilde,
}

/// Orientation of a font: serialized as one of four fixed characters.
#[derive(Debug, Clone, Copy, PartialEq, Eq, Structural)]
pub enum FontOrientation {
    Normal,
    Rotated90,
    Rotated180,
    Rotated270,
}

impl FontOrientation {
    /// The wire character of this orientation.
    pub open spec fn spec_token(self) -> char {
        match self {
            FontOrientation::Normal => 'N',
            FontOrientation::Rotated90 => 'R',
            FontOrientation::Rotated180 => 'I',
            FontOrientation::Rotated270 => 'B',
        }
    }

    /// Returns the wire character of this orientation.
    pub fn token(&self) -> (c: char)
        ensures
            c == self.spec_token(),
    {
        match self {
            FontOrientation::Normal => 'N',
            FontOrientation::Rotated90 => 'R',
            FontOrientation::Rotated180 => 'I',
            FontOrientation::Rotated270 => 'B',
        }
    }
}

/// Orientation of a barcode field: serialized as one of four fixed characters.
#[derive(Debug, Clone, Copy, PartialEq, Eq, Structural)]
pub enum FieldOrientation {
    Normal,
    Rotated90,
    Rotated180,
    Rotated270,
}

impl FieldOrientation {
    /// The wire character of this orientation.
    pub open spec fn spec_token(self) -> char {
        match self {
            FieldOrientation::Normal => 'N',
            FieldOrientation::Rotated90 => 'R',
            FieldOrientation::Rotated180 => 'I',
            FieldOrientation::Rotated270 => 'B',
        }
    }

    /// Returns the wire character of this orientation.
    pub fn token(&self) -> (c: char)
        ensures
            c == self.spec_token(),
    {
        match self {
            FieldOrientation::Normal => 'N',
            FieldOrientation::Rotated90 => 'R',
            FieldOrientation::Rotated180 => 'I',
            FieldOrientation::Rotated270 => 'B',
        }
    }
}

/// Default rotation of all fields: serialized as one of four fixed characters.
#[derive(Debug, Clone, Copy, PartialEq, Eq, Structural)]
pub enum FieldRotation {
    Normal,
    Rotated90,
    Rotated180,
    Rotated270,
}

impl FieldRotation {
    /// The wire character of this rotation.
    pub open spec fn spec_token(self) -> char {
        match self {
            FieldRotation::Normal => 'N',
            FieldRotation::Rotated90 => 'R',
            FieldRotation::Rotated180 => 'I',
            FieldRotation::Rotated270 => 'B',
        }
    }

    /// Returns the wire character of this rotation.
    pub fn token(&self) -> (c: char)
        ensures
            c == self.spec_token(),
    {
        match self {
            FieldRotation::Normal => 'N',
            FieldRotation::Rotated90 => 'R',
            FieldRotation::Rotated180 => 'I',
            FieldRotation::Rotated270 => 'B',
        }
    }
}

/// One command of the wire protocol. Each variant carries only the fields its
/// wire syntax needs; every variant has exactly one total serialization.
///
/// The barcode module width ratio is held in tenths (a ratio of 2.5 is 25),
/// so that the model stays within the integers; it serializes with at most
/// one digit after the decimal point, as the wire syntax uses.
#[derive(Debug, Clone, PartialEq)]
pub enum ZplCommand {
    StartFormat,
    EndFormat,
    FieldOrigin { x: u32, y: u32 },
    Font { orientation: FontOrientation, height: u32, width: u32 },
    FieldData { data: String },
    FieldSeparator,
    GraphicBox {
        width: u32,
        height: u32,
        thickness: u32,
        color: Option<char>,
        rounding: Option<u8>,
    },
    ChangeFont { font: String, size: u32 },
    FieldOrientation { rotation: FieldRotation },
    BarcodeFieldDefault { width: u32, ratio_tenths: u32, height: u32 },
    Code128Barcode {
        orientation: FieldOrientation,
        height: u32,
        print_interpretation: bool,
        print_above: bool,
        check_digit: bool,
        mode: FieldOrientation,
    },
    GraphicField { width: u32, height: u32, data: String },
    DownloadGraphic { name: String, width: u32, height: u32, data: String },
    RecallGraphic { name: String, magnification_x: u32, magnification_y: u32 },
    MediaModeDelayed,
    MediaModeTearOff,
    CutNow,
}

/// The wire text of a `Y`/`N` flag.
pub open spec fn spec_yn(b: bool) -> Seq<char> {
    if b {
        seq!['Y']
    } else {
        seq!['N']
    }
}

/// The wire text of a ratio held in tenths: the whole part, then `.d` only
/// when the tenths digit is nonzero.
pub open spec fn spec_ratio_text(t: int) -> Seq<char> {
    if t % 10 == 0 {
        spec_dec(t / 10)
    } else {
        spec_dec(t / 10).push('.').push(spec_digit(t % 10))
    }
}

/// The optional trailing parameters of a graphic box: a trailing separator is
/// never emitted for an absent suffix, and an absent color before a present
/// rounding leaves an empty positional field.
pub open spec fn spec_box_tail(color: Option<char>, rounding: Option<u8>) -> Seq<char> {
    match (color, rounding) {
        (Option::Some(c), Option::Some(r)) => seq![',', c, ','] + spec_dec(r as int),
        (Option::Some(c), Option::None) => seq![',', c],
        (Option::None, Option::Some(r)) => seq![',', ','] + spec_dec(r as int),
        (Option::None, Option::None) => Seq::empty(),
    }
}

/// The row stride of a raster of the given pixel width: pixels are packed
/// eight to a byte and rows are padded to a whole byte.
pub open spec fn spec_bytes_per_row(width: int) -> int {
    (width + 7) / 8
}

/// The exact wire text of one command.
#[verifier::opaque]
pub open spec fn spec_zpl_text(c: ZplCommand) -> Seq<char> {
    match c {
        ZplCommand::StartFormat => "^XA"@,
        ZplCommand::EndFormat => "^XZ"@,
        ZplCommand::FieldOrigin { x, y } => "^FO"@ + spec_dec(x as int) + ","@ + spec_dec(y as int),
        ZplCommand::Font { orientation, height, width } => "^A0"@ + seq![orientation.spec_token()]
            + ","@ + spec_dec(height as int) + ","@ + spec_dec(width as int),
        ZplCommand::FieldData { data } => "^FD"@ + data@,
        ZplCommand::FieldSeparator => "^FS"@,
        ZplCommand::GraphicBox { width, height, thickness, color, rounding } => "^GB"@ + spec_dec(
            width as int,
        ) + ","@ + spec_dec(height as int) + ","@ + spec_dec(thickness as int) + spec_box_tail(
            color,
            rounding,
        ),
        ZplCommand::ChangeFont { font, size } => "^CF"@ + font@ + ","@ + spec_dec(size as int),
        ZplCommand::FieldOrientation { rotation } => "^FW"@ + seq![rotation.spec_token()],
        ZplCommand::BarcodeFieldDefault { width, ratio_tenths, height } => "^BY"@ + spec_dec(
            width as int,
        ) + ","@ + spec_ratio_text(ratio_tenths as int) + ","@ + spec_dec(height as int),
        ZplCommand::Code128Barcode {
            orientation,
            height,
            print_interpretation,
            print_above,
            check_digit,
            mode,
        } => "^BC"@ + seq![orientation.spec_token()] + ","@ + spec_dec(height as int) + ","@
            + spec_yn(print_interpretation) + ","@ + spec_yn(print_above) + ","@ + spec_yn(
            check_digit,
        ) + ","@ + seq![mode.spec_token()],
        ZplCommand::GraphicField { width, height, data } => {
            let bpr = spec_bytes_per_row(width as int);
            let total = bpr * height;
            "^GFA,"@ + spec_dec(total) + ","@ + spec_dec(total) + ","@ + spec_dec(bpr) + ","@
                + spec_norm_hex(data@)
        },
        ZplCommand::DownloadGraphic { name, width, height, data } => {
            let bpr = spec_bytes_per_row(width as int);
            let total = bpr * height;
            "~DG"@ + name@ + ","@ + spec_dec(total) + ","@ + spec_dec(bpr) + ","@ + spec_norm_hex(
                data@,
            )
        },
        ZplCommand::RecallGraphic { name, magnification_x, magnification_y } => "^XG"@ + name@
            + ","@ + spec_dec(magnification_x as int) + ","@ + spec_dec(magnification_y as int),
        ZplCommand::MediaModeDelayed => "^MMD"@,
        ZplCommand::MediaModeTearOff => "^MMT"@,
        ZplCommand::CutNow => "~JK"@,
    }
}

/// Appends the normalized form of the raster payload `s` to `out`.
fn push_norm_hex(out: &mut Vec<char>, s: &String)
    ensures
        final(out)@ == old(out)@ + spec_norm_hex(s@),
{
    let cs = chars_of(s.as_str());
    let norm = normalize_hex(&cs);
    push_chars(out, &norm);
}

#[verifier::rlimit(100)]
#[verifier::spinoff_prover]
fn push_field_origin(out: &mut Vec<char>, x: u32, y: u32)
    ensures
        final(out)@ == old(out)@ + spec_zpl_text(ZplCommand::FieldOrigin { x, y }),
{
    push_lit(out, "^FO");
    push_dec_u64(out, x as u64);
    push_lit(out, ",");
    push_dec_u64(out, y as u64);
    proof {
        reveal(spec_zpl_text);
        assert(out@ =~= old(out)@ + spec_zpl_text(ZplCommand::FieldOrigin { x, y }));
    }
}

#[verifier::rlimit(100)]
#[verifier::spinoff_prover]
fn push_font(out: &mut Vec<char>, orientation: FontOrientation, height: u32, width: u32)
    ensures
        final(out)@ == old(out)@ + spec_zpl_text(ZplCommand::Font { orientation, height, width }),
{
    push_lit(out, "^A0");
    out.push(orientation.token());
    push_lit(out, ",");
    push_dec_u64(out, height as u64);
    push_lit(out, ",");
    push_dec_u64(out, width as u64);
    proof {
        reveal(spec_zpl_text);
        assert(out@ =~= old(out)@ + spec_zpl_text(
            ZplCommand::Font { orientation, height, width },
        ));
    }
}

#[verifier::rlimit(100)]
#[verifier::spinoff_prover]
fn push_field_data(out: &mut Vec<char>, data: &String)
    ensures
        final(out)@ == old(out)@ + spec_zpl_text(ZplCommand::FieldData { data: *data }),
{
    push_lit(out, "^FD");
    push_string(out, data);
    proof {
        reveal(spec_zpl_text);
        assert(out@ =~= old(out)@ + spec_zpl_text(ZplCommand::FieldData { data: *data }));
    }
}

#[verifier::rlimit(100)]
#[verifier::spinoff_prover]
fn push_graphic_box(
    out: &mut Vec<char>,
    width: u32,
    height: u32,
    thickness: u32,
    color: &Option<char>,
    rounding: &Option<u8>,
)
    ensures
        final(out)@ == old(out)@ + spec_zpl_text(
            ZplCommand::GraphicBox {
                width,
                height,
                thickness,
                color: *color,
                rounding: *rounding,
            },
        ),
{
    push_lit(out, "^GB");
    push_dec_u64(out, width as u64);
    push_lit(out, ",");
    push_dec_u64(out, height as u64);
    push_lit(out, ",");
    push_dec_u64(out, thickness as u64);
    proof {
        reveal_strlit(",");
        reveal_strlit(",,");
    }
    match (color, rounding) {
        (Option::Some(c), Option::Some(r)) => {
            push_lit(out, ",");
            out.push(*c);
            push_lit(out, ",");
            push_dec_u64(out, *r as u64);
        },
        (Option::Some(c), Option::None) => {
            push_lit(out, ",");
            out.push(*c);
        },
        (Option::None, Option::Some(r)) => {
            push_lit(out, ",,");
            push_dec_u64(out, *r as u64);
        },
        (Option::None, Option::None) => {},
    }
    proof {
        reveal(spec_zpl_text);
        assert(out@ =~= old(out)@ + spec_zpl_text(
            ZplCommand::GraphicBox {
                width,
                height,
                thickness,
                color: *color,
                rounding: *rounding,
            },
        ));
    }
}

#[verifier::rlimit(100)]
#[verifier::spinoff_prover]
fn push_change_font(out: &mut Vec<char>, font: &String, size: u32)
    ensures
        final(out)@ == old(out)@ + spec_zpl_text(ZplCommand::ChangeFont { font: *font, size }),
{
    push_lit(out, "^CF");
    push_string(out, font);
    push_lit(out, ",");
    push_dec_u64(out, size as u64);
    proof {
        reveal(spec_zpl_text);
        assert(out@ =~= old(out)@ + spec_zpl_text(ZplCommand::ChangeFont { font: *font, size }));
    }
}

#[verifier::rlimit(100)]
#[verifier::spinoff_prover]
fn push_field_orientation(out: &mut Vec<char>, rotation: FieldRotation)
    ensures
        final(out)@ == old(out)@ + spec_zpl_text(ZplCommand::FieldOrientation { rotation }),
{
    push_lit(out, "^FW");
    out.push(rotation.token());
    proof {
        reveal(spec_zpl_text);
        assert(out@ =~= old(out)@ + spec_zpl_text(ZplCommand::FieldOrientation { rotation }));
    }
}

#[verifier::rlimit(100)]
#[verifier::spinoff_prover]
fn push_barcode_default(out: &mut Vec<char>, width: u32, ratio_tenths: u32, height: u32)
    ensures
        final(out)@ == old(out)@ + spec_zpl_text(
            ZplCommand::BarcodeFieldDefault { width, ratio_tenths, height },
        ),
{
    push_lit(out, "^BY");
    push_dec_u64(out, width as u64);
    push_lit(out, ",");
    push_dec_u64(out, (ratio_tenths / 10) as u64);
    if ratio_tenths % 10 != 0 {
        let d: u8 = ((ratio_tenths % 10) as u8) + 48;
        out.push('.');
        out.push(d as char);
    }
    push_lit(out, ",");
    push_dec_u64(out, height as u64);
    proof {
        reveal(spec_zpl_text);
        assert(out@ =~= old(out)@ + spec_zpl_text(
            ZplCommand::BarcodeFieldDefault { width, ratio_tenths, height },
        ));
    }
}

#[verifier::rlimit(100)]
#[verifier::spinoff_prover]
fn push_code128(
    out: &mut Vec<char>,
    orientation: FieldOrientation,
    height: u32,
    print_interpretation: bool,
    print_above: bool,
    check_digit: bool,
    mode: FieldOrientation,
)
    ensures
        final(out)@ == old(out)@ + spec_zpl_text(
            ZplCommand::Code128Barcode {
                orientation,
                height,
                print_interpretation,
                print_above,
                check_digit,
                mode,
            },
        ),
{
    push_lit(out, "^BC");
    out.push(orientation.token());
    push_lit(out, ",");
    push_dec_u64(out, height as u64);
    push_lit(out, ",");
    out.push(if print_interpretation { 'Y' } else { 'N' });
    push_lit(out, ",");
    out.push(if print_above { 'Y' } else { 'N' });
    push_lit(out, ",");
    out.push(if check_digit { 'Y' } else { 'N' });
    push_lit(out, ",");
    out.push(mode.token());
    proof {
        reveal(spec_zpl_text);
        assert(out@ =~= old(out)@ + spec_zpl_text(
            ZplCommand::Code128Barcode {
                orientation,
                height,
                print_interpretation,
                print_above,
                check_digit,
                mode,
            },
        ));
    }
}

#[verifier::rlimit(100)]
#[verifier::spinoff_prover]
fn push_graphic_field(out: &mut Vec<char>, width: u32, height: u32, data: &String)
    ensures
        final(out)@ == old(out)@ + spec_zpl_text(
            ZplCommand::GraphicField { width, height, data: *data },
        ),
{
    let bpr: u64 = ((width as u64) + 7) / 8;
    let h64: u64 = height as u64;
    proof {
        assert((bpr as int) * (h64 as int) <= 0x2000_0000 * 0xFFFF_FFFF) by (nonlinear_arith)
            requires
                bpr <= 0x2000_0000,
                h64 <= 0xFFFF_FFFF,
        ;
    }
    let total: u64 = bpr * h64;
    push_lit(out, "^GFA,");
    push_dec_u64(out, total);
    push_lit(out, ",");
    push_dec_u64(out, total);
    push_lit(out, ",");
    push_dec_u64(out, bpr);
    push_lit(out, ",");
    push_norm_hex(out, data);
    proof {
        reveal(spec_zpl_text);
        assert(out@ =~= old(out)@ + spec_zpl_text(
            ZplCommand::GraphicField { width, height, data: *data },
        ));
    }
}

#[verifier::rlimit(100)]
#[verifier::spinoff_prover]
fn push_download_graphic(out: &mut Vec<char>, name: &String, width: u32, height: u32, data: &String)
    ensures
        final(out)@ == old(out)@ + spec_zpl_text(
            ZplCommand::DownloadGraphic { name: *name, width, height, data: *data },
        ),
{
    let bpr: u64 = ((width as u64) + 7) / 8;
    let h64: u64 = height as u64;
    proof {
        assert((bpr as int) * (h64 as int) <= 0x2000_0000 * 0xFFFF_FFFF) by (nonlinear_arith)
            requires
                bpr <= 0x2000_0000,
                h64 <= 0xFFFF_FFFF,
        ;
    }
    let total: u64 = bpr * h64;
    push_lit(out, "~DG");
    push_string(out, name);
    push_lit(out, ",");
    push_dec_u64(out, total);
    push_lit(out, ",");
    push_dec_u64(out, bpr);
    push_lit(out, ",");
    push_norm_hex(out, data);
    proof {
        reveal(spec_zpl_text);
        assert(out@ =~= old(out)@ + spec_zpl_text(
            ZplCommand::DownloadGraphic { name: *name, width, height, data: *data },
        ));
    }
}

#[verifier::rlimit(100)]
#[verifier::spinoff_prover]
fn push_recall_graphic(out: &mut Vec<char>, name: &String, mx: u32, my: u32)
    ensures
        final(out)@ == old(out)@ + spec_zpl_text(
            ZplCommand::RecallGraphic { name: *name, magnification_x: mx, magnification_y: my },
        ),
{
    push_lit(out, "^XG");
    push_string(out, name);
    push_lit(out, ",");
    push_dec_u64(out, mx as u64);
    push_lit(out, ",");
    push_dec_u64(out, my as u64);
    proof {
        reveal(spec_zpl_text);
        assert(out@ =~= old(out)@ + spec_zpl_text(
            ZplCommand::RecallGraphic { name: *name, magnification_x: mx, magnification_y: my },
        ));
    }
}

fn push_fixed(out: &mut Vec<char>, c: &ZplCommand)
    requires
        c matches ZplCommand::StartFormat || c matches ZplCommand::EndFormat || c matches
            ZplCommand::FieldSeparator || c matches ZplCommand::MediaModeDelayed || c matches
            ZplCommand::MediaModeTearOff || c matches ZplCommand::CutNow,
    ensures
        final(out)@ == old(out)@ + spec_zpl_text(*c),
{
    proof {
        reveal(spec_zpl_text);
    }
    match c {
        ZplCommand::StartFormat => push_lit(out, "^XA"),
        ZplCommand::EndFormat => push_lit(out, "^XZ"),
        ZplCommand::FieldSeparator => push_lit(out, "^FS"),
        ZplCommand::MediaModeDelayed => push_lit(out, "^MMD"),
        ZplCommand::MediaModeTearOff => push_lit(out, "^MMT"),
        _ => push_lit(out, "~JK"),
    }
}

impl ZplCommand {
    /// Appends the wire text of this command to `out`.
    fn push_zpl(&self, out: &mut Vec<char>)
        ensures
            final(out)@ == old(out)@ + spec_zpl_text(*self),
    {
        match self {
            ZplCommand::StartFormat => push_fixed(out, self),
            ZplCommand::EndFormat => push_fixed(out, self),
            ZplCommand::FieldOrigin { x, y } => push_field_origin(out, *x, *y),
            ZplCommand::Font { orientation, height, width } => push_font(
                out,
                *orientation,
                *height,
                *width,
            ),
            ZplCommand::FieldData { data } => push_field_data(out, data),
            ZplCommand::FieldSeparator => push_fixed(out, self),
            ZplCommand::GraphicBox { width, height, thickness, color, rounding } => push_graphic_box(
                out,
                *width,
                *height,
                *thickness,
                color,
                rounding,
            ),
            ZplCommand::ChangeFont { font, size } => push_change_font(out, font, *size),
            ZplCommand::FieldOrientation { rotation } => push_field_orientation(out, *rotation),
            ZplCommand::BarcodeFieldDefault { width, ratio_tenths, height } => push_barcode_default(
                out,
                *width,
                *ratio_tenths,
                *height,
            ),
            ZplCommand::Code128Barcode {
                orientation,
                height,
                print_interpretation,
                print_above,
                check_digit,
                mode,
            } => push_code128(
                out,
                *orientation,
                *height,
                *print_interpretation,
                *print_above,
                *check_digit,
                *mode,
            ),
            ZplCommand::GraphicField { width, height, data } => push_graphic_field(
                out,
                *width,
                *height,
                data,
            ),
            ZplCommand::DownloadGraphic { name, width, height, data } => push_download_graphic(
                out,
                name,
                *width,
                *height,
                data,
            ),
            ZplCommand::RecallGraphic { name, magnification_x, magnification_y } => push_recall_graphic(
                out,
                name,
                *magnification_x,
                *magnification_y,
            ),
            ZplCommand::MediaModeDelayed => push_fixed(out, self),
            ZplCommand::MediaModeTearOff => push_fixed(out, self),
            ZplCommand::CutNow => push_fixed(out, self),
        }
    }

    /// Returns the exact wire text of this command.
    pub fn to_zpl_string(&self) -> (r: String)
        ensures
            r@ == spec_zpl_text(*self),
    {
        let mut out: Vec<char> = Vec::new();
        self.push_zpl(&mut out);
        string_from_chars(&out)
    }
}

/// The wire text of a command sequence: each command's text, joined by
/// newlines, in the order given.
pub open spec fn spec_commands_zpl(cs: Seq<ZplCommand>) -> Seq<char>
    decreases cs.len(),
{
    if cs.len() == 0 {
        Seq::empty()
    } else if cs.len() == 1 {
        spec_zpl_text(cs[0])
    } else {
        spec_zpl_text(cs[0]) + "\n"@ + spec_commands_zpl(cs.drop_first())
    }
}

proof fn lemma_commands_zpl_push(cs: Seq<ZplCommand>, c: ZplCommand)
    ensures
        spec_commands_zpl(cs.push(c)) == if cs.len() == 0 {
            spec_zpl_text(c)
        } else {
            spec_commands_zpl(cs) + "\n"@ + spec_zpl_text(c)
        },
    decreases cs.len(),
{
    if cs.len() == 0 {
        assert(cs.push(c)[0] == c);
    } else if cs.len() == 1 {
        assert(cs.push(c)[0] == cs[0]);
        assert(cs.push(c).drop_first() =~= seq![c]);
        assert(spec_commands_zpl(seq![c]) == spec_zpl_text(c));
        assert(spec_zpl_text(cs[0]) + "\n"@ + spec_zpl_text(c) =~= spec_commands_zpl(cs) + "\n"@
            + spec_zpl_text(c));
    } else {
        assert(cs.push(c)[0] == cs[0]);
        assert(cs.push(c).drop_first() =~= cs.drop_first().push(c));
        lemma_commands_zpl_push(cs.drop_first(), c);
        assert(spec_zpl_text(cs[0]) + "\n"@ + (spec_commands_zpl(cs.drop_first()) + "\n"@
            + spec_zpl_text(c)) =~= (spec_zpl_text(cs[0]) + "\n"@ + spec_commands_zpl(
            cs.drop_first(),
        )) + "\n"@ + spec_zpl_text(c));
    }
}

/// Serializes a command sequence to its wire text. Total and pure: the result
/// is exactly the newline-joined wire forms of the commands, in order, for
/// every input.
pub fn commands_to_zpl(commands: &[ZplCommand]) -> (r: String)
    ensures
        r@ == spec_commands_zpl(commands@),
{
    let mut out: Vec<char> = Vec::new();
    let mut i: usize = 0;
    while i < commands.len()
        invariant
            0 <= i <= commands@.len(),
            out@ == spec_commands_zpl(commands@.take(i as int)),
        decreases commands@.len() - i,
    {
        proof {
            assert(commands@.take(i + 1) =~= commands@.take(i as int).push(commands@[i as int]));
            lemma_commands_zpl_push(commands@.take(i as int), commands@[i as int]);
        }
        if i > 0 {
            push_lit(&mut out, "\n");
        }
        let ghost mid = out@;
        commands[i].push_zpl(&mut out);
        proof {
            if i == 0 {
                assert(out@ =~= spec_commands_zpl(commands@.take(i + 1)));
            } else {
                assert(out@ =~= spec_commands_zpl(commands@.take(i + 1)));
            }
        }
        i = i + 1;
    }
    proof {
        assert(commands@.take(commands@.len() as int) =~= commands@);
    }
    string_from_chars(&out)
}

/// The display name of each command kind.
pub open spec fn spec_command_name(c: ZplCommand) -> Seq<char> {
    match c {
        ZplCommand::StartFormat => "Start Format (^XA)"@,
        ZplCommand::EndFormat => "End Format (^XZ)"@,
        ZplCommand::FieldOrigin { .. } => "Field Origin (^FO)"@,
        ZplCommand::Font { .. } => "Font (^A0)"@,
        ZplCommand::FieldData { .. } => "Field Data (^FD)"@,
        ZplCommand::FieldSeparator => "Field Separator (^FS)"@,
        ZplCommand::GraphicBox { .. } => "Graphic Box (^GB)"@,
        ZplCommand::ChangeFont { .. } => "Change Font (^CF)"@,
        ZplCommand::FieldOrientation { .. } => "Field Orientation (^FW)"@,
        ZplCommand::BarcodeFieldDefault { .. } => "Barcode Field Default (^BY)"@,
        ZplCommand::Code128Barcode { .. } => "Code 128 Barcode (^BC)"@,
        ZplCommand::GraphicField { .. } => "Graphic Field (^GFA)"@,
        ZplCommand::DownloadGraphic { .. } => "Download Graphic (~DG)"@,
        ZplCommand::RecallGraphic { .. } => "Recall Graphic (^XG)"@,
        ZplCommand::MediaModeDelayed => "Media Mode Delayed (^MMD)"@,
        ZplCommand::MediaModeTearOff => "Media Mode Tear-off (^MMT)"@,
        ZplCommand::CutNow => "Cut Now (~JK)"@,
    }
}

impl ZplCommand {
    /// Returns the display name of this command kind.
    pub fn command_name(&self) -> (r: &'static str)
        ensures
            r@ == spec_command_name(*self),
    {
        match self {
            ZplCommand::StartFormat => "Start Format (^XA)",
            ZplCommand::EndFormat => "End Format (^XZ)",
            ZplCommand::FieldOrigin { .. } => "Field Origin (^FO)",
            ZplCommand::Font { .. } => "Font (^A0)",
            ZplCommand::FieldData { .. } => "Field Data (^FD)",
            ZplCommand::FieldSeparator => "Field Separator (^FS)",
            ZplCommand::GraphicBox { .. } => "Graphic Box (^GB)",
            ZplCommand::ChangeFont { .. } => "Change Font (^CF)",
            ZplCommand::FieldOrientation { .. } => "Field Orientation (^FW)",
            ZplCommand::BarcodeFieldDefault { .. } => "Barcode Field Default (^BY)",
            ZplCommand::Code128Barcode { .. } => "Code 128 Barcode (^BC)",
            ZplCommand::GraphicField { .. } => "Graphic Field (^GFA)",
            ZplCommand::DownloadGraphic { .. } => "Download Graphic (~DG)",
            ZplCommand::RecallGraphic { .. } => "Recall Graphic (^XG)",
            ZplCommand::MediaModeDelayed => "Media Mode Delayed (^MMD)",
            ZplCommand::MediaModeTearOff => "Media Mode Tear-off (^MMT)",
            ZplCommand::CutNow => "Cut Now (~JK)",
        }
    }

    /// The palette of command kinds offered to an editor, each with its
    /// display name and a default-valued instance.
    pub fn all_command_types() -> (r: Vec<(&'static str, ZplCommand)>)
        ensures
            r@.len() == 10,
            forall|i: int| 0 <= i < 10 ==> #[trigger] r@[i].0@ == spec_command_name(r@[i].1),
            r@[0].1 is StartFormat,
            r@[1].1 is EndFormat,
            r@[2].1 matches ZplCommand::FieldOrigin { x: 0u32, y: 0u32 },
            r@[3].1 matches ZplCommand::Font {
                orientation: FontOrientation::Normal,
                height: 30u32,
                width: 30u32,
            },
            r@[4].1 matches ZplCommand::FieldData { data } && data@ == Seq::<char>::empty(),
            r@[5].1 is FieldSeparator,
            r@[6].1 matches ZplCommand::GraphicBox {
                width: 100u32,
                height: 100u32,
                thickness: 1u32,
                color: Option::None,
                rounding: Option::None,
            },
            r@[7].1 matches ZplCommand::GraphicField { width: 32u32, height: 32u32, data }
                && data@ == Seq::<char>::empty(),
            r@[8].1 matches ZplCommand::DownloadGraphic {
                name,
                width: 32u32,
                height: 32u32,
                data,
            } && name@ == "GRAPHIC"@ && data@ == Seq::<char>::empty(),
            r@[9].1 matches ZplCommand::RecallGraphic {
                name,
                magnification_x: 1u32,
                magnification_y: 1u32,
            } && name@ == "GRAPHIC"@,
    {
        let mut r: Vec<(&'static str, ZplCommand)> = Vec::new();
        r.push(("Start Format (^XA)", ZplCommand::StartFormat));
        r.push(("End Format (^XZ)", ZplCommand::EndFormat));
        r.push(("Field Origin (^FO)", ZplCommand::FieldOrigin { x: 0, y: 0 }));
        r.push(
            (
                "Font (^A0)",
                ZplCommand::Font { orientation: FontOrientation::Normal, height: 30, width: 30 },
            ),
        );
        r.push(("Field Data (^FD)", ZplCommand::FieldData { data: String::new() }));
        r.push(("Field Separator (^FS)", ZplCommand::FieldSeparator));
        r.push(
            (
                "Graphic Box (^GB)",
                ZplCommand::GraphicBox {
                    width: 100,
                    height: 100,
                    thickness: 1,
                    color: None,
                    rounding: None,
                },
            ),
        );
        r.push(
            (
                "Graphic Field (^GFA)",
                ZplCommand::GraphicField { width: 32, height: 32, data: String::new() },
            ),
        );
        let name1 = crate::text::chars_of("GRAPHIC");
        r.push(
            (
                "Download Graphic (~DG)",
                ZplCommand::DownloadGraphic {
                    name: string_from_chars(&name1),
                    width: 32,
                    height: 32,
                    data: String::new(),
                },
            ),
        );
        let name2 = crate::text::chars_of("GRAPHIC");
        r.push(
            (
                "Recall Graphic (^XG)",
                ZplCommand::RecallGraphic {
                    name: string_from_chars(&name2),
                    magnification_x: 1,
                    magnification_y: 1,
                },
            ),
        );
        r
    }
}

impl Default for ZplCommand {
    /// The default command: a bare field separator.
    fn default() -> (r: Self)
        ensures
            r is FieldSeparator,
    {
        ZplCommand::FieldSeparator
    }
}

/// A label under construction: a command sequence opened with the format
/// start and, on `build`, closed with the format end.
#[derive(Debug, Clone, PartialEq)]
pub struct ZplLabel {
    commands: Vec<ZplCommand>,
}

impl ZplLabel {
    /// The commands collected so far, in order.
    pub closed spec fn commands(self) -> Seq<ZplCommand> {
        self.commands@
    }

    /// A fresh label, holding only the format start.
    pub fn new() -> (r: Self)
        ensures
            r.commands() == seq![ZplCommand::StartFormat],
    {
        let mut commands: Vec<ZplCommand> = Vec::new();
        commands.push(ZplCommand::StartFormat);
        proof {
            assert(commands@ =~= seq![ZplCommand::StartFormat]);
        }
        ZplLabel { commands }
    }

    /// Appends a field origin.
    pub fn field_origin(self, x: u32, y: u32) -> (r: Self)
        ensures
            r.commands() == self.commands().push(ZplCommand::FieldOrigin { x, y }),
    {
        let mut commands = self.commands;
        commands.push(ZplCommand::FieldOrigin { x, y });
        ZplLabel { commands }
    }

    /// Appends a font selection.
    pub fn font(self, orientation: FontOrientation, height: u32, width: u32) -> (r: Self)
        ensures
            r.commands() == self.commands().push(
                ZplCommand::Font { orientation, height, width },
            ),
    {
        let mut commands = self.commands;
        commands.push(ZplCommand::Font { orientation, height, width });
        ZplLabel { commands }
    }

    /// Appends a field data payload.
    pub fn field_data(self, data: String) -> (r: Self)
        ensures
            r.commands().len() == self.commands().len() + 1,
            r.commands().take(self.commands().len() as int) == self.commands(),
            r.commands().last() matches ZplCommand::FieldData { data: d } && d@ == data@,
    {
        let ghost before = self.commands@;
        let mut commands = self.commands;
        commands.push(ZplCommand::FieldData { data });
        proof {
            assert(commands@.take(before.len() as int) =~= before);
        }
        ZplLabel { commands }
    }

    /// Appends a field separator.
    pub fn field_separator(self) -> (r: Self)
        ensures
            r.commands() == self.commands().push(ZplCommand::FieldSeparator),
    {
        let mut commands = self.commands;
        commands.push(ZplCommand::FieldSeparator);
        ZplLabel { commands }
    }

    /// Appends a plain graphic box, with no color or rounding.
    pub fn graphic_box(self, width: u32, height: u32, thickness: u32) -> (r: Self)
        ensures
            r.commands() == self.commands().push(
                ZplCommand::GraphicBox {
                    width,
                    height,
                    thickness,
                    color: Option::None,
                    rounding: Option::None,
                },
            ),
    {
        let mut commands = self.commands;
        commands.push(
            ZplCommand::GraphicBox { width, height, thickness, color: None, rounding: None },
        );
        ZplLabel { commands }
    }

    /// Appends a raster field.
    pub fn graphic_field(self, width: u32, height: u32, data: String) -> (r: Self)
        ensures
            r.commands().len() == self.commands().len() + 1,
            r.commands().take(self.commands().len() as int) == self.commands(),
            r.commands().last() matches ZplCommand::GraphicField { width: w, height: h, data: d }
                && w == width && h == height && d@ == data@,
    {
        let ghost before = self.commands@;
        let mut commands = self.commands;
        commands.push(ZplCommand::GraphicField { width, height, data });
        proof {
            assert(commands@.take(before.len() as int) =~= before);
        }
        ZplLabel { commands }
    }

    /// Closes the label with the format end and serializes the whole
    /// sequence to wire text.
    pub fn build(self) -> (r: String)
        ensures
            r@ == spec_commands_zpl(self.commands().push(ZplCommand::EndFormat)),
    {
        let mut commands = self.commands;
        commands.push(ZplCommand::EndFormat);
        commands_to_zpl(&commands)
    }
}

impl Default for ZplLabel {
    /// The default label is a fresh one.
    fn default() -> (r: Self)
        ensures
            r.commands() == seq![ZplCommand::StartFormat],
    {
        ZplLabel::new()
    }
}

/// Serialization is compositional and keeps order end-to-end: one sequence
/// followed by another serializes to the first's wire text, the line
/// separator, then the second's, so the order of commands maps directly to
/// the order they appear on the wire.
pub proof fn lemma_commands_zpl_append(a: Seq<ZplCommand>, b: Seq<ZplCommand>)
    ensures
        spec_commands_zpl(a + b) == if a.len() == 0 {
            spec_commands_zpl(b)
        } else if b.len() == 0 {
            spec_commands_zpl(a)
        } else {
            spec_commands_zpl(a) + "\n"@ + spec_commands_zpl(b)
        },
    decreases a.len(),
{
    if a.len() == 0 {
        assert(a + b =~= b);
    } else if b.len() == 0 {
        assert(a + b =~= a);
    } else {
        assert((a + b)[0] == a[0]);
        assert((a + b).len() >= 2);
        assert((a + b).drop_first() =~= a.drop_first() + b);
        lemma_commands_zpl_append(a.drop_first(), b);
        if a.len() == 1 {
            assert(a.drop_first() + b =~= b);
            assert(spec_commands_zpl(a) == spec_zpl_text(a[0]));
        } else {
            assert(spec_zpl_text(a[0]) + "\n"@ + (spec_commands_zpl(a.drop_first()) + "\n"@
                + spec_commands_zpl(b)) =~= (spec_zpl_text(a[0]) + "\n"@ + spec_commands_zpl(
                a.drop_first(),
            )) + "\n"@ + spec_commands_zpl(b));
        }
    }
}

/// The serializer is deterministic: the wire text is a pure function of the
/// command sequence alone, so serializing an unchanged sequence twice yields
/// identical text.
///
/// Law: for all command sequences, repeated serialization agrees.
pub proof fn lemma_serialize_deterministic(cs1: Seq<ZplCommand>, cs2: Seq<ZplCommand>)
    requires
        cs1 == cs2,
    ensures
        spec_commands_zpl(cs1) == spec_commands_zpl(cs2),
{
}

} // verus!
