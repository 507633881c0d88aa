//! Decoders for the printer's telemetry replies: a bit-flag status record
//! with its fixed description tables, and one small, independent parser per
//! response class. Every decoder is total: it returns a structured record or
//! nothing, and never fails the caller.

use vstd::prelude::*;

use crate::text::{
    chars_of, eq_lit, lines_of, parse_u32_hex, push_chars, push_lit, push_string, spec_lines,
    spec_starts_at, spec_tokens, spec_trim, spec_u32_hex, spec_u32_hex_ok, starts_with_lit,
    string_from_chars, tokens_of, trim,
};

verus! {

/// One row of a description table: the flag mask and its meaning.
pub type FlagRow = (u32, &'static str);

/// The descriptions of the set flags: for each table row whose mask overlaps
/// `bits`, its text, in table (bit-position-ascending) order. Unknown bits
/// match no row and are silently ignored.
pub open spec fn spec_flag_descs(table: Seq<(u32, Seq<char>)>, bits: u32) -> Seq<Seq<char>>
    decreases table.len(),
{
    if table.len() == 0 {
        Seq::empty()
    } else {
        (if table[0].0 & bits != 0 {
            seq![table[0].1]
        } else {
            Seq::<Seq<char>>::empty()
        }) + spec_flag_descs(table.drop_first(), bits)
    }
}

proof fn lemma_flag_descs_push(table: Seq<(u32, Seq<char>)>, row: (u32, Seq<char>), bits: u32)
    ensures
        spec_flag_descs(table.push(row), bits) == spec_flag_descs(table, bits) + (if row.0 & bits
            != 0 {
            seq![row.1]
        } else {
            Seq::<Seq<char>>::empty()
        }),
    decreases table.len(),
{
    let tail = if row.0 & bits != 0 {
        seq![row.1]
    } else {
        Seq::<Seq<char>>::empty()
    };
    if table.len() == 0 {
        assert(table.push(row).drop_first() =~~= Seq::<(u32, Seq<char>)>::empty());
        assert(table.push(row)[0] == row);
        assert(spec_flag_descs(Seq::<(u32, Seq<char>)>::empty(), bits) == Seq::<Seq<char>>::empty());
        assert(spec_flag_descs(table.push(row), bits) =~~= tail + Seq::<Seq<char>>::empty());
        assert(tail + Seq::<Seq<char>>::empty() =~~= Seq::<Seq<char>>::empty() + tail);
    } else {
        assert(table.push(row).drop_first() =~~= table.drop_first().push(row));
        lemma_flag_descs_push(table.drop_first(), row, bits);
        assert(table.push(row)[0] == table[0]);
        let head = if table[0].0 & bits != 0 {
            seq![table[0].1]
        } else {
            Seq::<Seq<char>>::empty()
        };
        assert(spec_flag_descs(table.push(row), bits) == head + (spec_flag_descs(
            table.drop_first(),
            bits,
        ) + tail));
        assert(head + (spec_flag_descs(table.drop_first(), bits) + tail) =~~= (head
            + spec_flag_descs(table.drop_first(), bits)) + tail);
    }
}

/// Walks a description table and collects the texts of the set flags.
fn descs_from_table(table: &Vec<FlagRow>, bits: u32) -> (r: Vec<String>)
    ensures
        r.deep_view() == spec_flag_descs(table.deep_view(), bits),
{
    let ghost t = table.deep_view();
    let mut out: Vec<String> = Vec::new();
    let mut i: usize = 0;
    proof {
        assert(t.take(0) =~~= Seq::<(u32, Seq<char>)>::empty());
        assert(out.deep_view() =~~= spec_flag_descs(t.take(0), bits));
    }
    while i < table.len()
        invariant
            0 <= i <= table@.len(),
            t == table.deep_view(),
            t.len() == table@.len(),
            out.deep_view() == spec_flag_descs(t.take(i as int), bits),
        decreases table@.len() - i,
    {
        let (mask, text) = table[i];
        proof {
            assert(t.take(i + 1) =~~= t.take(i as int).push(t[i as int]));
            lemma_flag_descs_push(t.take(i as int), t[i as int], bits);
            assert(t[i as int] == (table@[i as int].0, table@[i as int].1@));
        }
        let ghost before = out.deep_view();
        if mask & bits != 0 {
            let cs = chars_of(text);
            out.push(string_from_chars(&cs));
            proof {
                assert(out.deep_view() =~~= before.push(text@));
                assert(out.deep_view() =~~= spec_flag_descs(t.take(i + 1), bits));
            }
        } else {
            proof {
                assert(out.deep_view() =~~= spec_flag_descs(t.take(i + 1), bits));
            }
        }
        i = i + 1;
    }
    proof {
        assert(t.take(t.len() as int) =~~= t);
    }
    out
}

/// The error flag table: each bit of the error word with its meaning, in
/// bit-position-ascending order.
pub open spec fn spec_error_table() -> Seq<(u32, Seq<char>)> {
    seq![
        (0x00000001u32, "Media out or not loaded"@),
        (0x00000002u32, "Ribbon out or not loaded"@),
        (0x00000004u32, "Head open / Cover open"@),
        (0x00000008u32, "Cutter fault"@),
        (0x00000010u32, "Printhead over temperature"@),
        (0x00000020u32, "Motor over temperature"@),
        (0x00000040u32, "Bad printhead element"@),
        (0x00000080u32, "Printhead detection error"@),
        (0x00000100u32, "Invalid firmware configuration"@),
        (0x00000200u32, "Printhead thermistor open"@),
        (0x00001000u32, "Printer paused"@),
        (0x00002000u32, "Retract function timed out (KR403 only)"@),
        (0x00004000u32, "Black mark calibrate error (KR403 only)"@),
        (0x00008000u32, "Black mark not found (KR403 only)"@),
        (0x00010000u32, "Paper jam during retract (KR403 only)"@),
        (0x00020000u32, "Presenter not running (KR403 only)"@),
        (0x00040000u32, "Paper feed error (KR403 only)"@),
        (0x00080000u32, "Clear paper path failed (KR403 only)"@),
    ]
}

/// The warning flag table, in bit-position-ascending order.
pub open spec fn spec_warning_table() -> Seq<(u32, Seq<char>)> {
    seq![
        (0x00000001u32, "Need to calibrate media"@),
        (0x00000002u32, "Clean printhead"@),
        (0x00000004u32, "Replace printhead"@),
        (0x00000008u32, "Paper near end sensor (KR403 only)"@),
        (0x00000010u32, "Sensor 1: Paper before head (KR403 only)"@),
        (0x00000020u32, "Sensor 2: Black mark (KR403 only)"@),
        (0x00000040u32, "Sensor 3: Paper after head (KR403 only)"@),
        (0x00000080u32, "Sensor 4: Loop ready (KR403 only)"@),
        (0x00000100u32, "Sensor 5: Presenter (KR403 only)"@),
        (0x00000200u32, "Sensor 6: Retract ready (KR403 only)"@),
        (0x00000400u32, "Sensor 7: In retract (KR403 only)"@),
        (0x00000800u32, "Sensor 8: At bin (KR403 only)"@),
    ]
}

fn error_table() -> (r: Vec<FlagRow>)
    ensures
        r.deep_view() == spec_error_table(),
{
    let mut t: Vec<FlagRow> = Vec::new();
    t.push((0x00000001u32, "Media out or not loaded"));
    t.push((0x00000002u32, "Ribbon out or not loaded"));
    t.push((0x00000004u32, "Head open / Cover open"));
    t.push((0x00000008u32, "Cutter fault"));
    t.push((0x00000010u32, "Printhead over temperature"));
    t.push((0x00000020u32, "Motor over temperature"));
    t.push((0x00000040u32, "Bad printhead element"));
    t.push((0x00000080u32, "Printhead detection error"));
    t.push((0x00000100u32, "Invalid firmware configuration"));
    t.push((0x00000200u32, "Printhead thermistor open"));
    t.push((0x00001000u32, "Printer paused"));
    t.push((0x00002000u32, "Retract function timed out (KR403 only)"));
    t.push((0x00004000u32, "Black mark calibrate error (KR403 only)"));
    t.push((0x00008000u32, "Black mark not found (KR403 only)"));
    t.push((0x00010000u32, "Paper jam during retract (KR403 only)"));
    t.push((0x00020000u32, "Presenter not running (KR403 only)"));
    t.push((0x00040000u32, "Paper feed error (KR403 only)"));
    t.push((0x00080000u32, "Clear paper path failed (KR403 only)"));
    proof {
        assert(t.deep_view() =~~= spec_error_table());
    }
    t
}

fn warning_table() -> (r: Vec<FlagRow>)
    ensures
        r.deep_view() == spec_warning_table(),
{
    let mut t: Vec<FlagRow> = Vec::new();
    t.push((0x00000001u32, "Need to calibrate media"));
    t.push((0x00000002u32, "Clean printhead"));
    t.push((0x00000004u32, "Replace printhead"));
    t.push((0x00000008u32, "Paper near end sensor (KR403 only)"));
    t.push((0x00000010u32, "Sensor 1: Paper before head (KR403 only)"));
    t.push((0x00000020u32, "Sensor 2: Black mark (KR403 only)"));
    t.push((0x00000040u32, "Sensor 3: Paper after head (KR403 only)"));
    t.push((0x00000080u32, "Sensor 4: Loop ready (KR403 only)"));
    t.push((0x00000100u32, "Sensor 5: Presenter (KR403 only)"));
    t.push((0x00000200u32, "Sensor 6: Retract ready (KR403 only)"));
    t.push((0x00000400u32, "Sensor 7: In retract (KR403 only)"));
    t.push((0x00000800u32, "Sensor 8: At bin (KR403 only)"));
    proof {
        assert(t.deep_view() =~~= spec_warning_table());
    }
    t
}

/// The error flag set of a status reply: a 32-bit word, each known bit with
/// a fixed meaning; unknown bits are kept but never rejected.
#[derive(Debug, Clone, Copy, PartialEq, Eq, Structural)]
pub struct ErrorFlags {
    bits: u32,
}

impl ErrorFlags {
    pub const MEDIA_OUT: u32 = 0x00000001;

    pub const RIBBON_OUT: u32 = 0x00000002;

    pub const HEAD_OPEN: u32 = 0x00000004;

    pub const CUTTER_FAULT: u32 = 0x00000008;

    pub const PRINTHEAD_OVER_TEMPERATURE: u32 = 0x00000010;

    pub const MOTOR_OVER_TEMPERATURE: u32 = 0x00000020;

    pub const BAD_PRINTHEAD_ELEMENT: u32 = 0x00000040;

    pub const PRINTHEAD_DETECTION_ERROR: u32 = 0x00000080;

    pub const INVALID_FIRMWARE_CONFIG: u32 = 0x00000100;

    pub const PRINTHEAD_THERMISTOR_OPEN: u32 = 0x00000200;

    pub const PAUSED: u32 = 0x00001000;

    pub const RETRACT_FUNCTION_TIMED_OUT: u32 = 0x00002000;

    pub const BLACK_MARK_CALIBRATE_ERROR: u32 = 0x00004000;

    pub const BLACK_MARK_NOT_FOUND: u32 = 0x00008000;

    pub const PAPER_JAM_DURING_RETRACT: u32 = 0x00010000;

    pub const PRESENTER_NOT_RUNNING: u32 = 0x00020000;

    pub const PAPER_FEED_ERROR: u32 = 0x00040000;

    pub const CLEAR_PAPER_PATH_FAILED: u32 = 0x00080000;

    /// The raw 32-bit flag word.
    pub closed spec fn spec_bits(self) -> u32 {
        self.bits
    }

    /// The flag set with no bit set.
    pub fn empty() -> (r: Self)
        ensures
            r.spec_bits() == 0,
    {
        ErrorFlags { bits: 0 }
    }

    /// The flag set of a raw 32-bit word.
    pub fn from_hex(bits: u32) -> (r: Self)
        ensures
            r.spec_bits() == bits,
    {
        ErrorFlags { bits }
    }

    /// Whether no flag is set.
    pub fn is_empty(&self) -> (r: bool)
        ensures
            r == (self.spec_bits() == 0),
    {
        self.bits == 0
    }

    /// Whether any bit of `flag` is set.
    pub fn contains(&self, flag: u32) -> (r: bool)
        ensures
            r == ((self.spec_bits() & flag) != 0),
    {
        (self.bits & flag) != 0
    }

    /// The descriptions of the set flags, in bit-position-ascending order.
    pub fn to_descriptions(&self) -> (r: Vec<String>)
        ensures
            r.deep_view() == spec_flag_descs(spec_error_table(), self.spec_bits()),
    {
        let table = error_table();
        descs_from_table(&table, self.bits)
    }
}

/// The warning flag set of a status reply.
#[derive(Debug, Clone, Copy, PartialEq, Eq, Structural)]
pub struct WarningFlags {
    bits: u32,
}

impl WarningFlags {
    pub const NEED_TO_CALIBRATE_MEDIA: u32 = 0x00000001;

    pub const CLEAN_PRINTHEAD: u32 = 0x00000002;

    pub const REPLACE_PRINTHEAD: u32 = 0x00000004;

    pub const PAPER_NEAR_END_SENSOR: u32 = 0x00000008;

    pub const SENSOR_1_PAPER_BEFORE_HEAD: u32 = 0x00000010;

    pub const SENSOR_2_BLACK_MARK: u32 = 0x00000020;

    pub const SENSOR_3_PAPER_AFTER_HEAD: u32 = 0x00000040;

    pub const SENSOR_4_LOOP_READY: u32 = 0x00000080;

    pub const SENSOR_5_PRESENTER: u32 = 0x00000100;

    pub const SENSOR_6_RETRACT_READY: u32 = 0x00000200;

    pub const SENSOR_7_IN_RETRACT: u32 = 0x00000400;

    pub const SENSOR_8_AT_BIN: u32 = 0x00000800;

    /// The raw 32-bit flag word.
    pub closed spec fn spec_bits(self) -> u32 {
        self.bits
    }

    /// The flag set with no bit set.
    pub fn empty() -> (r: Self)
        ensures
            r.spec_bits() == 0,
    {
        WarningFlags { bits: 0 }
    }

    /// The flag set of a raw 32-bit word.
    pub fn from_hex(bits: u32) -> (r: Self)
        ensures
            r.spec_bits() == bits,
    {
        WarningFlags { bits }
    }

    /// Whether no flag is set.
    pub fn is_empty(&self) -> (r: bool)
        ensures
            r == (self.spec_bits() == 0),
    {
        self.bits == 0
    }

    /// Whether any bit of `flag` is set.
    pub fn contains(&self, flag: u32) -> (r: bool)
        ensures
            r == ((self.spec_bits() & flag) != 0),
    {
        (self.bits & flag) != 0
    }

    /// The descriptions of the set flags, in bit-position-ascending order.
    pub fn to_descriptions(&self) -> (r: Vec<String>)
        ensures
            r.deep_view() == spec_flag_descs(spec_warning_table(), self.spec_bits()),
    {
        let table = warning_table();
        descs_from_table(&table, self.bits)
    }
}

/// The decoded status reply: the error and warning flag words.
#[derive(Debug, Clone, Copy, PartialEq, Eq, Structural)]
pub struct PrinterStatus {
    pub errors: ErrorFlags,
    pub warnings: WarningFlags,
}

/// The outcome of scanning the status lines, threading the two flag words:
/// a labeled `ERRORS:` or `WARNINGS:` line replaces its word with the value
/// of the line's fourth whitespace-separated token, read as hexadecimal; a
/// labeled line whose fourth token is absent or not hexadecimal stops the
/// scan with a message; every other line is ignored. Absent labels leave
/// their word at zero.
pub open spec fn spec_status_fold(lines: Seq<Seq<char>>, e0: u32, w0: u32) -> Result<
    (u32, u32),
    Seq<char>,
>
    decreases lines.len(),
{
    if lines.len() == 0 {
        Result::Ok((e0, w0))
    } else {
        let t = spec_trim(lines[0]);
        if spec_starts_at(t, 0, "ERRORS:"@) {
            let toks = spec_tokens(t);
            if toks.len() < 4 {
                Result::Err("Missing hex value"@)
            } else if !spec_u32_hex_ok(toks[3]) {
                Result::Err("Invalid hex value: "@ + toks[3])
            } else {
                spec_status_fold(lines.drop_first(), spec_u32_hex(toks[3]) as u32, w0)
            }
        } else if spec_starts_at(t, 0, "WARNINGS:"@) {
            let toks = spec_tokens(t);
            if toks.len() < 4 {
                Result::Err("Missing hex value"@)
            } else if !spec_u32_hex_ok(toks[3]) {
                Result::Err("Invalid hex value: "@ + toks[3])
            } else {
                spec_status_fold(lines.drop_first(), e0, spec_u32_hex(toks[3]) as u32)
            }
        } else {
            spec_status_fold(lines.drop_first(), e0, w0)
        }
    }
}

proof fn lemma_status_fold_empty(e: u32, w: u32)
    ensures
        spec_status_fold(Seq::<Seq<char>>::empty(), e, w) == Result::<(u32, u32), Seq<char>>::Ok(
            (e, w),
        ),
{
}

proof fn lemma_status_fold_append(a: Seq<Seq<char>>, b: Seq<Seq<char>>, e0: u32, w0: u32)
    ensures
        spec_status_fold(a + b, e0, w0) == match spec_status_fold(a, e0, w0) {
            Result::Ok((e, w)) => spec_status_fold(b, e, w),
            Result::Err(m) => Result::<(u32, u32), Seq<char>>::Err(m),
        },
    decreases a.len(),
{
    if a.len() == 0 {
        assert(a + b =~~= b);
    } else {
        assert((a + b)[0] == a[0]);
        assert((a + b).len() > 0);
        assert((a + b).drop_first() =~~= a.drop_first() + b);
        let t = spec_trim(a[0]);
        if spec_starts_at(t, 0, "ERRORS:"@) {
            let toks = spec_tokens(t);
            if toks.len() >= 4 && spec_u32_hex_ok(toks[3]) {
                lemma_status_fold_append(a.drop_first(), b, spec_u32_hex(toks[3]) as u32, w0);
            }
        } else if spec_starts_at(t, 0, "WARNINGS:"@) {
            let toks = spec_tokens(t);
            if toks.len() >= 4 && spec_u32_hex_ok(toks[3]) {
                lemma_status_fold_append(a.drop_first(), b, e0, spec_u32_hex(toks[3]) as u32);
            }
        } else {
            lemma_status_fold_append(a.drop_first(), b, e0, w0);
        }
    }
}

/// The failure text carrying the malformed token.
fn hex_error_message(token: &Vec<char>) -> (r: String)
    ensures
        r@ == "Invalid hex value: "@ + token@,
{
    let mut msg = chars_of("Invalid hex value: ");
    push_chars(&mut msg, token);
    string_from_chars(&msg)
}

impl PrinterStatus {
    /// Decodes a raw status reply. The reply's lines are scanned for the two
    /// labeled entries; the fold above says exactly which replies succeed,
    /// with which flag words, and which message any failure carries.
    pub fn parse(response: &str) -> (r: Result<PrinterStatus, String>)
        ensures
            match spec_status_fold(spec_lines(response@), 0, 0) {
                Result::Ok((e, w)) => r matches Result::Ok(s) && s.errors.spec_bits() == e
                    && s.warnings.spec_bits() == w,
                Result::Err(m) => r matches Result::Err(s) && s@ == m,
            },
    {
        let cs = chars_of(response);
        let lines = lines_of(&cs);
        let ghost ls = lines.deep_view();
        let mut errors: u32 = 0;
        let mut warnings: u32 = 0;
        let mut i: usize = 0;
        proof {
            assert(ls.take(0) =~~= Seq::<Seq<char>>::empty());
            assert(spec_status_fold(ls.take(0), 0, 0) == Result::<(u32, u32), Seq<char>>::Ok(
                (0u32, 0u32),
            ));
        }
        while i < lines.len()
            invariant
                0 <= i <= lines@.len(),
                ls == lines.deep_view(),
                ls == spec_lines(response@),
                ls.len() == lines@.len(),
                spec_status_fold(ls.take(i as int), 0, 0) == Result::<(u32, u32), Seq<char>>::Ok(
                    (errors, warnings),
                ),
            decreases lines@.len() - i,
        {
            let t = trim(&lines[i]);
            let ghost tl = ls[i as int];
            proof {
                assert(lines@[i as int].deep_view() =~= lines@[i as int]@);
                assert(lines@[i as int].deep_view() == tl);
                assert(t@ == spec_trim(tl));
                assert(ls.take(i + 1) =~~= ls.take(i as int) + seq![tl]);
                lemma_status_fold_append(ls.take(i as int), seq![tl], 0, 0);
                assert(ls =~~= ls.take(i as int) + ls.skip(i as int));
                lemma_status_fold_append(ls.take(i as int), ls.skip(i as int), 0, 0);
                assert(ls.skip(i as int)[0] == tl);
                assert(ls.skip(i as int).len() > 0);
                assert(seq![tl][0] == tl);
                assert(seq![tl].drop_first() =~~= Seq::<Seq<char>>::empty());
            }
            if starts_with_lit(&t, "ERRORS:") {
                let toks = tokens_of(&t);
                if toks.len() < 4 {
                    let cs2 = chars_of("Missing hex value");
                    return Err(string_from_chars(&cs2));
                }
                match parse_u32_hex(&toks[3]) {
                    Some(v) => {
                        proof {
                            assert(toks.deep_view()[3] == toks@[3]@);
                        }
                        errors = v;
                    },
                    None => {
                        proof {
                            assert(toks.deep_view()[3] == toks@[3]@);
                        }
                        return Err(hex_error_message(&toks[3]));
                    },
                }
            } else if starts_with_lit(&t, "WARNINGS:") {
                let toks = tokens_of(&t);
                if toks.len() < 4 {
                    let cs2 = chars_of("Missing hex value");
                    return Err(string_from_chars(&cs2));
                }
                match parse_u32_hex(&toks[3]) {
                    Some(v) => {
                        proof {
                            assert(toks.deep_view()[3] == toks@[3]@);
                        }
                        warnings = v;
                    },
                    None => {
                        proof {
                            assert(toks.deep_view()[3] == toks@[3]@);
                        }
                        return Err(hex_error_message(&toks[3]));
                    },
                }
            }
            proof {
                lemma_status_fold_empty(errors, warnings);
            }
            i = i + 1;
        }
        proof {
            assert(ls.take(lines@.len() as int) =~~= ls);
        }
        Ok(
            PrinterStatus {
                errors: ErrorFlags::from_hex(errors),
                warnings: WarningFlags::from_hex(warnings),
            },
        )
    }

    /// Whether the printer reports itself operating normally: true exactly
    /// when both flag sets are empty.
    pub fn is_ok(&self) -> (r: bool)
        ensures
            r == (self.errors.spec_bits() == 0 && self.warnings.spec_bits() == 0),
    {
        self.errors.is_empty() && self.warnings.is_empty()
    }

    /// Whether any error flag is set.
    pub fn has_errors(&self) -> (r: bool)
        ensures
            r == (self.errors.spec_bits() != 0),
    {
        !self.errors.is_empty()
    }

    /// Whether any warning flag is set.
    pub fn has_warnings(&self) -> (r: bool)
        ensures
            r == (self.warnings.spec_bits() != 0),
    {
        !self.warnings.is_empty()
    }
}

/// Total print length and label count reported by the odometer query.
#[derive(Debug, Clone, PartialEq)]
pub struct OdometerInfo {
    pub total_print_length: String,
    pub total_labels: String,
}

/// Printhead wear reported by the printhead-life query.
#[derive(Debug, Clone, PartialEq)]
pub struct PrintheadInfo {
    pub used_inches: String,
    pub total_labels: String,
}

/// The fixed-position host status record.
#[derive(Debug, Clone, PartialEq)]
pub struct HostStatus {
    pub communication_mode: String,
    pub paper_out: bool,
    pub pause: bool,
    pub label_length: String,
    pub labels_remaining: String,
}

/// The fixed-position sensor and media status record.
#[derive(Debug, Clone, PartialEq)]
pub struct SensorMediaStatus {
    pub media_type: String,
    pub sensor_profile: String,
    pub media_detected: bool,
    pub ribbon_detected: bool,
}

/// Active alerts, with the raw reply preserved beside the decoded texts.
#[derive(Debug, Clone, PartialEq)]
pub struct AlertInfo {
    pub active_alerts: Vec<String>,
    pub raw_codes: String,
}

/// Media and ribbon supplies status.
#[derive(Debug, Clone, PartialEq)]
pub struct SuppliesStatus {
    pub media_status: String,
    pub ribbon_status: String,
    pub media_remaining_percent: Option<u8>,
}

/// Battery charge report.
#[derive(Debug, Clone, PartialEq)]
pub struct BatteryInfo {
    pub charge_percent: String,
    pub charging: bool,
}

/// Label width and height report.
#[derive(Debug, Clone, PartialEq)]
pub struct LabelDimensions {
    pub width: String,
    pub height: String,
}

/// The memory report: three sizes in kilobytes.
#[derive(Debug, Clone, Copy, PartialEq, Eq, Structural)]
pub struct MemoryStatus {
    pub total_ram_kb: u32,
    pub max_available_kb: u32,
    pub current_available_kb: u32,
}

impl MemoryStatus {
    /// The kilobytes in use: maximum available less currently available,
    /// never below zero.
    pub fn used_kb(&self) -> (r: u32)
        ensures
            r == if self.max_available_kb >= self.current_available_kb {
                self.max_available_kb - self.current_available_kb
            } else {
                0
            },
    {
        if self.max_available_kb >= self.current_available_kb {
            self.max_available_kb - self.current_available_kb
        } else {
            0
        }
    }

    /// The used share of the maximum available memory, in whole percent,
    /// rounded toward zero; zero when nothing is available at all.
    pub fn usage_percent(&self) -> (r: u32)
        ensures
            self.max_available_kb > 0 ==> r == (if self.max_available_kb
                >= self.current_available_kb {
                (self.max_available_kb - self.current_available_kb) as int
            } else {
                0
            }) * 100 / self.max_available_kb as int,
            self.max_available_kb == 0 ==> r == 0,
    {
        if self.max_available_kb == 0 {
            return 0;
        }
        let m: u64 = self.max_available_kb as u64;
        let used: u64 = self.used_kb() as u64;
        let prod: u64 = used * 100;
        let pct: u64 = prod / m;
        proof {
            assert(pct <= 100) by (nonlinear_arith)
                requires
                    used <= m,
                    m >= 1,
                    prod == used * 100,
                    pct == prod / m,
            ;
        }
        pct as u32
    }
}

/// All decoded telemetry of one printer, each item independently optional:
/// a decoder that fails leaves only its own field empty.
#[derive(Debug, Clone, PartialEq)]
pub struct PrinterInfo {
    pub serial_number: Option<String>,
    pub hardware_address: Option<String>,
    pub odometer: Option<OdometerInfo>,
    pub printhead_life: Option<PrintheadInfo>,
    pub plug_and_play: Option<String>,
    pub host_status: Option<HostStatus>,
    pub sensor_media_status: Option<SensorMediaStatus>,
    pub alerts: Option<AlertInfo>,
    pub supplies_status: Option<SuppliesStatus>,
    pub firmware_version: Option<String>,
    pub battery_capacity: Option<BatteryInfo>,
    pub label_dimensions: Option<LabelDimensions>,
    pub memory_status: Option<MemoryStatus>,
}

impl Default for PrinterInfo {
    /// The record with every field still undecoded.
    fn default() -> (r: Self)
        ensures
            r.serial_number is None,
            r.hardware_address is None,
            r.odometer is None,
            r.printhead_life is None,
            r.plug_and_play is None,
            r.host_status is None,
            r.sensor_media_status is None,
            r.alerts is None,
            r.supplies_status is None,
            r.firmware_version is None,
            r.battery_capacity is None,
            r.label_dimensions is None,
            r.memory_status is None,
    {
        PrinterInfo {
            serial_number: None,
            hardware_address: None,
            odometer: None,
            printhead_life: None,
            plug_and_play: None,
            host_status: None,
            sensor_media_status: None,
            alerts: None,
            supplies_status: None,
            firmware_version: None,
            battery_capacity: None,
            label_dimensions: None,
            memory_status: None,
        }
    }
}

/// Trims a line and collects it into a string.
fn trim_to_string(line: &Vec<char>) -> (r: String)
    ensures
        r@ == spec_trim(line@),
{
    let t = trim(line);
    string_from_chars(&t)
}

/// The trimmed line at `idx`, or the default when the reply is too short.
fn line_or_default(lines: &Vec<Vec<char>>, idx: usize, def: &str) -> (r: String)
    ensures
        idx < lines@.len() ==> r@ == spec_trim(lines.deep_view()[idx as int]),
        idx >= lines@.len() ==> r@ == def@,
{
    if idx < lines.len() {
        proof {
            assert(lines@[idx as int].deep_view() =~= lines@[idx as int]@);
        }
        trim_to_string(&lines[idx])
    } else {
        let cs = chars_of(def);
        string_from_chars(&cs)
    }
}

/// Whether the trimmed line at `idx` is exactly `"1"`; a missing line counts
/// as `"0"`.
fn line_is_one(lines: &Vec<Vec<char>>, idx: usize) -> (r: bool)
    ensures
        r == (idx < lines@.len() && spec_trim(lines.deep_view()[idx as int]) == "1"@),
{
    if idx < lines.len() {
        proof {
            assert(lines@[idx as int].deep_view() =~= lines@[idx as int]@);
        }
        let t = trim(&lines[idx]);
        eq_lit(&t, "1")
    } else {
        false
    }
}

/// One bulleted line per description, each indented and newline-terminated.
pub open spec fn spec_report_items(descs: Seq<Seq<char>>) -> Seq<char>
    decreases descs.len(),
{
    if descs.len() == 0 {
        Seq::empty()
    } else {
        "  - "@ + descs[0] + "\n"@ + spec_report_items(descs.drop_first())
    }
}

proof fn lemma_report_items_push(descs: Seq<Seq<char>>, x: Seq<char>)
    ensures
        spec_report_items(descs.push(x)) == spec_report_items(descs) + ("  - "@ + x + "\n"@),
    decreases descs.len(),
{
    if descs.len() == 0 {
        assert(descs.push(x)[0] == x);
        assert(descs.push(x).drop_first() =~~= Seq::<Seq<char>>::empty());
        assert(spec_report_items(Seq::<Seq<char>>::empty()) == Seq::<char>::empty());
        assert(spec_report_items(descs.push(x)) =~= Seq::<char>::empty() + ("  - "@ + x + "\n"@));
    } else {
        assert(descs.push(x)[0] == descs[0]);
        assert(descs.push(x).drop_first() =~~= descs.drop_first().push(x));
        lemma_report_items_push(descs.drop_first(), x);
        assert("  - "@ + descs[0] + "\n"@ + (spec_report_items(descs.drop_first()) + ("  - "@ + x
            + "\n"@)) =~= ("  - "@ + descs[0] + "\n"@ + spec_report_items(descs.drop_first())) + (
        "  - "@ + x + "\n"@));
    }
}

/// The human-readable status report: the all-clear line when both flag
/// words are empty, otherwise a heading followed by the bulleted error and
/// warning descriptions, each group under its own title.
pub open spec fn spec_status_report(e: u32, w: u32) -> Seq<char> {
    if e == 0 && w == 0 {
        "Printer Status: OK"@
    } else {
        "Printer Status:\n"@ + (if e != 0 {
            "\nErrors:\n"@ + spec_report_items(spec_flag_descs(spec_error_table(), e))
        } else {
            Seq::empty()
        }) + (if w != 0 {
            "\nWarnings:\n"@ + spec_report_items(spec_flag_descs(spec_warning_table(), w))
        } else {
            Seq::empty()
        })
    }
}

/// Appends the bulleted lines of the given descriptions to `out`.
fn push_report_items(out: &mut Vec<char>, descs: &Vec<String>)
    ensures
        final(out)@ == old(out)@ + spec_report_items(descs.deep_view()),
{
    let ghost ds = descs.deep_view();
    let mut i: usize = 0;
    proof {
        assert(ds.take(0) =~~= Seq::<Seq<char>>::empty());
        assert(spec_report_items(ds.take(0)) == Seq::<char>::empty());
        assert(out@ =~= old(out)@ + spec_report_items(ds.take(0)));
    }
    while i < descs.len()
        invariant
            0 <= i <= descs@.len(),
            ds == descs.deep_view(),
            ds.len() == descs@.len(),
            out@ == old(out)@ + spec_report_items(ds.take(i as int)),
        decreases descs@.len() - i,
    {
        proof {
            assert(descs@[i as int].deep_view() =~= descs@[i as int]@);
            assert(ds.take(i + 1) =~~= ds.take(i as int).push(ds[i as int]));
            lemma_report_items_push(ds.take(i as int), ds[i as int]);
        }
        let ghost mid = out@;
        push_lit(out, "  - ");
        push_string(out, &descs[i]);
        out.push('\n');
        proof {
            reveal_strlit("\n");
            assert(out@ =~= mid + ("  - "@ + ds[i as int] + "\n"@));
            assert(out@ =~= old(out)@ + spec_report_items(ds.take(i + 1)));
        }
        i = i + 1;
    }
    proof {
        assert(ds.take(ds.len() as int) =~~= ds);
    }
}

impl PrinterStatus {
    /// Renders the status as the human-readable report the callers display.
    pub fn status_report(&self) -> (r: String)
        ensures
            r@ == spec_status_report(self.errors.spec_bits(), self.warnings.spec_bits()),
    {
        if self.is_ok() {
            let cs = chars_of("Printer Status: OK");
            return string_from_chars(&cs);
        }
        let mut out = chars_of("Printer Status:\n");
        let ghost head = out@;
        if self.has_errors() {
            push_lit(&mut out, "\nErrors:\n");
            let descs = self.errors.to_descriptions();
            push_report_items(&mut out, &descs);
        }
        proof {
            assert(out@ =~= head + (if self.errors.spec_bits() != 0 {
                "\nErrors:\n"@ + spec_report_items(
                    spec_flag_descs(spec_error_table(), self.errors.spec_bits()),
                )
            } else {
                Seq::<char>::empty()
            }));
        }
        let ghost with_errors = out@;
        if self.has_warnings() {
            push_lit(&mut out, "\nWarnings:\n");
            let descs = self.warnings.to_descriptions();
            push_report_items(&mut out, &descs);
        }
        proof {
            assert(out@ =~= with_errors + (if self.warnings.spec_bits() != 0 {
                "\nWarnings:\n"@ + spec_report_items(
                    spec_flag_descs(spec_warning_table(), self.warnings.spec_bits()),
                )
            } else {
                Seq::<char>::empty()
            }));
            assert(out@ =~= spec_status_report(self.errors.spec_bits(), self.warnings.spec_bits()));
        }
        string_from_chars(&out)
    }
}

/// `s` with every leading double-quote removed.
pub open spec fn spec_strip_quotes_start(s: Seq<char>) -> Seq<char>
    decreases s.len(),
{
    if s.len() > 0 && s[0] == '"' {
        spec_strip_quotes_start(s.drop_first())
    } else {
        s
    }
}

/// `s` with every trailing double-quote removed.
pub open spec fn spec_strip_quotes_end(s: Seq<char>) -> Seq<char>
    decreases s.len(),
{
    if s.len() > 0 && s.last() == '"' {
        spec_strip_quotes_end(s.drop_last())
    } else {
        s
    }
}

/// `s` with all surrounding double-quotes removed.
pub open spec fn spec_strip_quotes(s: Seq<char>) -> Seq<char> {
    spec_strip_quotes_end(spec_strip_quotes_start(s))
}

proof fn lemma_strip_quotes_start_range(s: Seq<char>, a: int)
    requires
        0 <= a <= s.len(),
        forall|k: int| 0 <= k < a ==> #[trigger] s[k] == '"',
        a == s.len() || s[a] != '"',
    ensures
        spec_strip_quotes_start(s) == s.subrange(a, s.len() as int),
    decreases a,
{
    if a == 0 {
        assert(s.subrange(0, s.len() as int) =~= s);
    } else {
        let t = s.drop_first();
        assert(forall|k: int| 0 <= k < a - 1 ==> #[trigger] t[k] == '"');
        lemma_strip_quotes_start_range(t, a - 1);
        assert(t.subrange(a - 1, t.len() as int) =~= s.subrange(a, s.len() as int));
    }
}

proof fn lemma_strip_quotes_end_range(s: Seq<char>, b: int)
    requires
        0 <= b <= s.len(),
        forall|k: int| b <= k < s.len() ==> #[trigger] s[k] == '"',
        b == 0 || s[b - 1] != '"',
    ensures
        spec_strip_quotes_end(s) == s.take(b),
    decreases s.len() - b,
{
    if b == s.len() {
        assert(s.take(b) =~= s);
    } else {
        let t = s.drop_last();
        lemma_strip_quotes_end_range(t, b);
        assert(t.take(b) =~= s.take(b));
    }
}

/// Strips all surrounding double-quotes of `v`.
fn strip_quotes(v: &Vec<char>) -> (r: Vec<char>)
    ensures
        r@ == spec_strip_quotes(v@),
{
    let n = v.len();
    let mut a: usize = 0;
    while a < n && v[a] == '"'
        invariant
            0 <= a <= n == v@.len(),
            forall|k: int| 0 <= k < a ==> #[trigger] v@[k] == '"',
        decreases n - a,
    {
        a = a + 1;
    }
    let mut b: usize = n;
    while b > a && v[b - 1] == '"'
        invariant
            a <= b <= n == v@.len(),
            forall|k: int| b <= k < n ==> #[trigger] v@[k] == '"',
        decreases b,
    {
        b = b - 1;
    }
    proof {
        lemma_strip_quotes_start_range(v@, a as int);
        let t = v@.subrange(a as int, v@.len() as int);
        if b == a {
            lemma_strip_quotes_end_range(t, 0);
        } else {
            lemma_strip_quotes_end_range(t, b - a);
        }
        assert(t.take(b - a) =~= v@.subrange(a as int, b as int));
    }
    crate::text::sub_vec(v, a, b)
}

/// The single-value identification heuristic: the first line that carries
/// information. A line wrapped in double-quotes yields its quoted content;
/// otherwise the first nonempty line not opening with a tag bracket yields
/// its trimmed text.
pub open spec fn spec_first_info(lines: Seq<Seq<char>>) -> Option<Seq<char>>
    decreases lines.len(),
{
    if lines.len() == 0 {
        Option::None
    } else {
        let t = spec_trim(lines[0]);
        if t.len() > 0 && t[0] == '"' && t.last() == '"' {
            Option::Some(spec_strip_quotes(t))
        } else if t.len() > 0 && t[0] != '<' {
            Option::Some(t)
        } else {
            spec_first_info(lines.drop_first())
        }
    }
}

/// The hardware-address heuristic: a line of exactly twelve hexadecimal
/// digits yields those digits grouped in colon-separated pairs; otherwise
/// the first nonempty, non-tag line passes through unchanged.
pub open spec fn spec_hw_address(lines: Seq<Seq<char>>) -> Option<Seq<char>>
    decreases lines.len(),
{
    if lines.len() == 0 {
        Option::None
    } else {
        let t = spec_trim(lines[0]);
        if t.len() == 12 && crate::text::all_hex_digits(t) {
            Option::Some(
                t.subrange(0, 2) + seq![':'] + t.subrange(2, 4) + seq![':'] + t.subrange(4, 6)
                    + seq![':'] + t.subrange(6, 8) + seq![':'] + t.subrange(8, 10) + seq![':']
                    + t.subrange(10, 12),
            )
        } else if t.len() > 0 && t[0] != '<' {
            Option::Some(t)
        } else {
            spec_hw_address(lines.drop_first())
        }
    }
}

impl PrinterInfo {
    /// Decodes a serial-number reply: the first information-carrying line,
    /// with surrounding quotes stripped.
    pub fn parse_serial_number(response: &str) -> (r: Option<String>)
        ensures
            match r {
                Option::Some(s) => spec_first_info(spec_lines(response@)) == Option::Some(s@),
                Option::None => spec_first_info(spec_lines(response@)) is None,
            },
    {
        let cs = chars_of(response);
        let lines = lines_of(&cs);
        let ghost ls = lines.deep_view();
        let mut i: usize = 0;
        proof {
            assert(ls.skip(0) =~~= ls);
        }
        while i < lines.len()
            invariant
                0 <= i <= lines@.len(),
                ls == lines.deep_view(),
                ls == spec_lines(response@),
                ls.len() == lines@.len(),
                spec_first_info(ls) == spec_first_info(ls.skip(i as int)),
            decreases lines@.len() - i,
        {
            proof {
                assert(lines@[i as int].deep_view() =~= lines@[i as int]@);
                assert(ls.skip(i as int)[0] == lines@[i as int]@);
                assert(ls.skip(i as int).drop_first() =~= ls.skip(i + 1));
            }
            let t = trim(&lines[i]);
            if t.len() > 0 && t[0] == '"' && t[t.len() - 1] == '"' {
                let stripped = strip_quotes(&t);
                return Some(string_from_chars(&stripped));
            }
            if t.len() > 0 && t[0] != '<' {
                return Some(string_from_chars(&t));
            }
            i = i + 1;
        }
        proof {
            assert(ls.skip(ls.len() as int) =~~= Seq::<Seq<char>>::empty());
        }
        None
    }

    /// Decodes a hardware-address reply: twelve hexadecimal digits become a
    /// colon-separated address; any other information-carrying line passes
    /// through as the identification string.
    pub fn parse_hardware_address(response: &str) -> (r: Option<String>)
        ensures
            match r {
                Option::Some(s) => spec_hw_address(spec_lines(response@)) == Option::Some(s@),
                Option::None => spec_hw_address(spec_lines(response@)) is None,
            },
    {
        let cs = chars_of(response);
        let lines = lines_of(&cs);
        let ghost ls = lines.deep_view();
        let mut i: usize = 0;
        proof {
            assert(ls.skip(0) =~~= ls);
        }
        while i < lines.len()
            invariant
                0 <= i <= lines@.len(),
                ls == lines.deep_view(),
                ls == spec_lines(response@),
                ls.len() == lines@.len(),
                spec_hw_address(ls) == spec_hw_address(ls.skip(i as int)),
            decreases lines@.len() - i,
        {
            proof {
                assert(lines@[i as int].deep_view() =~= lines@[i as int]@);
                assert(ls.skip(i as int)[0] == lines@[i as int]@);
                assert(ls.skip(i as int).drop_first() =~= ls.skip(i + 1));
            }
            let t = trim(&lines[i]);
            if t.len() == 12 && all_hex(&t) {
                let mut out: Vec<char> = Vec::new();
                let mut k: usize = 0;
                while k < 12
                    invariant
                        0 <= k <= 12,
                        k % 2 == 0,
                        t@.len() == 12,
                        out@ == spec_hw_groups(t@, k as int),
                    decreases 12 - k,
                {
                    if k > 0 {
                        out.push(':');
                    }
                    out.push(t[k]);
                    out.push(t[k + 1]);
                    proof {
                        assert(out@ =~= spec_hw_groups(t@, k + 2));
                    }
                    k = k + 2;
                }
                proof {
                    reveal_with_fuel(spec_hw_groups, 7);
                    assert(out@ =~= t@.subrange(0, 2) + seq![':'] + t@.subrange(2, 4) + seq![':']
                        + t@.subrange(4, 6) + seq![':'] + t@.subrange(6, 8) + seq![':']
                        + t@.subrange(8, 10) + seq![':'] + t@.subrange(10, 12));
                }
                return Some(string_from_chars(&out));
            }
            if t.len() > 0 && t[0] != '<' {
                return Some(string_from_chars(&t));
            }
            i = i + 1;
        }
        proof {
            assert(ls.skip(ls.len() as int) =~~= Seq::<Seq<char>>::empty());
        }
        None
    }
}

/// The first `k` digits of a twelve-digit address, grouped in pairs with
/// colons between the pairs.
pub open spec fn spec_hw_groups(t: Seq<char>, k: int) -> Seq<char>
    decreases k,
{
    if k <= 0 {
        Seq::empty()
    } else if k <= 2 {
        t.subrange(0, 2)
    } else {
        spec_hw_groups(t, k - 2) + seq![':'] + t.subrange(k - 2, k)
    }
}

/// Whether every character of `v` is a hexadecimal digit.
fn all_hex(v: &Vec<char>) -> (r: bool)
    ensures
        r == crate::text::all_hex_digits(v@),
{
    let mut i: usize = 0;
    while i < v.len()
        invariant
            0 <= i <= v@.len(),
            forall|k: int| 0 <= k < i ==> crate::text::is_ascii_hex_digit(#[trigger] v@[k]),
        decreases v@.len() - i,
    {
        let u = v[i] as u32;
        if !(48 <= u && u <= 57 || 65 <= u && u <= 70 || 97 <= u && u <= 102) {
            proof {
                assert(!crate::text::is_ascii_hex_digit(v@[i as int]));
            }
            return false;
        }
        i = i + 1;
    }
    true
}

impl PrinterInfo {
    /// Decodes an odometer reply: two lines, the total print length then the
    /// total label count.
    pub fn parse_odometer(response: &str) -> (r: Option<OdometerInfo>)
        ensures
            ({
                let lines = spec_lines(response@);
                match r {
                    Option::Some(o) => lines.len() >= 2 && o.total_print_length@ == spec_trim(
                        lines[0],
                    ) && o.total_labels@ == spec_trim(lines[1]),
                    Option::None => lines.len() < 2,
                }
            }),
    {
        let cs = chars_of(response);
        let lines = lines_of(&cs);
        if lines.len() >= 2 {
            proof {
                assert(lines@[0].deep_view() =~= lines@[0]@);
                assert(lines@[1].deep_view() =~= lines@[1]@);
            }
            Some(
                OdometerInfo {
                    total_print_length: trim_to_string(&lines[0]),
                    total_labels: trim_to_string(&lines[1]),
                },
            )
        } else {
            None
        }
    }

    /// Decodes a printhead-life reply: two lines, inches used then labels.
    pub fn parse_printhead_life(response: &str) -> (r: Option<PrintheadInfo>)
        ensures
            ({
                let lines = spec_lines(response@);
                match r {
                    Option::Some(o) => lines.len() >= 2 && o.used_inches@ == spec_trim(lines[0])
                        && o.total_labels@ == spec_trim(lines[1]),
                    Option::None => lines.len() < 2,
                }
            }),
    {
        let cs = chars_of(response);
        let lines = lines_of(&cs);
        if lines.len() >= 2 {
            proof {
                assert(lines@[0].deep_view() =~= lines@[0]@);
                assert(lines@[1].deep_view() =~= lines@[1]@);
            }
            Some(
                PrintheadInfo {
                    used_inches: trim_to_string(&lines[0]),
                    total_labels: trim_to_string(&lines[1]),
                },
            )
        } else {
            None
        }
    }

    /// Decodes a host-status reply: at least four positional lines; a missing
    /// fifth line defaults the remaining-labels field to zero.
    pub fn parse_host_status(response: &str) -> (r: Option<HostStatus>)
        ensures
            ({
                let lines = spec_lines(response@);
                match r {
                    Option::Some(h) => lines.len() >= 4 && h.communication_mode@ == spec_trim(
                        lines[0],
                    ) && h.paper_out == (spec_trim(lines[1]) == "1"@) && h.pause == (spec_trim(
                        lines[2],
                    ) == "1"@) && h.label_length@ == spec_trim(lines[3]) && h.labels_remaining@
                        == (if lines.len() >= 5 {
                        spec_trim(lines[4])
                    } else {
                        "0"@
                    }),
                    Option::None => lines.len() < 4,
                }
            }),
    {
        let cs = chars_of(response);
        let lines = lines_of(&cs);
        if lines.len() >= 4 {
            proof {
                assert(lines@[0].deep_view() =~= lines@[0]@);
                assert(lines@[3].deep_view() =~= lines@[3]@);
            }
            Some(
                HostStatus {
                    communication_mode: trim_to_string(&lines[0]),
                    paper_out: line_is_one(&lines, 1),
                    pause: line_is_one(&lines, 2),
                    label_length: trim_to_string(&lines[3]),
                    labels_remaining: line_or_default(&lines, 4, "0"),
                },
            )
        } else {
            None
        }
    }

    /// Decodes a sensor/media reply: at least one line; missing trailing
    /// lines default to an unknown type and undetected media and ribbon.
    pub fn parse_sensor_media_status(response: &str) -> (r: Option<SensorMediaStatus>)
        ensures
            ({
                let lines = spec_lines(response@);
                match r {
                    Option::Some(m) => lines.len() >= 1 && m.media_type@ == spec_trim(lines[0])
                        && m.sensor_profile@ == (if lines.len() >= 2 {
                        spec_trim(lines[1])
                    } else {
                        "Unknown"@
                    }) && m.media_detected == (lines.len() >= 3 && spec_trim(lines[2]) == "1"@)
                        && m.ribbon_detected == (lines.len() >= 4 && spec_trim(lines[3]) == "1"@),
                    Option::None => lines.len() == 0,
                }
            }),
    {
        let cs = chars_of(response);
        let lines = lines_of(&cs);
        if lines.len() >= 1 {
            proof {
                assert(lines@[0].deep_view() =~= lines@[0]@);
            }
            Some(
                SensorMediaStatus {
                    media_type: trim_to_string(&lines[0]),
                    sensor_profile: line_or_default(&lines, 1, "Unknown"),
                    media_detected: line_is_one(&lines, 2),
                    ribbon_detected: line_is_one(&lines, 3),
                },
            )
        } else {
            None
        }
    }

    /// Decodes a supplies reply: at least one line; the optional third line
    /// gives the remaining-media percentage when it is a decimal byte.
    pub fn parse_supplies_status(response: &str) -> (r: Option<SuppliesStatus>)
        ensures
            ({
                let lines = spec_lines(response@);
                match r {
                    Option::Some(m) => lines.len() >= 1 && m.media_status@ == spec_trim(lines[0])
                        && m.ribbon_status@ == (if lines.len() >= 2 {
                        spec_trim(lines[1])
                    } else {
                        "Unknown"@
                    }) && m.media_remaining_percent == (if lines.len() >= 3
                        && crate::text::spec_u8_dec_ok(spec_trim(lines[2])) {
                        Option::Some((crate::text::spec_u32_dec(spec_trim(lines[2])) as u8))
                    } else {
                        Option::<u8>::None
                    }),
                    Option::None => lines.len() == 0,
                }
            }),
    {
        let cs = chars_of(response);
        let lines = lines_of(&cs);
        if lines.len() >= 1 {
            proof {
                assert(lines@[0].deep_view() =~= lines@[0]@);
            }
            let percent: Option<u8> = if lines.len() >= 3 {
                proof {
                    assert(lines@[2].deep_view() =~= lines@[2]@);
                }
                let t = trim(&lines[2]);
                crate::text::parse_u8_dec(&t)
            } else {
                None
            };
            Some(
                SuppliesStatus {
                    media_status: trim_to_string(&lines[0]),
                    ribbon_status: line_or_default(&lines, 1, "Unknown"),
                    media_remaining_percent: percent,
                },
            )
        } else {
            None
        }
    }

    /// Decodes a label-dimensions reply: two lines, width then height.
    pub fn parse_label_dimensions(response: &str) -> (r: Option<LabelDimensions>)
        ensures
            ({
                let lines = spec_lines(response@);
                match r {
                    Option::Some(d) => lines.len() >= 2 && d.width@ == spec_trim(lines[0])
                        && d.height@ == spec_trim(lines[1]),
                    Option::None => lines.len() < 2,
                }
            }),
    {
        let cs = chars_of(response);
        let lines = lines_of(&cs);
        if lines.len() >= 2 {
            proof {
                assert(lines@[0].deep_view() =~= lines@[0]@);
                assert(lines@[1].deep_view() =~= lines@[1]@);
            }
            Some(
                LabelDimensions {
                    width: trim_to_string(&lines[0]),
                    height: trim_to_string(&lines[1]),
                },
            )
        } else {
            None
        }
    }

    /// Decodes a firmware-version reply: the whole reply trimmed, if any of
    /// it remains.
    pub fn parse_firmware_version(response: &str) -> (r: Option<String>)
        ensures
            ({
                let t = spec_trim(response@);
                match r {
                    Option::Some(s) => t.len() > 0 && s@ == t,
                    Option::None => t.len() == 0,
                }
            }),
    {
        let cs = chars_of(response);
        let t = trim(&cs);
        if t.len() > 0 {
            Some(string_from_chars(&t))
        } else {
            None
        }
    }

    /// Decodes a memory reply: the first line must hold exactly three
    /// comma-separated unsigned sizes — total, maximum available and
    /// currently available kilobytes; anything else fails the whole record.
    pub fn parse_memory_status(response: &str) -> (r: Option<MemoryStatus>)
        ensures
            ({
                let lines = spec_lines(response@);
                match r {
                    Option::Some(m) => lines.len() >= 1 && ({
                        let parts = crate::text::spec_split(spec_trim(lines[0]), ',');
                        parts.len() == 3 && crate::text::spec_u32_dec_ok(spec_trim(parts[0]))
                            && crate::text::spec_u32_dec_ok(spec_trim(parts[1]))
                            && crate::text::spec_u32_dec_ok(spec_trim(parts[2]))
                            && m.total_ram_kb == crate::text::spec_u32_dec(spec_trim(parts[0]))
                            && m.max_available_kb == crate::text::spec_u32_dec(spec_trim(parts[1]))
                            && m.current_available_kb == crate::text::spec_u32_dec(
                            spec_trim(parts[2]),
                        )
                    }),
                    Option::None => lines.len() == 0 || ({
                        let parts = crate::text::spec_split(spec_trim(lines[0]), ',');
                        parts.len() != 3 || !crate::text::spec_u32_dec_ok(spec_trim(parts[0]))
                            || !crate::text::spec_u32_dec_ok(spec_trim(parts[1]))
                            || !crate::text::spec_u32_dec_ok(spec_trim(parts[2]))
                    }),
                }
            }),
    {
        let cs = chars_of(response);
        let lines = lines_of(&cs);
        if lines.len() == 0 {
            return None;
        }
        proof {
            assert(lines.deep_view()[0] == lines@[0].deep_view());
            assert(lines@[0].deep_view() =~= lines@[0]@);
        }
        let line = trim(&lines[0]);
        let parts = crate::text::split_char(&line, ',');
        if parts.len() != 3 {
            return None;
        }
        proof {
            assert(parts.deep_view()[0] == parts@[0].deep_view());
            assert(parts.deep_view()[1] == parts@[1].deep_view());
            assert(parts.deep_view()[2] == parts@[2].deep_view());
            assert(parts@[0].deep_view() =~= parts@[0]@);
            assert(parts@[1].deep_view() =~= parts@[1]@);
            assert(parts@[2].deep_view() =~= parts@[2]@);
        }
        let t0 = trim(&parts[0]);
        let t1 = trim(&parts[1]);
        let t2 = trim(&parts[2]);
        let v0 = match crate::text::parse_u32_dec(&t0) {
            Some(v) => v,
            None => {
                return None;
            },
        };
        let v1 = match crate::text::parse_u32_dec(&t1) {
            Some(v) => v,
            None => {
                return None;
            },
        };
        let v2 = match crate::text::parse_u32_dec(&t2) {
            Some(v) => v,
            None => {
                return None;
            },
        };
        Some(MemoryStatus { total_ram_kb: v0, max_available_kb: v1, current_available_kb: v2 })
    }
}

/// The trimmed, nonempty lines of a reply, in order.
pub open spec fn spec_clean_lines(lines: Seq<Seq<char>>) -> Seq<Seq<char>>
    decreases lines.len(),
{
    if lines.len() == 0 {
        Seq::empty()
    } else {
        let t = spec_trim(lines[0]);
        let rest = spec_clean_lines(lines.drop_first());
        if t.len() > 0 {
            seq![t] + rest
        } else {
            rest
        }
    }
}

proof fn lemma_clean_lines_push(lines: Seq<Seq<char>>, line: Seq<char>)
    ensures
        spec_clean_lines(lines.push(line)) == spec_clean_lines(lines) + (if spec_trim(line).len()
            > 0 {
            seq![spec_trim(line)]
        } else {
            Seq::<Seq<char>>::empty()
        }),
    decreases lines.len(),
{
    let tail = if spec_trim(line).len() > 0 {
        seq![spec_trim(line)]
    } else {
        Seq::<Seq<char>>::empty()
    };
    if lines.len() == 0 {
        assert(lines.push(line).drop_first() =~~= Seq::<Seq<char>>::empty());
        assert(lines.push(line)[0] == line);
        assert(spec_clean_lines(Seq::<Seq<char>>::empty()) == Seq::<Seq<char>>::empty());
        assert(spec_clean_lines(lines.push(line)) =~~= tail + Seq::<Seq<char>>::empty());
        assert(tail + Seq::<Seq<char>>::empty() =~~= Seq::<Seq<char>>::empty() + tail);
    } else {
        assert(lines.push(line).drop_first() =~~= lines.drop_first().push(line));
        lemma_clean_lines_push(lines.drop_first(), line);
        assert(lines.push(line)[0] == lines[0]);
        let t = spec_trim(lines[0]);
        if t.len() > 0 {
            assert(spec_clean_lines(lines.push(line)) == seq![t] + (spec_clean_lines(
                lines.drop_first(),
            ) + tail));
            assert(seq![t] + (spec_clean_lines(lines.drop_first()) + tail) =~~= (seq![t]
                + spec_clean_lines(lines.drop_first())) + tail);
        }
    }
}

/// The pieces joined by single newlines, in order.
pub open spec fn spec_join_nl(ps: Seq<Seq<char>>) -> Seq<char>
    decreases ps.len(),
{
    if ps.len() == 0 {
        Seq::empty()
    } else if ps.len() == 1 {
        ps[0]
    } else {
        ps[0] + "\n"@ + spec_join_nl(ps.drop_first())
    }
}

proof fn lemma_join_nl_push(ps: Seq<Seq<char>>, x: Seq<char>)
    ensures
        spec_join_nl(ps.push(x)) == if ps.len() == 0 {
            x
        } else {
            spec_join_nl(ps) + "\n"@ + x
        },
    decreases ps.len(),
{
    if ps.len() == 0 {
        assert(ps.push(x)[0] == x);
    } else if ps.len() == 1 {
        assert(ps.push(x)[0] == ps[0]);
        assert(ps.push(x).drop_first() =~~= seq![x]);
        assert(spec_join_nl(seq![x]) == x);
        assert(ps[0] + "\n"@ + x =~= spec_join_nl(ps) + "\n"@ + x);
    } else {
        assert(ps.push(x)[0] == ps[0]);
        assert(ps.push(x).drop_first() =~~= ps.drop_first().push(x));
        lemma_join_nl_push(ps.drop_first(), x);
        assert(ps[0] + "\n"@ + (spec_join_nl(ps.drop_first()) + "\n"@ + x) =~= (ps[0] + "\n"@
            + spec_join_nl(ps.drop_first())) + "\n"@ + x);
    }
}

/// The decoded text of one alert line: the four known codes map to their
/// fixed descriptions, anything else passes through.
pub open spec fn spec_alert_text(t: Seq<char>) -> Seq<char> {
    if t == "1"@ {
        "Head Open"@
    } else if t == "2"@ {
        "Ribbon Out"@
    } else if t == "3"@ {
        "Media Out"@
    } else if t == "4"@ {
        "Cutter Fault"@
    } else {
        t
    }
}

/// The decoded texts of all alert lines: one entry for each trimmed line
/// that is neither empty nor the no-alert code `0`.
pub open spec fn spec_alert_descs(lines: Seq<Seq<char>>) -> Seq<Seq<char>>
    decreases lines.len(),
{
    if lines.len() == 0 {
        Seq::empty()
    } else {
        let t = spec_trim(lines[0]);
        let rest = spec_alert_descs(lines.drop_first());
        if t.len() > 0 && t != "0"@ {
            seq![spec_alert_text(t)] + rest
        } else {
            rest
        }
    }
}

proof fn lemma_alert_descs_push(lines: Seq<Seq<char>>, line: Seq<char>)
    ensures
        spec_alert_descs(lines.push(line)) == spec_alert_descs(lines) + ({
            let t = spec_trim(line);
            if t.len() > 0 && t != "0"@ {
                seq![spec_alert_text(t)]
            } else {
                Seq::<Seq<char>>::empty()
            }
        }),
    decreases lines.len(),
{
    let t0 = spec_trim(line);
    let tail = if t0.len() > 0 && t0 != "0"@ {
        seq![spec_alert_text(t0)]
    } else {
        Seq::<Seq<char>>::empty()
    };
    if lines.len() == 0 {
        assert(lines.push(line).drop_first() =~~= Seq::<Seq<char>>::empty());
        assert(lines.push(line)[0] == line);
        assert(spec_alert_descs(Seq::<Seq<char>>::empty()) == Seq::<Seq<char>>::empty());
        assert(spec_alert_descs(lines.push(line)) =~~= tail + Seq::<Seq<char>>::empty());
        assert(tail + Seq::<Seq<char>>::empty() =~~= Seq::<Seq<char>>::empty() + tail);
    } else {
        assert(lines.push(line).drop_first() =~~= lines.drop_first().push(line));
        lemma_alert_descs_push(lines.drop_first(), line);
        assert(lines.push(line)[0] == lines[0]);
        let t = spec_trim(lines[0]);
        if t.len() > 0 && t != "0"@ {
            assert(spec_alert_descs(lines.push(line)) == seq![spec_alert_text(t)] + (
            spec_alert_descs(lines.drop_first()) + tail));
            assert(seq![spec_alert_text(t)] + (spec_alert_descs(lines.drop_first()) + tail) =~~= (
            seq![spec_alert_text(t)] + spec_alert_descs(lines.drop_first())) + tail);
        }
    }
}

/// The ASCII digits of `s`, in order, everything else dropped.
pub open spec fn spec_digits_only(s: Seq<char>) -> Seq<char>
    decreases s.len(),
{
    if s.len() == 0 {
        Seq::empty()
    } else {
        let rest = spec_digits_only(s.drop_first());
        if crate::text::is_ascii_digit(s[0]) {
            seq![s[0]] + rest
        } else {
            rest
        }
    }
}

proof fn lemma_digits_only_push(s: Seq<char>, c: char)
    ensures
        spec_digits_only(s.push(c)) == spec_digits_only(s) + (if crate::text::is_ascii_digit(c) {
            seq![c]
        } else {
            Seq::<char>::empty()
        }),
    decreases s.len(),
{
    let tail = if crate::text::is_ascii_digit(c) {
        seq![c]
    } else {
        Seq::<char>::empty()
    };
    if s.len() == 0 {
        assert(s.push(c).drop_first() =~= Seq::<char>::empty());
        assert(s.push(c)[0] == c);
        assert(spec_digits_only(Seq::<char>::empty()) == Seq::<char>::empty());
        assert(spec_digits_only(s.push(c)) =~= tail + Seq::<char>::empty());
        assert(tail + Seq::<char>::empty() =~= Seq::<char>::empty() + tail);
    } else {
        assert(s.push(c).drop_first() =~= s.drop_first().push(c));
        lemma_digits_only_push(s.drop_first(), c);
        assert(s.push(c)[0] == s[0]);
        if crate::text::is_ascii_digit(s[0]) {
            assert(spec_digits_only(s.push(c)) == seq![s[0]] + (spec_digits_only(s.drop_first())
                + tail));
            assert(seq![s[0]] + (spec_digits_only(s.drop_first()) + tail) =~= (seq![s[0]]
                + spec_digits_only(s.drop_first())) + tail);
        }
    }
}

impl PrinterInfo {
    /// Decodes a plug-and-play reply: its trimmed, nonempty lines joined by
    /// newlines; nothing when no text remains.
    pub fn parse_plug_and_play(response: &str) -> (r: Option<String>)
        ensures
            ({
                let joined = spec_join_nl(spec_clean_lines(spec_lines(response@)));
                match r {
                    Option::Some(s) => joined.len() > 0 && s@ == joined,
                    Option::None => joined.len() == 0,
                }
            }),
    {
        let cs = chars_of(response);
        let lines = lines_of(&cs);
        let ghost ls = lines.deep_view();
        let mut clean: Vec<Vec<char>> = Vec::new();
        let mut i: usize = 0;
        proof {
            assert(ls.take(0) =~~= Seq::<Seq<char>>::empty());
            assert(spec_clean_lines(ls.take(0)) == Seq::<Seq<char>>::empty());
            assert(clean.deep_view() =~~= spec_clean_lines(ls.take(0)));
        }
        while i < lines.len()
            invariant
                0 <= i <= lines@.len(),
                ls == lines.deep_view(),
                ls.len() == lines@.len(),
                clean.deep_view() == spec_clean_lines(ls.take(i as int)),
            decreases lines@.len() - i,
        {
            proof {
                assert(lines@[i as int].deep_view() =~= lines@[i as int]@);
                assert(ls.take(i + 1) =~~= ls.take(i as int).push(ls[i as int]));
                lemma_clean_lines_push(ls.take(i as int), ls[i as int]);
            }
            let t = trim(&lines[i]);
            let ghost before = clean.deep_view();
            if t.len() > 0 {
                proof {
                    assert(t@ == spec_trim(ls[i as int]));
                }
                clean.push(t);
                proof {
                    assert(clean.deep_view() =~~= before.push(spec_trim(ls[i as int])));
                    assert(clean.deep_view() =~~= spec_clean_lines(ls.take(i + 1)));
                }
            } else {
                proof {
                    assert(clean.deep_view() =~~= spec_clean_lines(ls.take(i + 1)));
                }
            }
            i = i + 1;
        }
        proof {
            assert(ls.take(ls.len() as int) =~~= ls);
        }
        let ghost cl = clean.deep_view();
        let mut joined: Vec<char> = Vec::new();
        let mut k: usize = 0;
        proof {
            assert(cl.take(0) =~~= Seq::<Seq<char>>::empty());
            assert(joined@ =~= spec_join_nl(cl.take(0)));
        }
        while k < clean.len()
            invariant
                0 <= k <= clean@.len(),
                cl == clean.deep_view(),
                cl.len() == clean@.len(),
                joined@ == spec_join_nl(cl.take(k as int)),
            decreases clean@.len() - k,
        {
            proof {
                assert(clean@[k as int].deep_view() =~= clean@[k as int]@);
                assert(cl.take(k + 1) =~~= cl.take(k as int).push(cl[k as int]));
                lemma_join_nl_push(cl.take(k as int), cl[k as int]);
            }
            if k > 0 {
                joined.push('\n');
                proof {
                    reveal_strlit("\n");
                }
            }
            push_chars(&mut joined, &clean[k]);
            proof {
                assert(joined@ =~= spec_join_nl(cl.take(k + 1)));
            }
            k = k + 1;
        }
        proof {
            assert(cl.take(cl.len() as int) =~~= cl);
        }
        if joined.len() > 0 {
            Some(string_from_chars(&joined))
        } else {
            None
        }
    }

    /// Decodes an alerts reply: nothing when the whole reply is empty or the
    /// single no-alert code, otherwise one decoded text per alert line, with
    /// the raw reply preserved beside them.
    pub fn parse_alerts(response: &str) -> (r: Option<AlertInfo>)
        ensures
            ({
                let t = spec_trim(response@);
                let descs = spec_alert_descs(spec_lines(response@));
                match r {
                    Option::Some(a) => t.len() > 0 && t != "0"@ && descs.len() > 0
                        && a.active_alerts.deep_view() == descs && a.raw_codes@ == response@,
                    Option::None => t.len() == 0 || t == "0"@ || descs.len() == 0,
                }
            }),
    {
        let cs = chars_of(response);
        let whole = trim(&cs);
        if whole.len() == 0 || eq_lit(&whole, "0") {
            return None;
        }
        let lines = lines_of(&cs);
        let ghost ls = lines.deep_view();
        let mut alerts: Vec<String> = Vec::new();
        let mut i: usize = 0;
        proof {
            assert(ls.take(0) =~~= Seq::<Seq<char>>::empty());
            assert(spec_alert_descs(ls.take(0)) == Seq::<Seq<char>>::empty());
            assert(alerts.deep_view() =~~= spec_alert_descs(ls.take(0)));
        }
        while i < lines.len()
            invariant
                0 <= i <= lines@.len(),
                ls == lines.deep_view(),
                ls.len() == lines@.len(),
                alerts.deep_view() == spec_alert_descs(ls.take(i as int)),
            decreases lines@.len() - i,
        {
            proof {
                assert(lines@[i as int].deep_view() =~= lines@[i as int]@);
                assert(ls.take(i + 1) =~~= ls.take(i as int).push(ls[i as int]));
                lemma_alert_descs_push(ls.take(i as int), ls[i as int]);
            }
            let t = trim(&lines[i]);
            let ghost before = alerts.deep_view();
            if t.len() > 0 && !eq_lit(&t, "0") {
                let text: String = if eq_lit(&t, "1") {
                    let c2 = chars_of("Head Open");
                    string_from_chars(&c2)
                } else if eq_lit(&t, "2") {
                    let c2 = chars_of("Ribbon Out");
                    string_from_chars(&c2)
                } else if eq_lit(&t, "3") {
                    let c2 = chars_of("Media Out");
                    string_from_chars(&c2)
                } else if eq_lit(&t, "4") {
                    let c2 = chars_of("Cutter Fault");
                    string_from_chars(&c2)
                } else {
                    string_from_chars(&t)
                };
                proof {
                    assert(text@ == spec_alert_text(spec_trim(ls[i as int])));
                }
                alerts.push(text);
                proof {
                    assert(alerts.deep_view() =~~= before.push(
                        spec_alert_text(spec_trim(ls[i as int])),
                    ));
                    assert(alerts.deep_view() =~~= spec_alert_descs(ls.take(i + 1)));
                }
            } else {
                proof {
                    assert(alerts.deep_view() =~~= spec_alert_descs(ls.take(i + 1)));
                }
            }
            i = i + 1;
        }
        proof {
            assert(ls.take(ls.len() as int) =~~= ls);
        }
        if alerts.len() == 0 {
            return None;
        }
        let raw = chars_of(response);
        Some(AlertInfo { active_alerts: alerts, raw_codes: string_from_chars(&raw) })
    }

    /// Decodes a battery reply from its first line: the charging flag comes
    /// from the fixed markers, the charge text is the line's digits followed
    /// by a percent sign, or the whole line when it has no digits.
    pub fn parse_battery_capacity(response: &str) -> (r: Option<BatteryInfo>)
        ensures
            ({
                let lines = spec_lines(response@);
                match r {
                    Option::Some(b) => lines.len() >= 1 && ({
                        let t = spec_trim(lines[0]);
                        let digits = spec_digits_only(t);
                        t.len() > 0 && b.charging == (crate::text::spec_contains_lit(
                            t,
                            "CHARGING"@,
                        ) || crate::text::spec_contains_lit(t, "CHG"@)) && b.charge_percent@ == (
                        if digits.len() == 0 {
                            t
                        } else {
                            digits + "%"@
                        })
                    }),
                    Option::None => lines.len() == 0 || spec_trim(lines[0]).len() == 0,
                }
            }),
    {
        let cs = chars_of(response);
        let lines = lines_of(&cs);
        if lines.len() == 0 {
            return None;
        }
        proof {
            assert(lines.deep_view()[0] == lines@[0].deep_view());
            assert(lines@[0].deep_view() =~= lines@[0]@);
        }
        let t = trim(&lines[0]);
        if t.len() == 0 {
            return None;
        }
        let charging = crate::text::contains_lit(&t, "CHARGING") || crate::text::contains_lit(
            &t,
            "CHG",
        );
        let mut digits: Vec<char> = Vec::new();
        let mut i: usize = 0;
        proof {
            assert(t@.take(0) =~= Seq::<char>::empty());
            assert(spec_digits_only(Seq::<char>::empty()) == Seq::<char>::empty());
            assert(digits@ =~= spec_digits_only(t@.take(0)));
        }
        while i < t.len()
            invariant
                0 <= i <= t@.len(),
                digits@ == spec_digits_only(t@.take(i as int)),
            decreases t@.len() - i,
        {
            let c = t[i];
            proof {
                assert(t@.take(i + 1) =~= t@.take(i as int).push(t@[i as int]));
                lemma_digits_only_push(t@.take(i as int), t@[i as int]);
            }
            let u = c as u32;
            if 48 <= u && u <= 57 {
                digits.push(c);
            }
            i = i + 1;
        }
        proof {
            assert(t@.take(t@.len() as int) =~= t@);
        }
        let charge_percent: String = if digits.len() == 0 {
            string_from_chars(&t)
        } else {
            digits.push('%');
            proof {
                reveal_strlit("%");
                assert(digits@ =~= spec_digits_only(t@) + "%"@);
            }
            string_from_chars(&digits)
        };
        Some(BatteryInfo { charge_percent, charging })
    }
}

} // verus!
