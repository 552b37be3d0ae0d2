use vstd::prelude::*;
use crate::datetime::{datetime_of, parse_datetime};
use crate::text::{
    ends_with, forward_slashes, has_prefix, has_suffix, split_on, split_on_str, starts_with,
    to_forward_slashes,
};

verus! {

/// The text that `String::from_utf16` decodes from `units`, or `None` where
/// they are not valid UTF-16.
pub uninterp spec fn utf16_text_of(units: Seq<u16>) -> Option<Seq<char>>;

/// Relies on `String::from_utf16`: the result depends on the units alone,
/// and no units decode to the empty string.
#[verifier::external_body]
fn decode_utf16(units: &[u16]) -> (r: Option<String>)
    ensures
        match r {
            Some(s) => utf16_text_of(units@) == Some(s@),
            None => utf16_text_of(units@).is_none(),
        },
        units@.len() == 0 ==> r.is_some() && r.unwrap()@.len() == 0,
{
    String::from_utf16(units).ok()
}

/// The UTF-16 code units that little-endian bytes hold; an odd last byte
/// is left out.
pub open spec fn code_units(bytes: Seq<u8>) -> Seq<u16> {
    Seq::new(bytes.len() / 2, |k: int| (bytes[2 * k] as int + 256 * bytes[2 * k + 1] as int) as u16)
}

/// Pairs little-endian bytes into UTF-16 code units.
fn to_code_units(bytes: &[u8]) -> (r: Vec<u16>)
    ensures
        r@ == code_units(bytes@),
{
    let len = bytes.len();
    let n = len / 2;
    let mut out: Vec<u16> = Vec::new();
    let mut k: usize = 0;
    while k < n
        invariant
            len == bytes@.len(),
            n == len / 2,
            k <= n,
            out@.len() == k,
            forall|j: int| 0 <= j < k ==> out@[j] == code_units(bytes@)[j],
        decreases n - k,
    {
        let lo = bytes[2 * k] as u16;
        let hi = bytes[2 * k + 1] as u16;
        out.push(lo + 256 * hi);
        k = k + 1;
    }
    assert(out@ == code_units(bytes@));
    out
}

/// The line separator of the encoder's log.
pub const LINE_SEPARATOR: &'static str = "\r\n";

/// The tail of a line that reports a finished encoding.
pub const COMPLETION_SUFFIX: &'static str = " : File Successfully Encoded";

/// How a completion line writes its time, read by `chrono`.
pub const LOG_TIME_FORMAT: &'static str = "%m/%d/%Y %I:%M:%S %p";

pub const INPUT_PREFIX: &'static str = " - Input File: ";
pub const OUTPUT_PREFIX: &'static str = " - Output File: ";
pub const PRESET_PREFIX: &'static str = " - Preset Used: ";

/// One finished encoding found in the log.
pub struct Entry {
    /// When the encoding finished, in seconds since the Unix epoch.
    pub date_time: i64,
    pub input_filename: Option<String>,
    pub output_filename: Option<String>,
    pub preset: Option<String>,
}

/// An entry in mathematical form.
pub struct EntryView {
    pub date_time: i64,
    pub input_filename: Option<Seq<char>>,
    pub output_filename: Option<Seq<char>>,
    pub preset: Option<Seq<char>>,
}

pub open spec fn opt_string_view(o: Option<String>) -> Option<Seq<char>> {
    match o {
        Some(s) => Some(s@),
        None => None,
    }
}

impl View for Entry {
    type V = EntryView;

    open spec fn view(&self) -> EntryView {
        EntryView {
            date_time: self.date_time,
            input_filename: opt_string_view(self.input_filename),
            output_filename: opt_string_view(self.output_filename),
            preset: opt_string_view(self.preset),
        }
    }
}

/// The entries read from one pass over the log, in the order of their
/// completion lines.
pub struct AdobeMediaEncoderLog {
    pub entries: Vec<Entry>,
}

impl View for AdobeMediaEncoderLog {
    type V = Seq<EntryView>;

    open spec fn view(&self) -> Seq<EntryView> {
        self.entries@.map_values(|e: Entry| e@)
    }
}

/// The value of a detail line: what follows its label, with backslashes
/// turned into forward slashes.
pub open spec fn detail_value(line: Seq<char>, label: Seq<char>) -> Seq<char> {
    forward_slashes(line.subrange(label.len() as int, line.len() as int))
}

/// The details gathered so far while reading back from a completion line.
pub open spec fn apply_detail(e: EntryView, line: Seq<char>) -> EntryView {
    let e1 = if has_prefix(line, OUTPUT_PREFIX@) {
        EntryView { output_filename: Some(detail_value(line, OUTPUT_PREFIX@)), ..e }
    } else {
        e
    };
    let e2 = if has_prefix(line, INPUT_PREFIX@) {
        EntryView { input_filename: Some(detail_value(line, INPUT_PREFIX@)), ..e1 }
    } else {
        e1
    };
    if has_prefix(line, PRESET_PREFIX@) {
        EntryView { preset: Some(detail_value(line, PRESET_PREFIX@)), ..e2 }
    } else {
        e2
    }
}

/// Reads the block above a completion line, from line `j` upwards, until an
/// empty line closes it; a block that runs into the top of the log is no
/// entry.
pub open spec fn scan_block(lines: Seq<Seq<char>>, j: int, e: EntryView) -> Option<EntryView>
    decreases j + 1,
{
    if j < 0 || j >= lines.len() {
        None
    } else if lines[j].len() == 0 {
        Some(e)
    } else {
        scan_block(lines, j - 1, apply_detail(e, lines[j]))
    }
}

/// The time part of a completion line.
pub open spec fn completion_time_text(line: Seq<char>) -> Seq<char> {
    line.subrange(0, line.len() - COMPLETION_SUFFIX@.len())
}

/// The entry that line `i` reports, if it is a completion line whose time
/// reads and whose block is closed above.
pub open spec fn entry_at(lines: Seq<Seq<char>>, i: int) -> Option<EntryView> {
    if 0 <= i < lines.len() && lines[i].len() > 0 && has_suffix(lines[i], COMPLETION_SUFFIX@) {
        match datetime_of(completion_time_text(lines[i]), LOG_TIME_FORMAT@) {
            Some(t) => scan_block(
                lines,
                i - 1,
                EntryView { date_time: t, input_filename: None, output_filename: None, preset: None },
            ),
            None => None,
        }
    } else {
        None
    }
}

/// The entries that the first `n` lines report, in order.
pub open spec fn entries_upto(lines: Seq<Seq<char>>, n: int) -> Seq<EntryView>
    decreases n,
{
    if n <= 0 {
        Seq::empty()
    } else {
        match entry_at(lines, n - 1) {
            Some(e) => entries_upto(lines, n - 1).push(e),
            None => entries_upto(lines, n - 1),
        }
    }
}

/// The entries that a log's text reports.
pub open spec fn log_entries(text: Seq<char>) -> Seq<EntryView> {
    let lines = split_on(text, LINE_SEPARATOR@);
    entries_upto(lines, lines.len() as int)
}

/// A completion line whose time does not read adds no entry, and the lines
/// around it give their entries as they would without it: reading goes on
/// past it.
pub proof fn lemma_malformed_completion_skipped(lines: Seq<Seq<char>>, i: int)
    requires
        0 <= i < lines.len(),
        has_suffix(lines[i], COMPLETION_SUFFIX@),
        datetime_of(completion_time_text(lines[i]), LOG_TIME_FORMAT@).is_none(),
    ensures
        entry_at(lines, i).is_none(),
        entries_upto(lines, i + 1) == entries_upto(lines, i),
{
}

/// An empty text reports no entries.
proof fn lemma_empty_text(text: Seq<char>)
    requires
        text.len() == 0,
    ensures
        log_entries(text).len() == 0,
{
    reveal_strlit("\r\n");
    let lines = split_on(text, LINE_SEPARATOR@);
    assert(lines == seq![Seq::<char>::empty()]) by {
        assert(text.subrange(0, 0) =~= Seq::<char>::empty());
        assert(Seq::<char>::empty() + Seq::<char>::empty() =~= Seq::<char>::empty());
    }
    reveal_with_fuel(entries_upto, 2);
}

/// The value of a detail line, as an exec string.
fn detail(line: &str, label: &str) -> (r: String)
    requires
        has_prefix(line@, label@),
    ensures
        r@ == detail_value(line@, label@),
{
    let n = line.unicode_len();
    let m = label.unicode_len();
    to_forward_slashes(line.substring_char(m, n))
}

/// Reads the details of the block above completion line `i`, whose time
/// has been read as `date_time`: `None` where no empty line closes the block.
pub fn read_block(lines: &Vec<String>, i: usize, date_time: i64) -> (r: Option<Entry>)
    requires
        i < lines@.len(),
        i < usize::MAX,
    ensures
        match r {
            Some(e) => scan_block(
                lines@.map_values(|p: String| p@),
                i - 1,
                EntryView { date_time, input_filename: None, output_filename: None, preset: None },
            ) == Some(e@),
            None => scan_block(
                lines@.map_values(|p: String| p@),
                i - 1,
                EntryView { date_time, input_filename: None, output_filename: None, preset: None },
            ).is_none(),
        },
{
    let ghost views = lines@.map_values(|p: String| p@);
    let ghost start = EntryView { date_time, input_filename: None, output_filename: None, preset: None };
    let mut input_filename: Option<String> = None;
    let mut output_filename: Option<String> = None;
    let mut preset: Option<String> = None;
    let mut back: usize = 1;
    loop
        invariant
            views == lines@.map_values(|p: String| p@),
            start == (EntryView { date_time, input_filename: None, output_filename: None, preset: None }),
            i < lines@.len(),
            i < usize::MAX,
            1 <= back <= i + 1,
            scan_block(views, i - 1, start) == scan_block(
                views,
                i - back,
                EntryView {
                    date_time,
                    input_filename: opt_string_view(input_filename),
                    output_filename: opt_string_view(output_filename),
                    preset: opt_string_view(preset),
                },
            ),
        decreases i + 1 - back,
    {
        let ghost cur = EntryView {
            date_time,
            input_filename: opt_string_view(input_filename),
            output_filename: opt_string_view(output_filename),
            preset: opt_string_view(preset),
        };
        if back > i {
            return None;
        }
        let line = lines[i - back].as_str();
        assert(views[i - back] == line@);
        if line.unicode_len() == 0 {
            let e = Entry { date_time, input_filename, output_filename, preset };
            assert(e@ == cur);
            return Some(e);
        }
        if starts_with(line, OUTPUT_PREFIX) {
            output_filename = Some(detail(line, OUTPUT_PREFIX));
        }
        if starts_with(line, INPUT_PREFIX) {
            input_filename = Some(detail(line, INPUT_PREFIX));
        }
        if starts_with(line, PRESET_PREFIX) {
            preset = Some(detail(line, PRESET_PREFIX));
        }
        assert(apply_detail(cur, line@) == EntryView {
            date_time,
            input_filename: opt_string_view(input_filename),
            output_filename: opt_string_view(output_filename),
            preset: opt_string_view(preset),
        });
        back = back + 1;
    }
}

/// The text of a log's bytes, UTF-16 in little-endian order; `None` where
/// they do not decode.
pub fn decode_log_text(bytes: &[u8]) -> (r: Option<String>)
    ensures
        match r {
            Some(t) => utf16_text_of(code_units(bytes@)) == Some(t@),
            None => utf16_text_of(code_units(bytes@)).is_none(),
        },
        bytes@.len() < 2 ==> r.is_some() && r.unwrap()@.len() == 0,
{
    let units = to_code_units(bytes);
    decode_utf16(units.as_slice())
}

/// Whether line `i` reports a finished encoding whose time does not read.
pub open spec fn malformed_at(lines: Seq<Seq<char>>, i: int) -> bool {
    0 <= i < lines.len() && lines[i].len() > 0 && has_suffix(lines[i], COMPLETION_SUFFIX@) && datetime_of(
        completion_time_text(lines[i]),
        LOG_TIME_FORMAT@,
    ).is_none()
}

/// The indices of the completion lines whose time does not read, in order:
/// reading skips them, and a caller may warn about each.
pub fn malformed_completion_lines(content: &str) -> (r: Vec<usize>)
    ensures
        forall|k: int| 0 <= k < r@.len() ==> malformed_at(split_on(content@, LINE_SEPARATOR@), #[trigger] r@[k] as int),
        forall|i: int| malformed_at(split_on(content@, LINE_SEPARATOR@), i) ==> #[trigger] r@.contains(i as usize),
        forall|a: int, b: int| 0 <= a < b < r@.len() ==> r@[a] < r@[b],
{
    proof {
        reveal_strlit("\r\n");
    }
    let lines = split_on_str(content, LINE_SEPARATOR);
    let ghost views = lines@.map_values(|p: String| p@);
    let mut out: Vec<usize> = Vec::new();
    let mut i: usize = 0;
    while i < lines.len()
        invariant
            views == lines@.map_values(|p: String| p@),
            views == split_on(content@, LINE_SEPARATOR@),
            i <= lines@.len(),
            forall|k: int| 0 <= k < out@.len() ==> malformed_at(views, #[trigger] out@[k] as int) && out@[k] < i,
            forall|j: int| 0 <= j < i && malformed_at(views, j) ==> #[trigger] out@.contains(j as usize),
            forall|a: int, b: int| 0 <= a < b < out@.len() ==> out@[a] < out@[b],
        decreases lines.len() - i,
    {
        let line = lines[i].as_str();
        assert(views[i as int] == line@);
        let ghost before = out@;
        if line.unicode_len() > 0 && ends_with(line, COMPLETION_SUFFIX) {
            let n = line.unicode_len();
            let m = COMPLETION_SUFFIX.unicode_len();
            let text = line.substring_char(0, n - m);
            if parse_datetime(text, LOG_TIME_FORMAT).is_none() {
                out.push(i);
                assert(out@[out@.len() - 1] == i);
            }
        }
        assert forall|j: int| 0 <= j < i + 1 && malformed_at(views, j) implies #[trigger] out@.contains(j as usize) by {
            if j < i {
                assert(before.contains(j as usize));
                let k = choose|k: int| 0 <= k < before.len() && before[k] == j as usize;
                if out@.len() > before.len() {
                    assert(out@[k] == before[k]);
                }
                assert(out@[k] == j as usize);
            } else if out@.len() > before.len() {
                assert(out@[out@.len() - 1] == j as usize);
            }
        }
        i = i + 1;
    }
    assert forall|j: int| malformed_at(views, j) implies #[trigger] out@.contains(j as usize) by {}
    out
}

impl AdobeMediaEncoderLog {
    /// Reads the log from its bytes, UTF-16 in little-endian order; bytes
    /// that do not decode are an error.
    pub fn open(bytes: &[u8]) -> (r: Result<AdobeMediaEncoderLog, String>)
        ensures
            match utf16_text_of(code_units(bytes@)) {
                Some(text) => r.is_ok() && r.unwrap()@ == log_entries(text),
                None => r.is_err(),
            },
            bytes@.len() < 2 ==> r.is_ok() && r.unwrap()@.len() == 0,
    {
        match decode_log_text(bytes) {
            Some(text) => {
                let log = AdobeMediaEncoderLog::parse(text.as_str());
                proof {
                    if bytes@.len() < 2 {
                        lemma_empty_text(text@);
                    }
                }
                Ok(log)
            },
            None => Err("invalid utf-16: lone surrogate found".to_string()),
        }
    }

    /// Reads every finished encoding that the log's text reports. A
    /// completion line whose time does not read is skipped, as is one whose
    /// block is not closed by an empty line above it.
    pub fn parse(content: &str) -> (r: AdobeMediaEncoderLog)
        ensures
            r@ == log_entries(content@),
    {
        proof {
            reveal_strlit("\r\n");
        }
        let lines = split_on_str(content, LINE_SEPARATOR);
        let ghost views = lines@.map_values(|p: String| p@);
        let mut entries: Vec<Entry> = Vec::new();
        let mut i: usize = 0;
        while i < lines.len()
            invariant
                views == lines@.map_values(|p: String| p@),
                views == split_on(content@, LINE_SEPARATOR@),
                i <= lines@.len(),
                entries@.map_values(|e: Entry| e@) == entries_upto(views, i as int),
            decreases lines.len() - i,
        {
            let line = lines[i].as_str();
            assert(views[i as int] == line@);
            let ghost before = entries@.map_values(|e: Entry| e@);
            if line.unicode_len() > 0 && ends_with(line, COMPLETION_SUFFIX) {
                let n = line.unicode_len();
                let m = COMPLETION_SUFFIX.unicode_len();
                let text = line.substring_char(0, n - m);
                match parse_datetime(text, LOG_TIME_FORMAT) {
                    Some(t) => {
                        match read_block(&lines, i, t) {
                            Some(e) => {
                                entries.push(e);
                                assert(entries@.map_values(|e: Entry| e@) == before.push(e@));
                            },
                            None => {},
                        }
                    },
                    None => {},
                }
            }
            i = i + 1;
        }
        AdobeMediaEncoderLog { entries }
    }
}

} // verus!
