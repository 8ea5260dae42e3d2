//! Export rendering and scan history: the CSV document, the timestamped
//! export filename and its monotonicity, and history summaries. File
//! writing and the history file live outside the library.

use vstd::prelude::*;
use crate::ports::{PortInfo, PortV, ports_view};
use crate::text::{
    all_digits, dec_digits, dec_len, dec_val, digit_val, pad_digits, push_char, push_dec,
    push_dec_pad, contains_char,
};
use crate::discovery::opt_view;
use crate::sorting::views_of;

verus! {

// ---------------------------------------------------------------------------
// Timestamps and export filenames
// ---------------------------------------------------------------------------

/// A wall-clock reading, split into calendar fields.
#[derive(Debug, Clone, Copy, PartialEq, Eq, Structural)]
pub struct Timestamp {
    pub year: u32,
    pub month: u32,
    pub day: u32,
    pub hour: u32,
    pub minute: u32,
    pub second: u32,
}

/// Calendar fields in their documented ranges.
pub open spec fn ts_wf(t: Timestamp) -> bool {
    1 <= t.month <= 12 && 1 <= t.day <= 31 && t.hour <= 23 && t.minute <= 59 && t.second <= 59
}

/// `t1` reads strictly earlier than `t2`, field by field.
pub open spec fn ts_before(t1: Timestamp, t2: Timestamp) -> bool {
    if t1.year != t2.year {
        t1.year < t2.year
    } else if t1.month != t2.month {
        t1.month < t2.month
    } else if t1.day != t2.day {
        t1.day < t2.day
    } else if t1.hour != t2.hour {
        t1.hour < t2.hour
    } else if t1.minute != t2.minute {
        t1.minute < t2.minute
    } else {
        t1.second < t2.second
    }
}

/// Relies on `chrono::Local::now` and its `Datelike`/`Timelike`
/// accessors: month is 1 to 12, day 1 to 31, hour below 24, minute and
/// second below 60. The reading itself depends on the clock, so nothing
/// more is promised.
#[verifier::external_body]
pub fn current_timestamp() -> (t: Timestamp)
    ensures
        ts_wf(t),
{
    let now = chrono::Local::now();
    Timestamp {
        year: chrono::Datelike::year(&now) as u32,
        month: chrono::Datelike::month(&now),
        day: chrono::Datelike::day(&now),
        hour: chrono::Timelike::hour(&now),
        minute: chrono::Timelike::minute(&now),
        second: chrono::Timelike::second(&now),
    }
}

/// The file formats an export can take.
#[derive(Debug, Clone, Copy, PartialEq, Eq, Structural)]
pub enum ExportFormat {
    Csv,
    Json,
    Txt,
}

/// The outcome of an export, as reported to the caller.
#[derive(Debug, Clone)]
pub struct ExportResult {
    pub success: bool,
    pub path: Option<String>,
    pub message: String,
    pub record_count: usize,
}

pub open spec fn extension_spec(format: ExportFormat) -> Seq<char> {
    match format {
        ExportFormat::Csv => "csv"@,
        ExportFormat::Json => "json"@,
        ExportFormat::Txt => "txt"@,
    }
}

/// The zero-padded digits of the date part, `YYYYMMDD`.
pub open spec fn date_digits(t: Timestamp) -> Seq<char> {
    pad_digits(t.year as nat, 4) + pad_digits(t.month as nat, 2) + pad_digits(t.day as nat, 2)
}

/// The zero-padded digits of the time part, `HHMMSS`.
pub open spec fn time_digits(t: Timestamp) -> Seq<char> {
    pad_digits(t.hour as nat, 2) + pad_digits(t.minute as nat, 2) + pad_digits(
        t.second as nat,
        2,
    )
}

/// The export filename for a reading:
/// `portly_export_YYYYMMDD_HHMMSS.<ext>`.
pub open spec fn filename_spec(t: Timestamp, format: ExportFormat) -> Seq<char> {
    "portly_export_"@ + date_digits(t) + "_"@ + time_digits(t) + "."@ + extension_spec(format)
}

/// Renders the export filename for a given reading.
#[verifier::rlimit(100)]
pub fn export_filename_at(t: Timestamp, format: ExportFormat) -> (r: String)
    ensures
        r@ == filename_spec(t, format),
{
    let ghost p0 = "portly_export_"@;
    let mut s = String::from_str("portly_export_");
    push_dec_pad(&mut s, t.year, 4);
    let ghost p1 = p0 + pad_digits(t.year as nat, 4);
    proof {
        assert(s@ =~= p1);
    }
    push_dec_pad(&mut s, t.month, 2);
    let ghost p2 = p1 + pad_digits(t.month as nat, 2);
    proof {
        assert(s@ =~= p2);
    }
    push_dec_pad(&mut s, t.day, 2);
    let ghost p3 = p2 + pad_digits(t.day as nat, 2);
    proof {
        assert(s@ =~= p3);
    }
    push_char(&mut s, '_');
    push_dec_pad(&mut s, t.hour, 2);
    let ghost p4 = p3 + seq!['_'] + pad_digits(t.hour as nat, 2);
    proof {
        assert(s@ =~= p4);
    }
    push_dec_pad(&mut s, t.minute, 2);
    push_dec_pad(&mut s, t.second, 2);
    let ghost p5 = p4 + pad_digits(t.minute as nat, 2) + pad_digits(t.second as nat, 2);
    proof {
        assert(s@ =~= p5);
    }
    push_char(&mut s, '.');
    match format {
        ExportFormat::Csv => s.append("csv"),
        ExportFormat::Json => s.append("json"),
        ExportFormat::Txt => s.append("txt"),
    }
    proof {
        assert(s@ =~= p5 + seq!['.'] + extension_spec(format));
        assert(seq!['_'] =~= "_"@) by {
            reveal_strlit("_");
        }
        assert(seq!['.'] =~= "."@) by {
            reveal_strlit(".");
        }
        assert(s@ =~= filename_spec(t, format));
    }
    s
}

/// A timestamped export filename from the clock now.
pub fn generate_export_filename(format: ExportFormat) -> (r: String)
    ensures
        exists|t: Timestamp| ts_wf(t) && r@ == filename_spec(t, format),
{
    let t = current_timestamp();
    let r = export_filename_at(t, format);
    proof {
        assert(ts_wf(t) && r@ == filename_spec(t, format));
    }
    r
}

// --- monotonicity of the embedded stamp ---

pub open spec fn pow10(w: nat) -> nat
    decreases w,
{
    if w == 0 {
        1
    } else {
        10 * pow10((w - 1) as nat)
    }
}

proof fn lemma_dec_val_concat(a: Seq<char>, b: Seq<char>)
    ensures
        dec_val(a + b) == dec_val(a) * pow10(b.len()) + dec_val(b),
    decreases b.len(),
{
    if b.len() == 0 {
        assert(a + b =~= a);
        assert(dec_val(b) == 0) by {
            reveal_with_fuel(dec_val, 2);
        }
        assert(pow10(b.len()) == 1);
        assert(dec_val(a) * 1 == dec_val(a)) by (nonlinear_arith);
    } else {
        assert((a + b).drop_last() =~= a + b.drop_last());
        lemma_dec_val_concat(a, b.drop_last());
        assert(dec_val(a + b) == dec_val(a + b.drop_last()) * 10 + digit_val(b.last()));
        assert(dec_val(a + b) == dec_val(a) * pow10(b.len()) + dec_val(b)) by (nonlinear_arith)
            requires
                dec_val(a + b) == (dec_val(a) * pow10((b.len() - 1) as nat) + dec_val(
                    b.drop_last(),
                )) * 10 + digit_val(b.last()),
                pow10(b.len()) == 10 * pow10((b.len() - 1) as nat),
                dec_val(b) == dec_val(b.drop_last()) * 10 + digit_val(b.last()),
        ;
    }
}

proof fn lemma_dec_val_bound(s: Seq<char>)
    requires
        all_digits(s),
    ensures
        dec_val(s) < pow10(s.len()),
    decreases s.len(),
{
    if s.len() == 0 {
    } else {
        assert forall|i: int| 0 <= i < s.drop_last().len() implies crate::text::is_digit_char(
            #[trigger] s.drop_last()[i],
        ) by {
            assert(s.drop_last()[i] == s[i]);
        }
        lemma_dec_val_bound(s.drop_last());
        assert(s.last() == s[s.len() - 1]);
        assert(digit_val(s.last()) <= 9);
        assert(dec_val(s.drop_last()) * 10 + 9 < pow10(s.len())) by (nonlinear_arith)
            requires
                dec_val(s.drop_last()) < pow10((s.len() - 1) as nat),
                pow10(s.len()) == 10 * pow10((s.len() - 1) as nat),
        ;
    }
}

proof fn lemma_dec_digits_val(n: nat)
    ensures
        dec_val(dec_digits(n)) == n,
        all_digits(dec_digits(n)),
    decreases n,
{
    if n < 10 {
        assert(dec_digits(n) =~= seq![crate::text::digit_char_spec(n)]);
        assert(dec_digits(n).drop_last() =~= Seq::<char>::empty());
        assert(dec_digits(n).last() == crate::text::digit_char_spec(n));
        assert(digit_val(crate::text::digit_char_spec(n)) == n);
        assert(dec_val(dec_digits(n)) == n) by {
            reveal_with_fuel(dec_val, 3);
        }
    } else {
        lemma_dec_digits_val(n / 10);
        assert(dec_digits(n).drop_last() =~= dec_digits(n / 10));
        assert(dec_digits(n).last() == crate::text::digit_char_spec(n % 10));
        assert forall|i: int| 0 <= i < dec_digits(n).len() implies crate::text::is_digit_char(
            #[trigger] dec_digits(n)[i],
        ) by {
            if i < dec_digits(n).len() - 1 {
                assert(dec_digits(n)[i] == dec_digits(n / 10)[i]);
            }
        }
    }
}

proof fn lemma_dec_len_bound(n: nat, w: nat)
    requires
        w >= 1,
        n < pow10(w),
    ensures
        dec_len(n) <= w,
    decreases w,
{
    if n < 10 {
    } else {
        assert(pow10(w) == 10 * pow10((w - 1) as nat));
        assert(n / 10 < pow10((w - 1) as nat)) by (nonlinear_arith)
            requires
                n < 10 * pow10((w - 1) as nat),
        ;
        assert(pow10((w - 1) as nat) >= 1) by {
            lemma_pow10_mono(0, (w - 1) as nat);
        }
        lemma_dec_len_bound(n / 10, (w - 1) as nat);
    }
}

proof fn lemma_pad_val(n: nat, w: nat)
    ensures
        dec_val(pad_digits(n, w)) == n,
        all_digits(pad_digits(n, w)),
        pad_digits(n, w).len() >= w,
        n < pow10(w) && w >= 1 ==> pad_digits(n, w).len() == w,
    decreases w,
{
    lemma_dec_digits_val(n);
    crate::text::lemma_dec_digits_len(n);
    if dec_len(n) >= w {
        assert(pad_digits(n, w) == dec_digits(n));
        if n < pow10(w) && w >= 1 {
            lemma_dec_len_bound(n, w);
        }
    } else {
        let zeros = Seq::new((w - dec_len(n)) as nat, |i: int| '0');
        assert(pad_digits(n, w) == zeros + dec_digits(n));
        lemma_dec_val_concat(zeros, dec_digits(n));
        lemma_zeros_val(zeros.len() as nat);
        assert(zeros =~= Seq::new(zeros.len(), |i: int| '0'));
        assert(dec_val(zeros) == 0) by {
            lemma_zeros_val(zeros.len() as nat);
        }
        assert(dec_val(pad_digits(n, w)) == 0 * pow10(dec_digits(n).len()) + n);
        assert forall|i: int| 0 <= i < pad_digits(n, w).len() implies crate::text::is_digit_char(
            #[trigger] pad_digits(n, w)[i],
        ) by {
            if i < zeros.len() {
                assert(pad_digits(n, w)[i] == '0');
            } else {
                assert(pad_digits(n, w)[i] == dec_digits(n)[i - zeros.len()]);
            }
        }
    }
}

proof fn lemma_zeros_val(k: nat)
    ensures
        dec_val(Seq::new(k, |i: int| '0')) == 0,
    decreases k,
{
    let s = Seq::new(k, |i: int| '0');
    if k > 0 {
        lemma_zeros_val((k - 1) as nat);
        assert(s.drop_last() =~= Seq::new((k - 1) as nat, |i: int| '0'));
        assert(s.last() == '0');
        assert(digit_val('0') == 0);
    }
}

proof fn lemma_pow10_mono(a: nat, b: nat)
    requires
        a <= b,
    ensures
        pow10(a) <= pow10(b),
    decreases b,
{
    if a < b {
        lemma_pow10_mono(a, (b - 1) as nat);
        assert(pow10(b) == 10 * pow10((b - 1) as nat));
        assert(pow10((b - 1) as nat) <= 10 * pow10((b - 1) as nat)) by (nonlinear_arith)
            requires
                pow10((b - 1) as nat) >= 0,
        ;
    }
}

/// The numeric reading of a stamp: the value of its fourteen digits.
pub open spec fn stamp_val(t: Timestamp) -> nat {
    dec_val(date_digits(t) + time_digits(t))
}

/// Export filenames advance with the clock: between two readings at
/// least a second apart (the earlier one strictly before the later,
/// field by field, both with in-range fields and four-digit years), the
/// fourteen-digit stamp embedded in the filename strictly increases, so
/// no later export reuses or precedes an earlier name.
pub proof fn lemma_export_filename_monotonic(t1: Timestamp, t2: Timestamp)
    requires
        ts_wf(t1),
        ts_wf(t2),
        t1.year <= 9999,
        t2.year <= 9999,
        ts_before(t1, t2),
    ensures
        stamp_val(t1) < stamp_val(t2),
{
    lemma_stamp_decompose(t1);
    lemma_stamp_decompose(t2);
}

/// `a` sorts strictly before `b`, character by character.
pub open spec fn lex_lt(a: Seq<char>, b: Seq<char>) -> bool {
    exists|i: int|
        0 <= i <= a.len() && i <= b.len() && a.take(i) == b.take(i) && ((i == a.len() && i
            < b.len()) || (i < a.len() && i < b.len() && (a[i] as u32) < (b[i] as u32)))
}

/// Characters with the same code point are the same character.
proof fn lemma_char_code_inj(a: char, b: char)
    requires
        (a as u32) == (b as u32),
    ensures
        a == b,
{
}

/// Equal-length digit strings sort as their values do; the returned
/// index is the first position where they differ.
#[verifier::rlimit(100)]
#[verifier::spinoff_prover]
proof fn lemma_digits_lex(a: Seq<char>, b: Seq<char>) -> (i: int)
    requires
        all_digits(a),
        all_digits(b),
        a.len() == b.len(),
        dec_val(a) < dec_val(b),
    ensures
        0 <= i < a.len(),
        a.take(i) == b.take(i),
        (a[i] as u32) < (b[i] as u32),
        lex_lt(a, b),
    decreases a.len(),
{
    reveal_with_fuel(dec_val, 2);
    assert(a.len() > 0);
    assert(a =~= seq![a[0]] + a.drop_first());
    assert(b =~= seq![b[0]] + b.drop_first());
    lemma_dec_val_concat(seq![a[0]], a.drop_first());
    lemma_dec_val_concat(seq![b[0]], b.drop_first());
    assert(dec_val(seq![a[0]]) == digit_val(a[0]));
    assert(dec_val(seq![b[0]]) == digit_val(b[0]));
    assert forall|j: int| 0 <= j < a.drop_first().len() implies crate::text::is_digit_char(
        #[trigger] a.drop_first()[j],
    ) by {
        assert(a.drop_first()[j] == a[j + 1]);
    }
    assert forall|j: int| 0 <= j < b.drop_first().len() implies crate::text::is_digit_char(
        #[trigger] b.drop_first()[j],
    ) by {
        assert(b.drop_first()[j] == b[j + 1]);
    }
    let p = pow10(a.drop_first().len());
    lemma_dec_val_bound(a.drop_first());
    lemma_dec_val_bound(b.drop_first());
    let i: int;
    if digit_val(a[0]) == digit_val(b[0]) {
        assert(dec_val(a.drop_first()) < dec_val(b.drop_first())) by (nonlinear_arith)
            requires
                dec_val(a) == digit_val(a[0]) * p + dec_val(a.drop_first()),
                dec_val(b) == digit_val(b[0]) * p + dec_val(b.drop_first()),
                digit_val(a[0]) == digit_val(b[0]),
                dec_val(a) < dec_val(b),
        ;
        let j = lemma_digits_lex(a.drop_first(), b.drop_first());
        assert(crate::text::is_digit_char(a[0]));
        assert(crate::text::is_digit_char(b[0]));
        assert(48 <= (a[0] as u32) <= 57);
        assert(48 <= (b[0] as u32) <= 57);
        assert(digit_val(a[0]) == ((a[0] as u32) - 48) as nat);
        assert(digit_val(b[0]) == ((b[0] as u32) - 48) as nat);
        assert((a[0] as u32) == (b[0] as u32));
        lemma_char_code_inj(a[0], b[0]);
        i = j + 1;
        assert(a.take(i) =~= b.take(i)) by {
            assert forall|m: int| 0 <= m < i implies a.take(i)[m] == b.take(i)[m] by {
                if m > 0 {
                    assert(a[m] == a.drop_first()[m - 1]);
                    assert(b[m] == b.drop_first()[m - 1]);
                    assert(a.drop_first().take(j)[m - 1] == a.drop_first()[m - 1]);
                    assert(b.drop_first().take(j)[m - 1] == b.drop_first()[m - 1]);
                }
            }
        }
        assert(a[i] == a.drop_first()[j] && b[i] == b.drop_first()[j]);
    } else if digit_val(a[0]) < digit_val(b[0]) {
        assert(crate::text::is_digit_char(a[0]));
        assert(crate::text::is_digit_char(b[0]));
        assert(digit_val(a[0]) == ((a[0] as u32) - 48) as nat);
        assert(digit_val(b[0]) == ((b[0] as u32) - 48) as nat);
        assert((a[0] as u32) < (b[0] as u32));
        i = 0;
        assert(a.take(0) =~= b.take(0));
    } else {
        assert(dec_val(b) < dec_val(a)) by (nonlinear_arith)
            requires
                dec_val(a) == digit_val(a[0]) * p + dec_val(a.drop_first()),
                dec_val(b) == digit_val(b[0]) * p + dec_val(b.drop_first()),
                digit_val(b[0]) < digit_val(a[0]),
                dec_val(b.drop_first()) < p,
                dec_val(a.drop_first()) >= 0,
        ;
        assert(false);
        i = 0;
    }
    assert(lex_lt(a, b)) by {
        assert(0 <= i <= a.len() && i <= b.len() && a.take(i) == b.take(i) && (i < a.len() && i
            < b.len() && (a[i] as u32) < (b[i] as u32)));
    }
    i
}

/// A strict order between two segments carries through any shared prefix
/// and any suffixes; `i` is the position inside the segments where they
/// first differ.
proof fn lemma_lex_concat(
    p: Seq<char>,
    x: Seq<char>,
    y: Seq<char>,
    s1: Seq<char>,
    s2: Seq<char>,
    i: int,
)
    requires
        x.len() == y.len(),
        0 <= i < x.len(),
        x.take(i) == y.take(i),
        (x[i] as u32) < (y[i] as u32),
    ensures
        lex_lt(p + x + s1, p + y + s2),
{
    let a = p + x + s1;
    let b = p + y + s2;
    let j = p.len() + i;
    assert(a.take(j) =~= b.take(j)) by {
        assert forall|m: int| 0 <= m < j implies a[m] == b[m] by {
            if m >= p.len() {
                assert(a[m] == x[m - p.len()]);
                assert(b[m] == y[m - p.len()]);
                assert(x.take(i)[m - p.len()] == x[m - p.len()]);
                assert(y.take(i)[m - p.len()] == y[m - p.len()]);
            }
        }
    }
    assert(a[j] == x[i] && b[j] == y[i]);
    assert(lex_lt(a, b)) by {
        assert(0 <= j <= a.len() && j <= b.len() && a.take(j) == b.take(j) && (j < a.len() && j
            < b.len() && (a[j] as u32) < (b[j] as u32)));
    }
}

/// Export filenames sort as their readings do: between two readings the
/// earlier one's filename is lexicographically strictly smaller, so the
/// names of successive exports strictly increase.
#[verifier::rlimit(100)]
#[verifier::spinoff_prover]
pub proof fn lemma_export_filename_lex(t1: Timestamp, t2: Timestamp, format: ExportFormat)
    requires
        ts_wf(t1),
        ts_wf(t2),
        t1.year <= 9999,
        t2.year <= 9999,
        ts_before(t1, t2),
    ensures
        lex_lt(filename_spec(t1, format), filename_spec(t2, format)),
{
    lemma_pad_val(t1.year as nat, 4);
    lemma_pad_val(t2.year as nat, 4);
    lemma_pad_val(t1.month as nat, 2);
    lemma_pad_val(t2.month as nat, 2);
    lemma_pad_val(t1.day as nat, 2);
    lemma_pad_val(t2.day as nat, 2);
    lemma_pad_val(t1.hour as nat, 2);
    lemma_pad_val(t2.hour as nat, 2);
    lemma_pad_val(t1.minute as nat, 2);
    lemma_pad_val(t2.minute as nat, 2);
    lemma_pad_val(t1.second as nat, 2);
    lemma_pad_val(t2.second as nat, 2);
    assert(pow10(2) == 100 && pow10(4) == 10000) by {
        reveal_with_fuel(pow10, 5);
    }
    let pre = "portly_export_"@;
    let y1 = pad_digits(t1.year as nat, 4);
    let y2 = pad_digits(t2.year as nat, 4);
    let mo1 = pad_digits(t1.month as nat, 2);
    let mo2 = pad_digits(t2.month as nat, 2);
    let d1 = pad_digits(t1.day as nat, 2);
    let d2 = pad_digits(t2.day as nat, 2);
    let h1 = pad_digits(t1.hour as nat, 2);
    let h2 = pad_digits(t2.hour as nat, 2);
    let mi1 = pad_digits(t1.minute as nat, 2);
    let mi2 = pad_digits(t2.minute as nat, 2);
    let f1 = filename_spec(t1, format);
    let f2 = filename_spec(t2, format);
    if t1.year != t2.year {
        let w = lemma_digits_lex(y1, y2);
        assert(f1 =~= pre + y1 + (mo1 + d1 + "_"@ + time_digits(t1) + "."@ + extension_spec(
            format,
        )));
        assert(f2 =~= pre + y2 + (mo2 + d2 + "_"@ + time_digits(t2) + "."@ + extension_spec(
            format,
        )));
        lemma_lex_concat(
            pre,
            y1,
            y2,
            mo1 + d1 + "_"@ + time_digits(t1) + "."@ + extension_spec(format),
            mo2 + d2 + "_"@ + time_digits(t2) + "."@ + extension_spec(format),
            w,
        );
    } else {
        assert(y1 == y2);
        let pre2 = pre + y1;
        if t1.month != t2.month {
            let w = lemma_digits_lex(mo1, mo2);
            assert(f1 =~= pre2 + mo1 + (d1 + "_"@ + time_digits(t1) + "."@ + extension_spec(
                format,
            )));
            assert(f2 =~= pre2 + mo2 + (d2 + "_"@ + time_digits(t2) + "."@ + extension_spec(
                format,
            )));
            lemma_lex_concat(
                pre2,
                mo1,
                mo2,
                d1 + "_"@ + time_digits(t1) + "."@ + extension_spec(format),
                d2 + "_"@ + time_digits(t2) + "."@ + extension_spec(format),
                w,
            );
        } else {
            assert(mo1 == mo2);
            let pre3 = pre2 + mo1;
            if t1.day != t2.day {
                let w = lemma_digits_lex(d1, d2);
                assert(f1 =~= pre3 + d1 + ("_"@ + time_digits(t1) + "."@ + extension_spec(
                    format,
                )));
                assert(f2 =~= pre3 + d2 + ("_"@ + time_digits(t2) + "."@ + extension_spec(
                    format,
                )));
                lemma_lex_concat(
                    pre3,
                    d1,
                    d2,
                    "_"@ + time_digits(t1) + "."@ + extension_spec(format),
                    "_"@ + time_digits(t2) + "."@ + extension_spec(format),
                    w,
                );
            } else {
                assert(d1 == d2);
                let pre4 = pre3 + d1 + "_"@;
                if t1.hour != t2.hour {
                    let w = lemma_digits_lex(h1, h2);
                    assert(f1 =~= pre4 + h1 + (mi1 + pad_digits(t1.second as nat, 2) + "."@
                        + extension_spec(format)));
                    assert(f2 =~= pre4 + h2 + (mi2 + pad_digits(t2.second as nat, 2) + "."@
                        + extension_spec(format)));
                    lemma_lex_concat(
                        pre4,
                        h1,
                        h2,
                        mi1 + pad_digits(t1.second as nat, 2) + "."@ + extension_spec(format),
                        mi2 + pad_digits(t2.second as nat, 2) + "."@ + extension_spec(format),
                        w,
                    );
                } else {
                    assert(h1 == h2);
                    let pre5 = pre4 + h1;
                    if t1.minute != t2.minute {
                        let w = lemma_digits_lex(mi1, mi2);
                        assert(f1 =~= pre5 + mi1 + (pad_digits(t1.second as nat, 2) + "."@
                            + extension_spec(format)));
                        assert(f2 =~= pre5 + mi2 + (pad_digits(t2.second as nat, 2) + "."@
                            + extension_spec(format)));
                        lemma_lex_concat(
                            pre5,
                            mi1,
                            mi2,
                            pad_digits(t1.second as nat, 2) + "."@ + extension_spec(format),
                            pad_digits(t2.second as nat, 2) + "."@ + extension_spec(format),
                            w,
                        );
                    } else {
                        assert(mi1 == mi2);
                        let pre6 = pre5 + mi1;
                        let w = lemma_digits_lex(
                            pad_digits(t1.second as nat, 2),
                            pad_digits(t2.second as nat, 2),
                        );
                        assert(f1 =~= pre6 + pad_digits(t1.second as nat, 2) + ("."@
                            + extension_spec(format)));
                        assert(f2 =~= pre6 + pad_digits(t2.second as nat, 2) + ("."@
                            + extension_spec(format)));
                        lemma_lex_concat(
                            pre6,
                            pad_digits(t1.second as nat, 2),
                            pad_digits(t2.second as nat, 2),
                            "."@ + extension_spec(format),
                            "."@ + extension_spec(format),
                            w,
                        );
                    }
                }
            }
        }
    }
}

/// The stamp's value reads its six fields positionally.
proof fn lemma_stamp_decompose(t: Timestamp)
    requires
        ts_wf(t),
        t.year <= 9999,
    ensures
        stamp_val(t) == ((((t.year * 100 + t.month) * 100 + t.day) * 100 + t.hour) * 100
            + t.minute) * 100 + t.second,
{
    let y = pad_digits(t.year as nat, 4);
    let mo = pad_digits(t.month as nat, 2);
    let d = pad_digits(t.day as nat, 2);
    let h = pad_digits(t.hour as nat, 2);
    let mi = pad_digits(t.minute as nat, 2);
    let se = pad_digits(t.second as nat, 2);
    lemma_pad_val(t.year as nat, 4);
    lemma_pad_val(t.month as nat, 2);
    lemma_pad_val(t.day as nat, 2);
    lemma_pad_val(t.hour as nat, 2);
    lemma_pad_val(t.minute as nat, 2);
    lemma_pad_val(t.second as nat, 2);
    assert(pow10(2) == 100 && pow10(4) == 10000) by {
        reveal_with_fuel(pow10, 5);
    }
    assert(t.year < 10000);
    assert(t.month < 100 && t.day < 100 && t.hour < 100 && t.minute < 100 && t.second < 100);
    let stamp = date_digits(t) + time_digits(t);
    assert(stamp =~= y + (mo + (d + (h + (mi + se)))));
    lemma_dec_val_concat(mi, se);
    lemma_dec_val_concat(h, mi + se);
    lemma_dec_val_concat(d, h + (mi + se));
    lemma_dec_val_concat(mo, d + (h + (mi + se)));
    lemma_dec_val_concat(y, mo + (d + (h + (mi + se))));
    assert((mi + se).len() == 4);
    assert((h + (mi + se)).len() == 6);
    assert((d + (h + (mi + se))).len() == 8);
    assert((mo + (d + (h + (mi + se)))).len() == 10);
    assert(pow10(4) == 10000 && pow10(6) == 1000000 && pow10(8) == 100000000 && pow10(10)
        == 10000000000) by {
        reveal_with_fuel(pow10, 11);
    }
    assert(dec_val(stamp) == t.year * 10000000000 + t.month * 100000000 + t.day * 1000000
        + t.hour * 10000 + t.minute * 100 + t.second) by (nonlinear_arith)
        requires
            dec_val(stamp) == dec_val(y) * pow10((mo + (d + (h + (mi + se)))).len()) + (dec_val(
                mo,
            ) * pow10((d + (h + (mi + se))).len()) + (dec_val(d) * pow10(
                (h + (mi + se)).len(),
            ) + (dec_val(h) * pow10((mi + se).len()) + (dec_val(mi) * pow10(se.len()) + dec_val(
                se,
            ))))),
            dec_val(y) == t.year,
            dec_val(mo) == t.month,
            dec_val(d) == t.day,
            dec_val(h) == t.hour,
            dec_val(mi) == t.minute,
            dec_val(se) == t.second,
            pow10((mo + (d + (h + (mi + se)))).len()) == 10000000000,
            pow10((d + (h + (mi + se))).len()) == 100000000,
            pow10((h + (mi + se)).len()) == 1000000,
            pow10((mi + se).len()) == 10000,
            pow10(se.len()) == 100,
    ;
    assert(((((t.year * 100 + t.month) * 100 + t.day) * 100 + t.hour) * 100 + t.minute) * 100
        + t.second == t.year * 10000000000 + t.month * 100000000 + t.day * 1000000 + t.hour
        * 10000 + t.minute * 100 + t.second) by (nonlinear_arith);
}

// ---------------------------------------------------------------------------
// CSV rendering
// ---------------------------------------------------------------------------

/// `s` with every quote doubled, CSV-style.
pub open spec fn esc_quotes(s: Seq<char>) -> Seq<char>
    decreases s.len(),
{
    if s.len() == 0 {
        Seq::empty()
    } else if s.last() == '"' {
        esc_quotes(s.drop_last()) + seq!['"', '"']
    } else {
        esc_quotes(s.drop_last()) + seq![s.last()]
    }
}

/// The command field as CSV: quoted with doubled quotes when it holds a
/// comma or a quote, else as it is; an absent command is empty.
pub open spec fn command_field(c: Option<Seq<char>>) -> Seq<char> {
    match c {
        None => Seq::empty(),
        Some(s) => if s.contains(',') || s.contains('"') {
            seq!['"'] + esc_quotes(s) + seq!['"']
        } else {
            s
        },
    }
}

/// One CSV data row for an inventory entry.
pub open spec fn csv_row(p: PortV) -> Seq<char> {
    dec_digits(p.port as nat) + ","@ + p.protocol + ","@ + p.address + ","@ + p.pid + ","@
        + p.process + ","@ + p.user + ","@ + command_field(p.command) + "\n"@
}

/// The CSV rows for the entries at and after `i`.
pub open spec fn csv_rows(ps: Seq<PortV>, i: int) -> Seq<char>
    decreases ps.len() - i
        when 0 <= i
{
    if i >= ps.len() {
        Seq::empty()
    } else {
        csv_row(ps[i]) + csv_rows(ps, i + 1)
    }
}

/// The whole CSV document: a header line, then one row per entry.
pub open spec fn csv_doc(ps: Seq<PortV>) -> Seq<char> {
    "Port,Protocol,Address,PID,Process,User,Command\n"@ + csv_rows(ps, 0)
}

fn push_escaped(out: &mut String, s: &str)
    ensures
        final(out)@ == old(out)@ + esc_quotes(s@),
{
    let n = crate::text::str_len(s);
    let mut i: usize = 0;
    while i < n
        invariant
            0 <= i <= n == s@.len(),
            out@ == old(out)@ + esc_quotes(s@.take(i as int)),
        decreases n - i,
    {
        let c = crate::text::char_at(s, i);
        proof {
            assert(s@.take(i as int + 1).drop_last() =~= s@.take(i as int));
            assert(s@.take(i as int + 1).last() == s@[i as int]);
        }
        if c == '"' {
            push_char(out, '"');
            push_char(out, '"');
            proof {
                assert(out@ =~= old(out)@ + esc_quotes(s@.take(i as int + 1)));
            }
        } else {
            push_char(out, c);
            proof {
                assert(out@ =~= old(out)@ + esc_quotes(s@.take(i as int + 1)));
            }
        }
        i = i + 1;
    }
    proof {
        assert(s@.take(n as int) =~= s@);
    }
}

fn push_command_field(out: &mut String, c: &Option<String>)
    ensures
        final(out)@ == old(out)@ + command_field(opt_view(*c)),
{
    match c {
        None => {
            proof {
                assert(out@ =~= old(out)@ + command_field(opt_view(*c)));
            }
        },
        Some(s) => {
            if contains_char(s.as_str(), ',') || contains_char(s.as_str(), '"') {
                push_char(out, '"');
                push_escaped(out, s.as_str());
                push_char(out, '"');
                proof {
                    assert(out@ =~= old(out)@ + command_field(opt_view(*c)));
                }
            } else {
                out.append(s.as_str());
                proof {
                    assert(out@ =~= old(out)@ + command_field(opt_view(*c)));
                }
            }
        },
    }
}

/// Renders the inventory as a CSV document: the header line, then one
/// `port,protocol,address,pid,process,user,command` row per entry, the
/// command quoted when it holds commas or quotes. Writing the file is
/// the caller's part.
pub fn export_to_csv(ports: &Vec<PortInfo>) -> (r: String)
    ensures
        r@ == csv_doc(ports_view(ports@)),
{
    let ghost pv = ports_view(ports@);
    let mut out = String::from_str("Port,Protocol,Address,PID,Process,User,Command\n");
    let n = ports.len();
    let ghost header = "Port,Protocol,Address,PID,Process,User,Command\n"@;
    let mut i: usize = 0;
    while i < n
        invariant
            0 <= i <= n == ports.len(),
            pv == ports_view(ports@),
            header == "Port,Protocol,Address,PID,Process,User,Command\n"@,
            csv_doc(pv) == header + csv_rows(pv, 0),
            header + csv_rows(pv, 0) =~= out@ + csv_rows(pv, i as int),
        decreases n - i,
    {
        proof {
            assert(pv[i as int] == ports@[i as int]@);
        }
        let p = &ports[i];
        let ghost o0 = out@;
        push_dec(&mut out, p.port as u32);
        push_char(&mut out, ',');
        out.append(p.protocol.as_str());
        push_char(&mut out, ',');
        out.append(p.address.as_str());
        push_char(&mut out, ',');
        out.append(p.pid.as_str());
        push_char(&mut out, ',');
        out.append(p.process.as_str());
        push_char(&mut out, ',');
        out.append(p.user.as_str());
        push_char(&mut out, ',');
        push_command_field(&mut out, &p.command);
        push_char(&mut out, '\n');
        proof {
            assert(","@ =~= seq![',']) by {
                reveal_strlit(",");
            }
            assert("\n"@ =~= seq!['\n']) by {
                reveal_strlit("\n");
            }
            assert(out@ =~= o0 + csv_row(pv[i as int]));
            assert(o0 + (csv_row(pv[i as int]) + csv_rows(pv, i as int + 1)) =~= out@
                + csv_rows(pv, i as int + 1));
        }
        i = i + 1;
    }
    proof {
        assert(csv_rows(pv, n as int) =~= Seq::<char>::empty());
        assert(out@ =~= csv_doc(pv));
    }
    out
}

// ---------------------------------------------------------------------------
// Scan history
// ---------------------------------------------------------------------------

/// One remembered scan.
#[derive(Debug, Clone)]
pub struct ScanHistoryEntry {
    pub timestamp: String,
    pub port_count: usize,
    pub scan_duration_ms: u64,
    pub ports: Vec<PortInfo>,
}

/// A remembered scan without its port data.
#[derive(Debug, Clone)]
pub struct HistorySummary {
    pub timestamp: String,
    pub port_count: usize,
    pub scan_duration_ms: u64,
}

/// Summarises the history: one summary per entry, in order, dropping the
/// port data.
pub fn get_history_summary(history: &Vec<ScanHistoryEntry>) -> (r: Vec<HistorySummary>)
    ensures
        r.len() == history.len(),
        forall|k: int|
            0 <= k < r.len() ==> (#[trigger] r@[k]).timestamp@ == history@[k].timestamp@
                && r@[k].port_count == history@[k].port_count && r@[k].scan_duration_ms
                == history@[k].scan_duration_ms,
{
    let n = history.len();
    let mut r: Vec<HistorySummary> = Vec::new();
    let mut i: usize = 0;
    while i < n
        invariant
            0 <= i <= n == history.len(),
            r.len() == i,
            forall|k: int|
                0 <= k < i ==> (#[trigger] r@[k]).timestamp@ == history@[k].timestamp@
                    && r@[k].port_count == history@[k].port_count && r@[k].scan_duration_ms
                    == history@[k].scan_duration_ms,
        decreases n - i,
    {
        let e = &history[i];
        r.push(
            HistorySummary {
                timestamp: e.timestamp.clone(),
                port_count: e.port_count,
                scan_duration_ms: e.scan_duration_ms,
            },
        );
        i = i + 1;
    }
    r
}

/// Keeps only the most recent hundred entries of the history.
pub fn trim_history(history: Vec<ScanHistoryEntry>) -> (r: Vec<ScanHistoryEntry>)
    ensures
        history.len() <= 100 ==> r@ == history@,
        history.len() > 100 ==> r@ == history@.skip(history.len() - 100),
{
    let mut h = history;
    if h.len() > 100 {
        let at = h.len() - 100;
        let tail = h.split_off(at);
        tail
    } else {
        h
    }
}

} // verus!
