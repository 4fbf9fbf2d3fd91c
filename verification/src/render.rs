//! How the agent tool prints what the service answers: compact, fixed-width
//! text that a model reads cheaply.

use vstd::prelude::*;
use vstd::utf8::encode_utf8;

use crate::client::{
    Answer, AnsweredOption, AnsweredQuestion, DocumentInfo, DocumentSummary, File,
    ProjectSummary, PushedDocument, Revision,
};
use crate::text::{
    append_chars, append_padded_left, append_padded_right, append_str, chars_of, decimal,
    decimal_i64, digits_u128, join, join_parts, lemma_trim_end_keeps_prefix, pad_left, pad_right, string_of, trim_end,
    trim_end_in_place,
    utf8_len, utf8_len_of, views, chars_eq, str_is, opt_view, max_byte_len, string_views,
    join_strings,
};

verus! {

// ---------------------------------------------------------------------------
// Timestamps. The service stores one as `YYYY-MM-DD HH:MM:SS` in UTC.

pub open spec fn is_digit_byte(b: u8) -> bool {
    48 <= b <= 57
}

pub open spec fn digits_value(s: Seq<u8>) -> int
    decreases s.len(),
{
    if s.len() == 0 {
        0
    } else {
        digits_value(s.drop_last()) * 10 + (s.last() - 48)
    }
}

pub open spec fn all_digits(s: Seq<u8>) -> bool {
    forall|i: int| 0 <= i < s.len() ==> is_digit_byte(#[trigger] s[i])
}

/// `str::parse::<i64>` on a few bytes, which cannot overflow: an optional sign
/// and then at least one digit.
pub open spec fn parse_short_int(s: Seq<u8>) -> Option<int> {
    if s.len() == 0 {
        None
    } else if s[0] == 43 || s[0] == 45 {
        let rest = s.drop_first();
        if rest.len() > 0 && all_digits(rest) {
            Some(if s[0] == 45 { -digits_value(rest) } else { digits_value(rest) })
        } else {
            None
        }
    } else if all_digits(s) {
        Some(digits_value(s))
    } else {
        None
    }
}

/// `stamp.get(from..to)?.parse().ok()`. A range that does not fall on ASCII
/// digits fails to parse whichever way it fails, so the bytes decide.
pub open spec fn stamp_field(bytes: Seq<u8>, from: int, to: int) -> Option<int> {
    if to <= bytes.len() {
        parse_short_int(bytes.subrange(from, to))
    } else {
        None
    }
}

/// Year, month, day, hour, minute and second of a stamp, each read from its
/// fixed byte range.
pub open spec fn stamp_fields(stamp: Seq<char>) -> Option<Seq<int>> {
    let b = encode_utf8(stamp);
    match (
        stamp_field(b, 0, 4),
        stamp_field(b, 5, 7),
        stamp_field(b, 8, 10),
        stamp_field(b, 11, 13),
        stamp_field(b, 14, 16),
        stamp_field(b, 17, 19),
    ) {
        (Some(y), Some(mo), Some(d), Some(h), Some(mi), Some(s)) => Some(seq![y, mo, d, h, mi, s]),
        _ => None,
    }
}

/// Rust's integer division, which truncates toward zero.
pub open spec fn tdiv(a: int, b: int) -> int {
    if a >= 0 {
        a / b
    } else {
        -((-a) / b)
    }
}

/// Days since 1970-01-01, by Howard Hinnant's `days_from_civil`.
pub open spec fn days_from_civil(year: int, month: int, day: int) -> int {
    let y = year - (if month <= 2 { 1int } else { 0int });
    let era = tdiv(if y >= 0 { y } else { y - 399 }, 400);
    let year_of_era = y - era * 400;
    let day_of_year = tdiv(153 * (month + (if month > 2 { -3int } else { 9int })) + 2, 5) + day - 1;
    let day_of_era = year_of_era * 365 + tdiv(year_of_era, 4) - tdiv(year_of_era, 100) + day_of_year;
    era * 146_097 + day_of_era - 719_468
}

/// Seconds since the epoch of a readable stamp.
pub open spec fn stamp_epoch(stamp: Seq<char>) -> Option<int> {
    match stamp_fields(stamp) {
        Some(f) => Some(days_from_civil(f[0], f[1], f[2]) * 86_400 + f[3] * 3_600 + f[4] * 60 + f[5]),
        None => None,
    }
}

pub proof fn lemma_short_int_bounds(s: Seq<u8>)
    requires
        s.len() <= 4,
    ensures
        parse_short_int(s) matches Some(v) ==> -999 <= v <= 9999,
{
    reveal_with_fuel(pow10, 5);
    if s.len() > 0 {
        if s[0] == 43 || s[0] == 45 {
            let rest = s.drop_first();
            if rest.len() > 0 && all_digits(rest) {
                lemma_digits_value_bound(rest);
                assert(pow10(rest.len()) <= 1000);
            }
        } else if all_digits(s) {
            lemma_digits_value_bound(s);
            assert(pow10(s.len()) <= 10000);
        }
    }
}

pub open spec fn pow10(n: nat) -> int
    decreases n,
{
    if n == 0 { 1 } else { 10 * pow10((n - 1) as nat) }
}

pub proof fn lemma_digits_value_bound(t: Seq<u8>)
    requires
        all_digits(t),
    ensures
        0 <= digits_value(t) < pow10(t.len()),
    decreases t.len(),
{
    if t.len() > 0 {
        assert(all_digits(t.drop_last())) by {
            assert forall|i: int| 0 <= i < t.drop_last().len() implies is_digit_byte(#[trigger] t.drop_last()[i]) by {
                assert(t.drop_last()[i] == t[i]);
            }
        }
        lemma_digits_value_bound(t.drop_last());
        assert(is_digit_byte(t[t.len() - 1]));
    }
}

fn parse_field(b: &[u8], from: usize, to: usize) -> (out: Option<i64>)
    requires
        from < to,
        to - from <= 4,
    ensures
        out matches Some(v) ==> stamp_field(b@, from as int, to as int) == Some(v as int),
        out is None ==> stamp_field(b@, from as int, to as int) is None,
{
    if to > b.len() {
        return None;
    }
    let ghost s = b@.subrange(from as int, to as int);
    proof {
        lemma_short_int_bounds(s);
    }
    let mut i = from;
    let negative = b[from] == 45;
    if b[from] == 43 || b[from] == 45 {
        i = i + 1;
        if i == to {
            return None;
        }
    }
    let start = i;
    let ghost rest = b@.subrange(start as int, to as int);
    proof {
        if start > from {
            assert(rest =~= s.drop_first());
        } else {
            assert(rest =~= s);
        }
    }
    assert(!all_digits(rest) ==> parse_short_int(s) is None);
    assert(all_digits(rest) ==> parse_short_int(s) == Some(if negative { -digits_value(rest) } else { digits_value(rest) }));
    let mut value: i64 = 0;
    while i < to
        invariant
            start <= i <= to,
            to <= b@.len(),
            to - start <= 4,
            rest == b@.subrange(start as int, to as int),
            !all_digits(rest) ==> parse_short_int(s) is None,
            all_digits(rest) ==> parse_short_int(s) == Some(if negative { -digits_value(rest) } else { digits_value(rest) }),
            s == b@.subrange(from as int, to as int),
            forall|j: int| start <= j < i ==> is_digit_byte(#[trigger] b@[j]),
            value == digits_value(b@.subrange(start as int, i as int)),
            0 <= value < pow10((i - start) as nat),
        decreases to - i,
    {
        if b[i] < 48 || b[i] > 57 {
            proof {
                assert(rest[i - start] == b@[i as int]);
                assert(!all_digits(rest));
            }
            return None;
        }
        proof {
            assert(b@.subrange(start as int, i + 1).drop_last() =~= b@.subrange(start as int, i as int));
            assert(pow10((i + 1 - start) as nat) == 10 * pow10((i - start) as nat));
            reveal_with_fuel(pow10, 5);
        }
        value = value * 10 + (b[i] - 48) as i64;
        i = i + 1;
    }
    proof {
        assert(b@.subrange(start as int, to as int) == rest);
        assert(all_digits(rest)) by {
            assert forall|j: int| 0 <= j < rest.len() implies is_digit_byte(#[trigger] rest[j]) by {
                assert(rest[j] == b@[start + j]);
            }
        }
    }
    if negative {
        Some(-value)
    } else {
        Some(value)
    }
}

/// The six numeric fields of a stamp, or `None` when any of them is unreadable.
pub fn fields(stamp: &str) -> (out: Option<[i64; 6]>)
    ensures
        out is None <==> stamp_fields(stamp@) is None,
        out matches Some(f) ==> stamp_fields(stamp@) == Some(f@.map_values(|v: i64| v as int)),
        out matches Some(f) ==> forall|i: int| 0 <= i < 6 ==> -999 <= #[trigger] f@[i] <= 9999,
{
    let b = stamp.as_bytes();
    let ghost bytes = encode_utf8(stamp@);
    assert(b@ == bytes);
    let year = match parse_field(b, 0, 4) { Some(v) => v, None => return None };
    let month = match parse_field(b, 5, 7) { Some(v) => v, None => return None };
    let day = match parse_field(b, 8, 10) { Some(v) => v, None => return None };
    let hour = match parse_field(b, 11, 13) { Some(v) => v, None => return None };
    let minute = match parse_field(b, 14, 16) { Some(v) => v, None => return None };
    let second = match parse_field(b, 17, 19) { Some(v) => v, None => return None };
    proof {
        lemma_short_int_bounds(bytes.subrange(0, 4));
        lemma_short_int_bounds(bytes.subrange(5, 7));
        lemma_short_int_bounds(bytes.subrange(8, 10));
        lemma_short_int_bounds(bytes.subrange(11, 13));
        lemma_short_int_bounds(bytes.subrange(14, 16));
        lemma_short_int_bounds(bytes.subrange(17, 19));
    }
    let out = [year, month, day, hour, minute, second];
    assert(out@.map_values(|v: i64| v as int) =~= seq![year as int, month as int, day as int, hour as int, minute as int, second as int]);
    Some(out)
}


fn days_from_civil_exec(year: i64, month: i64, day: i64) -> (out: i64)
    requires
        -999 <= year <= 9999,
        -999 <= month <= 9999,
        -999 <= day <= 9999,
    ensures
        out == days_from_civil(year as int, month as int, day as int),
        -10_000_000 <= out <= 10_000_000,
{
    let year = year - if month <= 2 { 1 } else { 0 };
    let era = (if year >= 0 { year } else { year - 399 }) / 400;
    let year_of_era = year - era * 400;
    let day_of_year = (153 * (month + if month > 2 { -3 } else { 9 }) + 2) / 5 + day - 1;
    let day_of_era = year_of_era * 365 + year_of_era / 4 - year_of_era / 100 + day_of_year;
    era * 146_097 + day_of_era - 719_468
}

/// Seconds since 1970-01-01 of a readable stamp.
pub fn epoch(stamp: &str) -> (out: Option<i64>)
    ensures
        out is None <==> stamp_epoch(stamp@) is None,
        out matches Some(t) ==> stamp_epoch(stamp@) == Some(t as int),
        out matches Some(t) ==> -1_000_000_000_000 <= t <= 1_000_000_000_000,
{
    let f = match fields(stamp) {
        Some(f) => f,
        None => return None,
    };
    let days = days_from_civil_exec(f[0], f[1], f[2]);
    Some(days * 86_400 + f[3] * 3_600 + f[4] * 60 + f[5])
}

/// The current time in seconds since the Unix epoch, or 0 when the clock reads
/// earlier than the epoch.
pub fn now() -> i64 {
    crate::clock::unix_now()
}

/// How long ago a readable stamp was, in its largest whole unit.
pub open spec fn age_of_seconds(seconds: int) -> Seq<char> {
    if seconds < 60 {
        seq!['n', 'o', 'w']
    } else if seconds < 3_600 {
        decimal(seconds / 60).push('m')
    } else if seconds < 86_400 {
        decimal(seconds / 3_600).push('h')
    } else if seconds < 604_800 {
        decimal(seconds / 86_400).push('d')
    } else {
        decimal(seconds / 604_800).push('w')
    }
}

/// What `age` prints: a stamp this cannot read is passed through.
pub open spec fn age_text(stamp: Seq<char>, now: int) -> Seq<char> {
    match stamp_epoch(stamp) {
        Some(then) => age_of_seconds(if now - then > 0 { now - then } else { 0 }),
        None => stamp,
    }
}

/// Whether `now - then` stays an `i64` for this stamp, as the subtraction in
/// `age` needs.
pub open spec fn age_fits(stamp: Seq<char>, now: int) -> bool {
    stamp_epoch(stamp) matches Some(then) ==> i64::MIN <= now - then <= i64::MAX
}

fn age_chars(stamp: &str, now: i64) -> (out: Vec<char>)
    requires
        age_fits(stamp@, now as int),
    ensures
        out@ == age_text(stamp@, now as int),
{
    let then = match epoch(stamp) {
        Some(then) => then,
        None => return chars_of(stamp),
    };
    let diff = now - then;
    let seconds = if diff > 0 { diff } else { 0 };
    let (count, unit) = if seconds < 60 {
        let mut v = Vec::new();
        v.push('n');
        v.push('o');
        v.push('w');
        assert(v@ =~= seq!['n', 'o', 'w']);
        return v;
    } else if seconds < 3_600 {
        (seconds / 60, 'm')
    } else if seconds < 86_400 {
        (seconds / 3_600, 'h')
    } else if seconds < 604_800 {
        (seconds / 86_400, 'd')
    } else {
        (seconds / 604_800, 'w')
    };
    let mut out = decimal_i64(count);
    out.push(unit);
    out
}

/// How long ago, which is what a list is scanned for. A stamp this cannot read
/// is passed through rather than hidden.
pub fn age(stamp: &str, now: i64) -> (out: String)
    requires
        age_fits(stamp@, now as int),
    ensures
        out@ == age_text(stamp@, now as int),
{
    let v = age_chars(stamp, now);
    string_of(&v)
}

pub open spec fn month_name(month: int) -> Seq<char> {
    if month == 1 { "Jan"@ }
    else if month == 2 { "Feb"@ }
    else if month == 3 { "Mar"@ }
    else if month == 4 { "Apr"@ }
    else if month == 5 { "May"@ }
    else if month == 6 { "Jun"@ }
    else if month == 7 { "Jul"@ }
    else if month == 8 { "Aug"@ }
    else if month == 9 { "Sep"@ }
    else if month == 10 { "Oct"@ }
    else if month == 11 { "Nov"@ }
    else if month == 12 { "Dec"@ }
    else { "?"@ }
}

fn month_name_exec(month: i64) -> (out: &'static str)
    ensures
        out@ == month_name(month as int),
{
    match month {
        1 => "Jan",
        2 => "Feb",
        3 => "Mar",
        4 => "Apr",
        5 => "May",
        6 => "Jun",
        7 => "Jul",
        8 => "Aug",
        9 => "Sep",
        10 => "Oct",
        11 => "Nov",
        12 => "Dec",
        _ => "?",
    }
}

/// `format!("{n:02}")`: zero padded to two places, the sign counting as one.
pub open spec fn two_digits(n: int) -> Seq<char> {
    if 0 <= n < 10 {
        seq!['0'] + decimal(n)
    } else {
        decimal(n)
    }
}

fn append_two_digits(out: &mut Vec<char>, n: i64)
    ensures
        final(out)@ == old(out)@ + two_digits(n as int),
{
    if 0 <= n && n < 10 {
        out.push('0');
    }
    let d = decimal_i64(n);
    append_chars(out, &d);
    assert(out@ =~= old(out)@ + two_digits(n as int));
}

/// What `moment` prints: day, month name, and the minute.
pub open spec fn moment_text(stamp: Seq<char>) -> Seq<char> {
    match stamp_fields(stamp) {
        Some(f) => decimal(f[2]) + seq![' '] + month_name(f[1]) + seq![' '] + two_digits(f[3])
            + seq![':'] + two_digits(f[4]),
        None => stamp,
    }
}

fn moment_chars(stamp: &str) -> (out: Vec<char>)
    ensures
        out@ == moment_text(stamp@),
{
    let f = match fields(stamp) {
        Some(f) => f,
        None => return chars_of(stamp),
    };
    let mut out = decimal_i64(f[2]);
    out.push(' ');
    append_str(&mut out, month_name_exec(f[1]));
    out.push(' ');
    append_two_digits(&mut out, f[3]);
    out.push(':');
    append_two_digits(&mut out, f[4]);
    out
}

/// When exactly, which is what a revision index is read for.
pub fn moment(stamp: &str) -> (out: String)
    ensures
        out@ == moment_text(stamp@),
{
    let v = moment_chars(stamp);
    string_of(&v)
}


// ---------------------------------------------------------------------------
// Sizes. A size of a kilobyte or more is printed as `{:.1} KB` of
// `bytes as f64 / 1024.0`, which this reproduces in integers: the conversion to
// `f64` rounds to 53 significant bits, ties to even, and so does the one
// decimal place.

pub open spec fn pow2(k: nat) -> nat
    decreases k,
{
    if k == 0 { 1 } else { 2 * pow2((k - 1) as nat) }
}

/// `a / d` rounded to the nearest integer, ties to even.
pub open spec fn round_half_even(a: nat, d: nat) -> nat {
    let q = a / d;
    let r = a % d;
    if 2 * r > d || (2 * r == d && q % 2 == 1) {
        q + 1
    } else {
        q
    }
}

/// How many low bits an `f64` cannot hold for this integer.
pub open spec fn dropped_bits(b: nat) -> nat
    decreases b,
{
    if b < 0x20_0000_0000_0000 {
        0
    } else {
        1 + dropped_bits(b / 2)
    }
}

/// `b as f64`, as an integer: the nearest value with 53 significant bits.
pub open spec fn as_f64(b: nat) -> nat {
    let unit = pow2(dropped_bits(b));
    round_half_even(b, unit) * unit
}

/// Tenths of a kibibyte, rounded as `{:.1}` rounds.
pub open spec fn kib_tenths(bytes: nat) -> nat {
    round_half_even(as_f64(bytes) * 5, 512)
}

/// What `size` prints.
pub open spec fn size_text(bytes: int) -> Seq<char> {
    if bytes < 1_024 {
        decimal(bytes) + " B"@
    } else {
        let t = kib_tenths(bytes as nat);
        decimal((t / 10) as int) + seq!['.'] + decimal((t % 10) as int) + " KB"@
    }
}

fn round_half_even_exec(a: u128, d: u128) -> (out: u128)
    requires
        d > 0,
        a < 0x1_0000_0000_0000_0000_0000,
    ensures
        out == round_half_even(a as nat, d as nat),
{
    let q = a / d;
    let r = a % d;
    if r > d - r || (r == d - r && q % 2 == 1) {
        q + 1
    } else {
        q
    }
}

fn size_chars(bytes: i64) -> (out: Vec<char>)
    ensures
        out@ == size_text(bytes as int),
{
    if bytes < 1_024 {
        let mut out = decimal_i64(bytes);
        append_str(&mut out, " B");
        return out;
    }
    let b = bytes as u128;
    let mut unit: u128 = 1;
    let mut cur: u128 = b;
    let ghost mut k: nat = 0;
    while cur >= 0x20_0000_0000_0000
        invariant
            unit == pow2(k),
            cur == b / unit,
            unit > 0,
            unit <= b,
            b < 0x8000_0000_0000_0000,
            dropped_bits(b as nat) == k + dropped_bits(cur as nat),
        decreases cur,
    {
        proof {
            vstd::arithmetic::div_mod::lemma_div_denominator(b as int, unit as int, 2);
        }
        cur = cur / 2;
        unit = unit * 2;
        proof {
            k = k + 1;
            assert(unit <= b) by (nonlinear_arith)
                requires
                    cur == b / unit,
                    cur >= 1,
                    unit > 0,
            ;
        }
    }
    assert(dropped_bits(cur as nat) == 0);
    let rounded = round_half_even_exec(b, unit);
    proof {
        assert(rounded <= b / unit + 1);
        assert(rounded * unit <= b + unit) by (nonlinear_arith)
            requires
                rounded <= b / unit + 1,
                unit > 0,
        ;
    }
    let f = rounded * unit;
    let t = round_half_even_exec(f * 5, 512);
    let mut out = digits_u128(t / 10);
    out.push('.');
    let mut tenth = digits_u128(t % 10);
    out.append(&mut tenth);
    append_str(&mut out, " KB");
    out
}

/// A byte count as a reader takes it in at a glance.
pub fn size(bytes: i64) -> (out: String)
    ensures
        out@ == size_text(bytes as int),
{
    let v = size_chars(bytes);
    string_of(&v)
}

/// `1 {noun}` or `{count} {noun}s`.
pub open spec fn plural_text(count: int, noun: Seq<char>) -> Seq<char> {
    if count == 1 {
        seq!['1', ' '] + noun
    } else {
        decimal(count) + seq![' '] + noun + seq!['s']
    }
}

fn plural_chars(count: usize, noun: &str) -> (out: Vec<char>)
    ensures
        out@ == plural_text(count as int, noun@),
{
    let mut out: Vec<char> = Vec::new();
    if count == 1 {
        out.push('1');
    } else {
        out = digits_u128(count as u128);
    }
    out.push(' ');
    append_str(&mut out, noun);
    if count != 1 {
        out.push('s');
    }
    assert(out@ =~= plural_text(count as int, noun@));
    out
}


// ---------------------------------------------------------------------------
// A push.

pub open spec fn file_entry(f: File) -> Seq<char> {
    f.path@ + seq![' '] + size_text(f.size_bytes as int)
}

pub open spec fn push_lines(document: PushedDocument, asked: Option<usize>) -> Seq<Seq<char>> {
    let files = join(document.files@.map_values(|f: File| file_entry(f)), ", "@);
    let first = "pushed rev "@ + decimal(document.revision as int) + "  "@ + size_text(
        document.size_bytes as int,
    ) + "  "@ + files;
    let lines = seq![first, document.url@];
    if asked is Some && asked->0 > 0 {
        lines.push(
            plural_text(asked->0 as int, "question"@)
                + " for the reader. plan_answers reads the decisions."@,
        )
    } else {
        lines
    }
}

/// What `push` prints: the revision, its size and files, the URL, and how
/// many questions were asked.
pub open spec fn push_text(document: PushedDocument, asked: Option<usize>) -> Seq<char> {
    join(push_lines(document, asked), "\n"@)
}

pub fn push(document: &PushedDocument, asked: Option<usize>) -> (out: String)
    ensures
        out@ == push_text(*document, asked),
{
    let mut parts: Vec<Vec<char>> = Vec::new();
    let mut i: usize = 0;
    while i < document.files.len()
        invariant
            i <= document.files.len(),
            parts.len() == i,
            views(parts@) =~= document.files@.map_values(|f: File| file_entry(f)).take(i as int),
        decreases document.files.len() - i,
    {
        let file = &document.files[i];
        let mut entry = chars_of(file.path.as_str());
        entry.push(' ');
        let sz = size_chars(file.size_bytes);
        append_chars(&mut entry, &sz);
        assert(entry@ == file_entry(document.files@[i as int]));
        let ghost before = parts@;
        parts.push(entry);
        assert forall|j: int| 0 <= j < i + 1 implies #[trigger] views(parts@)[j] == document.files@.map_values(|f: File| file_entry(f))[j] by {
            if j < i {
                assert(views(before)[j] == document.files@.map_values(|f: File| file_entry(f)).take(i as int)[j]);
            }
        }
        i = i + 1;
    }
    assert(document.files@.map_values(|f: File| file_entry(f)).take(i as int) =~= document.files@.map_values(|f: File| file_entry(f)));
    let files = join_parts(&parts, ", ");

    let mut first: Vec<char> = Vec::new();
    append_str(&mut first, "pushed rev ");
    let rev = decimal_i64(document.revision);
    append_chars(&mut first, &rev);
    append_str(&mut first, "  ");
    let sz = size_chars(document.size_bytes);
    append_chars(&mut first, &sz);
    append_str(&mut first, "  ");
    append_chars(&mut first, &files);

    let mut lines: Vec<Vec<char>> = Vec::new();
    lines.push(first);
    lines.push(chars_of(document.url.as_str()));
    match asked {
        Some(count) if count > 0 => {
            let mut line = plural_chars(count, "question");
            append_str(&mut line, " for the reader. plan_answers reads the decisions.");
            lines.push(line);
        },
        _ => {},
    }
    assert(views(lines@) =~= push_lines(*document, asked));
    let out = join_parts(&lines, "\n");
    string_of(&out)
}

// ---------------------------------------------------------------------------
// Questions and answers.

pub open spec fn answered_count(questions: Seq<AnsweredQuestion>) -> nat
    decreases questions.len(),
{
    if questions.len() == 0 {
        0
    } else {
        answered_count(questions.drop_last()) + if questions.last().answer is Some { 1nat } else { 0nat }
    }
}

/// `{answered} of {total} questions answered`.
pub open spec fn summary_text(questions: Seq<AnsweredQuestion>) -> Seq<char> {
    decimal(answered_count(questions) as int) + " of "@ + decimal(questions.len() as int)
        + " questions answered"@
}

fn summary_chars(questions: &[AnsweredQuestion]) -> (out: Vec<char>)
    ensures
        out@ == summary_text(questions@),
{
    let mut answered: usize = 0;
    let mut i: usize = 0;
    while i < questions.len()
        invariant
            i <= questions.len(),
            answered == answered_count(questions@.take(i as int)),
            answered <= i,
        decreases questions.len() - i,
    {
        assert(questions@.take(i + 1).drop_last() =~= questions@.take(i as int));
        if questions[i].answer.is_some() {
            answered = answered + 1;
        }
        i = i + 1;
    }
    assert(questions@.take(i as int) =~= questions@);
    let mut out = digits_u128(answered as u128);
    append_str(&mut out, " of ");
    let total = digits_u128(questions.len() as u128);
    append_chars(&mut out, &total);
    append_str(&mut out, " questions answered");
    out
}

pub fn question_summary(questions: &[AnsweredQuestion]) -> (out: String)
    ensures
        out@ == summary_text(questions@),
{
    let v = summary_chars(questions);
    string_of(&v)
}

/// The first option offered under this value.
pub open spec fn find_option(options: Seq<AnsweredOption>, value: Seq<char>) -> Option<AnsweredOption>
    decreases options.len(),
{
    if options.len() == 0 {
        None
    } else if options[0].value@ == value {
        Some(options[0])
    } else {
        find_option(options.drop_first(), value)
    }
}

/// How one selected value reads: a written answer by its text, an offered
/// option by its label.
pub open spec fn picked_text(question: AnsweredQuestion, answer: Answer, value: Seq<char>) -> Seq<char> {
    if value == "other"@ {
        "other: \""@ + (match opt_view(answer.other_text) {
            Some(t) => t,
            None => Seq::empty(),
        }) + "\""@
    } else {
        match find_option(question.options@, value) {
            Some(option) => value + "  ("@ + option.label@ + ")"@,
            None => value,
        }
    }
}

pub open spec fn choice_text(question: AnsweredQuestion, answer: Answer) -> Seq<char> {
    if answer.selected@.len() == 0 {
        "nothing selected"@
    } else {
        join(
            string_views(answer.selected@).map_values(|v: Seq<char>| picked_text(question, answer, v)),
            ", "@,
        )
    }
}

fn find_option_exec(options: &Vec<AnsweredOption>, value: &Vec<char>) -> (out: Option<usize>)
    ensures
        out matches Some(i) ==> i < options@.len() && find_option(options@, value@) == Some(options@[i as int]),
        out is None ==> find_option(options@, value@) is None,
{
    let mut i: usize = 0;
    assert(options@.subrange(0, options@.len() as int) =~= options@);
    while i < options.len()
        invariant
            i <= options.len(),
            find_option(options@, value@) == find_option(options@.subrange(i as int, options@.len() as int), value@),
        decreases options.len() - i,
    {
        assert(options@.subrange(i + 1, options@.len() as int) =~= options@.subrange(i as int, options@.len() as int).drop_first());
        let v = chars_of(options[i].value.as_str());
        if chars_eq(&v, value) {
            return Some(i);
        }
        i = i + 1;
    }
    None
}

fn picked_chars(question: &AnsweredQuestion, answer: &Answer, value: &String) -> (out: Vec<char>)
    ensures
        out@ == picked_text(*question, *answer, value@),
{
    let v = chars_of(value.as_str());
    if str_is(value.as_str(), "other") {
        let mut out: Vec<char> = Vec::new();
        append_str(&mut out, "other: \"");
        match &answer.other_text {
            Some(t) => append_str(&mut out, t.as_str()),
            None => {},
        }
        append_str(&mut out, "\"");
        assert(out@ =~= picked_text(*question, *answer, value@));
        return out;
    }
    match find_option_exec(&question.options, &v) {
        Some(i) => {
            let mut out = v;
            append_str(&mut out, "  (");
            append_str(&mut out, question.options[i].label.as_str());
            append_str(&mut out, ")");
            out
        },
        None => v,
    }
}

fn choice_chars(question: &AnsweredQuestion, answer: &Answer) -> (out: Vec<char>)
    ensures
        out@ == choice_text(*question, *answer),
{
    if answer.selected.len() == 0 {
        return chars_of("nothing selected");
    }
    let ghost spec_parts = string_views(answer.selected@).map_values(|v: Seq<char>| picked_text(*question, *answer, v));
    let mut parts: Vec<Vec<char>> = Vec::new();
    let mut i: usize = 0;
    while i < answer.selected.len()
        invariant
            i <= answer.selected.len(),
            parts.len() == i,
            spec_parts == string_views(answer.selected@).map_values(|v: Seq<char>| picked_text(*question, *answer, v)),
            views(parts@) =~= spec_parts.take(i as int),
        decreases answer.selected.len() - i,
    {
        let p = picked_chars(question, answer, &answer.selected[i]);
        assert(p@ == spec_parts[i as int]);
        let ghost before = parts@;
        parts.push(p);
        assert forall|j: int| 0 <= j < i + 1 implies #[trigger] views(parts@)[j] == spec_parts[j] by {
            if j < i {
                assert(views(before)[j] == spec_parts.take(i as int)[j]);
            }
        }
        i = i + 1;
    }
    assert(spec_parts.take(i as int) =~= spec_parts);
    join_parts(&parts, ", ")
}

pub open spec fn question_lines(question: AnsweredQuestion) -> Seq<Seq<char>> {
    match question.answer {
        Some(answer) => {
            let lines = seq![
                question.key@ + "  "@ + question.prompt@,
                "  "@ + choice_text(question, answer) + "  "@ + moment_text(answer.answered_at@),
            ];
            match answer.notes {
                Some(notes) => lines.push("  note: \""@ + notes@ + "\""@),
                None => lines,
            }
        },
        None => seq![
            question.key@ + "  "@ + question.prompt@ + "  [open]"@,
            "  "@ + join(question.options@.map_values(|o: AnsweredOption| o.value@), " | "@),
        ],
    }
}

pub open spec fn all_question_lines(questions: Seq<AnsweredQuestion>) -> Seq<Seq<char>>
    decreases questions.len(),
{
    if questions.len() == 0 {
        Seq::empty()
    } else {
        all_question_lines(questions.drop_last()) + question_lines(questions.last())
    }
}

/// What `questions` prints: the summary, then each question with the
/// reader's decision, or with the values still open to them.
pub open spec fn questions_text(questions: Seq<AnsweredQuestion>) -> Seq<char> {
    join(seq![summary_text(questions)] + all_question_lines(questions), "\n"@)
}

fn option_values(options: &Vec<AnsweredOption>) -> (out: Vec<char>)
    ensures
        out@ == join(options@.map_values(|o: AnsweredOption| o.value@), " | "@),
{
    let ghost spec_parts = options@.map_values(|o: AnsweredOption| o.value@);
    let mut parts: Vec<Vec<char>> = Vec::new();
    let mut i: usize = 0;
    while i < options.len()
        invariant
            i <= options.len(),
            parts.len() == i,
            spec_parts == options@.map_values(|o: AnsweredOption| o.value@),
            views(parts@) =~= spec_parts.take(i as int),
        decreases options.len() - i,
    {
        let p = chars_of(options[i].value.as_str());
        assert(p@ == spec_parts[i as int]);
        let ghost before = parts@;
        parts.push(p);
        assert forall|j: int| 0 <= j < i + 1 implies #[trigger] views(parts@)[j] == spec_parts[j] by {
            if j < i {
                assert(views(before)[j] == spec_parts.take(i as int)[j]);
            }
        }
        i = i + 1;
    }
    assert(spec_parts.take(i as int) =~= spec_parts);
    join_parts(&parts, " | ")
}

fn push_question_lines(lines: &mut Vec<Vec<char>>, question: &AnsweredQuestion)
    ensures
        views(final(lines)@) == views(old(lines)@) + question_lines(*question),
{
    let ghost start = views(lines@);
    let mut head = chars_of(question.key.as_str());
    append_str(&mut head, "  ");
    append_str(&mut head, question.prompt.as_str());
    match &question.answer {
        Some(answer) => {
            lines.push(head);
            let mut second: Vec<char> = Vec::new();
            append_str(&mut second, "  ");
            let c = choice_chars(question, answer);
            append_chars(&mut second, &c);
            append_str(&mut second, "  ");
            let m = moment_chars(answer.answered_at.as_str());
            append_chars(&mut second, &m);
            lines.push(second);
            match &answer.notes {
                Some(notes) => {
                    let mut third: Vec<char> = Vec::new();
                    append_str(&mut third, "  note: \"");
                    append_str(&mut third, notes.as_str());
                    append_str(&mut third, "\"");
                    lines.push(third);
                },
                None => {},
            }
        },
        None => {
            append_str(&mut head, "  [open]");
            lines.push(head);
            let mut second: Vec<char> = Vec::new();
            append_str(&mut second, "  ");
            let values = option_values(&question.options);
            append_chars(&mut second, &values);
            lines.push(second);
        },
    }
    assert(views(lines@) =~= start + question_lines(*question));
}

fn questions_chars(questions: &[AnsweredQuestion]) -> (out: Vec<char>)
    ensures
        out@ == questions_text(questions@),
{
    let mut lines: Vec<Vec<char>> = Vec::new();
    lines.push(summary_chars(questions));
    let mut i: usize = 0;
    while i < questions.len()
        invariant
            i <= questions.len(),
            views(lines@) =~= seq![summary_text(questions@)] + all_question_lines(questions@.take(i as int)),
        decreases questions.len() - i,
    {
        assert(questions@.take(i + 1).drop_last() =~= questions@.take(i as int));
        push_question_lines(&mut lines, &questions[i]);
        i = i + 1;
    }
    assert(questions@.take(i as int) =~= questions@);
    join_parts(&lines, "\n")
}

/// An answered question drops the options the reader rejected. An open one
/// keeps their values, because the model may still have to chase the reader.
pub fn questions(asked: &[AnsweredQuestion]) -> (out: String)
    ensures
        out@ == questions_text(asked@),
{
    let v = questions_chars(asked);
    string_of(&v)
}


// ---------------------------------------------------------------------------
// Projects.

pub open spec fn project_name(project: ProjectSummary) -> Seq<char> {
    if project.aliases@.len() == 0 {
        project.slug@
    } else {
        project.slug@ + " ("@ + join(string_views(project.aliases@), ", "@) + ")"@
    }
}

pub open spec fn icon_text(light: bool, dark: bool) -> Seq<char> {
    if light && dark {
        "light+dark"@
    } else if light {
        "light"@
    } else if dark {
        "dark"@
    } else {
        "none"@
    }
}

pub open spec fn pushed_text(project: ProjectSummary, now: int) -> Seq<char> {
    match opt_view(project.last_pushed_at) {
        Some(stamp) => age_text(stamp, now),
        None => "never"@,
    }
}

pub open spec fn project_row(project: ProjectSummary, width: int, now: int) -> Seq<char> {
    pad_right(project_name(project), width) + "  "@ + pad_left(decimal(project.document_count as int), 4)
        + "  "@ + pad_right(pushed_text(project, now), 9) + "  "@ + icon_text(
        project.has_favicon_light,
        project.has_favicon_dark,
    )
}

/// The name column is as wide in bytes as its widest entry, heading included.
pub open spec fn projects_width(projects: Seq<ProjectSummary>) -> nat {
    max_byte_len(
        projects.map_values(|p: ProjectSummary| project_name(p)),
        utf8_len(plural_text(projects.len() as int, "project"@)),
    )
}

/// What `projects` prints: one row per project with its aliases, document
/// count, last push and which icons it has.
pub open spec fn projects_text(projects: Seq<ProjectSummary>, now: int) -> Seq<char> {
    if projects.len() == 0 {
        "no projects"@
    } else {
        let width = projects_width(projects) as int;
        join(
            seq![pad_right(plural_text(projects.len() as int, "project"@), width) + "  docs  last push  icon"@]
                + projects.map_values(|p: ProjectSummary| project_row(p, width, now)),
            "\n"@,
        )
    }
}

/// Every stamp in the list is one `age` can take at `now`.
pub open spec fn projects_fit(projects: Seq<ProjectSummary>, now: int) -> bool {
    forall|i: int|
        0 <= i < projects.len() ==> (#[trigger] opt_view(projects[i].last_pushed_at) matches Some(
            stamp,
        ) ==> age_fits(stamp, now))
}

fn project_name_chars(project: &ProjectSummary) -> (out: Vec<char>)
    ensures
        out@ == project_name(*project),
{
    let mut out = chars_of(project.slug.as_str());
    if project.aliases.len() == 0 {
        return out;
    }
    append_str(&mut out, " (");
    let aliases = join_strings(&project.aliases, ", ");
    append_chars(&mut out, &aliases);
    append_str(&mut out, ")");
    out
}

fn icon_str(light: bool, dark: bool) -> (out: &'static str)
    ensures
        out@ == icon_text(light, dark),
{
    if light && dark {
        "light+dark"
    } else if light {
        "light"
    } else if dark {
        "dark"
    } else {
        "none"
    }
}

pub fn projects(list: &[ProjectSummary], now: i64) -> (out: String)
    requires
        projects_fit(list@, now as int),
    ensures
        out@ == projects_text(list@, now as int),
{
    if list.len() == 0 {
        let v = chars_of("no projects");
        return string_of(&v);
    }
    let ghost names = list@.map_values(|p: ProjectSummary| project_name(p));
    let head = plural_chars(list.len(), "project");
    let mut width: u128 = utf8_len_of(&head);
    let mut i: usize = 0;
    while i < list.len()
        invariant
            i <= list.len(),
            names == list@.map_values(|p: ProjectSummary| project_name(p)),
            head@ == plural_text(list@.len() as int, "project"@),
            width == max_byte_len(names.take(i as int), utf8_len(head@)),
        decreases list.len() - i,
    {
        assert(names.take(i + 1).drop_last() =~= names.take(i as int));
        let name = project_name_chars(&list[i]);
        let n = utf8_len_of(&name);
        if n > width {
            width = n;
        }
        i = i + 1;
    }
    assert(names.take(i as int) =~= names);
    assert(width == projects_width(list@));

    let ghost rows = list@.map_values(|p: ProjectSummary| project_row(p, width as int, now as int));
    let mut lines: Vec<Vec<char>> = Vec::new();
    let mut first: Vec<char> = Vec::new();
    append_padded_right(&mut first, &head, width);
    append_str(&mut first, "  docs  last push  icon");
    lines.push(first);
    let mut i: usize = 0;
    while i < list.len()
        invariant
            i <= list.len(),
            lines.len() == i + 1,
            projects_fit(list@, now as int),
            rows == list@.map_values(|p: ProjectSummary| project_row(p, width as int, now as int)),
            head@ == plural_text(list@.len() as int, "project"@),
            views(lines@) =~= seq![pad_right(head@, width as int) + "  docs  last push  icon"@] + rows.take(i as int),
        decreases list.len() - i,
    {
        let project = &list[i];
        let mut row: Vec<char> = Vec::new();
        let name = project_name_chars(project);
        append_padded_right(&mut row, &name, width);
        append_str(&mut row, "  ");
        let count = decimal_i64(project.document_count);
        append_padded_left(&mut row, &count, 4);
        append_str(&mut row, "  ");
        let pushed = match &project.last_pushed_at {
            Some(stamp) => {
                assert(opt_view(list@[i as int].last_pushed_at) == Some(stamp@));
                age_chars(stamp.as_str(), now)
            },
            None => chars_of("never"),
        };
        assert(pushed@ == pushed_text(list@[i as int], now as int));
        append_padded_right(&mut row, &pushed, 9);
        append_str(&mut row, "  ");
        append_str(&mut row, icon_str(project.has_favicon_light, project.has_favicon_dark));
        assert(row@ == rows[i as int]);
        let ghost before = lines@;
        lines.push(row);
        assert(views(lines@) =~= views(before).push(rows[i as int]));
        assert(rows.take(i + 1) =~= rows.take(i as int).push(rows[i as int]));
        i = i + 1;
    }
    assert(rows.take(i as int) =~= rows);
    let out = join_parts(&lines, "\n");
    string_of(&out)
}


// ---------------------------------------------------------------------------
// Documents.

pub open spec fn doc_project(document: DocumentSummary) -> Option<Seq<char>> {
    opt_view(document.project)
}

/// The project every document of the list shares, if they share one.
pub open spec fn sole_project(documents: Seq<DocumentSummary>) -> Option<Seq<char>> {
    if forall|i: int|
        0 <= i < documents.len() ==> doc_project(#[trigger] documents[i]) == doc_project(documents[0]) {
        doc_project(documents[0])
    } else {
        None
    }
}

/// The widest project name in bytes, and at least `floor`.
pub open spec fn max_project_len(documents: Seq<DocumentSummary>, floor: nat) -> nat
    decreases documents.len(),
{
    if documents.len() == 0 {
        floor
    } else {
        let rest = max_project_len(documents.drop_last(), floor);
        match doc_project(documents.last()) {
            Some(p) => if utf8_len(p) > rest { utf8_len(p) } else { rest },
            None => rest,
        }
    }
}

pub open spec fn documents_width(documents: Seq<DocumentSummary>) -> nat {
    match sole_project(documents) {
        Some(_) => 0,
        None => max_project_len(documents, 7),
    }
}

pub open spec fn answers_text(document: DocumentSummary) -> Seq<char> {
    if document.questions_total == 0 {
        "-"@
    } else {
        decimal(document.questions_answered as int) + "/"@ + decimal(document.questions_total as int)
    }
}

pub open spec fn document_row(
    document: DocumentSummary,
    sole: Option<Seq<char>>,
    width: int,
    now: int,
) -> Seq<char> {
    let project = match sole {
        Some(_) => Seq::empty(),
        None => pad_right(
            match doc_project(document) {
                Some(p) => p,
                None => "-"@,
            },
            width,
        ) + "  "@,
    };
    let title = match opt_view(document.title) {
        Some(t) => t,
        None => Seq::empty(),
    };
    trim_end(
        pad_right(age_text(document.last_pushed_at@, now), 6) + " r"@ + pad_right(
            decimal(document.latest_revision as int),
            3,
        ) + " "@ + pad_right(answers_text(document), 4) + " "@ + project + document.id@ + "/"@
            + document.slug@ + "  "@ + title + if document.published {
            "  [public]"@
        } else {
            Seq::empty()
        },
    )
}

/// The Q column of a document's row reports what the server counted: for a
/// document that asks questions, the answered count, a slash, and the total,
/// starting right after the age and revision columns. The number before the
/// slash is `questions_answered`, whatever the total.
#[verifier::spinoff_prover]
#[verifier::rlimit(60)]
pub proof fn lemma_row_reports_answered_over_total(
    document: DocumentSummary,
    sole: Option<Seq<char>>,
    width: int,
    now: int,
)
    requires
        document.questions_total != 0,
    ensures
        ({
            let q = decimal(document.questions_answered as int) + "/"@ + decimal(document.questions_total as int);
            let at = (pad_right(age_text(document.last_pushed_at@, now), 6).len() + 2 + pad_right(
                decimal(document.latest_revision as int),
                3,
            ).len() + 1) as int;
            document_row(document, sole, width, now).subrange(at, at + q.len() as int) == q
        }),
{
    reveal_strlit(" r");
    reveal_strlit(" ");
    reveal_strlit("/");
    reveal_strlit("  ");
    let q = decimal(document.questions_answered as int) + "/"@ + decimal(document.questions_total as int);
    let a = pad_right(age_text(document.last_pushed_at@, now), 6) + " r"@ + pad_right(
        decimal(document.latest_revision as int),
        3,
    ) + " "@;
    let qq = pad_right(answers_text(document), 4);
    let project = match sole {
        Some(_) => Seq::empty(),
        None => pad_right(
            match doc_project(document) {
                Some(p) => p,
                None => "-"@,
            },
            width,
        ) + "  "@,
    };
    let title = match opt_view(document.title) {
        Some(t) => t,
        None => Seq::empty(),
    };
    let tail = (if document.published {
        "  [public]"@
    } else {
        Seq::empty()
    });
    let r = " "@ + project + document.id@ + "/"@ + document.slug@ + "  "@ + title + tail;
    let slash = (1 + project.len() + document.id@.len()) as int;
    assert(r[slash] == '/');
    assert(!crate::text::is_whitespace('/'));
    assert(qq + r == qq + r);
    assert((qq + r)[qq.len() + slash] == '/');
    lemma_trim_end_keeps_prefix(qq, r, slash);
    lemma_trim_end_keeps_prefix(a, qq + r, (qq.len() + slash) as int);
    assert(a + qq + r =~= a + (qq + r));
    let inner = pad_right(age_text(document.last_pushed_at@, now), 6) + " r"@ + pad_right(
        decimal(document.latest_revision as int),
        3,
    ) + " "@ + pad_right(answers_text(document), 4) + " "@ + project + document.id@ + "/"@ + document.slug@ + "  "@
        + title + tail;
    assert(inner =~= a + qq + r);
    assert(document_row(document, sole, width, now) == trim_end(inner));
    let row = a + (qq + trim_end(r));
    assert(document_row(document, sole, width, now) =~= row);
    assert(answers_text(document) == q);
    assert(row.subrange(a.len() as int, (a.len() + q.len()) as int) =~= q);
}

/// What `documents` prints: a scope line, a heading, then one row per
/// document. A list from one project drops the project column.
pub open spec fn documents_text(documents: Seq<DocumentSummary>, docs_url: Seq<char>, now: int) -> Seq<char> {
    if documents.len() == 0 {
        "no documents"@
    } else {
        let sole = sole_project(documents);
        let width = documents_width(documents) as int;
        let count = plural_text(documents.len() as int, "document"@);
        let scope = match sole {
            Some(p) => count + " in "@ + p,
            None => count,
        };
        let heading = match sole {
            Some(_) => "age    rev  Q    ref / title"@,
            None => "age    rev  Q    "@ + pad_right("project"@, width) + "  ref / title"@,
        };
        join(
            seq![scope + ", newest first. Open any at "@ + docs_url + "<ref>"@, heading]
                + documents.map_values(|d: DocumentSummary| document_row(d, sole, width, now)),
            "\n"@,
        )
    }
}

pub open spec fn documents_fit(documents: Seq<DocumentSummary>, now: int) -> bool {
    forall|i: int| 0 <= i < documents.len() ==> age_fits(#[trigger] documents[i].last_pushed_at@, now)
}

pub open spec fn opt_vec_view(o: Option<Vec<char>>) -> Option<Seq<char>> {
    match o {
        Some(v) => Some(v@),
        None => None,
    }
}

fn opt_chars(o: &Option<String>) -> (out: Option<Vec<char>>)
    ensures
        match out {
            Some(v) => opt_view(*o) == Some(v@),
            None => opt_view(*o) is None,
        },
{
    match o {
        Some(s) => Some(chars_of(s.as_str())),
        None => None,
    }
}

fn opt_chars_eq(a: &Option<Vec<char>>, b: &Option<Vec<char>>) -> (eq: bool)
    ensures
        eq == (match (a, b) {
            (Some(x), Some(y)) => x@ == y@,
            (None, None) => true,
            _ => false,
        }),
{
    match (a, b) {
        (Some(x), Some(y)) => chars_eq(x, y),
        (None, None) => true,
        _ => false,
    }
}

fn sole_project_exec(documents: &[DocumentSummary]) -> (out: Option<Vec<char>>)
    requires
        documents@.len() > 0,
    ensures
        match out {
            Some(v) => sole_project(documents@) == Some(v@),
            None => sole_project(documents@) is None,
        },
{
    let first = opt_chars(&documents[0].project);
    let mut i: usize = 1;
    while i < documents.len()
        invariant
            1 <= i <= documents.len(),
            match first {
                Some(v) => doc_project(documents@[0]) == Some(v@),
                None => doc_project(documents@[0]) is None,
            },
            forall|j: int| 0 <= j < i ==> doc_project(#[trigger] documents@[j]) == doc_project(documents@[0]),
        decreases documents.len() - i,
    {
        let p = opt_chars(&documents[i].project);
        if !opt_chars_eq(&p, &first) {
            assert(doc_project(documents@[i as int]) != doc_project(documents@[0]));
            return None;
        }
        i = i + 1;
    }
    first
}

fn document_row_chars(
    document: &DocumentSummary,
    sole: &Option<Vec<char>>,
    width: u128,
    now: i64,
) -> (out: Vec<char>)
    requires
        age_fits(document.last_pushed_at@, now as int),
    ensures
        out@ == document_row(*document, opt_vec_view(*sole), width as int, now as int),
{
    let mut row: Vec<char> = Vec::new();
    let age = age_chars(document.last_pushed_at.as_str(), now);
    append_padded_right(&mut row, &age, 6);
    append_str(&mut row, " r");
    let rev = decimal_i64(document.latest_revision);
    append_padded_right(&mut row, &rev, 3);
    append_str(&mut row, " ");
    let mut answers: Vec<char> = Vec::new();
    if document.questions_total == 0 {
        append_str(&mut answers, "-");
    } else {
        answers = decimal_i64(document.questions_answered);
        append_str(&mut answers, "/");
        let total = decimal_i64(document.questions_total);
        append_chars(&mut answers, &total);
    }
    assert(answers@ == answers_text(*document));
    append_padded_right(&mut row, &answers, 4);
    append_str(&mut row, " ");
    match sole {
        Some(_) => {},
        None => {
            let name = match &document.project {
                Some(p) => chars_of(p.as_str()),
                None => chars_of("-"),
            };
            append_padded_right(&mut row, &name, width);
            append_str(&mut row, "  ");
        },
    }
    append_str(&mut row, document.id.as_str());
    append_str(&mut row, "/");
    append_str(&mut row, document.slug.as_str());
    append_str(&mut row, "  ");
    match &document.title {
        Some(t) => append_str(&mut row, t.as_str()),
        None => {},
    }
    if document.published {
        append_str(&mut row, "  [public]");
    }
    let ghost untrimmed = row@;
    trim_end_in_place(&mut row);
    proof {
        let project = match opt_vec_view(*sole) {
            Some(_) => Seq::<char>::empty(),
            None => pad_right(
                match doc_project(*document) {
                    Some(p) => p,
                    None => "-"@,
                },
                width as int,
            ) + "  "@,
        };
        let title = match opt_view(document.title) {
            Some(t) => t,
            None => Seq::<char>::empty(),
        };
        let published = if document.published { "  [public]"@ } else { Seq::<char>::empty() };
        assert(untrimmed =~= pad_right(age_text(document.last_pushed_at@, now as int), 6) + " r"@
            + pad_right(decimal(document.latest_revision as int), 3) + " "@ + pad_right(answers_text(*document), 4)
            + " "@ + project + document.id@ + "/"@ + document.slug@ + "  "@ + title + published);
    }
    row
}

/// One row per document. A list filtered to one project drops the project
/// column rather than repeating the same word down the page.
pub fn documents(list: &[DocumentSummary], docs_url: &str, now: i64) -> (out: String)
    requires
        documents_fit(list@, now as int),
    ensures
        out@ == documents_text(list@, docs_url@, now as int),
{
    if list.len() == 0 {
        let v = chars_of("no documents");
        return string_of(&v);
    }
    let sole = sole_project_exec(list);
    let ghost sole_v = opt_vec_view(sole);
    let mut width: u128 = 0;
    if sole.is_none() {
        width = 7;
        let mut i: usize = 0;
        while i < list.len()
            invariant
                i <= list.len(),
                width == max_project_len(list@.take(i as int), 7),
            decreases list.len() - i,
        {
            assert(list@.take(i + 1).drop_last() =~= list@.take(i as int));
            match opt_chars(&list[i].project) {
                Some(p) => {
                    let n = utf8_len_of(&p);
                    if n > width {
                        width = n;
                    }
                },
                None => {},
            }
            i = i + 1;
        }
        assert(list@.take(i as int) =~= list@);
    }
    assert(width == documents_width(list@));

    let count = plural_chars(list.len(), "document");
    let mut scope = count;
    match &sole {
        Some(p) => {
            append_str(&mut scope, " in ");
            append_chars(&mut scope, p);
        },
        None => {},
    }
    let mut first = scope;
    append_str(&mut first, ", newest first. Open any at ");
    append_str(&mut first, docs_url);
    append_str(&mut first, "<ref>");
    let mut heading: Vec<char> = Vec::new();
    match &sole {
        Some(_) => append_str(&mut heading, "age    rev  Q    ref / title"),
        None => {
            append_str(&mut heading, "age    rev  Q    ");
            let word = chars_of("project");
            append_padded_right(&mut heading, &word, width);
            append_str(&mut heading, "  ref / title");
        },
    }
    let ghost count_s = plural_text(list@.len() as int, "document"@);
    let ghost scope_s = match sole_v {
        Some(p) => count_s + " in "@ + p,
        None => count_s,
    };
    assert(first@ =~= scope_s + ", newest first. Open any at "@ + docs_url@ + "<ref>"@);
    assert(heading@ =~= match sole_v {
        Some(_) => "age    rev  Q    ref / title"@,
        None => "age    rev  Q    "@ + pad_right("project"@, width as int) + "  ref / title"@,
    });
    assert(sole_v == sole_project(list@));
    let ghost rows = list@.map_values(|d: DocumentSummary| document_row(d, sole_v, width as int, now as int));
    let ghost first_s = first@;
    let ghost heading_s = heading@;
    let mut lines: Vec<Vec<char>> = Vec::new();
    lines.push(first);
    lines.push(heading);
    let ghost top = views(lines@);
    assert(top =~= seq![first_s, heading_s]);
    let mut i: usize = 0;
    while i < list.len()
        invariant
            i <= list.len(),
            lines.len() == i + 2,
            documents_fit(list@, now as int),
            sole_v == opt_vec_view(sole),
            rows == list@.map_values(|d: DocumentSummary| document_row(d, sole_v, width as int, now as int)),
            views(lines@) =~= top + rows.take(i as int),
        decreases list.len() - i,
    {
        let row = document_row_chars(&list[i], &sole, width, now);
        assert(row@ == rows[i as int]);
        let ghost before = lines@;
        lines.push(row);
        assert(views(lines@) =~= views(before).push(rows[i as int]));
        assert(rows.take(i + 1) =~= rows.take(i as int).push(rows[i as int]));
        i = i + 1;
    }
    assert(rows.take(i as int) =~= rows);
    assert(views(lines@) =~= top + rows);
    assert(documents_text(list@, docs_url@, now as int) == join(seq![first_s, heading_s] + rows, "\n"@));
    let out = join_parts(&lines, "\n");
    string_of(&out)
}


// ---------------------------------------------------------------------------
// One document.

pub open spec fn info_facts(document: DocumentInfo) -> Seq<Seq<char>> {
    let with_project = match opt_view(document.project) {
        Some(p) => seq!["project "@ + p],
        None => Seq::empty(),
    };
    let with_tags = if document.tags@.len() > 0 {
        with_project.push("tags "@ + join(string_views(document.tags@), ", "@))
    } else {
        with_project
    };
    with_tags.push(if document.published { "published"@ } else { "unpublished"@ }).push(
        "created "@ + moment_text(document.created_at@),
    )
}

pub open spec fn max_revision(revisions: Seq<Revision>) -> int
    decreases revisions.len(),
{
    if revisions.len() <= 1 {
        revisions[0].revision as int
    } else {
        let rest = max_revision(revisions.drop_last());
        if revisions.last().revision > rest { revisions.last().revision as int } else { rest }
    }
}

pub open spec fn revision_row(revision: Revision) -> Seq<char> {
    "  "@ + pad_left(decimal(revision.revision as int), 2) + "  "@ + moment_text(revision.created_at@)
        + "  "@ + size_text(revision.size_bytes as int) + "  "@ + plural_text(
        revision.files@.len() as int,
        "file"@,
    )
}

pub open spec fn info_lines(document: DocumentInfo) -> Seq<Seq<char>> {
    let head = seq![
        match opt_view(document.title) {
            Some(t) => document.slug@ + "  \""@ + t + "\""@,
            None => document.slug@,
        },
        document.url@,
        join(info_facts(document), "  "@),
    ];
    let revisions = document.revisions@;
    let n = revisions.len();
    let with_revisions = if n > 0 {
        head + seq![
            Seq::empty(),
            plural_text(n as int, "revision"@) + ", latest "@ + decimal(max_revision(revisions)),
        ] + Seq::new(n, |i: int| revision_row(revisions[n - 1 - i]))
    } else {
        head
    };
    if document.questions@.len() > 0 {
        with_revisions + seq![Seq::empty(), questions_text(document.questions@)]
    } else {
        with_revisions
    }
}

/// What `info` prints: the title, URL and facts, the revision index newest
/// first, and the questions.
pub open spec fn info_text(document: DocumentInfo) -> Seq<char> {
    join(info_lines(document), "\n"@)
}

fn revision_row_chars(revision: &Revision) -> (out: Vec<char>)
    ensures
        out@ == revision_row(*revision),
{
    let mut row: Vec<char> = Vec::new();
    append_str(&mut row, "  ");
    let n = decimal_i64(revision.revision);
    append_padded_left(&mut row, &n, 2);
    append_str(&mut row, "  ");
    let m = moment_chars(revision.created_at.as_str());
    append_chars(&mut row, &m);
    append_str(&mut row, "  ");
    let sz = size_chars(revision.size_bytes);
    append_chars(&mut row, &sz);
    append_str(&mut row, "  ");
    let f = plural_chars(revision.files.len(), "file");
    append_chars(&mut row, &f);
    row
}

pub fn info(document: &DocumentInfo) -> (out: String)
    ensures
        out@ == info_text(*document),
{
    let mut title_line = chars_of(document.slug.as_str());
    match &document.title {
        Some(t) => {
            append_str(&mut title_line, "  \"");
            append_str(&mut title_line, t.as_str());
            append_str(&mut title_line, "\"");
        },
        None => {},
    }
    let mut facts: Vec<Vec<char>> = Vec::new();
    match &document.project {
        Some(p) => {
            let mut fact = chars_of("project ");
            append_str(&mut fact, p.as_str());
            facts.push(fact);
        },
        None => {},
    }
    if document.tags.len() > 0 {
        let mut fact = chars_of("tags ");
        let tags = join_strings(&document.tags, ", ");
        append_chars(&mut fact, &tags);
        facts.push(fact);
    }
    facts.push(chars_of(if document.published { "published" } else { "unpublished" }));
    let mut created = chars_of("created ");
    let m = moment_chars(document.created_at.as_str());
    append_chars(&mut created, &m);
    facts.push(created);
    assert(views(facts@) =~= info_facts(*document));
    let facts_line = join_parts(&facts, "  ");

    let mut lines: Vec<Vec<char>> = Vec::new();
    lines.push(title_line);
    lines.push(chars_of(document.url.as_str()));
    lines.push(facts_line);
    let ghost head = views(lines@);
    let n = document.revisions.len();
    let ghost revisions = document.revisions@;
    if n > 0 {
        let mut latest = document.revisions[0].revision;
        let mut i: usize = 1;
        while i < n
            invariant
                1 <= i <= n,
                n == revisions.len(),
                revisions == document.revisions@,
                latest == max_revision(revisions.take(i as int)),
            decreases n - i,
        {
            assert(revisions.take(i + 1).drop_last() =~= revisions.take(i as int));
            let r = document.revisions[i].revision;
            if r > latest {
                latest = r;
            }
            i = i + 1;
        }
        assert(revisions.take(n as int) =~= revisions);
        lines.push(Vec::new());
        let mut summary = plural_chars(n, "revision");
        append_str(&mut summary, ", latest ");
        let l = decimal_i64(latest);
        append_chars(&mut summary, &l);
        lines.push(summary);
        let ghost mid = views(lines@);
        let ghost rows = Seq::new(n as nat, |i: int| revision_row(revisions[n - 1 - i]));
        let mut k: usize = 0;
        while k < n
            invariant
                k <= n,
                n == revisions.len(),
                revisions == document.revisions@,
                lines.len() == 5 + k,
                rows == Seq::new(n as nat, |i: int| revision_row(revisions[n - 1 - i])),
                views(lines@) =~= mid + rows.take(k as int),
            decreases n - k,
        {
            let row = revision_row_chars(&document.revisions[n - 1 - k]);
            assert(row@ == rows[k as int]);
            let ghost before = lines@;
            lines.push(row);
            assert(views(lines@) =~= views(before).push(rows[k as int]));
            assert(rows.take(k + 1) =~= rows.take(k as int).push(rows[k as int]));
            k = k + 1;
        }
        assert(rows.take(k as int) =~= rows);
    }
    let ghost before_questions = views(lines@);
    if document.questions.len() > 0 {
        lines.push(Vec::new());
        let q = questions_chars(document.questions.as_slice());
        lines.push(q);
        assert(views(lines@) =~= before_questions + seq![Seq::empty(), questions_text(document.questions@)]);
    }
    assert(views(lines@) =~= info_lines(*document));
    let out = join_parts(&lines, "\n");
    string_of(&out)
}

} // verus!
