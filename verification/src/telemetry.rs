//! System telemetry shown beside the live view: CPU busy time between two clock
//! readings, and the fields of the GPU report printed by `nvidia-smi`.

use vstd::prelude::*;

use crate::jsonl::without_cr;
use crate::text::{char_slice, push_str, trim, trimmed};

verus! {

/// A Windows FILETIME's two halves as one 64-bit count.
pub fn filetime_to_u64(high_date_time: u32, low_date_time: u32) -> (ticks: u64)
    ensures
        ticks == high_date_time as nat * 0x1_0000_0000 + low_date_time as nat,
{
    let ticks = ((high_date_time as u64) << 32u64) | (low_date_time as u64);
    assert(((high_date_time as u64) << 32u64) | (low_date_time as u64) == (high_date_time as u64)
        * 0x1_0000_0000 + (low_date_time as u64)) by (bit_vector);
    ticks
}

/// One reading of the system's CPU clocks: idle ticks and busy-or-idle ticks.
#[derive(Clone, Copy, Debug, PartialEq, Eq)]
pub struct CpuTimesSample {
    pub idle: u64,
    pub total: u64,
}

/// The sample made of the idle, kernel and user tick counts (kernel time includes
/// idle time, so the total is kernel plus user, saturating).
pub fn cpu_times_sample(idle: u64, kernel: u64, user: u64) -> (sample: CpuTimesSample)
    ensures
        sample.idle == idle,
        sample.total == if kernel + user > u64::MAX { u64::MAX as int } else { kernel + user },
{
    CpuTimesSample { idle, total: kernel.saturating_add(user) }
}

/// `a - b`, or zero when `b` is larger.
pub open spec fn ticks_since(a: u64, b: u64) -> nat {
    if a >= b { (a - b) as nat } else { 0 }
}

/// Whether the busy ticks between two samples can be counted: the idle time that passed
/// is no more than the total time that passed.
pub open spec fn usage_is_countable(previous: CpuTimesSample, current: CpuTimesSample) -> bool {
    ticks_since(current.idle, previous.idle) <= ticks_since(current.total, previous.total)
}

/// The busy and total ticks that passed between the previous sample and this one:
/// none without a previous sample or when no time passed.
pub fn cpu_busy_ticks(previous: Option<CpuTimesSample>, current: CpuTimesSample) -> (ticks: Option<
    (u64, u64),
>)
    requires
        previous matches Some(last) ==> usage_is_countable(last, current),
    ensures
        match previous {
            None => ticks is None,
            Some(last) => if ticks_since(current.total, last.total) == 0 {
                ticks is None
            } else {
                ticks == Some(
                    (
                        (ticks_since(current.total, last.total) - ticks_since(
                            current.idle,
                            last.idle,
                        )) as u64,
                        ticks_since(current.total, last.total) as u64,
                    ),
                )
            },
        },
{
    match previous {
        None => None,
        Some(last) => {
            let idle_delta = current.idle.saturating_sub(last.idle);
            let total_delta = current.total.saturating_sub(last.total);
            if total_delta == 0 {
                None
            } else {
                Some((total_delta - idle_delta, total_delta))
            }
        },
    }
}

/// Index of the first line feed at or after `i`, or the length when there is none.
pub open spec fn line_end(text: Seq<char>, i: nat) -> nat
    decreases text.len() - i,
{
    if i >= text.len() {
        text.len()
    } else if text[i as int] == '\n' {
        i
    } else {
        line_end(text, i + 1)
    }
}

/// The first line of a text as a line reader yields it (a CRLF ending removed);
/// none for an empty text.
pub open spec fn first_line(text: Seq<char>) -> Option<Seq<char>> {
    if text.len() == 0 {
        None
    } else if line_end(text, 0) < text.len() {
        Some(without_cr(text.take(line_end(text, 0) as int)))
    } else {
        Some(text)
    }
}

/// The pieces of `s` between the separators (one piece more than separators).
pub open spec fn split_on(s: Seq<char>, separator: char) -> Seq<Seq<char>>
    decreases s.len(),
{
    if s.len() == 0 {
        seq![Seq::empty()]
    } else {
        let before = split_on(s.drop_last(), separator);
        if s.last() == separator {
            before.push(Seq::empty())
        } else {
            before.update(before.len() - 1, before.last().push(s.last()))
        }
    }
}

/// The fields of the GPU report: the first line, trimmed, split at commas, each field
/// trimmed. A missing or blank first line, or one with fewer than three fields, is an
/// error with its message.
pub open spec fn gpu_report(text: Seq<char>) -> Result<Seq<Seq<char>>, Seq<char>> {
    match first_line(text) {
        None => Err("nvidia-smi returned empty output"@),
        Some(raw) => {
            let line = trimmed(raw);
            if line.len() == 0 {
                Err("nvidia-smi returned empty output"@)
            } else {
                let fields = split_on(line, ',').map_values(|field: Seq<char>| trimmed(field));
                if fields.len() < 3 {
                    Err("unexpected nvidia-smi output: "@ + line)
                } else {
                    Ok(fields)
                }
            }
        },
    }
}

/// The views of a list of strings.
pub open spec fn strings_view(strings: Seq<String>) -> Seq<Seq<char>> {
    strings.map_values(|s: String| s@)
}

fn owned(s: &str) -> (o: String)
    ensures
        o@ == s@,
{
    let mut o = String::new();
    push_str(&mut o, s);
    o
}

/// Reads the fields of the first line of `nvidia-smi --format=csv,noheader,nounits`
/// output (GPU utilisation, memory used, memory total, ...).
pub fn nvidia_smi_fields(text: &str) -> (fields: Result<Vec<String>, String>)
    ensures
        match gpu_report(text@) {
            Ok(parts) => fields matches Ok(v) && strings_view(v@) == parts,
            Err(message) => fields matches Err(m) && m@ == message,
        },
{
    let n = text.unicode_len();
    if n == 0 {
        return Err(owned("nvidia-smi returned empty output"));
    }
    let mut e: usize = 0;
    while e < n && text.get_char(e) != '\n'
        invariant
            n == text@.len(),
            e <= n,
            line_end(text@, 0) == line_end(text@, e as nat),
        decreases n - e,
    {
        e = e + 1;
    }
    let raw = if e < n {
        if e > 0 && text.get_char(e - 1) == '\r' {
            char_slice(text, 0, e - 1)
        } else {
            char_slice(text, 0, e)
        }
    } else {
        text
    };
    proof {
        let t = text@.take(e as int);
        if e < n {
            if e > 0 && text@[e - 1] == '\r' {
                assert(t.drop_last() =~= text@.subrange(0, e - 1));
            } else {
                assert(t =~= text@.subrange(0, e as int));
            }
        }
    }
    assert(first_line(text@) == Some(raw@));
    let line = trim(raw);
    let len = line.unicode_len();
    if len == 0 {
        return Err(owned("nvidia-smi returned empty output"));
    }
    let mut fields: Vec<String> = Vec::new();
    let mut current = String::new();
    let ghost mut done: Seq<Seq<char>> = Seq::empty();
    let mut i: usize = 0;
    while i < len
        invariant
            len == line@.len(),
            i <= len,
            split_on(line@.subrange(0, i as int), ',') == done.push(current@),
            strings_view(fields@) == done.map_values(|field: Seq<char>| trimmed(field)),
        decreases len - i,
    {
        let c = line.get_char(i);
        let ghost before = fields@;
        assert(line@.subrange(0, i + 1).drop_last() =~= line@.subrange(0, i as int));
        if c == ',' {
            fields.push(owned(trim(current.as_str())));
            proof {
                let next = done.push(current@);
                assert(strings_view(fields@) =~= next.map_values(|field: Seq<char>| trimmed(field)))
                    by {
                    assert(strings_view(fields@) =~= strings_view(before).push(trimmed(current@)));
                }
                done = next;
            }
            current = String::new();
        } else {
            let ghost old_current = current@;
            crate::text::push_char(&mut current, c);
            assert(done.push(old_current).update(done.len() as int, old_current.push(c)) =~= done.push(
                current@,
            ));
        }
        i = i + 1;
    }
    assert(line@.subrange(0, len as int) =~= line@);
    let ghost before = fields@;
    fields.push(owned(trim(current.as_str())));
    assert(strings_view(fields@) =~= done.push(current@).map_values(
        |field: Seq<char>| trimmed(field),
    )) by {
        assert(strings_view(fields@) =~= strings_view(before).push(trimmed(current@)));
    }
    if fields.len() < 3 {
        let mut message = owned("unexpected nvidia-smi output: ");
        push_str(&mut message, line);
        return Err(message);
    }
    Ok(fields)
}

/// Whether every character is an ASCII digit.
pub open spec fn all_digits(s: Seq<char>) -> bool {
    forall|i: int| 0 <= i < s.len() ==> '0' <= #[trigger] s[i] <= '9'
}

/// The number that a string of ASCII digits writes in decimal.
pub open spec fn digits_value(s: Seq<char>) -> nat
    decreases s.len(),
{
    if s.len() == 0 {
        0
    } else {
        digits_value(s.drop_last()) * 10 + ((s.last() as nat) - ('0' as nat)) as nat
    }
}

/// What `str::parse::<u64>` gives: an optional `+`, then at least one ASCII digit and
/// nothing else, with a value that fits in 64 bits.
pub open spec fn parsed_u64(s: Seq<char>) -> Option<u64> {
    let digits = if s.len() > 0 && s[0] == '+' { s.drop_first() } else { s };
    if digits.len() == 0 || !all_digits(digits) || digits_value(digits) > u64::MAX {
        None
    } else {
        Some(digits_value(digits) as u64)
    }
}

proof fn lemma_digits_value_grows(s: Seq<char>, k: int)
    requires
        0 <= k <= s.len(),
    ensures
        digits_value(s.take(k)) <= digits_value(s),
    decreases s.len(),
{
    if k < s.len() {
        assert(s.drop_last().take(k) =~= s.take(k));
        lemma_digits_value_grows(s.drop_last(), k);
    } else {
        assert(s.take(k) =~= s);
    }
}

/// Parses an unsigned decimal number as `str::parse::<u64>` does.
pub fn parse_u64(s: &str) -> (value: Option<u64>)
    ensures
        value == parsed_u64(s@),
{
    let n = s.unicode_len();
    let start: usize = if n > 0 && s.get_char(0) == '+' { 1 } else { 0 };
    let ghost digits = if s@.len() > 0 && s@[0] == '+' { s@.drop_first() } else { s@ };
    assert(digits =~= s@.subrange(start as int, n as int));
    if start == n {
        return None;
    }
    let mut value: u64 = 0;
    let mut i: usize = start;
    while i < n
        invariant
            n == s@.len(),
            start <= i <= n,
            digits == (if s@.len() > 0 && s@[0] == '+' { s@.drop_first() } else { s@ }),
            digits =~= s@.subrange(start as int, n as int),
            all_digits(digits.take(i - start)),
            value == digits_value(digits.take(i - start)),
        decreases n - i,
    {
        let c = s.get_char(i);
        assert(digits.take(i + 1 - start).drop_last() =~= digits.take(i - start));
        if !('0' <= c && c <= '9') {
            assert(digits[i - start] == c);
            assert(!all_digits(digits));
            return None;
        }
        let d = (c as u32 - '0' as u32) as u64;
        if value > (u64::MAX - d) / 10 {
            proof {
                assert(digits_value(digits.take(i + 1 - start)) > u64::MAX) by (nonlinear_arith)
                    requires
                        digits_value(digits.take(i + 1 - start)) == value * 10 + d,
                        value > (u64::MAX - d) / 10,
                        d <= 9;
                lemma_digits_value_grows(digits, i + 1 - start);
            }
            return None;
        }
        assert(value * 10 + d <= u64::MAX) by (nonlinear_arith)
            requires value <= (u64::MAX - d) / 10, d <= 9;
        value = value * 10 + d;
        i = i + 1;
    }
    assert(digits.take(n - start) =~= digits);
    Some(value)
}

} // verus!
