//! The lines of the live export: CSV for pings, NDJSON for pings and DNS results.

use crate::clock::{duration_nanos, nanos_of};
use crate::dns::{DnsQueryResult, DnsStatus, StatusView};
use crate::double::{millis_thousandths, to_millis_thousandths};
use crate::ping::{rtt_nanos, LossRate, PingSample, SampleView};
use crate::text::{
    all_digits, decimal, decimal_reads_back, decimals_go_digit_by_digit, digits_value, fields,
    fields_of_parts, fixed, fixed_reads_back, padded_is_digits, pow10, push_decimal, push_fixed,
};
use std::time::Duration;
use vstd::arithmetic::power::pow;
use vstd::prelude::*;

pub use crate::clock::unix_secs_now;

verus! {

/// Header of the CSV file.
pub const CSV_HEADER: &'static str = "timestamp,host,rtt_ms,loss_pct,modo";

/// `nanos` in milliseconds, computed in double precision, with three decimal places.
pub open spec fn millis_text(nanos: nat) -> Seq<char> {
    fixed(millis_thousandths(nanos), 3)
}

/// The hexadecimal digit of `n`.
pub open spec fn hex_digit(n: nat) -> char {
    if n < 10 {
        (48 + n) as char
    } else {
        (87 + n) as char
    }
}

/// The letter of the short escape of `c`, if it has one.
pub open spec fn short_escape(c: char) -> Option<char> {
    if c == '"' {
        Some('"')
    } else if c == '\\' {
        Some('\\')
    } else if c == '\n' {
        Some('n')
    } else if c == '\r' {
        Some('r')
    } else if c == '\t' {
        Some('t')
    } else if c == '\u{8}' {
        Some('b')
    } else if c == '\u{c}' {
        Some('f')
    } else {
        None
    }
}

/// One character as it stands inside a JSON string: quotes, backslashes and control
/// characters are escaped, the rest stands for itself.
pub open spec fn escaped_char(c: char) -> Seq<char> {
    match short_escape(c) {
        Some(letter) => seq!['\\', letter],
        None => if (c as nat) < 0x20 {
            seq!['\\', 'u', '0', '0', hex_digit(c as nat / 16), hex_digit(c as nat % 16)]
        } else {
            seq![c]
        },
    }
}

/// `s` as it stands inside a JSON string.
pub open spec fn escaped(s: Seq<char>) -> Seq<char>
    decreases s.len(),
{
    if s.len() == 0 {
        Seq::empty()
    } else {
        escaped(s.drop_last()) + escaped_char(s.last())
    }
}

/// How a sample was taken.
pub open spec fn mode_text(fallback: bool) -> Seq<char> {
    if fallback {
        "tcp"@
    } else {
        "icmp"@
    }
}

/// A round-trip time in milliseconds; nothing if there is none.
pub open spec fn rtt_field(rtt: Option<nat>) -> Seq<char> {
    match rtt {
        Some(nanos) => millis_text(nanos),
        None => Seq::empty(),
    }
}

/// Appends a duration in milliseconds with three decimal places.
fn push_millis(out: &mut String, d: &Duration)
    ensures
        final(out)@ == old(out)@ + millis_text(duration_nanos(*d)),
{
    push_fixed(out, to_millis_thousandths(nanos_of(d)), 3);
}

/// A round-trip time in milliseconds with three decimal places; empty if there is
/// none.
pub fn rtt_ms(rtt: Option<Duration>) -> (text: String)
    ensures
        text@ == rtt_field(rtt_nanos(rtt)),
{
    let mut text = String::new();
    if let Some(d) = rtt {
        push_millis(&mut text, &d);
    }
    text
}

/// The letter of the short escape of `c`, if it has one.
fn escape_letter(c: char) -> (letter: Option<char>)
    ensures
        letter == short_escape(c),
{
    if c == '"' {
        Some('"')
    } else if c == '\\' {
        Some('\\')
    } else if c == '\n' {
        Some('n')
    } else if c == '\r' {
        Some('r')
    } else if c == '\t' {
        Some('t')
    } else if c == '\u{8}' {
        Some('b')
    } else if c == '\u{c}' {
        Some('f')
    } else {
        None
    }
}

/// Appends a hexadecimal digit.
fn push_hex(out: &mut String, n: u8)
    requires
        n < 16,
    ensures
        final(out)@ == old(out)@.push(hex_digit(n as nat)),
{
    if n < 10 {
        out.push((48 + n) as char);
    } else {
        out.push((87 + n) as char);
    }
}

/// Appends one character as it stands inside a JSON string.
fn push_escaped(out: &mut String, c: char)
    ensures
        final(out)@ == old(out)@ + escaped_char(c),
{
    let ghost start = out@;
    match escape_letter(c) {
        Some(letter) => {
            out.push('\\');
            out.push(letter);
        },
        None => {
            let code: u32 = c as u32;
            if code < 0x20 {
                out.push('\\');
                out.push('u');
                out.push('0');
                out.push('0');
                push_hex(out, (code / 16) as u8);
                push_hex(out, (code % 16) as u8);
            } else {
                out.push(c);
            }
        },
    }
    assert(out@ =~= start + escaped_char(c));
}

/// Escapes the least that makes `s` fit inside a JSON string.
pub fn esc(s: &str) -> (out: String)
    ensures
        out@ == escaped(s@),
{
    let mut out = String::new();
    let ghost whole = s@;
    for c in it: s.chars()
        invariant
            it.seq() == whole,
            out@ == escaped(whole.take(it.index())),
    {
        let ghost k = it.index();
        assert(whole.take(k + 1).drop_last() =~= whole.take(k));
        push_escaped(&mut out, c);
    }
    assert(whole.take(whole.len() as int) =~= whole);
    out
}

/// How a sample was taken.
pub fn modo(fallback: bool) -> (text: &'static str)
    ensures
        text@ == mode_text(fallback),
{
    if fallback {
        "tcp"
    } else {
        "icmp"
    }
}

/// The CSV line of a ping at Unix time `t`.
pub open spec fn csv_line(t: u64, sample: SampleView, loss: LossRate) -> Seq<char> {
    decimal(t as nat) + ","@ + sample.host + ","@ + rtt_field(sample.rtt) + ","@
        + loss.percent_text() + ","@ + mode_text(sample.is_fallback)
}

/// The CSV line of a ping at Unix time `t`; the round-trip time is empty when
/// there was none.
pub fn csv_row(t: u64, sample: &PingSample, loss: LossRate) -> (line: String)
    ensures
        line@ == csv_line(t, sample@, loss),
{
    let mut line = String::new();
    push_decimal(&mut line, t as u128);
    line.append(",");
    line.append(sample.host.as_str());
    line.append(",");
    line.append(rtt_ms(sample.rtt).as_str());
    line.append(",");
    loss.push_percent(&mut line);
    line.append(",");
    line.append(modo(sample.is_fallback));
    assert(line@ =~= csv_line(t, sample@, loss));
    line
}

/// The NDJSON line of a ping at Unix time `t`.
pub open spec fn ping_line(t: u64, sample: SampleView, loss: LossRate) -> Seq<char> {
    "{\"t\":"@ + decimal(t as nat) + ",\"kind\":\"ping\",\"host\":\""@ + escaped(sample.host)
        + "\",\"rtt_ms\":"@ + (match sample.rtt {
        Some(nanos) => millis_text(nanos),
        None => "null"@,
    }) + ",\"loss_pct\":"@ + loss.percent_text() + ",\"modo\":\""@ + mode_text(sample.is_fallback)
        + "\"}"@
}

/// The NDJSON line of a ping at Unix time `t`; the round-trip time is `null` when
/// there was none.
pub fn ndjson_ping(t: u64, sample: &PingSample, loss: LossRate) -> (line: String)
    ensures
        line@ == ping_line(t, sample@, loss),
{
    let mut line = "{\"t\":".to_owned();
    push_decimal(&mut line, t as u128);
    line.append(",\"kind\":\"ping\",\"host\":\"");
    line.append(esc(sample.host.as_str()).as_str());
    line.append("\",\"rtt_ms\":");
    match &sample.rtt {
        Some(d) => push_millis(&mut line, d),
        None => line.append("null"),
    }
    line.append(",\"loss_pct\":");
    loss.push_percent(&mut line);
    line.append(",\"modo\":\"");
    line.append(modo(sample.is_fallback));
    line.append("\"}");
    line
}

/// The word for a status, and its latency.
pub open spec fn status_word(status: StatusView) -> (Seq<char>, nat) {
    match status {
        StatusView::Success { latency, .. } => ("ok"@, latency),
        StatusView::NotFound { latency } => ("nxdomain"@, latency),
        StatusView::Error { latency, .. } => ("erro"@, latency),
    }
}

/// The NDJSON line of a DNS result at Unix time `t`.
pub open spec fn dns_line(t: u64, domain: Seq<char>, status: StatusView) -> Seq<char> {
    "{\"t\":"@ + decimal(t as nat) + ",\"kind\":\"dns\",\"domain\":\""@ + escaped(domain)
        + "\",\"status\":\""@ + status_word(status).0 + "\",\"latency_ms\":"@ + millis_text(
        status_word(status).1,
    ) + "}"@
}

/// The NDJSON line of a DNS result at Unix time `t`; its status is `ok`,
/// `nxdomain` or `erro`.
pub fn ndjson_dns(t: u64, res: &DnsQueryResult) -> (line: String)
    ensures
        line@ == dns_line(t, res.domain@, res.status@),
{
    let (status, latency) = match &res.status {
        DnsStatus::Success { latency, .. } => ("ok", latency),
        DnsStatus::NotFound { latency } => ("nxdomain", latency),
        DnsStatus::Error { latency, .. } => ("erro", latency),
    };
    let mut line = "{\"t\":".to_owned();
    push_decimal(&mut line, t as u128);
    line.append(",\"kind\":\"dns\",\"domain\":\"");
    line.append(esc(res.domain.as_str()).as_str());
    line.append("\",\"status\":\"");
    line.append(status);
    line.append("\",\"latency_ms\":");
    push_millis(&mut line, latency);
    line.append("}");
    line
}

/// The value of a hexadecimal digit.
pub open spec fn hex_value(c: char) -> Option<nat> {
    let n = c as int;
    if 48 <= n <= 57 {
        Some((n - 48) as nat)
    } else if 97 <= n <= 102 {
        Some((n - 87) as nat)
    } else if 65 <= n <= 70 {
        Some((n - 55) as nat)
    } else {
        None
    }
}

/// The character that a backslash and this letter stand for in JSON.
pub open spec fn unescaped(letter: char) -> Option<char> {
    if letter == '"' || letter == '\\' || letter == '/' {
        Some(letter)
    } else if letter == 'n' {
        Some('\n')
    } else if letter == 'r' {
        Some('\r')
    } else if letter == 't' {
        Some('\t')
    } else if letter == 'b' {
        Some('\u{8}')
    } else if letter == 'f' {
        Some('\u{c}')
    } else {
        None
    }
}

/// The character at the start of `t`, inside a JSON string, and how many characters
/// it takes up. There is none where JSON allows none: at a quote, at a raw control
/// character and at an unknown escape. Halves of a surrogate pair are refused too.
#[verifier::opaque]
pub open spec fn json_char(t: Seq<char>) -> Option<(char, int)> {
    if t.len() == 0 || t[0] == '"' || (t[0] as nat) < 0x20 {
        None
    } else if t[0] != '\\' {
        Some((t[0], 1))
    } else if t.len() == 1 {
        None
    } else if t[1] != 'u' {
        match unescaped(t[1]) {
            Some(c) => Some((c, 2)),
            None => None,
        }
    } else if t.len() < 6 {
        None
    } else {
        match (hex_value(t[2]), hex_value(t[3]), hex_value(t[4]), hex_value(t[5])) {
            (Some(a), Some(b), Some(c), Some(d)) => {
                let code = a * 4096 + b * 256 + c * 16 + d;
                if 0xD800 <= code < 0xE000 {
                    None
                } else {
                    Some((code as char, 6))
                }
            },
            _ => None,
        }
    }
}

/// Reads a JSON string from behind its opening quote: its value, and what follows
/// the closing quote. There is none if what stands before the quote is no content of
/// a JSON string, or if there is no closing quote.
pub open spec fn json_string(t: Seq<char>) -> Option<(Seq<char>, Seq<char>)>
    decreases t.len(),
{
    if t.len() > 0 && t[0] == '"' {
        Some((Seq::empty(), t.skip(1)))
    } else {
        match json_char(t) {
            Some((c, width)) => {
                proof {
                    reveal(json_char);
                }
                match json_string(t.skip(width)) {
                    Some((value, rest)) => Some((seq![c] + value, rest)),
                    None => None,
                }
            },
            None => None,
        }
    }
}

/// What is written for one character reads as that character.
proof fn escaped_char_reads_back(c: char, after: Seq<char>)
    ensures
        json_char(escaped_char(c) + after) == Some((c, escaped_char(c).len() as int)),
        escaped_char(c)[0] != '"',
        escaped_char(c).len() > 0,
{
    reveal(json_char);
    let t = escaped_char(c) + after;
    assert forall|i: int| 0 <= i < escaped_char(c).len() implies t[i] == escaped_char(c)[i] by {}
    if short_escape(c) is None && (c as nat) < 0x20 {
        let (hi, lo) = (c as nat / 16, c as nat % 16);
        assert(hex_value(hex_digit(hi)) == Some(hi));
        assert(hex_value(hex_digit(lo)) == Some(lo));
        assert(hex_value('0') == Some(0nat));
        assert(0 * 4096 + 0 * 256 + hi * 16 + lo == c as nat);
    }
}

/// A character in front of a string that can be read.
proof fn one_character_more(e: Seq<char>, after: Seq<char>, c: char, value: Seq<char>, rest: Seq<char>)
    requires
        e.len() > 0,
        e[0] != '"',
        json_char(e + after) == Some((c, e.len() as int)),
        json_string(after) == Some((value, rest)),
    ensures
        json_string(e + after) == Some((seq![c] + value, rest)),
{
    let t = e + after;
    assert(t[0] == e[0]);
    assert(t.skip(e.len() as int) =~= after);
}

/// The first character of a text is escaped first.
proof fn escaped_from_the_front(s: Seq<char>)
    requires
        s.len() > 0,
    ensures
        escaped(s) == escaped_char(s[0]) + escaped(s.skip(1)),
{
    let (head, tail) = (seq![s[0]], s.skip(1));
    assert(s =~= head + tail);
    escaped_of_parts(head, tail);
    assert(head.drop_last() =~= Seq::<char>::empty());
    let e = escaped_char(s[0]);
    assert(escaped(head.drop_last()) =~= Seq::<char>::empty());
    assert(Seq::<char>::empty() + e =~= e);
}

proof fn escaped_of_parts(a: Seq<char>, b: Seq<char>)
    ensures
        escaped(a + b) == escaped(a) + escaped(b),
    decreases b.len(),
{
    if b.len() == 0 {
        assert(a + b =~= a);
    } else {
        escaped_of_parts(a, b.drop_last());
        assert((a + b).drop_last() =~= a + b.drop_last());
        assert((escaped(a) + escaped(b.drop_last())) + escaped_char(b.last()) =~= escaped(a) + (
        escaped(b.drop_last()) + escaped_char(b.last())));
    }
}

/// Whatever a name holds, quotes, backslashes and control characters included, its
/// escaped form followed by a closing quote reads back, as JSON, as that very name,
/// and the reading stops at that quote.
pub proof fn escaped_text_reads_back(s: Seq<char>, rest: Seq<char>)
    ensures
        json_string(escaped(s) + seq!['"'] + rest) == Some((s, rest)),
    decreases s.len(),
{
    let end = seq!['"'] + rest;
    if s.len() == 0 {
        assert(escaped(s) + seq!['"'] + rest =~= end);
        assert(end.skip(1) =~= rest);
        assert(s =~= Seq::empty());
    } else {
        let (e, tail) = (escaped_char(s[0]), s.skip(1));
        let after = escaped(tail) + seq!['"'] + rest;
        escaped_text_reads_back(tail, rest);
        escaped_from_the_front(s);
        assert(escaped(s) + seq!['"'] + rest =~= e + after);
        escaped_char_reads_back(s[0], after);
        one_character_more(e, after, s[0], tail, rest);
        assert(s =~= seq![s[0]] + tail);
    }
}

/// Escaped text holds no raw control character, which JSON does not allow.
pub proof fn escaped_text_has_no_controls(s: Seq<char>)
    ensures
        forall|i: int| 0 <= i < escaped(s).len() ==> (#[trigger] escaped(s)[i]) as nat >= 0x20,
    decreases s.len(),
{
    if s.len() > 0 {
        escaped_text_has_no_controls(s.drop_last());
        let (before, tail) = (escaped(s.drop_last()), escaped_char(s.last()));
        assert forall|i: int| 0 <= i < escaped(s).len() implies (#[trigger] escaped(s)[i]) as nat
            >= 0x20 by {
            if i < before.len() {
                assert(escaped(s)[i] == before[i]);
            } else {
                assert(escaped(s)[i] == tail[i - before.len()]);
            }
        }
    }
}

/// `s` stays on one line.
pub open spec fn one_line(s: Seq<char>) -> bool {
    forall|i: int| 0 <= i < s.len() ==> #[trigger] s[i] != '\n'
}

proof fn escaped_is_one_line(s: Seq<char>)
    ensures
        one_line(escaped(s)),
{
    escaped_text_has_no_controls(s);
}

proof fn numbers_are_one_line(n: nat, places: nat)
    ensures
        one_line(decimal(n)),
        one_line(fixed(n, places)),
{
    decimal_reads_back(n);
    decimal_reads_back(n / pow10(places));
    padded_is_digits(n, places);
}

proof fn literals_are_one_line()
    ensures
        one_line("{\"t\":"@),
        one_line(",\"kind\":\"ping\",\"host\":\""@),
        one_line("\",\"rtt_ms\":"@),
        one_line("null"@),
        one_line(",\"loss_pct\":"@),
        one_line(",\"modo\":\""@),
        one_line("\"}"@),
        one_line(",\"kind\":\"dns\",\"domain\":\""@),
        one_line("\",\"status\":\""@),
        one_line("\",\"latency_ms\":"@),
        one_line("}"@),
        one_line("ok"@),
        one_line("nxdomain"@),
        one_line("erro"@),
        one_line("tcp"@),
        one_line("icmp"@),
        one_line(","@),
{
    reveal_strlit("{\"t\":");
    reveal_strlit(",\"kind\":\"ping\",\"host\":\"");
    reveal_strlit("\",\"rtt_ms\":");
    reveal_strlit("null");
    reveal_strlit(",\"loss_pct\":");
    reveal_strlit(",\"modo\":\"");
    reveal_strlit("\"}");
    reveal_strlit(",\"kind\":\"dns\",\"domain\":\"");
    reveal_strlit("\",\"status\":\"");
    reveal_strlit("\",\"latency_ms\":");
    reveal_strlit("}");
    reveal_strlit("ok");
    reveal_strlit("nxdomain");
    reveal_strlit("erro");
    reveal_strlit("tcp");
    reveal_strlit("icmp");
    reveal_strlit(",");
}

/// An event of the NDJSON export never spans more than one line, whatever the name
/// of the host or domain holds.
pub proof fn ndjson_events_are_one_line(
    t: u64,
    sample: SampleView,
    loss: LossRate,
    domain: Seq<char>,
    status: StatusView,
)
    ensures
        one_line(ping_line(t, sample, loss)),
        one_line(dns_line(t, domain, status)),
{
    literals_are_one_line();
    escaped_is_one_line(sample.host);
    escaped_is_one_line(domain);
    numbers_are_one_line(t as nat, 0);
    numbers_are_one_line(loss.spec_tenths(), 1);
    if let Some(nanos) = sample.rtt {
        numbers_are_one_line(millis_thousandths(nanos), 3);
    }
    numbers_are_one_line(millis_thousandths(status_word(status).1), 3);
}

/// A CSV row spans one line whenever the name of its host does.
pub proof fn csv_rows_are_one_line(t: u64, sample: SampleView, loss: LossRate)
    requires
        one_line(sample.host),
    ensures
        one_line(csv_line(t, sample, loss)),
{
    literals_are_one_line();
    numbers_are_one_line(t as nat, 0);
    numbers_are_one_line(loss.spec_tenths(), 1);
    if let Some(nanos) = sample.rtt {
        numbers_are_one_line(millis_thousandths(nanos), 3);
    }
}

/// Which exports are switched on.
#[derive(Debug, Clone, Copy, PartialEq, Eq, Structural)]
pub struct Exporter {
    pub csv: bool,
    pub json: bool,
}

/// What one ping adds to the files.
pub struct PingLines {
    pub csv: Option<String>,
    pub json: Option<String>,
}

impl Exporter {
    /// The export to the given files.
    pub fn new(csv_path: Option<&str>, json_path: Option<&str>) -> (exporter: Exporter)
        ensures
            exporter.csv <==> csv_path is Some,
            exporter.json <==> json_path is Some,
    {
        Exporter { csv: csv_path.is_some(), json: json_path.is_some() }
    }

    /// What to write first into a CSV file that holds `existing_len` bytes, or that
    /// is not there yet: the header, unless something is in it.
    pub fn csv_preamble(existing_len: Option<u64>) -> (line: Option<&'static str>)
        ensures
            line is Some <==> (existing_len is None || existing_len == Some(0u64)),
            line matches Some(text) ==> text@ == CSV_HEADER@,
    {
        match existing_len {
            None => Some(CSV_HEADER),
            Some(n) => if n == 0 {
                Some(CSV_HEADER)
            } else {
                None
            },
        }
    }

    /// The lines of a ping at Unix time `t`, one for each export that is on.
    pub fn ping(&self, t: u64, sample: &PingSample, loss: LossRate) -> (lines: PingLines)
        ensures
            lines.csv is Some <==> self.csv,
            lines.json is Some <==> self.json,
            lines.csv matches Some(line) ==> line@ == csv_line(t, sample@, loss),
            lines.json matches Some(line) ==> line@ == ping_line(t, sample@, loss),
    {
        PingLines {
            csv: if self.csv {
                Some(csv_row(t, sample, loss))
            } else {
                None
            },
            json: if self.json {
                Some(ndjson_ping(t, sample, loss))
            } else {
                None
            },
        }
    }

    /// The line of a DNS result at Unix time `t`, if the NDJSON export is on; the CSV
    /// is for pings alone.
    pub fn dns(&self, t: u64, res: &DnsQueryResult) -> (line: Option<String>)
        ensures
            line is Some <==> self.json,
            line matches Some(text) ==> text@ == dns_line(t, res.domain@, res.status@),
    {
        if self.json {
            Some(ndjson_dns(t, res))
        } else {
            None
        }
    }
}

/// A value in JSON, as far as the events have any. A number is an integer of units
/// with so many decimal places.
pub enum JsonValue {
    Null,
    Number(int, nat),
    Text(Seq<char>),
}

/// How many digits `t` starts with.
pub open spec fn digit_run(t: Seq<char>) -> nat
    decreases t.len(),
{
    if t.len() > 0 && '0' <= t[0] <= '9' {
        1 + digit_run(t.skip(1))
    } else {
        0
    }
}

/// Reads a number without sign and exponent: its value and what follows it.
#[verifier::opaque]
pub open spec fn json_number(t: Seq<char>) -> Option<(JsonValue, Seq<char>)> {
    let k = digit_run(t) as int;
    if k == 0 {
        None
    } else if k < t.len() && t[k] == '.' {
        let f = digit_run(t.skip(k + 1)) as int;
        if f == 0 {
            None
        } else {
            let units = digits_value(t.take(k)) * pow(10, f as nat) + digits_value(
                t.subrange(k + 1, k + 1 + f),
            );
            Some((JsonValue::Number(units, f as nat), t.skip(k + 1 + f)))
        }
    } else {
        Some((JsonValue::Number(digits_value(t.take(k)), 0), t.skip(k)))
    }
}

/// Reads a string, a `null` or a number: its value and what follows it.
#[verifier::opaque]
pub open spec fn json_value(t: Seq<char>) -> Option<(JsonValue, Seq<char>)> {
    if t.len() > 0 && t[0] == '"' {
        match json_string(t.skip(1)) {
            Some((text, rest)) => Some((JsonValue::Text(text), rest)),
            None => None,
        }
    } else if t.len() >= 4 && t[0] == 'n' && t[1] == 'u' && t[2] == 'l' && t[3] == 'l' {
        Some((JsonValue::Null, t.skip(4)))
    } else {
        json_number(t)
    }
}

/// Reads one member of an object: its name, its value and what follows.
#[verifier::opaque]
pub open spec fn json_member(t: Seq<char>) -> Option<((Seq<char>, JsonValue), Seq<char>)> {
    if t.len() > 0 && t[0] == '"' {
        match json_string(t.skip(1)) {
            Some((name, rest)) => if rest.len() > 0 && rest[0] == ':' {
                match json_value(rest.skip(1)) {
                    Some((value, end)) => Some(((name, value), end)),
                    None => None,
                }
            } else {
                None
            },
            None => None,
        }
    } else {
        None
    }
}

/// Reads the members of an object up to its closing brace, in their order, and what
/// follows it.
#[verifier::opaque]
pub open spec fn json_members(t: Seq<char>) -> Option<(Seq<(Seq<char>, JsonValue)>, Seq<char>)>
    decreases t.len(),
{
    match json_member(t) {
        Some((member, rest)) => if rest.len() == 0 || rest.len() >= t.len() {
            None
        } else if rest[0] == '}' {
            Some((seq![member], rest.skip(1)))
        } else if rest[0] == ',' {
            match json_members(rest.skip(1)) {
                Some((others, end)) => Some((seq![member] + others, end)),
                None => None,
            }
        } else {
            None
        },
        None => None,
    }
}

/// Reads a line that is one JSON object: its members, in their order.
#[verifier::opaque]
pub open spec fn json_object(line: Seq<char>) -> Option<Seq<(Seq<char>, JsonValue)>> {
    if line.len() > 0 && line[0] == '{' {
        match json_members(line.skip(1)) {
            Some((members, rest)) => if rest.len() == 0 {
                Some(members)
            } else {
                None
            },
            None => None,
        }
    } else {
        None
    }
}

proof fn digit_run_stops(digits: Seq<char>, rest: Seq<char>)
    requires
        all_digits(digits),
        rest.len() == 0 || !('0' <= rest[0] <= '9'),
    ensures
        digit_run(digits + rest) == digits.len(),
    decreases digits.len(),
{
    let t = digits + rest;
    if digits.len() == 0 {
        assert(t =~= rest);
    } else {
        assert(t[0] == digits[0]);
        assert(t.skip(1) =~= digits.skip(1) + rest);
        assert forall|i: int| 0 <= i < digits.skip(1).len() implies '0' <= #[trigger] digits.skip(
            1,
        )[i] <= '9' by {
            assert(digits.skip(1)[i] == digits[i + 1]);
        }
        digit_run_stops(digits.skip(1), rest);
    }
}

/// A whole number reads back where no digit and no point follows.
pub proof fn decimal_is_a_number(n: nat, rest: Seq<char>)
    requires
        rest.len() == 0 || (!('0' <= rest[0] <= '9') && rest[0] != '.'),
    ensures
        json_number(decimal(n) + rest) == Some((JsonValue::Number(n as int, 0), rest)),
        json_value(decimal(n) + rest) == Some((JsonValue::Number(n as int, 0), rest)),
{
    reveal(json_number);
    reveal(json_value);
    let (d, t) = (decimal(n), decimal(n) + rest);
    decimal_reads_back(n);
    decimals_go_digit_by_digit(n);
    digit_run_stops(d, rest);
    assert(t.take(d.len() as int) =~= d);
    assert(t.skip(d.len() as int) =~= rest);
    assert('0' <= d[0] <= '9');
    assert(t[0] == d[0]);
}

/// A number with decimal places reads back where no digit follows.
pub proof fn fixed_is_a_number(n: nat, places: nat, rest: Seq<char>)
    requires
        places > 0,
        rest.len() == 0 || !('0' <= rest[0] <= '9'),
    ensures
        json_number(fixed(n, places) + rest) == Some((JsonValue::Number(n as int, places), rest)),
        json_value(fixed(n, places) + rest) == Some((JsonValue::Number(n as int, places), rest)),
{
    reveal(json_number);
    reveal(json_value);
    let text = fixed(n, places);
    let t = text + rest;
    fixed_reads_back(n, places);
    let k = text.len() - places - 1;
    let (a, b) = (text.take(k), text.skip(k + 1));
    assert(t =~= a + (seq!['.'] + b + rest));
    digit_run_stops(a, seq!['.'] + b + rest);
    assert(t.take(k) =~= a);
    assert(t.skip(k + 1) =~= b + rest);
    digit_run_stops(b, rest);
    assert(t.subrange(k + 1, k + 1 + places) =~= b);
    assert(t.skip(k + 1 + places) =~= rest);
    assert('0' <= a[0] <= '9');
    assert(a[0] == text[0]);
    assert(t[0] == text[0]);
}

/// A text that needs no escapes.
#[verifier::opaque]
spec fn plain(s: Seq<char>) -> bool {
    forall|i: int| 0 <= i < s.len() ==> escaped_char(#[trigger] s[i]) == seq![s[i]]
}

proof fn plain_text_is_unescaped(s: Seq<char>)
    requires
        plain(s),
    ensures
        escaped(s) == s,
    decreases s.len(),
{
    reveal(plain);
    if s.len() == 0 {
        assert(escaped(s) =~= s);
    } else {
        let start = s.drop_last();
        assert forall|i: int| 0 <= i < start.len() implies escaped_char(#[trigger] start[i]) == seq![
            start[i],
        ] by {
            assert(start[i] == s[i]);
        }
        plain_text_is_unescaped(start);
        assert(escaped_char(s[s.len() - 1]) == seq![s.last()]);
        assert(escaped(s) =~= s);
    }
}

/// A text in quotes.
#[verifier::opaque]
spec fn quoted(s: Seq<char>) -> Seq<char> {
    seq!['"'] + s + seq!['"']
}

/// A member as it is written.
#[verifier::opaque]
spec fn member_text(name: Seq<char>, value: Seq<char>) -> Seq<char> {
    quoted(name) + seq![':'] + value
}

proof fn quoted_text_reads_back(s: Seq<char>, rest: Seq<char>)
    ensures
        json_value(quoted(escaped(s)) + rest) == Some((JsonValue::Text(s), rest)),
{
    reveal(json_value);
    reveal(quoted);
    let t = quoted(escaped(s)) + rest;
    assert(t[0] == '"');
    assert(t.skip(1) =~= escaped(s) + seq!['"'] + rest);
    escaped_text_reads_back(s, rest);
}

proof fn member_reads_back(name: Seq<char>, value: Seq<char>, read: JsonValue, rest: Seq<char>)
    requires
        plain(name),
        json_value(value + rest) == Some((read, rest)),
    ensures
        json_member(member_text(name, value) + rest) == Some(((name, read), rest)),
{
    reveal(json_member);
    reveal(quoted);
    reveal(member_text);
    let t = member_text(name, value) + rest;
    let after = seq![':'] + value + rest;
    assert(t[0] == '"');
    assert(t.skip(1) =~= name + seq!['"'] + after);
    plain_text_is_unescaped(name);
    escaped_text_reads_back(name, after);
    assert(after[0] == ':');
    assert(after.skip(1) =~= value + rest);
}

proof fn last_member_reads_back(name: Seq<char>, value: Seq<char>, read: JsonValue)
    requires
        plain(name),
        json_value(value + seq!['}']) == Some((read, seq!['}'])),
    ensures
        json_members(member_text(name, value) + seq!['}']) == Some(
            (seq![(name, read)], Seq::<char>::empty()),
        ),
{
    assert(member_text(name, value).len() > 0) by {
        reveal(member_text);
    }
    reveal(json_members);
    member_reads_back(name, value, read, seq!['}']);
    assert(seq!['}'].skip(1) =~= Seq::empty());
}

proof fn further_member_reads_back(
    name: Seq<char>,
    value: Seq<char>,
    read: JsonValue,
    next: Seq<char>,
    others: Seq<(Seq<char>, JsonValue)>,
)
    requires
        plain(name),
        json_value(value + (seq![','] + next)) == Some((read, seq![','] + next)),
        json_members(next) == Some((others, Seq::<char>::empty())),
    ensures
        json_members(member_text(name, value) + (seq![','] + next)) == Some(
            (seq![(name, read)] + others, Seq::<char>::empty()),
        ),
{
    assert(member_text(name, value).len() > 0) by {
        reveal(member_text);
    }
    reveal(json_members);
    let rest = seq![','] + next;
    member_reads_back(name, value, read, rest);
    assert(rest.skip(1) =~= next);
}

proof fn names_are_plain()
    ensures
        plain("t"@),
        plain("kind"@),
        plain("host"@),
        plain("rtt_ms"@),
        plain("loss_pct"@),
        plain("modo"@),
        plain("domain"@),
        plain("status"@),
        plain("latency_ms"@),
        plain("ping"@),
        plain("dns"@),
        plain("tcp"@),
        plain("icmp"@),
        plain("ok"@),
        plain("nxdomain"@),
        plain("erro"@),
{
    reveal(plain);
    reveal_strlit("t");
    reveal_strlit("kind");
    reveal_strlit("host");
    reveal_strlit("rtt_ms");
    reveal_strlit("loss_pct");
    reveal_strlit("modo");
    reveal_strlit("domain");
    reveal_strlit("status");
    reveal_strlit("latency_ms");
    reveal_strlit("ping");
    reveal_strlit("dns");
    reveal_strlit("tcp");
    reveal_strlit("icmp");
    reveal_strlit("ok");
    reveal_strlit("nxdomain");
    reveal_strlit("erro");
}

proof fn openings_are_members()
    ensures
        "{\"t\":"@ == seq!['{'] + quoted("t"@) + seq![':'],
        ",\"kind\":\"ping\",\"host\":\""@ == seq![','] + member_text("kind"@, quoted("ping"@))
            + seq![','] + quoted("host"@) + seq![':'] + seq!['"'],
        ",\"kind\":\"dns\",\"domain\":\""@ == seq![','] + member_text("kind"@, quoted("dns"@))
            + seq![','] + quoted("domain"@) + seq![':'] + seq!['"'],
{
    reveal(quoted);
    reveal(member_text);
    reveal_strlit("{\"t\":");
    reveal_strlit(",\"kind\":\"ping\",\"host\":\"");
    reveal_strlit(",\"kind\":\"dns\",\"domain\":\"");
    reveal_strlit("t");
    reveal_strlit("kind");
    reveal_strlit("ping");
    reveal_strlit("dns");
    reveal_strlit("host");
    reveal_strlit("domain");
    assert("{\"t\":"@ =~= seq!['{'] + quoted("t"@) + seq![':']);
    assert(",\"kind\":\"ping\",\"host\":\""@ =~= seq![','] + member_text("kind"@, quoted("ping"@))
        + seq![','] + quoted("host"@) + seq![':'] + seq!['"']);
    assert(",\"kind\":\"dns\",\"domain\":\""@ =~= seq![','] + member_text("kind"@, quoted("dns"@))
        + seq![','] + quoted("domain"@) + seq![':'] + seq!['"']);
}

proof fn middles_are_members()
    ensures
        "\",\"rtt_ms\":"@ == seq!['"'] + (seq![','] + quoted("rtt_ms"@) + seq![':']),
        ",\"loss_pct\":"@ == seq![','] + quoted("loss_pct"@) + seq![':'],
        ",\"modo\":\""@ == seq![','] + quoted("modo"@) + seq![':'] + seq!['"'],
        "\"}"@ == seq!['"'] + seq!['}'],
        "\",\"status\":\""@ == seq!['"'] + (seq![','] + quoted("status"@) + seq![':'] + seq!['"']),
        "\",\"latency_ms\":"@ == seq!['"'] + (seq![','] + quoted("latency_ms"@) + seq![':']),
        "}"@ == seq!['}'],
        "null"@ == seq!['n', 'u', 'l', 'l'],
{
    reveal(quoted);
    reveal_strlit("\",\"rtt_ms\":");
    reveal_strlit(",\"loss_pct\":");
    reveal_strlit(",\"modo\":\"");
    reveal_strlit("\"}");
    reveal_strlit("\",\"status\":\"");
    reveal_strlit("\",\"latency_ms\":");
    reveal_strlit("}");
    reveal_strlit("null");
    reveal_strlit("rtt_ms");
    reveal_strlit("loss_pct");
    reveal_strlit("modo");
    reveal_strlit("status");
    reveal_strlit("latency_ms");
    assert("\",\"rtt_ms\":"@ =~= seq!['"'] + (seq![','] + quoted("rtt_ms"@) + seq![':']));
    assert(",\"loss_pct\":"@ =~= seq![','] + quoted("loss_pct"@) + seq![':']);
    assert(",\"modo\":\""@ =~= seq![','] + quoted("modo"@) + seq![':'] + seq!['"']);
    assert("\"}"@ =~= seq!['"'] + seq!['}']);
    assert("\",\"status\":\""@ =~= seq!['"'] + (seq![','] + quoted("status"@) + seq![':'] + seq!['"']));
    assert("\",\"latency_ms\":"@ =~= seq!['"'] + (seq![','] + quoted("latency_ms"@) + seq![':']));
    assert("}"@ =~= seq!['}']);
    assert("null"@ =~= seq!['n', 'u', 'l', 'l']);
}

proof fn null_reads_back(rest: Seq<char>)
    ensures
        json_value("null"@ + rest) == Some((JsonValue::Null, rest)),
{
    reveal(json_value);
    reveal_strlit("null");
    assert(("null"@ + rest).skip(4) =~= rest);
}

/// Writing a member whose value is no text.
proof fn member_written(lead: Seq<char>, front: Seq<char>, name: Seq<char>, v: Seq<char>, tail: Seq<char>)
    requires
        lead == front + quoted(name) + seq![':'],
    ensures
        lead + (v + tail) == front + (member_text(name, v) + tail),
{
    reveal(member_text);
    assert(lead + (v + tail) =~= front + (member_text(name, v) + tail));
}

/// Writing a member whose value is a text.
proof fn text_member_written(
    lead: Seq<char>,
    front: Seq<char>,
    name: Seq<char>,
    v: Seq<char>,
    tail: Seq<char>,
)
    requires
        lead == front + quoted(name) + seq![':'] + seq!['"'],
    ensures
        lead + (v + (seq!['"'] + tail)) == front + (member_text(name, quoted(v)) + tail),
{
    reveal(member_text);
    let q = seq!['"'];
    let (a, b) = (quoted(name), quoted(v));
    assert(b == q + v + q) by {
        reveal(quoted);
    }
    assert(front + a + seq![':'] + q + (v + (q + tail)) =~= front + (a + seq![':'] + (q + v + q)
        + tail));
}

/// The grouping of what is put together does not matter.
proof fn regrouped(a: Seq<char>, b: Seq<char>, c: Seq<char>)
    ensures
        a + b + c == a + (b + c),
{
    assert(a + b + c =~= a + (b + c));
}

/// A line of time, kind, a name with its text, and what follows.
proof fn line_written(
    open: Seq<char>,
    d: Seq<char>,
    lead: Seq<char>,
    kind: Seq<char>,
    name: Seq<char>,
    e: Seq<char>,
    tail: Seq<char>,
)
    requires
        open == seq!['{'] + quoted("t"@) + seq![':'],
        lead == seq![','] + member_text("kind"@, quoted(kind)) + seq![','] + quoted(name) + seq![
            ':',
        ] + seq!['"'],
    ensures
        open + (d + (lead + (e + (seq!['"'] + tail)))) == seq!['{'] + (member_text("t"@, d) + (seq![
            ',',
        ] + (member_text("kind"@, quoted(kind)) + (seq![','] + (member_text(name, quoted(e))
            + tail))))),
{
    let k = member_text("kind"@, quoted(kind));
    let front = seq![','] + k + seq![','];
    text_member_written(lead, front, name, e, tail);
    let m = member_text(name, quoted(e)) + tail;
    assert(front + m =~= seq![','] + (k + (seq![','] + m)));
    member_written(open, seq!['{'], "t"@, d, front + m);
}

/// The pieces of a ping event.
proof fn ping_line_written(
    t: u64,
    sample: SampleView,
    loss: LossRate,
    rtt: Seq<char>,
    mode: Seq<char>,
)
    requires
        rtt == (match sample.rtt {
            Some(nanos) => millis_text(nanos),
            None => "null"@,
        }),
        mode == mode_text(sample.is_fallback),
    ensures
        ({
            let t6 = member_text("modo"@, quoted(mode)) + seq!['}'];
            let t5 = member_text("loss_pct"@, loss.percent_text()) + (seq![','] + t6);
            let t4 = member_text("rtt_ms"@, rtt) + (seq![','] + t5);
            ping_line(t, sample, loss) == seq!['{'] + (member_text("t"@, decimal(t as nat)) + (seq![
                ',',
            ] + (member_text("kind"@, quoted("ping"@)) + (seq![','] + (member_text(
                "host"@,
                quoted(escaped(sample.host)),
            ) + (seq![','] + t4))))))
        }),
{
    openings_are_members();
    middles_are_members();
    let (l1, l2, l3) = ("{\"t\":"@, ",\"kind\":\"ping\",\"host\":\""@, "\",\"rtt_ms\":"@);
    let (l4, l5, l6) = (",\"loss_pct\":"@, ",\"modo\":\""@, "\"}"@);
    let (d, e, p) = (decimal(t as nat), escaped(sample.host), loss.percent_text());
    let (q, comma, end) = (seq!['"'], seq![','], seq!['}']);
    let x6 = mode + l6;
    let x5 = l5 + x6;
    let x4 = l4 + (p + x5);
    let x3 = rtt + x4;
    text_member_written(l5, comma, "modo"@, mode, end);
    let t6 = member_text("modo"@, quoted(mode)) + end;
    assert(x5 == comma + t6);
    member_written(l4, comma, "loss_pct"@, p, x5);
    let t5 = member_text("loss_pct"@, p) + (comma + t6);
    assert(x4 == comma + t5);
    let lead = comma + quoted("rtt_ms"@) + seq![':'];
    member_written(lead, comma, "rtt_ms"@, rtt, x4);
    let t4 = member_text("rtt_ms"@, rtt) + (comma + t5);
    regrouped(q, lead, x3);
    assert(l3 + x3 == q + (comma + t4));
    line_written(l1, d, l2, "ping"@, "host"@, e, comma + t4);
    // The event is put together from the left.
    let y = l1 + d + l2 + e + l3 + rtt + l4 + p + l5 + mode + l6;
    assert(ping_line(t, sample, loss) == y);
    regrouped(l1 + d + l2 + e + l3 + rtt + l4 + p + l5, mode, l6);
    regrouped(l1 + d + l2 + e + l3 + rtt + l4 + p, l5, x6);
    regrouped(l1 + d + l2 + e + l3 + rtt + l4, p, x5);
    regrouped(l1 + d + l2 + e + l3 + rtt, l4, p + x5);
    regrouped(l1 + d + l2 + e + l3, rtt, x4);
    regrouped(l1 + d + l2 + e, l3, x3);
    regrouped(l1 + d + l2, e, l3 + x3);
    regrouped(l1 + d, l2, e + (l3 + x3));
    regrouped(l1, d, l2 + (e + (l3 + x3)));
}

/// The pieces of a DNS event.
proof fn dns_line_written(t: u64, domain: Seq<char>, status: StatusView)
    ensures
        ({
            let (word, nanos) = status_word(status);
            let t5 = member_text("latency_ms"@, millis_text(nanos)) + seq!['}'];
            let t4 = member_text("status"@, quoted(word)) + (seq![','] + t5);
            dns_line(t, domain, status) == seq!['{'] + (member_text("t"@, decimal(t as nat)) + (seq![
                ',',
            ] + (member_text("kind"@, quoted("dns"@)) + (seq![','] + (member_text(
                "domain"@,
                quoted(escaped(domain)),
            ) + (seq![','] + t4))))))
        }),
{
    openings_are_members();
    middles_are_members();
    let (l1, l2) = ("{\"t\":"@, ",\"kind\":\"dns\",\"domain\":\""@);
    let (l3, l4, l5) = ("\",\"status\":\""@, "\",\"latency_ms\":"@, "}"@);
    let (word, nanos) = status_word(status);
    let (d, e, ms) = (decimal(t as nat), escaped(domain), millis_text(nanos));
    let (q, comma) = (seq!['"'], seq![',']);
    let x4 = ms + l5;
    let lead = comma + quoted("latency_ms"@) + seq![':'];
    member_written(lead, comma, "latency_ms"@, ms, l5);
    let t5 = member_text("latency_ms"@, ms) + l5;
    regrouped(q, lead, x4);
    assert(l4 + x4 == q + (comma + t5));
    let x3 = word + (l4 + x4);
    let open = comma + quoted("status"@) + seq![':'] + q;
    text_member_written(open, comma, "status"@, word, comma + t5);
    let t4 = member_text("status"@, quoted(word)) + (comma + t5);
    regrouped(q, open, x3);
    assert(l3 + x3 == q + (comma + t4));
    line_written(l1, d, l2, "dns"@, "domain"@, e, comma + t4);
    assert(dns_line(t, domain, status) == l1 + d + l2 + e + l3 + word + l4 + ms + l5);
    regrouped(l1 + d + l2 + e + l3 + word + l4, ms, l5);
    regrouped(l1 + d + l2 + e + l3 + word, l4, x4);
    regrouped(l1 + d + l2 + e + l3, word, l4 + x4);
    regrouped(l1 + d + l2 + e, l3, x3);
    regrouped(l1 + d + l2, e, l3 + x3);
    regrouped(l1 + d, l2, e + (l3 + x3));
    regrouped(l1, d, l2 + (e + (l3 + x3)));
}

/// A line that starts with time and kind reads back if what follows does.
proof fn line_reads_back(t: u64, kind: Seq<char>, next: Seq<char>, others: Seq<(Seq<char>, JsonValue)>)
    requires
        plain(kind),
        json_members(next) == Some((others, Seq::<char>::empty())),
    ensures
        json_object(
            seq!['{'] + (member_text("t"@, decimal(t as nat)) + (seq![','] + (member_text(
                "kind"@,
                quoted(kind),
            ) + (seq![','] + next)))),
        ) == Some(
            seq![("t"@, JsonValue::Number(t as int, 0))] + (seq![("kind"@, JsonValue::Text(kind))]
                + others),
        ),
{
    reveal(json_object);
    names_are_plain();
    plain_text_is_unescaped(kind);
    quoted_text_reads_back(kind, seq![','] + next);
    further_member_reads_back("kind"@, quoted(kind), JsonValue::Text(kind), next, others);
    let second = member_text("kind"@, quoted(kind)) + (seq![','] + next);
    let more = seq![("kind"@, JsonValue::Text(kind))] + others;
    decimal_is_a_number(t as nat, seq![','] + second);
    let d = decimal(t as nat);
    further_member_reads_back("t"@, d, JsonValue::Number(t as int, 0), second, more);
    let line = seq!['{'] + (member_text("t"@, d) + (seq![','] + second));
    assert(line.skip(1) =~= member_text("t"@, d) + (seq![','] + second));
}

/// The NDJSON line of a ping reads back as one JSON object with exactly these members:
/// the Unix time given, the kind, the very name of the host, the round-trip time in
/// milliseconds to three decimal places or `null`, the loss to one, and how the sample
/// was taken.
pub proof fn ping_events_read_back(t: u64, sample: SampleView, loss: LossRate)
    ensures
        json_object(ping_line(t, sample, loss)) == Some(
            seq![
                ("t"@, JsonValue::Number(t as int, 0)),
                ("kind"@, JsonValue::Text("ping"@)),
                ("host"@, JsonValue::Text(sample.host)),
                (
                    "rtt_ms"@,
                    match sample.rtt {
                        Some(nanos) => JsonValue::Number(millis_thousandths(nanos) as int, 3),
                        None => JsonValue::Null,
                    },
                ),
                ("loss_pct"@, JsonValue::Number(loss.spec_tenths() as int, 1)),
                (
                    "modo"@,
                    JsonValue::Text(
                        if sample.is_fallback {
                            "tcp"@
                        } else {
                            "icmp"@
                        },
                    ),
                ),
            ],
        ),
{
    names_are_plain();
    let mode = if sample.is_fallback {
        "tcp"@
    } else {
        "icmp"@
    };
    let (rtt, rtt_read) = match sample.rtt {
        Some(nanos) => (
            fixed(millis_thousandths(nanos), 3),
            JsonValue::Number(millis_thousandths(nanos) as int, 3),
        ),
        None => ("null"@, JsonValue::Null),
    };
    let (pct, tenths) = (fixed(loss.spec_tenths(), 1), JsonValue::Number(loss.spec_tenths() as int, 1));
    // From the last member to the first.
    plain_text_is_unescaped(mode);
    quoted_text_reads_back(mode, seq!['}']);
    last_member_reads_back("modo"@, quoted(mode), JsonValue::Text(mode));
    let t6 = member_text("modo"@, quoted(mode)) + seq!['}'];
    let m6 = seq![("modo"@, JsonValue::Text(mode))];
    fixed_is_a_number(loss.spec_tenths(), 1, seq![','] + t6);
    further_member_reads_back("loss_pct"@, pct, tenths, t6, m6);
    let t5 = member_text("loss_pct"@, pct) + (seq![','] + t6);
    let m5 = seq![("loss_pct"@, tenths)] + m6;
    match sample.rtt {
        Some(nanos) => {
            fixed_is_a_number(millis_thousandths(nanos), 3, seq![','] + t5);
        },
        None => {
            null_reads_back(seq![','] + t5);
        },
    }
    further_member_reads_back("rtt_ms"@, rtt, rtt_read, t5, m5);
    let t4 = member_text("rtt_ms"@, rtt) + (seq![','] + t5);
    let m4 = seq![("rtt_ms"@, rtt_read)] + m5;
    let host = quoted(escaped(sample.host));
    quoted_text_reads_back(sample.host, seq![','] + t4);
    further_member_reads_back("host"@, host, JsonValue::Text(sample.host), t4, m4);
    let t3 = member_text("host"@, host) + (seq![','] + t4);
    let m3 = seq![("host"@, JsonValue::Text(sample.host))] + m4;
    line_reads_back(t, "ping"@, t3, m3);
    ping_line_written(t, sample, loss, rtt, mode);
    assert(seq![("t"@, JsonValue::Number(t as int, 0))] + (seq![
        ("kind"@, JsonValue::Text("ping"@)),
    ] + m3) =~= seq![
        ("t"@, JsonValue::Number(t as int, 0)),
        ("kind"@, JsonValue::Text("ping"@)),
        ("host"@, JsonValue::Text(sample.host)),
        ("rtt_ms"@, rtt_read),
        ("loss_pct"@, tenths),
        ("modo"@, JsonValue::Text(mode)),
    ]);
}

/// The NDJSON line of a DNS result reads back as one JSON object with exactly these
/// members: the Unix time given, the kind, the very name of the domain, one word for
/// the status, and the latency in milliseconds to three decimal places.
pub proof fn dns_events_read_back(t: u64, domain: Seq<char>, status: StatusView)
    ensures
        json_object(dns_line(t, domain, status)) == Some(
            seq![
                ("t"@, JsonValue::Number(t as int, 0)),
                ("kind"@, JsonValue::Text("dns"@)),
                ("domain"@, JsonValue::Text(domain)),
                (
                    "status"@,
                    JsonValue::Text(
                        match status {
                            StatusView::Success { .. } => "ok"@,
                            StatusView::NotFound { .. } => "nxdomain"@,
                            StatusView::Error { .. } => "erro"@,
                        },
                    ),
                ),
                (
                    "latency_ms"@,
                    JsonValue::Number(
                        millis_thousandths(
                            match status {
                                StatusView::Success { latency, .. } => latency,
                                StatusView::NotFound { latency } => latency,
                                StatusView::Error { latency, .. } => latency,
                            },
                        ) as int,
                        3,
                    ),
                ),
            ],
        ),
{
    names_are_plain();
    let (word, nanos) = match status {
        StatusView::Success { latency, .. } => ("ok"@, latency),
        StatusView::NotFound { latency } => ("nxdomain"@, latency),
        StatusView::Error { latency, .. } => ("erro"@, latency),
    };
    let ms = fixed(millis_thousandths(nanos), 3);
    let ms_read = JsonValue::Number(millis_thousandths(nanos) as int, 3);
    fixed_is_a_number(millis_thousandths(nanos), 3, seq!['}']);
    last_member_reads_back("latency_ms"@, ms, ms_read);
    let t5 = member_text("latency_ms"@, ms) + seq!['}'];
    let m5 = seq![("latency_ms"@, ms_read)];
    plain_text_is_unescaped(word);
    quoted_text_reads_back(word, seq![','] + t5);
    further_member_reads_back("status"@, quoted(word), JsonValue::Text(word), t5, m5);
    let t4 = member_text("status"@, quoted(word)) + (seq![','] + t5);
    let m4 = seq![("status"@, JsonValue::Text(word))] + m5;
    let name = quoted(escaped(domain));
    quoted_text_reads_back(domain, seq![','] + t4);
    further_member_reads_back("domain"@, name, JsonValue::Text(domain), t4, m4);
    let t3 = member_text("domain"@, name) + (seq![','] + t4);
    let m3 = seq![("domain"@, JsonValue::Text(domain))] + m4;
    line_reads_back(t, "dns"@, t3, m3);
    dns_line_written(t, domain, status);
    assert(seq![("t"@, JsonValue::Number(t as int, 0))] + (seq![
        ("kind"@, JsonValue::Text("dns"@)),
    ] + m3) =~= seq![
        ("t"@, JsonValue::Number(t as int, 0)),
        ("kind"@, JsonValue::Text("dns"@)),
        ("domain"@, JsonValue::Text(domain)),
        ("status"@, JsonValue::Text(word)),
        ("latency_ms"@, ms_read),
    ]);
}

/// The CSV line of a ping splits at its commas into five columns, as long as the name
/// of the host holds none: the Unix time given, the very name of the host, the
/// round-trip time in milliseconds to three decimal places or nothing, the loss to
/// one, and how the sample was taken.
pub proof fn csv_rows_read_back(t: u64, sample: SampleView, loss: LossRate)
    requires
        !sample.host.contains(','),
    ensures
        ({
            let columns = fields(csv_line(t, sample, loss), ',');
            &&& columns.len() == 5
            &&& json_number(columns[0]) == Some(
                (JsonValue::Number(t as int, 0), Seq::<char>::empty()),
            )
            &&& columns[1] == sample.host
            &&& match sample.rtt {
                Some(nanos) => json_number(columns[2]) == Some(
                    (JsonValue::Number(millis_thousandths(nanos) as int, 3), Seq::<char>::empty()),
                ),
                None => columns[2].len() == 0,
            }
            &&& json_number(columns[3]) == Some(
                (JsonValue::Number(loss.spec_tenths() as int, 1), Seq::<char>::empty()),
            )
            &&& columns[4] == (if sample.is_fallback {
                "tcp"@
            } else {
                "icmp"@
            })
        }),
{
    reveal_strlit(",");
    reveal_strlit("tcp");
    reveal_strlit("icmp");
    let none = Seq::<char>::empty();
    let d = decimal(t as nat);
    let rtt = rtt_field(sample.rtt);
    let pct = loss.percent_text();
    let mode = mode_text(sample.is_fallback);
    decimal_is_a_number(t as nat, none);
    decimal_reads_back(t as nat);
    assert(d + none =~= d);
    fixed_is_a_number(loss.spec_tenths(), 1, none);
    fixed_reads_back(loss.spec_tenths(), 1);
    assert(pct + none =~= pct);
    no_comma_in_fixed(loss.spec_tenths(), 1);
    if let Some(nanos) = sample.rtt {
        fixed_is_a_number(millis_thousandths(nanos), 3, none);
        assert(rtt + none =~= rtt);
        no_comma_in_fixed(millis_thousandths(nanos), 3);
    }
    assert(!d.contains(','));
    assert(!rtt.contains(','));
    assert(!mode.contains(','));
    let r4 = mode;
    let r3 = pct.push(',') + r4;
    let r2 = rtt.push(',') + r3;
    let r1 = sample.host.push(',') + r2;
    fields_of_parts(mode, none, ',');
    fields_of_parts(pct, r4, ',');
    fields_of_parts(rtt, r3, ',');
    fields_of_parts(sample.host, r2, ',');
    fields_of_parts(d, r1, ',');
    assert(csv_line(t, sample, loss) =~= d.push(',') + r1);
    assert(fields(csv_line(t, sample, loss), ',') =~= seq![d, sample.host, rtt, pct, mode]);
}

proof fn no_comma_in_fixed(n: nat, places: nat)
    ensures
        !fixed(n, places).contains(','),
{
    fixed_reads_back(n, places);
    let text = fixed(n, places);
    let k = text.len() - places - 1;
    if text.contains(',') {
        let i = choose|i: int| 0 <= i < text.len() && text[i] == ',';
        if i < k {
            assert(text.take(k)[i] == ',');
        } else if i > k {
            assert(text.skip(k + 1)[i - k - 1] == ',');
        }
    }
}

} // verus!
