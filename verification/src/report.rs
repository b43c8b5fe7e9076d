//! The lines that the commands print.

use crate::clock::{debug_of, debug_text, from_millis, full_debug_of};
use crate::dns::{DnsQueryResult, DnsStatus, StatusView};
use crate::flows::Protocol;
use crate::ping::{loss_between, rtt_nanos, LossRate, PingSample, PingStats, SampleView};
use crate::text::{
    decimal, decimal_reads_back, fields, fields_of_parts, fixed, fixed_reads_back, push_decimal,
    texts,
};
use crate::tui::ui::{counts_to, decimal_counts};
use crate::watch::ProtocolSnapshot;
use std::time::Duration;
use vstd::prelude::*;

verus! {

/// `n` spaces.
pub open spec fn blanks(n: nat) -> Seq<char> {
    Seq::new(n, |i: int| ' ')
}

/// `s`, filled up with spaces to `width` characters; a longer text stays whole.
pub open spec fn left_aligned(s: Seq<char>, width: nat) -> Seq<char> {
    if s.len() < width {
        s + blanks((width - s.len()) as nat)
    } else {
        s
    }
}

/// Appends `text`, filled up with spaces to `width` characters.
pub fn push_left_aligned(out: &mut String, text: &str, width: usize)
    ensures
        final(out)@ == old(out)@ + left_aligned(text@, width as nat),
{
    let ghost start = out@;
    out.append(text);
    let mut n: usize = text.unicode_len();
    let ghost len = text@.len();
    while n < width
        invariant
            len <= n,
            n <= width || n == len,
            out@ == start + text@ + blanks((n - len) as nat),
        decreases width - n,
    {
        out.push(' ');
        n = n + 1;
        assert(out@ =~= start + text@ + blanks((n - len) as nat));
    }
    assert(out@ =~= start + left_aligned(text@, width as nat));
}

/// The times of a ping as texts.
pub struct PingTimes {
    /// The round trip, or why there is none.
    pub rtt: String,
    /// The shortest round trip so far.
    pub min: String,
    /// The average round trip so far.
    pub avg: String,
    /// The longest round trip so far.
    pub max: String,
}

/// The line of a ping whose times read as given.
pub open spec fn ping_line_of(
    host: Seq<char>,
    is_fallback: bool,
    loss: LossRate,
    rtt: Seq<char>,
    min: Seq<char>,
    avg: Seq<char>,
    max: Seq<char>,
) -> Seq<char> {
    "Host: "@ + left_aligned(host, 15) + " | RTT: "@ + left_aligned(rtt, 10) + " | Perda: "@
        + left_aligned(loss.percent_text(), 5) + "% | Min: "@ + min + " | Avg: "@ + avg
        + " | Max: "@ + max + mode_suffix(is_fallback)
}

/// How a sample was taken, as the end of its line.
pub open spec fn mode_suffix(is_fallback: bool) -> Seq<char> {
    if is_fallback {
        " [TCP-Fallback]"@
    } else {
        " [ICMP]"@
    }
}

/// The line of a ping whose times read as given.
pub fn ping_line(sample: &PingSample, loss: LossRate, times: &PingTimes) -> (line: String)
    ensures
        line@ == ping_line_of(
            sample@.host,
            sample@.is_fallback,
            loss,
            times.rtt@,
            times.min@,
            times.avg@,
            times.max@,
        ),
{
    let mut percent = String::new();
    loss.push_percent(&mut percent);
    assert(percent@ =~= loss.percent_text());
    let mut line = "Host: ".to_owned();
    push_left_aligned(&mut line, sample.host.as_str(), 15);
    line.append(" | RTT: ");
    push_left_aligned(&mut line, times.rtt.as_str(), 10);
    line.append(" | Perda: ");
    push_left_aligned(&mut line, percent.as_str(), 5);
    line.append("% | Min: ");
    line.append(times.min.as_str());
    line.append(" | Avg: ");
    line.append(times.avg.as_str());
    line.append(" | Max: ");
    line.append(times.max.as_str());
    line.append(
        if sample.is_fallback {
            " [TCP-Fallback]"
        } else {
            " [ICMP]"
        },
    );
    line
}

/// What a sample shows as its round trip: the time with two decimal places, or else
/// the reason why there is none.
pub open spec fn rtt_shown(sample: SampleView) -> Seq<char> {
    match sample.rtt {
        Some(nanos) => debug_text(nanos, Some(2)),
        None => match sample.error {
            Some(reason) => reason,
            None => "TIMEOUT"@,
        },
    }
}

/// What a statistic shows: zero where there is no time yet.
pub open spec fn time_shown(time: Option<nat>) -> Seq<char> {
    match time {
        Some(nanos) => debug_text(nanos, None),
        None => debug_text(0, None),
    }
}

fn time_text(time: Option<Duration>) -> (text: String)
    ensures
        text@ == time_shown(rtt_nanos(time)),
{
    match time {
        Some(d) => full_debug_of(&d),
        None => full_debug_of(&from_millis(0)),
    }
}

/// The line of a sample and of the statistics that hold it.
pub fn ping_report(sample: &PingSample, stats: &PingStats) -> (line: String)
    requires
        stats.transmitted == 0 || stats.received <= stats.transmitted,
    ensures
        line@ == ping_line_of(
            sample@.host,
            sample@.is_fallback,
            loss_between(stats.transmitted, stats.received),
            rtt_shown(sample@),
            time_shown(stats@.min),
            time_shown(stats@.average()),
            time_shown(stats@.max),
        ),
{
    let rtt = match &sample.rtt {
        Some(d) => debug_of(d, 2),
        None => match &sample.error {
            Some(reason) => reason.clone(),
            None => "TIMEOUT".to_owned(),
        },
    };
    let times = PingTimes {
        rtt,
        min: time_text(stats.min_rtt),
        avg: time_text(stats.avg_rtt()),
        max: time_text(stats.max_rtt),
    };
    ping_line(sample, stats.loss_rate(), &times)
}

/// The debug text of a list of records, as `format!` writes it.
pub uninterp spec fn list_text(records: Seq<Seq<char>>) -> Seq<char>;

/// Calls `format!` with `{:?}` on a list of strings: its debug text, which is a
/// function of the strings.
#[verifier::external_body]
fn list_debug(records: &Vec<String>) -> (text: String)
    ensures
        text@ == list_text(texts(records@)),
{
    format!("{:?}", records)
}

/// The line of a DNS result whose latency and records read as given.
pub open spec fn dns_line_of(
    domain: Seq<char>,
    status: StatusView,
    latency: Seq<char>,
    records: Seq<char>,
) -> Seq<char> {
    match status {
        StatusView::Success { .. } => "[OK] Domínio: "@ + domain + " | Latência: "@ + latency
            + " | Registros: "@ + records,
        StatusView::NotFound { .. } => "[NXDOMAIN] Domínio inexistente: "@ + domain
            + " | Latência: "@ + latency,
        StatusView::Error { message, .. } => "[FALHA] Domínio: "@ + domain + " | Latência: "@
            + latency + " | Causa: "@ + message,
    }
}

/// The line of a DNS result whose latency and records read as given.
pub fn dns_line(result: &DnsQueryResult, latency: &str, records: &str) -> (line: String)
    ensures
        line@ == dns_line_of(result.domain@, result.status@, latency@, records@),
{
    match &result.status {
        DnsStatus::Success { .. } => {
            let mut line = "[OK] Domínio: ".to_owned();
            line.append(result.domain.as_str());
            line.append(" | Latência: ");
            line.append(latency);
            line.append(" | Registros: ");
            line.append(records);
            line
        },
        DnsStatus::NotFound { .. } => {
            let mut line = "[NXDOMAIN] Domínio inexistente: ".to_owned();
            line.append(result.domain.as_str());
            line.append(" | Latência: ");
            line.append(latency);
            line
        },
        DnsStatus::Error { message, .. } => {
            let mut line = "[FALHA] Domínio: ".to_owned();
            line.append(result.domain.as_str());
            line.append(" | Latência: ");
            line.append(latency);
            line.append(" | Causa: ");
            line.append(message.as_str());
            line
        },
    }
}

/// The latency of a status, in nanoseconds.
pub open spec fn latency_of(status: StatusView) -> nat {
    match status {
        StatusView::Success { latency, .. } => latency,
        StatusView::NotFound { latency } => latency,
        StatusView::Error { latency, .. } => latency,
    }
}

/// The records of a status; none unless it is a success.
pub open spec fn records_of(status: StatusView) -> Seq<Seq<char>> {
    match status {
        StatusView::Success { records, .. } => records,
        StatusView::NotFound { .. } => Seq::empty(),
        StatusView::Error { .. } => Seq::empty(),
    }
}

/// The line of a DNS result.
pub fn dns_report(result: &DnsQueryResult) -> (line: String)
    ensures
        line@ == dns_line_of(
            result.domain@,
            result.status@,
            debug_text(latency_of(result.status@), Some(2)),
            list_text(records_of(result.status@)),
        ),
{
    match &result.status {
        DnsStatus::Success { records, latency } => dns_line(
            result,
            debug_of(latency, 2).as_str(),
            list_debug(records).as_str(),
        ),
        DnsStatus::NotFound { latency } => dns_line(result, debug_of(latency, 2).as_str(), ""),
        DnsStatus::Error { latency, .. } => dns_line(result, debug_of(latency, 2).as_str(), ""),
    }
}

/// The line of one protocol class.
pub open spec fn class_line(name: Seq<char>, packets: u64, bytes: u64) -> Seq<char> {
    name + ": "@ + left_aligned(decimal(packets as nat), 8) + " pacotes | "@ + left_aligned(
        decimal(bytes as nat),
        10,
    ) + " bytes\n"@
}

fn push_class_line(out: &mut String, name: &str, packets: u64, bytes: u64)
    ensures
        final(out)@ == old(out)@ + class_line(name@, packets, bytes),
{
    let ghost start = out@;
    let mut packet_text = String::new();
    push_decimal(&mut packet_text, packets as u128);
    assert(packet_text@ =~= decimal(packets as nat));
    let mut byte_text = String::new();
    push_decimal(&mut byte_text, bytes as u128);
    assert(byte_text@ =~= decimal(bytes as nat));
    out.append(name);
    out.append(": ");
    push_left_aligned(out, packet_text.as_str(), 8);
    out.append(" pacotes | ");
    push_left_aligned(out, byte_text.as_str(), 10);
    out.append(" bytes\n");
    assert(out@ =~= start + class_line(name@, packets, bytes));
}

/// The title of a capture report.
pub open spec fn title_line(flow_count: usize) -> Seq<char> {
    "--- [Métricas] Fluxos ativos: "@ + decimal(flow_count as nat) + " ---\n"@
}

fn title(flow_count: usize) -> (text: String)
    ensures
        text@ == title_line(flow_count),
{
    let mut text = "--- [Métricas] Fluxos ativos: ".to_owned();
    push_decimal(&mut text, flow_count as u128);
    text.append(" ---\n");
    text
}

/// The report of a capture with `flow_count` flows: a title, and a line for each
/// protocol class.
pub open spec fn watch_lines(p: ProtocolSnapshot, flow_count: usize) -> Seq<char> {
    title_line(flow_count) + class_line(
        "TCP "@,
        p.packets(Protocol::Tcp),
        p.bytes(Protocol::Tcp),
    ) + class_line("UDP "@, p.packets(Protocol::Udp), p.bytes(Protocol::Udp)) + class_line(
        "ICMP"@,
        p.packets(Protocol::Icmp),
        p.bytes(Protocol::Icmp),
    ) + class_line("OUTR"@, p.packets(Protocol::Other), p.bytes(Protocol::Other))
}

/// The report of a capture with `flow_count` flows.
pub fn watch_report(p: &ProtocolSnapshot, flow_count: usize) -> (text: String)
    ensures
        text@ == watch_lines(*p, flow_count),
{
    let mut text = title(flow_count);
    push_class_line(&mut text, "TCP ", p.tcp_packets, p.tcp_bytes);
    push_class_line(&mut text, "UDP ", p.udp_packets, p.udp_bytes);
    push_class_line(&mut text, "ICMP", p.icmp_packets, p.icmp_bytes);
    push_class_line(&mut text, "OUTR", p.other_packets, p.other_bytes);
    text
}

/// Filling up keeps the text in front, reaches the width, and changes nothing of a
/// text that is already that wide.
pub proof fn alignment_keeps_the_text(s: Seq<char>, width: nat)
    ensures
        left_aligned(s, width).take(s.len() as int) == s,
        left_aligned(s, width).len() == (if s.len() < width {
            width
        } else {
            s.len()
        }),
{
    assert(left_aligned(s, width).take(s.len() as int) =~= s);
}

proof fn parts_without(a: Seq<char>, b: Seq<char>, c: char)
    requires
        !a.contains(c),
        !b.contains(c),
    ensures
        !(a + b).contains(c),
{
    if (a + b).contains(c) {
        let i = choose|i: int| 0 <= i < (a + b).len() && (a + b)[i] == c;
        if i < a.len() {
            assert(a[i] == c);
        } else {
            assert(b[i - a.len()] == c);
        }
    }
}

proof fn aligned_without(s: Seq<char>, width: nat, c: char)
    requires
        !s.contains(c),
        c != ' ',
    ensures
        !left_aligned(s, width).contains(c),
{
    if s.len() < width {
        parts_without(s, blanks((width - s.len()) as nat), c);
    }
}

proof fn number_without(n: nat, places: nat, c: char)
    requires
        !('0' <= c <= '9'),
        c != '.',
        places > 0,
    ensures
        !decimal(n).contains(c),
        !fixed(n, places).contains(c),
{
    decimal_reads_back(n);
    fixed_reads_back(n, places);
    let text = fixed(n, places);
    let k = text.len() - places - 1;
    if text.contains(c) {
        let i = choose|i: int| 0 <= i < text.len() && text[i] == c;
        if i < k {
            assert(text.take(k)[i] == c);
        } else if i > k {
            assert(text.skip(k + 1)[i - k - 1] == c);
        }
    }
}

/// Putting `s` between two texts that hold no bar makes a column without a bar.
proof fn column(front: Seq<char>, s: Seq<char>, end: Seq<char>, rest: Seq<char>)
    requires
        !front.contains('|'),
        !s.contains('|'),
        !end.contains('|'),
    ensures
        fields((front + s + end).push('|') + rest, '|') == seq![front + s + end] + fields(rest, '|'),
        fields(front + s + end, '|') == seq![front + s + end],
{
    parts_without(front, s, '|');
    parts_without(front + s, end, '|');
    fields_of_parts(front + s + end, rest, '|');
}

/// The line of a ping has six columns between bars: the host, its round trip, its
/// loss, the shortest, the average and the longest round trip, the last with how the
/// sample was taken. No text that fills a column may hold a bar itself.
pub proof fn ping_lines_have_their_columns(
    host: Seq<char>,
    is_fallback: bool,
    loss: LossRate,
    rtt: Seq<char>,
    min: Seq<char>,
    avg: Seq<char>,
    max: Seq<char>,
)
    requires
        !host.contains('|'),
        !rtt.contains('|'),
        !min.contains('|'),
        !avg.contains('|'),
        !max.contains('|'),
    ensures
        fields(ping_line_of(host, is_fallback, loss, rtt, min, avg, max), '|') == seq![
            "Host: "@ + left_aligned(host, 15) + " "@,
            " RTT: "@ + left_aligned(rtt, 10) + " "@,
            " Perda: "@ + left_aligned(fixed(loss.spec_tenths(), 1), 5) + "% "@,
            " Min: "@ + min + " "@,
            " Avg: "@ + avg + " "@,
            " Max: "@ + max + (if is_fallback {
                " [TCP-Fallback]"@
            } else {
                " [ICMP]"@
            }),
        ],
{
    ping_literals();
    let (h, r, p) = (
        left_aligned(host, 15),
        left_aligned(rtt, 10),
        left_aligned(loss.percent_text(), 5),
    );
    let mode = mode_suffix(is_fallback);
    aligned_without(host, 15, '|');
    aligned_without(rtt, 10, '|');
    number_without(loss.spec_tenths(), 1, '|');
    aligned_without(loss.percent_text(), 5, '|');
    let c0 = "Host: "@ + h + " "@;
    let c1 = " RTT: "@ + r + " "@;
    let c2 = " Perda: "@ + p + "% "@;
    let c3 = " Min: "@ + min + " "@;
    let c4 = " Avg: "@ + avg + " "@;
    let c5 = " Max: "@ + max + mode;
    let r4 = c4.push('|') + c5;
    let r3 = c3.push('|') + r4;
    let r2 = c2.push('|') + r3;
    let r1 = c1.push('|') + r2;
    column(" Max: "@, max, mode, c5);
    column(" Avg: "@, avg, " "@, c5);
    column(" Min: "@, min, " "@, r4);
    column(" Perda: "@, p, "% "@, r3);
    column(" RTT: "@, r, " "@, r2);
    column("Host: "@, h, " "@, r1);
    ping_line_is_columns(host, is_fallback, loss, rtt, min, avg, max);
    assert(fields(c0.push('|') + r1, '|') =~= seq![c0, c1, c2, c3, c4, c5]);
}

proof fn ping_line_is_columns(
    host: Seq<char>,
    is_fallback: bool,
    loss: LossRate,
    rtt: Seq<char>,
    min: Seq<char>,
    avg: Seq<char>,
    max: Seq<char>,
)
    ensures
        ({
            let c0 = "Host: "@ + left_aligned(host, 15) + " "@;
            let c1 = " RTT: "@ + left_aligned(rtt, 10) + " "@;
            let c2 = " Perda: "@ + left_aligned(loss.percent_text(), 5) + "% "@;
            let c3 = " Min: "@ + min + " "@;
            let c4 = " Avg: "@ + avg + " "@;
            let c5 = " Max: "@ + max + mode_suffix(is_fallback);
            ping_line_of(host, is_fallback, loss, rtt, min, avg, max) == c0.push('|') + (c1.push('|')
                + (c2.push('|') + (c3.push('|') + (c4.push('|') + c5))))
        }),
{
    bars_part_columns();
    let (h, r, p) = (
        left_aligned(host, 15),
        left_aligned(rtt, 10),
        left_aligned(loss.percent_text(), 5),
    );
    let mode = mode_suffix(is_fallback);
    let line = ping_line_of(host, is_fallback, loss, rtt, min, avg, max);
    let s0 = "Host: "@ + h;
    let s1 = s0 + " | RTT: "@ + r;
    let s2 = s1 + " | Perda: "@ + p;
    let s3 = s2 + "% | Min: "@ + min;
    let s4 = s3 + " | Avg: "@ + avg;
    assert(line == s4 + " | Max: "@ + max + mode);
    let c0 = s0 + " "@;
    let c1 = " RTT: "@ + r + " "@;
    let c2 = " Perda: "@ + p + "% "@;
    let c3 = " Min: "@ + min + " "@;
    let c4 = " Avg: "@ + avg + " "@;
    let c5 = " Max: "@ + max + mode;
    assert(s4 + " | Max: "@ + max + mode =~= (s4 + " "@).push('|') + c5);
    assert((s4 + " "@) =~= (s3 + " "@).push('|') + c4);
    assert((s3 + " "@) =~= (s2 + "% "@).push('|') + c3);
    assert((s2 + "% "@) =~= (s1 + " "@).push('|') + c2);
    assert((s1 + " "@) =~= c0.push('|') + c1);
    barred(s3 + " "@, c4, c5);
    barred(s2 + "% "@, c3, c4.push('|') + c5);
    barred(s1 + " "@, c2, c3.push('|') + (c4.push('|') + c5));
    barred(c0, c1, c2.push('|') + (c3.push('|') + (c4.push('|') + c5)));
}

proof fn barred(a: Seq<char>, b: Seq<char>, c: Seq<char>)
    ensures
        (a.push('|') + b).push('|') + c == a.push('|') + (b.push('|') + c),
{
    assert((a.push('|') + b).push('|') + c =~= a.push('|') + (b.push('|') + c));
}

proof fn bars_part_columns()
    ensures
        " | RTT: "@ == " "@.push('|') + " RTT: "@,
        " | Perda: "@ == " "@.push('|') + " Perda: "@,
        "% | Min: "@ == "% "@.push('|') + " Min: "@,
        " | Avg: "@ == " "@.push('|') + " Avg: "@,
        " | Max: "@ == " "@.push('|') + " Max: "@,
        " | Latência: "@ == " "@.push('|') + " Latência: "@,
        " | Registros: "@ == " "@.push('|') + " Registros: "@,
        " | Causa: "@ == " "@.push('|') + " Causa: "@,
{
    reveal_strlit(" | RTT: ");
    reveal_strlit(" | Perda: ");
    reveal_strlit("% | Min: ");
    reveal_strlit(" | Avg: ");
    reveal_strlit(" | Max: ");
    reveal_strlit(" | Latência: ");
    reveal_strlit(" | Registros: ");
    reveal_strlit(" | Causa: ");
    reveal_strlit(" ");
    reveal_strlit("% ");
    reveal_strlit(" RTT: ");
    reveal_strlit(" Perda: ");
    reveal_strlit(" Min: ");
    reveal_strlit(" Avg: ");
    reveal_strlit(" Max: ");
    reveal_strlit(" Latência: ");
    reveal_strlit(" Registros: ");
    reveal_strlit(" Causa: ");
    assert(" | RTT: "@ =~= " "@.push('|') + " RTT: "@);
    assert(" | Perda: "@ =~= " "@.push('|') + " Perda: "@);
    assert("% | Min: "@ =~= "% "@.push('|') + " Min: "@);
    assert(" | Avg: "@ =~= " "@.push('|') + " Avg: "@);
    assert(" | Max: "@ =~= " "@.push('|') + " Max: "@);
    assert(" | Latência: "@ =~= " "@.push('|') + " Latência: "@);
    assert(" | Registros: "@ =~= " "@.push('|') + " Registros: "@);
    assert(" | Causa: "@ =~= " "@.push('|') + " Causa: "@);
}

proof fn ping_literals()
    ensures
        !"Host: "@.contains('|'),
        !" RTT: "@.contains('|'),
        !" Perda: "@.contains('|'),
        !" Min: "@.contains('|'),
        !" Avg: "@.contains('|'),
        !" Max: "@.contains('|'),
        !" "@.contains('|'),
        !"% "@.contains('|'),
        !" [TCP-Fallback]"@.contains('|'),
        !" [ICMP]"@.contains('|'),
{
    reveal_strlit("Host: ");
    reveal_strlit(" RTT: ");
    reveal_strlit(" Perda: ");
    reveal_strlit(" Min: ");
    reveal_strlit(" Avg: ");
    reveal_strlit(" Max: ");
    reveal_strlit(" ");
    reveal_strlit("% ");
    reveal_strlit(" [TCP-Fallback]");
    reveal_strlit(" [ICMP]");
}

proof fn dns_literals()
    ensures
        !"[OK] Domínio: "@.contains('|'),
        !"[NXDOMAIN] Domínio inexistente: "@.contains('|'),
        !"[FALHA] Domínio: "@.contains('|'),
        !" Latência: "@.contains('|'),
        !" Registros: "@.contains('|'),
        !" Causa: "@.contains('|'),
        !" "@.contains('|'),
{
    reveal_strlit("[OK] Domínio: ");
    reveal_strlit("[NXDOMAIN] Domínio inexistente: ");
    reveal_strlit("[FALHA] Domínio: ");
    reveal_strlit(" Latência: ");
    reveal_strlit(" Registros: ");
    reveal_strlit(" Causa: ");
    reveal_strlit(" ");
}

/// The line of a DNS result has its columns between bars: the outcome with the domain,
/// the latency, and the records of a success or the cause of a failure. No text that
/// fills a column may hold a bar itself.
#[verifier::spinoff_prover]
pub proof fn dns_lines_have_their_columns(
    domain: Seq<char>,
    status: StatusView,
    latency: Seq<char>,
    records: Seq<char>,
)
    requires
        !domain.contains('|'),
        !latency.contains('|'),
        !records.contains('|'),
        status matches StatusView::Error { message, .. } ==> !message.contains('|'),
    ensures
        fields(dns_line_of(domain, status, latency, records), '|') == (match status {
            StatusView::Success { .. } => seq![
                "[OK] Domínio: "@ + domain + " "@,
                " Latência: "@ + latency + " "@,
                " Registros: "@ + records,
            ],
            StatusView::NotFound { .. } => seq![
                "[NXDOMAIN] Domínio inexistente: "@ + domain + " "@,
                " Latência: "@ + latency,
            ],
            StatusView::Error { message, .. } => seq![
                "[FALHA] Domínio: "@ + domain + " "@,
                " Latência: "@ + latency + " "@,
                " Causa: "@ + message,
            ],
        }),
{
    dns_literals();
    bars_part_columns();
    let none = Seq::<char>::empty();
    let line = dns_line_of(domain, status, latency, records);
    let middle = " Latência: "@ + latency + " "@;
    match status {
        StatusView::Success { .. } => {
            three_columns("[OK] Domínio: "@, domain, latency, " Registros: "@, records);
            assert(line == "[OK] Domínio: "@ + domain + " | Latência: "@ + latency
                + " | Registros: "@ + records);
        },
        StatusView::NotFound { .. } => {
            let front = "[NXDOMAIN] Domínio inexistente: "@;
            let (c0, c1) = (front + domain + " "@, " Latência: "@ + latency);
            column(front, domain, " "@, c1);
            column(" Latência: "@, latency, none, none);
            assert(c1 + none =~= c1);
            assert(line =~= c0.push('|') + c1);
            assert(fields(line, '|') =~= seq![c0, c1]);
        },
        StatusView::Error { message, .. } => {
            three_columns("[FALHA] Domínio: "@, domain, latency, " Causa: "@, message);
            assert(line == "[FALHA] Domínio: "@ + domain + " | Latência: "@ + latency
                + " | Causa: "@ + message);
        },
    }
}

#[verifier::spinoff_prover]
proof fn three_columns(
    front: Seq<char>,
    domain: Seq<char>,
    latency: Seq<char>,
    title: Seq<char>,
    text: Seq<char>,
)
    requires
        !front.contains('|'),
        !domain.contains('|'),
        !latency.contains('|'),
        !title.contains('|'),
        !text.contains('|'),
    ensures
        fields(
            front + domain + " | Latência: "@ + latency + (" "@.push('|') + title) + text,
            '|',
        ) == seq![front + domain + " "@, " Latência: "@ + latency + " "@, title + text],
{
    dns_literals();
    bars_part_columns();
    let none = Seq::<char>::empty();
    let (c0, c1, c2) = (front + domain + " "@, " Latência: "@ + latency + " "@, title + text);
    let r1 = c1.push('|') + c2;
    column(title, text, none, none);
    assert(c2 + none =~= c2);
    column(" Latência: "@, latency, " "@, c2);
    column(front, domain, " "@, r1);
    assert(front + domain + " | Latência: "@ + latency + (" "@.push('|') + title) + text
        =~= c0.push('|') + r1);
    assert(fields(c0.push('|') + r1, '|') =~= seq![c0, c1, c2]);
}

/// A sample shows its time with two decimal places, or else its error, or else that
/// the time was up. A statistic without a time shows zero.
pub proof fn times_are_shown(sample: SampleView, nanos: nat)
    ensures
        sample.rtt matches Some(n) ==> rtt_shown(sample) == debug_text(n, Some(2)),
        sample.rtt is None && sample.error is Some ==> rtt_shown(sample) == sample.error->0,
        sample.rtt is None && sample.error is None ==> rtt_shown(sample) == "TIMEOUT"@,
        time_shown(Some(nanos)) == debug_text(nanos, None),
        time_shown(None) == debug_text(0, None),
{
}

/// A DNS result shows its own latency and, if it is a success, its own records.
pub proof fn results_show_their_own(status: StatusView)
    ensures
        status matches StatusView::Success { records, latency } ==> latency_of(status) == latency
            && records_of(status) == records,
        status matches StatusView::NotFound { latency } ==> latency_of(status) == latency,
        status matches StatusView::Error { latency, .. } ==> latency_of(status) == latency,
{
}

/// `line` tells the packets and bytes of a class under its name.
#[verifier::opaque]
pub open spec fn tells_counters(line: Seq<char>, name: Seq<char>, packets: u64, bytes: u64) -> bool {
    exists|p: Seq<char>, b: Seq<char>|
        {
            &&& counts_to(p, packets as nat)
            &&& counts_to(b, bytes as nat)
            &&& line == #[trigger] (name + ": "@ + left_aligned(p, 8) + " pacotes | "@
                + left_aligned(b, 10) + " bytes"@)
        }
}

/// `line` tells the number of flows.
#[verifier::opaque]
pub open spec fn tells_flows(line: Seq<char>, flow_count: usize) -> bool {
    exists|n: Seq<char>|
        counts_to(n, flow_count as nat) && line == #[trigger] ("--- [Métricas] Fluxos ativos: "@ + n
            + " ---"@)
}

proof fn class_line_told(name: Seq<char>, packets: u64, bytes: u64) -> (line: Seq<char>)
    requires
        !name.contains('\n'),
    ensures
        tells_counters(line, name, packets, bytes),
        class_line(name, packets, bytes) == line.push('\n'),
        !line.contains('\n'),
{
    reveal_strlit(": ");
    reveal_strlit(" pacotes | ");
    reveal_strlit(" bytes");
    reveal_strlit(" bytes\n");
    let (p, b) = (decimal(packets as nat), decimal(bytes as nat));
    decimal_counts(packets as nat);
    decimal_counts(bytes as nat);
    let (x, y) = (left_aligned(p, 8), left_aligned(b, 10));
    aligned_without(p, 8, '\n');
    aligned_without(b, 10, '\n');
    let line = name + ": "@ + x + " pacotes | "@ + y + " bytes"@;
    assert(tells_counters(line, name, packets, bytes)) by {
        reveal(tells_counters);
    }
    assert(class_line(name, packets, bytes) =~= line.push('\n'));
    parts_without(name, ": "@, '\n');
    parts_without(name + ": "@, x, '\n');
    parts_without(name + ": "@ + x, " pacotes | "@, '\n');
    parts_without(name + ": "@ + x + " pacotes | "@, y, '\n');
    parts_without(name + ": "@ + x + " pacotes | "@ + y, " bytes"@, '\n');
    line
}

/// Five lines, each with its break, read back as those lines and nothing behind them.
proof fn five_lines(a: Seq<char>, b: Seq<char>, c: Seq<char>, d: Seq<char>, e: Seq<char>)
    requires
        !a.contains('\n'),
        !b.contains('\n'),
        !c.contains('\n'),
        !d.contains('\n'),
        !e.contains('\n'),
    ensures
        fields(
            a.push('\n') + b.push('\n') + c.push('\n') + d.push('\n') + e.push('\n'),
            '\n',
        ) == seq![a, b, c, d, e, Seq::<char>::empty()],
{
    let none = Seq::<char>::empty();
    fields_of_parts(none, none, '\n');
    let r4 = e.push('\n');
    let r3 = d.push('\n') + r4;
    let r2 = c.push('\n') + r3;
    let r1 = b.push('\n') + r2;
    let all = a.push('\n') + r1;
    fields_of_parts(e, none, '\n');
    fields_of_parts(d, r4, '\n');
    fields_of_parts(c, r3, '\n');
    fields_of_parts(b, r2, '\n');
    fields_of_parts(a, r1, '\n');
    assert(r4 + none =~= r4);
    assert(fields(all, '\n') =~= seq![a, b, c, d, e, none]);
    assert(a.push('\n') + b.push('\n') + c.push('\n') + d.push('\n') + e.push('\n') =~= all);
}

/// The report of a capture has five lines: the number of flows, and the packets and
/// bytes of TCP, of UDP, of ICMP and of the rest.
pub proof fn capture_reports_have_their_lines(p: ProtocolSnapshot, flow_count: usize)
    ensures
        ({
            let lines = fields(watch_lines(p, flow_count), '\n');
            &&& lines.len() == 6
            &&& tells_flows(lines[0], flow_count)
            &&& tells_counters(lines[1], "TCP "@, p.tcp_packets, p.tcp_bytes)
            &&& tells_counters(lines[2], "UDP "@, p.udp_packets, p.udp_bytes)
            &&& tells_counters(lines[3], "ICMP"@, p.icmp_packets, p.icmp_bytes)
            &&& tells_counters(lines[4], "OUTR"@, p.other_packets, p.other_bytes)
            &&& lines[5].len() == 0
        }),
{
    names_have_no_break();
    let a = title_told(flow_count);
    let b = class_line_told("TCP "@, p.tcp_packets, p.tcp_bytes);
    let c = class_line_told("UDP "@, p.udp_packets, p.udp_bytes);
    let d = class_line_told("ICMP"@, p.icmp_packets, p.icmp_bytes);
    let e = class_line_told("OUTR"@, p.other_packets, p.other_bytes);
    five_lines(a, b, c, d, e);
}

proof fn names_have_no_break()
    ensures
        !"TCP "@.contains('\n'),
        !"UDP "@.contains('\n'),
        !"ICMP"@.contains('\n'),
        !"OUTR"@.contains('\n'),
{
    reveal_strlit("TCP ");
    reveal_strlit("UDP ");
    reveal_strlit("ICMP");
    reveal_strlit("OUTR");
}

proof fn title_told(flow_count: usize) -> (line: Seq<char>)
    ensures
        tells_flows(line, flow_count),
        title_line(flow_count) == line.push('\n'),
        !line.contains('\n'),
{
    reveal_strlit("--- [Métricas] Fluxos ativos: ");
    reveal_strlit(" ---");
    reveal_strlit(" ---\n");
    let n = decimal(flow_count as nat);
    decimal_counts(flow_count as nat);
    let line = "--- [Métricas] Fluxos ativos: "@ + n + " ---"@;
    parts_without("--- [Métricas] Fluxos ativos: "@, n, '\n');
    parts_without("--- [Métricas] Fluxos ativos: "@ + n, " ---"@, '\n');
    assert(tells_flows(line, flow_count)) by {
        reveal(tells_flows);
    }
    assert(title_line(flow_count) =~= line.push('\n'));
    line
}

} // verus!
