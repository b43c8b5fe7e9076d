//! What the dashboard shows: texts and rows, ready to be drawn.

use crate::cli::RecordTypeCli;
use crate::clock::{debug_of, debug_text, duration_nanos};
use crate::dns::{DnsQueryResult, DnsStatus, StatusView};
use crate::double::{doubles_are_close, to_whole, whole};
use crate::export::{fixed_is_a_number, json_number, JsonValue};
use crate::flows::{FiveTuple, FlowStat, IpAddr, Protocol};
use crate::ping::{loss_between, LossRate};
use crate::ranking::{by_volume, first_of, ranking_is_a_descending_rearrangement, top_flows};
use crate::text::{
    all_digits, decimal, decimal_reads_back, decimals_go_digit_by_digit, digits_value, fields,
    fields_of_parts, fixed, fixed_reads_back, push_decimal, push_fixed, round_half_even, rounded,
    rounding_is_nearest,
};
use crate::tui::app::{AppState, PingHistory, TrackerView};
use crate::watch::ProtocolSnapshot;
use vstd::arithmetic::power2::{lemma2_to64_rest, pow2};
use vstd::prelude::*;

verus! {

/// The line at the bottom.
pub const FOOTER: &'static str =
    " Pressione 'q' ou 'Ctrl+C' para sair | Métricas coletadas em tempo real ";

/// Title of the panel of round trips.
pub const PING_TITLE: &'static str = " Latência ICMP/TCP (Sparkline ms) ";

/// Title of the panel of DNS results.
pub const DNS_TITLE: &'static str = " Monitor DNS ";

/// Title of the panel of protocol counters.
pub const PROTOCOLS_TITLE: &'static str = " Protocolos Agregados ";

/// Title of the panel of flows.
pub const FLOWS_TITLE: &'static str = " Fluxos Ativos (5-Tuple) ";

/// DNS results shown at once.
pub const DNS_ROWS: usize = 10;

/// Flows shown at once.
pub const FLOW_ROWS: usize = 15;

/// The colour of a DNS status.
#[derive(Debug, Clone, Copy, PartialEq, Eq, Structural)]
pub enum Tone {
    Green,
    Yellow,
    Red,
}

/// One host: its label and the bars of its sparkline.
pub struct PingRow {
    pub label: String,
    pub bars: Vec<u64>,
}

/// One DNS result.
pub struct DnsRow {
    pub domain: String,
    pub record_type: &'static str,
    pub status: String,
    pub tone: Tone,
}

/// One end of a flow.
#[derive(Debug)]
pub enum Endpoint {
    /// An IPv4 end, as `address:port`.
    V4(String),
    /// An IPv6 end, left as its address and port.
    V6(u128, u16),
}

/// One flow.
pub struct FlowRow {
    pub protocol: &'static str,
    pub src: Endpoint,
    pub dst: Endpoint,
    pub packets: String,
    pub volume: String,
}

/// The whole dashboard.
pub struct Screen {
    pub header: String,
    pub pings: Vec<PingRow>,
    pub dns: Vec<DnsRow>,
    pub protocols: String,
    pub flows: Vec<FlowRow>,
}

/// The line at the top.
pub open spec fn header_line(interface_name: Seq<char>) -> Seq<char> {
    " NETMON :: Monitor de Rede Assíncrono | Interface: ["@ + interface_name + "] | Tick: 250ms "@
}

/// The line at the top.
pub fn header_text(interface_name: &str) -> (text: String)
    ensures
        text@ == header_line(interface_name@),
{
    let mut text = " NETMON :: Monitor de Rede Assíncrono | Interface: [".to_owned();
    text.append(interface_name);
    text.append("] | Tick: 250ms ");
    text
}

/// The label of a host: its latest round trip and its loss.
pub open spec fn host_label(tracker: TrackerView) -> Seq<char> {
    tracker.host + " => Atual: "@ + (match tracker.last_rtt {
        Some(ms) => decimal(ms as nat) + " ms"@,
        None => "TIMEOUT"@,
    }) + " | Perda: "@ + loss_between(tracker.transmitted, tracker.received).percent_text() + "%"@
}

/// The counts of a host make sense: no more answers than samples.
pub open spec fn countable(tracker: TrackerView) -> bool {
    tracker.transmitted == 0 || tracker.received <= tracker.transmitted
}

/// The label of a host.
pub fn ping_label(tracker: &PingHistory) -> (label: String)
    requires
        countable(tracker@),
    ensures
        label@ == host_label(tracker@),
{
    let mut label = tracker.host.clone();
    label.append(" => Atual: ");
    let ghost start = label@;
    match tracker.last_rtt {
        Some(ms) => {
            push_decimal(&mut label, ms as u128);
            label.append(" ms");
            assert(label@ =~= start + (decimal(ms as nat) + " ms"@));
        },
        None => {
            label.append("TIMEOUT");
        },
    }
    label.append(" | Perda: ");
    let loss = if tracker.transmitted == 0 {
        LossRate { lost: 0, transmitted: 0 }
    } else {
        LossRate {
            lost: tracker.transmitted - tracker.received,
            transmitted: tracker.transmitted,
        }
    };
    loss.push_percent(&mut label);
    label.append("%");
    label
}

/// The row of a host.
pub open spec fn is_ping_row(row: PingRow, tracker: TrackerView) -> bool {
    row.label@ == host_label(tracker) && row.bars@ == tracker.history
}

fn ping_row(tracker: &PingHistory) -> (row: PingRow)
    requires
        countable(tracker@),
    ensures
        is_ping_row(row, tracker@),
{
    let mut bars: Vec<u64> = Vec::new();
    let mut i: usize = 0;
    while i < tracker.history.len()
        invariant
            i <= tracker.history@.len(),
            bars@ == tracker.history@.take(i as int),
        decreases tracker.history.len() - i,
    {
        bars.push(tracker.history[i]);
        assert(tracker.history@.take(i + 1) =~= tracker.history@.take(i as int).push(
            tracker.history@[i as int],
        ));
        i = i + 1;
    }
    assert(tracker.history@.take(i as int) =~= tracker.history@);
    PingRow { label: ping_label(tracker), bars }
}

/// The word, latency and colour of a status.
pub open spec fn status_parts(status: StatusView) -> (Seq<char>, nat, Tone) {
    match status {
        StatusView::Success { latency, .. } => ("OK ("@, latency, Tone::Green),
        StatusView::NotFound { latency } => ("NXDOMAIN ("@, latency, Tone::Yellow),
        StatusView::Error { latency, .. } => ("ERRO ("@, latency, Tone::Red),
    }
}

/// The text of a status whose latency reads `latency`.
pub fn status_label(status: &DnsStatus, latency: &str) -> (r: (String, Tone))
    ensures
        r.0@ == status_parts(status@).0 + latency@ + ")"@,
        r.1 == status_parts(status@).2,
{
    let (word, tone) = match status {
        DnsStatus::Success { .. } => ("OK (", Tone::Green),
        DnsStatus::NotFound { .. } => ("NXDOMAIN (", Tone::Yellow),
        DnsStatus::Error { .. } => ("ERRO (", Tone::Red),
    };
    let mut text = word.to_owned();
    text.append(latency);
    text.append(")");
    (text, tone)
}

/// The row of a DNS result.
pub open spec fn is_dns_row(row: DnsRow, result: DnsQueryResult) -> bool {
    &&& row.domain@ == result.domain@
    &&& row.record_type@ == result.record_type.label_text()
    &&& row.status@ == status_parts(result.status@).0 + debug_text(
        status_parts(result.status@).1,
        Some(1),
    )
        + ")"@
    &&& row.tone == status_parts(result.status@).2
}

fn dns_row(result: &DnsQueryResult) -> (row: DnsRow)
    ensures
        is_dns_row(row, *result),
{
    let latency = match &result.status {
        DnsStatus::Success { latency, .. } => debug_of(latency, 1),
        DnsStatus::NotFound { latency } => debug_of(latency, 1),
        DnsStatus::Error { latency, .. } => debug_of(latency, 1),
    };
    let (status, tone) = status_label(&result.status, latency.as_str());
    DnsRow { domain: result.domain.clone(), record_type: result.record_type.label(), status, tone }
}

/// Appends a counter in decimal.
fn push_count(out: &mut String, n: u64)
    ensures
        final(out)@ == old(out)@ + count_text(n),
{
    push_decimal(out, n as u128);
}

/// A counter in decimal.
pub open spec fn count_text(n: u64) -> Seq<char> {
    decimal(n as nat)
}

/// Packets and kilobytes of a protocol class.
pub open spec fn class_summary(packets: u64, bytes: u64) -> Seq<char> {
    count_text(packets) + " pkts ("@ + count_text(bytes / 1024) + " KB)"@
}

fn push_class(out: &mut String, packets: u64, bytes: u64)
    ensures
        final(out)@ == old(out)@ + class_summary(packets, bytes),
{
    let ghost start = out@;
    push_count(out, packets);
    out.append(" pkts (");
    push_count(out, bytes / 1024);
    out.append(" KB)");
    assert(out@ =~= start + class_summary(packets, bytes));
}

/// The line of protocol counters.
pub open spec fn protocols_line(p: ProtocolSnapshot) -> Seq<char> {
    "TCP: "@ + class_summary(p.packets(Protocol::Tcp), p.bytes(Protocol::Tcp)) + " | UDP: "@
        + class_summary(p.packets(Protocol::Udp), p.bytes(Protocol::Udp)) + " | ICMP: "@
        + class_summary(p.packets(Protocol::Icmp), p.bytes(Protocol::Icmp))
}

/// The line of protocol counters.
pub fn protocol_summary(p: &ProtocolSnapshot) -> (line: String)
    ensures
        line@ == protocols_line(*p),
{
    let mut line = "TCP: ".to_owned();
    push_class(&mut line, p.tcp_packets, p.tcp_bytes);
    line.append(" | UDP: ");
    push_class(&mut line, p.udp_packets, p.udp_bytes);
    line.append(" | ICMP: ");
    push_class(&mut line, p.icmp_packets, p.icmp_bytes);
    line
}

/// A number of bytes in kilobytes, computed in double precision, with two decimal
/// places.
pub open spec fn volume_line(bytes: u64) -> Seq<char> {
    fixed(round_half_even(whole(bytes as nat) * 100, 1024), 2) + " KB"@
}

/// A number of bytes in kilobytes, with two decimal places.
pub fn volume_text(bytes: u64) -> (text: String)
    ensures
        text@ == volume_line(bytes),
{
    let mut text = String::new();
    push_fixed(&mut text, rounded(to_whole(bytes as u128) * 100, 1024), 2);
    text.append(" KB");
    assert(text@ =~= volume_line(bytes));
    text
}

/// An IPv4 address in dotted decimals.
pub open spec fn dotted(ip: u32) -> Seq<char> {
    decimal((ip / 0x100_0000) as nat) + "."@ + decimal((ip / 0x1_0000 % 256) as nat) + "."@
        + decimal((ip / 256 % 256) as nat) + "."@ + decimal((ip % 256) as nat)
}

/// An IPv4 end of a flow, as `address:port`.
pub open spec fn endpoint_line(ip: u32, port: u16) -> Seq<char> {
    dotted(ip) + ":"@ + decimal(port as nat)
}

/// An IPv4 end of a flow, as `address:port`.
pub fn endpoint_text(ip: u32, port: u16) -> (text: String)
    ensures
        text@ == endpoint_line(ip, port),
{
    let mut text = String::new();
    push_decimal(&mut text, (ip / 0x100_0000) as u128);
    text.append(".");
    push_decimal(&mut text, (ip / 0x1_0000 % 256) as u128);
    text.append(".");
    push_decimal(&mut text, (ip / 256 % 256) as u128);
    text.append(".");
    push_decimal(&mut text, (ip % 256) as u128);
    text.append(":");
    push_decimal(&mut text, port as u128);
    assert(text@ =~= endpoint_line(ip, port));
    text
}

/// `end` is the end of a flow at that address and port.
pub open spec fn is_endpoint(end: Endpoint, ip: IpAddr, port: u16) -> bool {
    match ip {
        IpAddr::V4(a) => end matches Endpoint::V4(text) && text@ == endpoint_line(a, port),
        IpAddr::V6(a) => end == Endpoint::V6(a, port),
    }
}

fn endpoint(ip: IpAddr, port: u16) -> (end: Endpoint)
    ensures
        is_endpoint(end, ip, port),
{
    match ip {
        IpAddr::V4(a) => Endpoint::V4(endpoint_text(a, port)),
        IpAddr::V6(a) => Endpoint::V6(a, port),
    }
}

/// The row of a flow.
pub open spec fn is_flow_row(row: FlowRow, flow: (FiveTuple, FlowStat)) -> bool {
    &&& row.protocol@ == flow.0.protocol.name()
    &&& is_endpoint(row.src, flow.0.src_ip, flow.0.src_port)
    &&& is_endpoint(row.dst, flow.0.dst_ip, flow.0.dst_port)
    &&& row.packets@ == count_text(flow.1.packet_count)
    &&& row.volume@ == volume_line(flow.1.byte_count)
}

fn flow_row(flow: &(FiveTuple, FlowStat)) -> (row: FlowRow)
    ensures
        is_flow_row(row, *flow),
{
    let mut packets = String::new();
    push_count(&mut packets, flow.1.packet_count);
    assert(packets@ =~= count_text(flow.1.packet_count));
    FlowRow {
        protocol: flow.0.protocol.as_str(),
        src: endpoint(flow.0.src_ip, flow.0.src_port),
        dst: endpoint(flow.0.dst_ip, flow.0.dst_port),
        packets,
        volume: volume_text(flow.1.byte_count),
    }
}

/// The number of DNS results shown out of `n`.
pub open spec fn dns_rows_of(n: nat) -> nat {
    if n < DNS_ROWS {
        n
    } else {
        DNS_ROWS as nat
    }
}

/// The line of the traffic panel: the counters, or else why nothing is being
/// captured.
pub open spec fn traffic_line(state: AppState) -> Seq<char> {
    match state.capture_warning {
        Some(reason) => reason@,
        None => protocols_line(state.watcher_metrics.global_protocols.as_snapshot()),
    }
}

/// `screen` shows `state`: every host in its order, the latest DNS results with the
/// newest first, the line of the traffic panel, and the busiest flows.
pub open spec fn shows(screen: Screen, state: AppState) -> bool {
    let busiest = first_of(by_volume(state.watcher_metrics.flows.rows()), FLOW_ROWS as nat);
    &&& screen.header@ == header_line(state.interface_name@)
    &&& screen.pings@.len() == state.ping_trackers@.len()
    &&& forall|i: int|
        0 <= i < screen.pings@.len() ==> is_ping_row(
            #[trigger] screen.pings@[i],
            state.ping_trackers@[i]@,
        )
    &&& screen.dns@.len() == dns_rows_of(state.dns_results@.len())
    &&& forall|i: int|
        0 <= i < screen.dns@.len() ==> is_dns_row(
            #[trigger] screen.dns@[i],
            state.dns_results@[state.dns_results@.len() - 1 - i],
        )
    &&& screen.protocols@ == traffic_line(state)
    &&& screen.flows@.len() == busiest.len()
    &&& forall|i: int|
        0 <= i < screen.flows@.len() ==> is_flow_row(#[trigger] screen.flows@[i], busiest[i])
}

/// What the dashboard shows for `state`.
pub fn screen_of(state: &AppState) -> (screen: Screen)
    requires
        forall|i: int|
            0 <= i < state.ping_trackers@.len() ==> countable((#[trigger] state.ping_trackers@[i])@),
    ensures
        shows(screen, *state),
{
    let mut pings: Vec<PingRow> = Vec::new();
    let mut i: usize = 0;
    while i < state.ping_trackers.len()
        invariant
            i <= state.ping_trackers@.len(),
            pings@.len() == i,
            forall|j: int|
                0 <= j < state.ping_trackers@.len() ==> countable(
                    (#[trigger] state.ping_trackers@[j])@,
                ),
            forall|j: int|
                0 <= j < i ==> is_ping_row(#[trigger] pings@[j], state.ping_trackers@[j]@),
        decreases state.ping_trackers.len() - i,
    {
        pings.push(ping_row(&state.ping_trackers[i]));
        i = i + 1;
    }
    let mut dns: Vec<DnsRow> = Vec::new();
    let total: usize = state.dns_results.len();
    while dns.len() < total && dns.len() < DNS_ROWS
        invariant
            total == state.dns_results@.len(),
            dns@.len() <= dns_rows_of(total as nat),
            forall|j: int|
                0 <= j < dns@.len() ==> is_dns_row(
                    #[trigger] dns@[j],
                    state.dns_results@[total - 1 - j],
                ),
        decreases total - dns.len(),
    {
        let row = dns_row(&state.dns_results[total - 1 - dns.len()]);
        dns.push(row);
    }
    let protocols = match &state.capture_warning {
        Some(reason) => reason.clone(),
        None => protocol_summary(&state.watcher_metrics.global_protocols.snapshot()),
    };
    let top = top_flows(&state.watcher_metrics.flows, FLOW_ROWS);
    let mut flows: Vec<FlowRow> = Vec::new();
    let mut k: usize = 0;
    while k < top.len()
        invariant
            k <= top@.len(),
            flows@.len() == k,
            forall|j: int| 0 <= j < k ==> is_flow_row(#[trigger] flows@[j], top@[j]),
        decreases top.len() - k,
    {
        flows.push(flow_row(&top[k]));
        k = k + 1;
    }
    Screen {
        header: header_text(state.interface_name.as_str()),
        pings,
        dns,
        protocols,
        flows,
    }
}

/// `text` is a number in decimal digits, of this value.
pub open spec fn counts_to(text: Seq<char>, value: nat) -> bool {
    &&& text.len() > 0
    &&& all_digits(text)
    &&& digits_value(text) == value
}

/// `text` is an IPv4 address and a port: four numbers between points, each of them a
/// byte of the address from the highest on, and the port behind a colon.
pub open spec fn names_endpoint(text: Seq<char>, ip: u32, port: u16) -> bool {
    let ends = fields(text, ':');
    let bytes = fields(ends[0], '.');
    &&& ends.len() == 2
    &&& bytes.len() == 4
    &&& counts_to(bytes[0], (ip / 0x100_0000) as nat)
    &&& counts_to(bytes[1], (ip / 0x1_0000 % 0x100) as nat)
    &&& counts_to(bytes[2], (ip / 0x100 % 0x100) as nat)
    &&& counts_to(bytes[3], (ip % 0x100) as nat)
    &&& counts_to(ends[1], port as nat)
}

/// The decimal text of a number counts to it, and holds digits alone.
pub proof fn decimal_counts(n: nat)
    ensures
        counts_to(decimal(n), n),
        forall|c: char| !('0' <= c <= '9') ==> !(#[trigger] decimal(n).contains(c)),
{
    decimal_reads_back(n);
    decimals_go_digit_by_digit(n);
}

/// The text of an IPv4 end names its address and its port.
pub proof fn endpoints_are_named(ip: u32, port: u16)
    ensures
        names_endpoint(endpoint_line(ip, port), ip, port),
{
    reveal_strlit(".");
    reveal_strlit(":");
    let none = Seq::<char>::empty();
    let (a, b) = (decimal((ip / 0x100_0000) as nat), decimal((ip / 0x1_0000 % 256) as nat));
    let (c, d) = (decimal((ip / 256 % 256) as nat), decimal((ip % 256) as nat));
    let p = decimal(port as nat);
    decimal_counts((ip / 0x100_0000) as nat);
    decimal_counts((ip / 0x1_0000 % 256) as nat);
    decimal_counts((ip / 256 % 256) as nat);
    decimal_counts((ip % 256) as nat);
    decimal_counts(port as nat);
    let (r3, quad) = (c.push('.') + d, dotted(ip));
    let r2 = b.push('.') + r3;
    fields_of_parts(d, none, '.');
    fields_of_parts(c, d, '.');
    fields_of_parts(b, r3, '.');
    fields_of_parts(a, r2, '.');
    assert(quad =~= a.push('.') + r2);
    assert(fields(quad, '.') =~= seq![a, b, c, d]);
    assert(!quad.contains(':')) by {
        if quad.contains(':') {
            let i = choose|i: int| 0 <= i < quad.len() && quad[i] == ':';
            assert(a.contains(':') || b.contains(':') || c.contains(':') || d.contains(':')) by {
                let (j, k) = (a.len() as int, a.len() + 1 + b.len());
                if i < j {
                    assert(a[i] == ':');
                } else if j < i < k {
                    assert(b[i - j - 1] == ':');
                } else if k < i < k + 1 + c.len() {
                    assert(c[i - k - 1] == ':');
                } else if i > k + 1 + c.len() {
                    assert(d[i - k - c.len() - 2] == ':');
                }
            }
        }
    }
    fields_of_parts(p, none, ':');
    fields_of_parts(quad, p, ':');
    assert(endpoint_line(ip, port) =~= quad.push(':') + p);
    assert(fields(endpoint_line(ip, port), ':') =~= seq![quad, p]);
}

/// A volume is a number of kilobytes with two decimal places, and the nearest one to
/// the number of bytes as far as double precision goes: off by at most half a
/// hundredth and one part in 2^46.
pub proof fn volumes_are_near(bytes: u64)
    ensures
        ({
            let text = volume_line(bytes);
            let end = text.len() - 3;
            &&& end > 0
            &&& text.skip(end) == " KB"@
            &&& json_number(text.take(end)) matches Some((JsonValue::Number(units, places), rest))
            &&& places == 2
            &&& rest.len() == 0
            &&& (units * 1024 - bytes * 100) * 0x4000_0000_0000 <= 512 * 0x4000_0000_0000 + bytes
            &&& (bytes * 100 - units * 1024) * 0x4000_0000_0000 <= 512 * 0x4000_0000_0000 + bytes
        }),
{
    reveal_strlit(" KB");
    let text = volume_line(bytes);
    let end = text.len() - 3;
    let w = whole(bytes as nat);
    let units = round_half_even(w * 100, 1024);
    let number = fixed(units, 2);
    assert(text.skip(end) =~= " KB"@);
    assert(text.take(end) =~= number);
    fixed_is_a_number(units, 2, Seq::empty());
    assert(number + Seq::<char>::empty() =~= number);
    fixed_reads_back(units, 2);
    rounding_is_nearest(w * 100, 1024);
    doubles_are_close(bytes as nat);
    assert(pow2(53) == 0x20_0000_0000_0000) by {
        lemma2_to64_rest();
    }
}

/// What the row of a flow tells: its class, its two ends, the number of its packets and
/// its volume. The rows are those of the flows with the most bytes, the busiest first,
/// and at most fifteen of them.
pub proof fn flow_rows_show_their_flow(screen: Screen, state: AppState, i: int)
    requires
        shows(screen, state),
        0 <= i < screen.flows@.len(),
    ensures
        ({
            let rows = state.watcher_metrics.flows.rows();
            let (key, stat) = by_volume(rows)[i];
            let row = screen.flows@[i];
            &&& screen.flows@.len() == (if rows.len() < 15 {
                rows.len()
            } else {
                15
            })
            &&& i < rows.len()
            &&& row.protocol@ == key.protocol.name()
            &&& match key.src_ip {
                IpAddr::V4(ip) => row.src is V4 && names_endpoint(row.src->V4_0@, ip, key.src_port),
                IpAddr::V6(ip) => row.src == Endpoint::V6(ip, key.src_port),
            }
            &&& match key.dst_ip {
                IpAddr::V4(ip) => row.dst is V4 && names_endpoint(row.dst->V4_0@, ip, key.dst_port),
                IpAddr::V6(ip) => row.dst == Endpoint::V6(ip, key.dst_port),
            }
            &&& counts_to(row.packets@, stat.packet_count as nat)
            &&& row.volume@ == volume_line(stat.byte_count)
        }),
{
    let rows = state.watcher_metrics.flows.rows();
    ranking_is_a_descending_rearrangement(rows);
    let (key, stat) = by_volume(rows)[i];
    assert(first_of(by_volume(rows), FLOW_ROWS as nat)[i] == (key, stat));
    assert(is_flow_row(screen.flows@[i], (key, stat)));
    decimal_counts(stat.packet_count as nat);
    if let IpAddr::V4(ip) = key.src_ip {
        endpoints_are_named(ip, key.src_port);
    }
    if let IpAddr::V4(ip) = key.dst_ip {
        endpoints_are_named(ip, key.dst_port);
    }
}

/// `label` is the name of a host, then `time`, then `loss` in percent.
pub open spec fn label_reads(label: Seq<char>, host: Seq<char>, time: Seq<char>, loss: Seq<char>) -> bool {
    label == host + " => Atual: "@ + time + " | Perda: "@ + loss + "%"@
}

/// `time` is a number of milliseconds.
pub open spec fn tells_millis(time: Seq<char>, ms: u64) -> bool {
    &&& time.len() > 3
    &&& time.skip(time.len() - 3) == " ms"@
    &&& counts_to(time.take(time.len() - 3), ms as nat)
}

/// The row of a host shows its name, its latest round trip in milliseconds or that the
/// latest sample was lost, its loss in percent to one decimal place, and its whole
/// history in order. There is one row for each host, in their order.
pub proof fn host_rows_show_their_host(screen: Screen, state: AppState, i: int)
    requires
        shows(screen, state),
        0 <= i < screen.pings@.len(),
    ensures
        ({
            let (row, tracker) = (screen.pings@[i], state.ping_trackers@[i]);
            &&& screen.pings@.len() == state.ping_trackers@.len()
            &&& row.bars@ == tracker.history@
            &&& exists|time: Seq<char>, loss: Seq<char>|
                {
                    &&& #[trigger] label_reads(row.label@, tracker.host@, time, loss)
                    &&& match tracker.last_rtt {
                        Some(ms) => tells_millis(time, ms),
                        None => time == "TIMEOUT"@,
                    }
                    &&& json_number(loss) == Some(
                        (
                            JsonValue::Number(
                                loss_between(
                                    tracker.transmitted,
                                    tracker.received,
                                ).spec_tenths() as int,
                                1,
                            ),
                            Seq::<char>::empty(),
                        ),
                    )
                }
        }),
{
    reveal_strlit(" ms");
    let (row, tracker) = (screen.pings@[i], state.ping_trackers@[i]);
    assert(is_ping_row(row, tracker@));
    let tenths = loss_between(tracker.transmitted, tracker.received).spec_tenths();
    let loss = fixed(tenths, 1);
    fixed_is_a_number(tenths, 1, Seq::empty());
    assert(loss + Seq::<char>::empty() =~= loss);
    let time = match tracker.last_rtt {
        Some(ms) => decimal(ms as nat) + " ms"@,
        None => "TIMEOUT"@,
    };
    if let Some(ms) = tracker.last_rtt {
        decimal_counts(ms as nat);
        assert(time.skip(time.len() - 3) =~= " ms"@);
        assert(time.take(time.len() - 3) =~= decimal(ms as nat));
    }
    assert(label_reads(row.label@, tracker.host@, time, loss));
}

/// The rows of DNS results are the latest ten at most, the newest first. Each shows its
/// domain, the record type asked for, and the status with its colour and its latency.
pub proof fn dns_rows_show_their_result(screen: Screen, state: AppState, i: int)
    requires
        shows(screen, state),
        0 <= i < screen.dns@.len(),
    ensures
        ({
            let results = state.dns_results@;
            let (row, result) = (screen.dns@[i], results[results.len() - 1 - i]);
            &&& screen.dns@.len() == (if results.len() < 10 {
                results.len()
            } else {
                10
            })
            &&& row.domain@ == result.domain@
            &&& row.record_type@ == (match result.record_type {
                RecordTypeCli::A => "A"@,
                RecordTypeCli::Aaaa => "Aaaa"@,
                RecordTypeCli::Cname => "Cname"@,
                RecordTypeCli::Mx => "Mx"@,
                RecordTypeCli::Txt => "Txt"@,
            })
            &&& match result.status {
                DnsStatus::Success { latency, .. } => row.tone == Tone::Green && row.status@
                    == "OK ("@ + debug_text(duration_nanos(latency), Some(1)) + ")"@,
                DnsStatus::NotFound { latency } => row.tone == Tone::Yellow && row.status@
                    == "NXDOMAIN ("@ + debug_text(duration_nanos(latency), Some(1)) + ")"@,
                DnsStatus::Error { latency, .. } => row.tone == Tone::Red && row.status@ == "ERRO ("@
                    + debug_text(duration_nanos(latency), Some(1)) + ")"@,
            }
        }),
{
    let results = state.dns_results@;
    assert(is_dns_row(screen.dns@[i], results[results.len() - 1 - i]));
}

/// `text` tells the packets and the whole kilobytes of a class.
pub open spec fn tells_class(text: Seq<char>, packets: u64, bytes: u64) -> bool {
    exists|p: Seq<char>, k: Seq<char>|
        counts_to(p, packets as nat) && counts_to(k, (bytes / 1024) as nat) && text
            == #[trigger] (p + " pkts ("@ + k + " KB)"@)
}

/// The header names the interface, and the traffic panel tells the packets and the
/// whole kilobytes of TCP, UDP and ICMP, in this order, or else why nothing is being
/// captured.
pub proof fn the_frame_shows_interface_and_counters(screen: Screen, state: AppState)
    requires
        shows(screen, state),
    ensures
        screen.header@ == " NETMON :: Monitor de Rede Assíncrono | Interface: ["@
            + state.interface_name@ + "] | Tick: 250ms "@,
        state.capture_warning matches Some(reason) ==> screen.protocols@ == reason@,
        state.capture_warning is None ==> {
            let c = state.watcher_metrics.global_protocols;
            exists|tcp: Seq<char>, udp: Seq<char>, icmp: Seq<char>|
                {
                    &&& tells_class(tcp, c.tcp_packets, c.tcp_bytes)
                    &&& tells_class(udp, c.udp_packets, c.udp_bytes)
                    &&& tells_class(icmp, c.icmp_packets, c.icmp_bytes)
                    &&& screen.protocols@ == #[trigger] ("TCP: "@ + tcp + " | UDP: "@ + udp
                        + " | ICMP: "@ + icmp)
                }
        },
{
    if state.capture_warning is None {
        let c = state.watcher_metrics.global_protocols;
        class_is_told(c.tcp_packets, c.tcp_bytes);
        class_is_told(c.udp_packets, c.udp_bytes);
        class_is_told(c.icmp_packets, c.icmp_bytes);
        let (tcp, udp, icmp) = (
            class_summary(c.tcp_packets, c.tcp_bytes),
            class_summary(c.udp_packets, c.udp_bytes),
            class_summary(c.icmp_packets, c.icmp_bytes),
        );
        assert(screen.protocols@ == "TCP: "@ + tcp + " | UDP: "@ + udp + " | ICMP: "@ + icmp);
    }
}

proof fn class_is_told(packets: u64, bytes: u64)
    ensures
        tells_class(class_summary(packets, bytes), packets, bytes),
{
    decimal_counts(packets as nat);
    decimal_counts((bytes / 1024) as nat);
    let (p, k) = (decimal(packets as nat), decimal((bytes / 1024) as nat));
    assert(class_summary(packets, bytes) == p + " pkts ("@ + k + " KB)"@);
}

} // verus!
