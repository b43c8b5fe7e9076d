# Pingenty

A network monitor: latency over ICMP with a TCP fallback, DNS queries with their
round-trip time, passive capture with counters per protocol and per flow, and a
dashboard that shows all of it.

`src/` is the library. It is written in Verus: every function states what it returns
or changes, and the statements are proved. They rest on the contracts of a few
trusted items, which are believed and not proved, each with a comment on what it
claims:

- `clock`: `Duration::as_nanos`, `Duration::new`, the debug text of a duration,
  `SystemTime::now` and `SystemTime::duration_since`;
- `text`: `String::push` and `char::is_whitespace`;
- `report`: the debug text of a list of strings;
- `dns`: the kind and the text of hickory's error of a lookup;
- `packet`: the fields and payloads of pnet's Ethernet, IPv4, IPv6, TCP and UDP
  packets.

That the integers in `double` compute what the machine's doubles do is tested, not
proved.

| Module    | What it holds                                                        |
|-----------|----------------------------------------------------------------------|
| `account` | what a whole capture adds up to                                      |
| `cli`     | commands, options and their limits                                   |
| `clock`   | durations, their texts, and the wall clock                           |
| `dns`     | classification of lookups, the rounds of queries                     |
| `double`  | double-precision arithmetic on integers                              |
| `echo`    | Internet checksum, ICMP echo requests and replies                    |
| `export`  | CSV and NDJSON lines of the live export                              |
| `flows`   | the table of flows and its eviction                                  |
| `packet`  | from a captured frame to its flow                                    |
| `ping`    | samples, statistics, and the steps of a ping                         |
| `ranking` | the busiest flows                                                    |
| `report`  | the lines that the commands print                                    |
| `text`    | decimal numbers and comma-separated lists                            |
| `tui`     | the state of the dashboard and what it shows                         |
| `watch`   | protocol counters, the traffic of interfaces, choice of an interface |

`app/` is the program `netmon` around it: arguments, sockets, threads, files and the
terminal.

```bash
netmon dashboard --ping-hosts "1.1.1.1,8.8.8.8" --dns-domains "github.com,cloudflare.com"
netmon ping 1.1.1.1 8.8.8.8 --interval 1000
netmon dns cloudflare.com archlinux.org --record-type a
netmon watch --interface eth0,wlan0 --interval 1000
```

Ping over ICMP is for IPv4 only; hosts with an IPv6 address are reached over TCP.
Capturing needs `CAP_NET_RAW`.
