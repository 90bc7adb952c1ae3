//! The JSON payload, the HTTP request that carries it and the log lines,
//! each written in place into a caller's buffer.

use vstd::prelude::*;
use crate::decimal::{
    decimal, signed_decimal, overwrite, write_bytes, write_u32, write_i32,
    lemma_overwrite_extend, lemma_u32_decimal_len, lemma_i32_decimal_len,
    lemma_decimal_len_bound, pow10, occurs_in, lemma_occurs_in_concat,
    starts_with, ends_with, lemma_starts_ends_concat,
};
use crate::metrics::{Metrics, text, status_name, status_of, derive_status, lemma_ascii_text, lemma_status_names, lemma_text_is_bytes};

verus! {

/// Name of the device, reported in every payload.
pub const DEVICE_NAME: &'static str = "heltec_v3";
/// Name of the operating system, reported in every payload.
pub const OS_NAME: &'static str = "zephyr";
/// Address of the collecting server.
pub const SERVER_IP: &'static str = "10.42.0.1";
/// TCP port of the collecting server.
pub const SERVER_PORT: u32 = 8080;

/// Size of the buffer that holds the JSON payload.
pub const JSON_BUF_LEN: usize = 384;
/// Size of the buffer that holds the HTTP request.
pub const TX_BUF_LEN: usize = 512;
/// Size of the buffer that receives the server's answer.
pub const RX_BUF_LEN: usize = 256;
/// Size of the buffer that holds one log line.
pub const LOG_BUF_LEN: usize = 128;
/// Longest prefix of a log line that is kept.
pub const LOG_PREFIX_MAX: usize = 110;

/// A JSON member `key` (written with its quotes and colon) followed by its value and a comma.
pub open spec fn member(key: &str, value: Seq<u8>) -> Seq<u8> {
    text(key) + value + text(",")
}

/// The JSON document that reports the sample `m` under sequence number `seq`.
pub open spec fn json_payload(m: Metrics, seq: u32) -> Seq<u8> {
    text("{")
        + text("\"device\":\"") + text(DEVICE_NAME) + text("\",")
        + text("\"os\":\"") + text(OS_NAME) + text("\",")
        + member("\"seq\":", decimal(seq as nat))
        + member("\"uptime_ms\":", decimal(m.uptime_ms as nat))
        + member("\"cpu_usage_pct\":", decimal(m.cpu_usage_pct as nat))
        + member("\"free_heap_bytes\":", decimal(m.free_heap_bytes as nat))
        + member("\"stack_usage_pct\":", decimal(m.stack_usage_pct as nat))
        + member("\"idle_ratio_pct\":", decimal(m.idle_ratio_pct as nat))
        + member("\"bytes_tx\":", decimal(m.bytes_tx as nat))
        + member("\"bytes_rx\":", decimal(m.bytes_rx as nat))
        + member("\"net_errors\":", decimal(m.net_errors as nat))
        + member("\"rssi_dbm\":", signed_decimal(m.rssi_dbm as int))
        + member("\"reset_count\":", decimal(m.reset_count as nat))
        + text("\"status\":\"") + status_name(status_of(m)) + text("\"}")
}

/// Writes `piece` at `at`, where `base` overwritten with `done` is what `b` holds
/// and `at` is just past `done`.
fn put_bytes(
    b: &mut [u8],
    at: usize,
    piece: &[u8],
    Ghost(base): Ghost<Seq<u8>>,
    Ghost(done): Ghost<Seq<u8>>,
) -> (end: usize)
    requires
        old(b)@ == overwrite(base, 0, done),
        at == done.len(),
        done.len() + piece@.len() <= base.len(),
    ensures
        final(b)@ == overwrite(base, 0, done + piece@),
        end == done.len() + piece@.len(),
{
    let end = write_bytes(b, at, piece);
    proof {
        lemma_overwrite_extend(base, done, piece@);
    }
    end
}

/// As `put_bytes`, for the bytes of a string.
fn put_text(
    b: &mut [u8],
    at: usize,
    s: &str,
    Ghost(base): Ghost<Seq<u8>>,
    Ghost(done): Ghost<Seq<u8>>,
) -> (end: usize)
    requires
        old(b)@ == overwrite(base, 0, done),
        at == done.len(),
        done.len() + text(s).len() <= base.len(),
    ensures
        final(b)@ == overwrite(base, 0, done + text(s)),
        end == done.len() + text(s).len(),
{
    proof {
        lemma_text_is_bytes(s);
    }
    put_bytes(b, at, s.as_bytes(), Ghost(base), Ghost(done))
}

/// As `put_bytes`, for the decimal digits of `n`.
fn put_u32(
    b: &mut [u8],
    at: usize,
    n: u32,
    Ghost(base): Ghost<Seq<u8>>,
    Ghost(done): Ghost<Seq<u8>>,
) -> (end: usize)
    requires
        old(b)@ == overwrite(base, 0, done),
        at == done.len(),
        done.len() + decimal(n as nat).len() <= base.len(),
    ensures
        final(b)@ == overwrite(base, 0, done + decimal(n as nat)),
        end == done.len() + decimal(n as nat).len(),
{
    let end = write_u32(b, at, n);
    proof {
        lemma_overwrite_extend(base, done, decimal(n as nat));
    }
    end
}

/// As `put_bytes`, for a member whose value is an unsigned number.
fn put_member(
    b: &mut [u8],
    at: usize,
    key: &str,
    n: u32,
    Ghost(base): Ghost<Seq<u8>>,
    Ghost(done): Ghost<Seq<u8>>,
) -> (end: usize)
    requires
        old(b)@ == overwrite(base, 0, done),
        at == done.len(),
        done.len() + member(key, decimal(n as nat)).len() <= base.len(),
    ensures
        final(b)@ == overwrite(base, 0, done + member(key, decimal(n as nat))),
        end == done.len() + member(key, decimal(n as nat)).len(),
{
    let ghost digits = decimal(n as nat);
    let i = put_text(b, at, key, Ghost(base), Ghost(done));
    let j = put_u32(b, i, n, Ghost(base), Ghost(done + text(key)));
    let k = put_text(b, j, ",", Ghost(base), Ghost(done + text(key) + digits));
    assert(done + text(key) + digits + text(",") =~= done + member(key, digits));
    k
}

/// As `put_member`, for a signed value.
fn put_signed_member(
    b: &mut [u8],
    at: usize,
    key: &str,
    n: i32,
    Ghost(base): Ghost<Seq<u8>>,
    Ghost(done): Ghost<Seq<u8>>,
) -> (end: usize)
    requires
        old(b)@ == overwrite(base, 0, done),
        at == done.len(),
        done.len() + member(key, signed_decimal(n as int)).len() <= base.len(),
    ensures
        final(b)@ == overwrite(base, 0, done + member(key, signed_decimal(n as int))),
        end == done.len() + member(key, signed_decimal(n as int)).len(),
{
    let ghost digits = signed_decimal(n as int);
    let i = put_text(b, at, key, Ghost(base), Ghost(done));
    let ghost done1 = done + text(key);
    let j = write_i32(b, i, n);
    proof {
        lemma_overwrite_extend(base, done1, digits);
    }
    let ghost done2 = done1 + digits;
    let k = put_text(b, j, ",", Ghost(base), Ghost(done2));
    assert(done2 + text(",") =~= done + member(key, digits));
    k
}

/// The payload never takes more than 336 bytes, so it always fits the JSON buffer.
pub proof fn lemma_json_payload_fits(m: Metrics, seq: u32)
    ensures
        json_payload(m, seq).len() <= 336,
        json_payload(m, seq).len() <= JSON_BUF_LEN,
{
    reveal_strlit("{");
    reveal_strlit("\"device\":\"");
    reveal_strlit("heltec_v3");
    reveal_strlit("\",");
    reveal_strlit("\"os\":\"");
    reveal_strlit("zephyr");
    reveal_strlit(",");
    reveal_strlit("\"seq\":");
    reveal_strlit("\"uptime_ms\":");
    reveal_strlit("\"cpu_usage_pct\":");
    reveal_strlit("\"free_heap_bytes\":");
    reveal_strlit("\"stack_usage_pct\":");
    reveal_strlit("\"idle_ratio_pct\":");
    reveal_strlit("\"bytes_tx\":");
    reveal_strlit("\"bytes_rx\":");
    reveal_strlit("\"net_errors\":");
    reveal_strlit("\"rssi_dbm\":");
    reveal_strlit("\"reset_count\":");
    reveal_strlit("\"status\":\"");
    reveal_strlit("\"}");
    lemma_ascii_text("{");
    lemma_ascii_text("\"device\":\"");
    lemma_ascii_text(DEVICE_NAME);
    lemma_ascii_text("\",");
    lemma_ascii_text("\"os\":\"");
    lemma_ascii_text(OS_NAME);
    lemma_ascii_text(",");
    lemma_ascii_text("\"seq\":");
    lemma_ascii_text("\"uptime_ms\":");
    lemma_ascii_text("\"cpu_usage_pct\":");
    lemma_ascii_text("\"free_heap_bytes\":");
    lemma_ascii_text("\"stack_usage_pct\":");
    lemma_ascii_text("\"idle_ratio_pct\":");
    lemma_ascii_text("\"bytes_tx\":");
    lemma_ascii_text("\"bytes_rx\":");
    lemma_ascii_text("\"net_errors\":");
    lemma_ascii_text("\"rssi_dbm\":");
    lemma_ascii_text("\"reset_count\":");
    lemma_ascii_text("\"status\":\"");
    lemma_ascii_text("\"}");
    lemma_u32_decimal_len(seq);
    lemma_u32_decimal_len(m.uptime_ms);
    lemma_u32_decimal_len(m.cpu_usage_pct);
    lemma_u32_decimal_len(m.free_heap_bytes);
    lemma_u32_decimal_len(m.stack_usage_pct);
    lemma_u32_decimal_len(m.idle_ratio_pct);
    lemma_u32_decimal_len(m.bytes_tx);
    lemma_u32_decimal_len(m.bytes_rx);
    lemma_u32_decimal_len(m.net_errors);
    lemma_i32_decimal_len(m.rssi_dbm);
    lemma_u32_decimal_len(m.reset_count);
    lemma_status_names(status_of(m), status_of(m));
}

/// Each metric is reported under its own key: the payload holds the OS member
/// and, in this order and each right after the previous one, the key of the
/// sequence number and of every metric followed by that number's own decimal
/// digits and a comma.
pub proof fn lemma_json_payload_members(m: Metrics, seq: u32)
    ensures
        occurs_in(text("\"os\":\"") + text(OS_NAME) + text("\","), json_payload(m, seq)),
        occurs_in(
            (text("\"seq\":") + decimal(seq as nat) + text(","))
                + (text("\"uptime_ms\":") + decimal(m.uptime_ms as nat) + text(",")),
            json_payload(m, seq),
        ),
        occurs_in(
            (text("\"uptime_ms\":") + decimal(m.uptime_ms as nat) + text(","))
                + (text("\"cpu_usage_pct\":") + decimal(m.cpu_usage_pct as nat) + text(",")),
            json_payload(m, seq),
        ),
        occurs_in(
            (text("\"cpu_usage_pct\":") + decimal(m.cpu_usage_pct as nat) + text(","))
                + (text("\"free_heap_bytes\":") + decimal(m.free_heap_bytes as nat) + text(",")),
            json_payload(m, seq),
        ),
        occurs_in(
            (text("\"free_heap_bytes\":") + decimal(m.free_heap_bytes as nat) + text(","))
                + (text("\"stack_usage_pct\":") + decimal(m.stack_usage_pct as nat) + text(",")),
            json_payload(m, seq),
        ),
        occurs_in(
            (text("\"stack_usage_pct\":") + decimal(m.stack_usage_pct as nat) + text(","))
                + (text("\"idle_ratio_pct\":") + decimal(m.idle_ratio_pct as nat) + text(",")),
            json_payload(m, seq),
        ),
        occurs_in(
            (text("\"idle_ratio_pct\":") + decimal(m.idle_ratio_pct as nat) + text(","))
                + (text("\"bytes_tx\":") + decimal(m.bytes_tx as nat) + text(",")),
            json_payload(m, seq),
        ),
        occurs_in(
            (text("\"bytes_tx\":") + decimal(m.bytes_tx as nat) + text(","))
                + (text("\"bytes_rx\":") + decimal(m.bytes_rx as nat) + text(",")),
            json_payload(m, seq),
        ),
        occurs_in(
            (text("\"bytes_rx\":") + decimal(m.bytes_rx as nat) + text(","))
                + (text("\"net_errors\":") + decimal(m.net_errors as nat) + text(",")),
            json_payload(m, seq),
        ),
        occurs_in(
            (text("\"net_errors\":") + decimal(m.net_errors as nat) + text(","))
                + (text("\"rssi_dbm\":") + signed_decimal(m.rssi_dbm as int) + text(",")),
            json_payload(m, seq),
        ),
        occurs_in(
            (text("\"rssi_dbm\":") + signed_decimal(m.rssi_dbm as int) + text(","))
                + (text("\"reset_count\":") + decimal(m.reset_count as nat) + text(",")),
            json_payload(m, seq),
        ),
{
    lemma_occurs_in_concat();
}

/// The payload opens with the device, the OS and the sequence number, and
/// closes with the reset count right before the status, which ends it.
pub proof fn lemma_json_payload_ends(m: Metrics, seq: u32)
    ensures
        starts_with(
            json_payload(m, seq),
            text("{") + text("\"device\":\"") + text(DEVICE_NAME) + text("\",") + text("\"os\":\"")
                + text(OS_NAME) + text("\",") + (text("\"seq\":") + decimal(seq as nat) + text(",")),
        ),
        ends_with(
            json_payload(m, seq),
            (text("\"reset_count\":") + decimal(m.reset_count as nat) + text(",")) + text("\"status\":\"")
                + status_name(status_of(m)) + text("\"}"),
        ),
{
    lemma_starts_ends_concat();
}

/// Writes the JSON report of `m` under sequence number `seq` at the start of
/// `b` and returns its length; the rest of `b` is left as it was.
pub fn build_json(b: &mut [u8], m: &Metrics, seq: u32) -> (len: usize)
    requires
        old(b)@.len() >= JSON_BUF_LEN,
    ensures
        len == json_payload(*m, seq).len(),
        final(b)@ == overwrite(old(b)@, 0, json_payload(*m, seq)),
{
    let ghost base = b@;
    let ghost mut done = Seq::<u8>::empty();
    proof {
        lemma_json_payload_fits(*m, seq);
        assert(base =~= overwrite(base, 0, done));
    }
    let mut i: usize = 0;

    i = put_text(b, i, "{", Ghost(base), Ghost(done));
    proof { done = done + text("{"); }

    i = put_text(b, i, "\"device\":\"", Ghost(base), Ghost(done));
    proof { done = done + text("\"device\":\""); }
    i = put_text(b, i, DEVICE_NAME, Ghost(base), Ghost(done));
    proof { done = done + text(DEVICE_NAME); }
    i = put_text(b, i, "\",", Ghost(base), Ghost(done));
    proof { done = done + text("\","); }

    i = put_text(b, i, "\"os\":\"", Ghost(base), Ghost(done));
    proof { done = done + text("\"os\":\""); }
    i = put_text(b, i, OS_NAME, Ghost(base), Ghost(done));
    proof { done = done + text(OS_NAME); }
    i = put_text(b, i, "\",", Ghost(base), Ghost(done));
    proof { done = done + text("\","); }

    i = put_member(b, i, "\"seq\":", seq, Ghost(base), Ghost(done));
    proof { done = done + member("\"seq\":", decimal(seq as nat)); }
    i = put_member(b, i, "\"uptime_ms\":", m.uptime_ms, Ghost(base), Ghost(done));
    proof { done = done + member("\"uptime_ms\":", decimal(m.uptime_ms as nat)); }
    i = put_member(b, i, "\"cpu_usage_pct\":", m.cpu_usage_pct, Ghost(base), Ghost(done));
    proof { done = done + member("\"cpu_usage_pct\":", decimal(m.cpu_usage_pct as nat)); }
    i = put_member(b, i, "\"free_heap_bytes\":", m.free_heap_bytes, Ghost(base), Ghost(done));
    proof { done = done + member("\"free_heap_bytes\":", decimal(m.free_heap_bytes as nat)); }
    i = put_member(b, i, "\"stack_usage_pct\":", m.stack_usage_pct, Ghost(base), Ghost(done));
    proof { done = done + member("\"stack_usage_pct\":", decimal(m.stack_usage_pct as nat)); }
    i = put_member(b, i, "\"idle_ratio_pct\":", m.idle_ratio_pct, Ghost(base), Ghost(done));
    proof { done = done + member("\"idle_ratio_pct\":", decimal(m.idle_ratio_pct as nat)); }
    i = put_member(b, i, "\"bytes_tx\":", m.bytes_tx, Ghost(base), Ghost(done));
    proof { done = done + member("\"bytes_tx\":", decimal(m.bytes_tx as nat)); }
    i = put_member(b, i, "\"bytes_rx\":", m.bytes_rx, Ghost(base), Ghost(done));
    proof { done = done + member("\"bytes_rx\":", decimal(m.bytes_rx as nat)); }
    i = put_member(b, i, "\"net_errors\":", m.net_errors, Ghost(base), Ghost(done));
    proof { done = done + member("\"net_errors\":", decimal(m.net_errors as nat)); }
    i = put_signed_member(b, i, "\"rssi_dbm\":", m.rssi_dbm, Ghost(base), Ghost(done));
    proof { done = done + member("\"rssi_dbm\":", signed_decimal(m.rssi_dbm as int)); }
    i = put_member(b, i, "\"reset_count\":", m.reset_count, Ghost(base), Ghost(done));
    proof { done = done + member("\"reset_count\":", decimal(m.reset_count as nat)); }

    let status = derive_status(m);
    i = put_text(b, i, "\"status\":\"", Ghost(base), Ghost(done));
    proof { done = done + text("\"status\":\""); }
    i = put_bytes(b, i, status, Ghost(base), Ghost(done));
    proof { done = done + status@; }
    i = put_text(b, i, "\"}", Ghost(base), Ghost(done));
    proof { done = done + text("\"}"); }

    assert(done == json_payload(*m, seq));
    i
}

/// The HTTP/1.0 POST request that delivers `json` to the collecting server.
pub open spec fn http_request(json: Seq<u8>) -> Seq<u8> {
    text("POST /metrics HTTP/1.0\r\nHost: ")
        + text(SERVER_IP) + text(":") + decimal(SERVER_PORT as nat)
        + text("\r\nContent-Type: application/json\r\nContent-Length: ")
        + decimal(json.len())
        + text("\r\nConnection: close\r\n\r\n")
        + json
}

/// Everything but the body of a request takes at most 120 bytes, so a request
/// that carries a payload of the JSON buffer always fits the request buffer.
pub proof fn lemma_http_request_fits(json: Seq<u8>)
    requires
        json.len() <= JSON_BUF_LEN,
    ensures
        http_request(json).len() <= json.len() + 120,
        http_request(json).len() <= TX_BUF_LEN,
{
    reveal_strlit("POST /metrics HTTP/1.0\r\nHost: ");
    reveal_strlit("10.42.0.1");
    reveal_strlit(":");
    reveal_strlit("\r\nContent-Type: application/json\r\nContent-Length: ");
    reveal_strlit("\r\nConnection: close\r\n\r\n");
    lemma_ascii_text("POST /metrics HTTP/1.0\r\nHost: ");
    lemma_ascii_text(SERVER_IP);
    lemma_ascii_text(":");
    lemma_ascii_text("\r\nContent-Type: application/json\r\nContent-Length: ");
    lemma_ascii_text("\r\nConnection: close\r\n\r\n");
    lemma_u32_decimal_len(SERVER_PORT);
    assert(pow10(3) == 1000) by {
        reveal_with_fuel(pow10, 4);
    }
    lemma_decimal_len_bound(json.len(), 3);
    assert(pow10(4) == 10000) by {
        reveal_with_fuel(pow10, 5);
    }
    lemma_decimal_len_bound(SERVER_PORT as nat, 4);
}

/// The request ends with the whole payload, right after a header whose
/// Content-Length is the payload's length and whose last line is followed by
/// the blank line; the header depends only on that length, not on the
/// payload's bytes.
pub proof fn lemma_http_request_carries_payload(json: Seq<u8>, other: Seq<u8>)
    ensures
        ends_with(http_request(json), json),
        ends_with(
            http_request(json),
            text("\r\nContent-Type: application/json\r\nContent-Length: ") + decimal(json.len())
                + text("\r\nConnection: close\r\n\r\n") + json,
        ),
        json.len() == other.len() ==> http_request(json).len() == http_request(other).len()
            && http_request(json).subrange(0, http_request(json).len() - json.len())
            == http_request(other).subrange(0, http_request(other).len() - other.len()),
{
    lemma_starts_ends_concat();
    let header = text("POST /metrics HTTP/1.0\r\nHost: ") + text(SERVER_IP) + text(":")
        + decimal(SERVER_PORT as nat) + text(
        "\r\nContent-Type: application/json\r\nContent-Length: ",
    ) + decimal(json.len()) + text("\r\nConnection: close\r\n\r\n");
    assert(http_request(json).subrange(0, header.len() as int) =~= header);
    assert(http_request(json).subrange(header.len() as int, http_request(json).len() as int) =~= json);
    if json.len() == other.len() {
        assert(http_request(other).subrange(0, header.len() as int) =~= header);
    }
}

/// Writes the HTTP request that carries `json` at the start of `tx` and
/// returns its length; the rest of `tx` is left as it was.
pub fn build_request(tx: &mut [u8], json: &[u8]) -> (len: usize)
    requires
        json@.len() <= JSON_BUF_LEN,
        old(tx)@.len() >= TX_BUF_LEN,
    ensures
        len == http_request(json@).len(),
        final(tx)@ == overwrite(old(tx)@, 0, http_request(json@)),
{
    let ghost base = tx@;
    let ghost mut done = Seq::<u8>::empty();
    proof {
        lemma_http_request_fits(json@);
        assert(base =~= overwrite(base, 0, done));
    }
    let mut j: usize = 0;
    j = put_text(tx, j, "POST /metrics HTTP/1.0\r\nHost: ", Ghost(base), Ghost(done));
    proof { done = done + text("POST /metrics HTTP/1.0\r\nHost: "); }
    j = put_text(tx, j, SERVER_IP, Ghost(base), Ghost(done));
    proof { done = done + text(SERVER_IP); }
    j = put_text(tx, j, ":", Ghost(base), Ghost(done));
    proof { done = done + text(":"); }
    j = put_u32(tx, j, SERVER_PORT, Ghost(base), Ghost(done));
    proof { done = done + decimal(SERVER_PORT as nat); }
    j = put_text(tx, j, "\r\nContent-Type: application/json\r\nContent-Length: ", Ghost(base), Ghost(done));
    proof { done = done + text("\r\nContent-Type: application/json\r\nContent-Length: "); }
    j = put_u32(tx, j, json.len() as u32, Ghost(base), Ghost(done));
    proof { done = done + decimal(json@.len()); }
    j = put_text(tx, j, "\r\nConnection: close\r\n\r\n", Ghost(base), Ghost(done));
    proof { done = done + text("\r\nConnection: close\r\n\r\n"); }
    j = put_bytes(tx, j, json, Ghost(base), Ghost(done));
    proof { done = done + json@; }
    assert(done == http_request(json@));
    j
}

/// The log line for `n` after `prefix`: at most the first 110 bytes of the
/// prefix, the decimal digits of `n`, and a line feed.
pub open spec fn log_line(prefix: Seq<u8>, n: u32) -> Seq<u8> {
    let kept = if prefix.len() <= LOG_PREFIX_MAX { prefix.len() as int } else { LOG_PREFIX_MAX as int };
    prefix.take(kept) + decimal(n as nat) + seq![10u8]
}

/// A log line keeps the whole prefix when it has at most 110 bytes and its
/// first 110 bytes otherwise, then the digits of `n`, then a line feed.
pub proof fn lemma_log_line_layout(prefix: Seq<u8>, n: u32)
    ensures
        prefix.len() <= 110 ==> starts_with(log_line(prefix, n), prefix),
        prefix.len() > 110 ==> starts_with(log_line(prefix, n), prefix.take(110)),
        ends_with(log_line(prefix, n), decimal(n as nat) + seq![10u8]),
        log_line(prefix, n).len() == (if prefix.len() <= 110 { prefix.len() } else { 110 })
            + decimal(n as nat).len() + 1,
{
    let line = log_line(prefix, n);
    let kept = if prefix.len() <= 110 { prefix } else { prefix.take(110) };
    assert(prefix.len() <= 110 ==> prefix.take(prefix.len() as int) =~= prefix);
    assert(line.subrange(0, kept.len() as int) =~= kept);
    assert(line.subrange(line.len() - (decimal(n as nat) + seq![10u8]).len(), line.len() as int)
        =~= decimal(n as nat) + seq![10u8]);
}

/// Writes the log line for `n` after `prefix` at the start of `buf` and
/// returns its length; the rest of `buf` is left as it was.
pub fn format_log_num(buf: &mut [u8], prefix: &[u8], n: u32) -> (len: usize)
    requires
        old(buf)@.len() >= LOG_BUF_LEN,
    ensures
        len == log_line(prefix@, n).len(),
        len <= LOG_BUF_LEN,
        final(buf)@ == overwrite(old(buf)@, 0, log_line(prefix@, n)),
{
    let ghost base = buf@;
    let plen = if prefix.len() < LOG_PREFIX_MAX { prefix.len() } else { LOG_PREFIX_MAX };
    let kept = vstd::slice::slice_subrange(prefix, 0, plen);
    proof {
        lemma_u32_decimal_len(n);
        assert(base =~= overwrite(base, 0, Seq::<u8>::empty()));
        assert(Seq::<u8>::empty() + kept@ =~= kept@);
    }
    let mut i = put_bytes(buf, 0, kept, Ghost(base), Ghost(Seq::<u8>::empty()));
    i = put_u32(buf, i, n, Ghost(base), Ghost(kept@));
    let ghost done = kept@ + decimal(n as nat);
    buf[i] = 10u8;
    proof {
        assert(overwrite(base, 0, done + seq![10u8]) =~= overwrite(base, 0, done).update(i as int, 10u8));
        assert(done + seq![10u8] =~= log_line(prefix@, n));
    }
    i + 1
}

} // verus!
