# lib — verified core of an IoT metrics collector

A WebAssembly module running on Zephyr OS collects ten system metrics every few
seconds and posts them as JSON to an HTTP server. This crate holds the part of
it that computes, with contracts proved by Verus:

- `src/decimal.rs`: ASCII decimal encoding of `u32` and `i32` values written in
  place into byte buffers, with its read-back and length laws.
- `src/metrics.rs`: the metrics sample and the status derived from it.
- `src/payload.rs`: the JSON payload, the HTTP request and the log lines,
  with the laws that they fit the device's fixed buffers.
- `src/session.rs`: the decisions of the socket exchange that delivers a report
  and of the start-up and collection cycle, as step functions.

`app/main.rs` is the program around it: the host functions of the runtime,
the logging, and the loops that perform the actions the step functions choose.
