# vcp_mobile

The logic of the VCP mobile client — message storage, sync with the desktop server,
streaming chat requests, the foreground/background lifecycle, the surface widgets, the
diary admin API, the VCPLog connection and the rule-based affect appraisal — as a library
verified with Verus.

- `src/` is the verified library. Its public functions state what they return in
  `ensures` contracts proved by Verus, and laws that span several calls stand as proof
  functions. The calls into outside crates
  (`serde_json`, `zstd`, `url`, `urlencoding`, `percent-encoding`, `regex`, `chrono`,
  `base64`, `mime_guess`, `uuid`, `image`) and into parts of `std` that Verus has no
  specification for go through small trusted wrappers whose contracts are stated next to
  them.
- `tests/` runs the library on concrete values.
- `app/` is the unverified shell around it: file reads and writes, ffmpeg, the JSON forms
  of the library's types, and the affect arithmetic that runs on floating point.

The registry of running chat requests (`request_control::ActiveRequests`) is a `Vec` of
entries with the invariant that no id occurs twice. Each registration carries a
generation number that stands for the identity of its cancellation handle, so releasing
an old registration never removes a newer one under the same id.
