# power_monitor

Power, thermal and utilization monitoring for Apple Silicon, with its logic
verified by Verus.

- `src/` is the library: its logic is verified against its contracts. It reads no
  sensors and opens no sockets; it is handed what was read, decides what comes
  next, and builds the bytes that are sent. Six contracts on functions of the
  standard library are believed without proof: those of `utf8_text`
  (`core::str::from_utf8`), `decode_lossy` (`String::from_utf8_lossy`), `clock_now`
  (`SystemTime::now`), `since_epoch` (`SystemTime::duration_since`),
  `whole_seconds` (`Duration::as_secs`), and that of `String::push`.
- `app/` is the program around it: system calls, sockets, threads, and the
  arithmetic on floating-point numbers.
- `tests/` runs the library on concrete values.

| Modules | What they hold |
| --- | --- |
| `text`, `bytes`, `json`, `calendar` | text, JSON and UTC time |
| `smc`, `values`, `readings`, `fans` | the system management controller: keys, numbers, fan control |
| `ioreport`, `event`, `sampler` | channels, schemas, residency, the sampling window |
| `soc`, `memory`, `ffi` | what the machine is made of, and records for C callers |
| `serialize`, `sample`, `prometheus` | snapshots as JSON and as gauges, and back |
| `http`, `serve_cmd`, `collect_cmd`, `hosts`, `fleet` | agents and the collector |
| `args`, `cli`, `suggest`, `pipe_cmd`, `fan_cmd`, `doctor_cmd`, `man_cmd`, `completion_cmd`, `launchd` | the command line |
| `tui` | the terminal dashboard |
| `seqlock` | a cell with one writer and many readers |
