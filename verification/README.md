# tuxtune

A developer-focused Linux system tuner: hardware detection, workload
profiles that resolve to sysctl changes, snapshots with rollback, and an
interactive terminal view.

The library under `src/` is written in Verus and verified:

- `text` — character-level text primitives (lines, words, fields, trimming,
  decimal parsing and rendering, UTF-8 lengths), each proved equal to a
  specification of the matching `str` behaviour.
- `probe` — what was read from the host (files, `systemctl is-enabled`
  output, NVIDIA GPU information); every decision is made from a `Probe`.
- `detect` — CPU, memory, disks, network and GPU detection, and the scan
  report.
- `optimize` — optimizations, their changes, the preview text and the steps
  that carry them out.
- `profile` — the built-in profiles, user profile overrides, and resolution
  of a profile with everything it extends (each profile once, entries kept
  only where the host's capabilities allow — available congestion control,
  CPU vendor, kinds of disk — and its memory suffices), with the warnings
  for unknown names and profiles reached again.
- `state` — snapshots and the restores that roll them back: previous
  contents are written back, files that applying created are removed, and
  services that applying enabled are disabled. On a model of the host (file
  contents and enabled services), applying and then rolling back is proved
  to leave the host as it was — sysctl files hold their old value trimmed,
  as sysctl values are recorded — where each change recorded the state of
  its target.
- `tui` — the state machine of the interactive view and the lines each tab
  shows.

`app/` holds the program around it: argument parsing (clap), reading the
host, TOML and JSON files (toml, serde, serde_json), the clock (chrono),
writing to `/proc/sys` and running `systemctl`, and drawing (ratatui).
