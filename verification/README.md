# monitor_ssd

A terminal monitor for drive temperatures. It shows the temperature of one
drive as a colored bar, redraws only when the temperature changes, and
appends every change to a log file with the local time.

- `src/` is the library, verified with Verus: how drives are described,
  ordered and chosen; how temperatures are read out of sysfs, hwmon,
  `smartctl` and PowerShell output; the drive selector and the monitoring
  loop as state machines; and every text the monitor shows, down to the
  one-decimal gibibyte sizes, which are computed exactly in integers.
- `app/` is the program around it: command-line parsing, the terminal
  (raw mode, key events), the file system, `smartctl`, PowerShell and WMI.
- `tests/` runs the library on concrete values.
