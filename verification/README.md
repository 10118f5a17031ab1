# bomb-ttl

A sweeper for a scratch directory (`Workspace/tmp/`): what is in it is deleted
once its time to live has passed.

- What is past its time to live when the directory is scanned is deleted on
  the spot.
- For everything else a job `bash -c "sleep <delay> && rm -rf -- <path>"` is
  queued with the `qsub` of the `tren-crc` scheduler. What is queued is
  recorded in `<root>/.bomb-ttl/state.json` under its inode and creation time,
  so that it is queued once.

## Layout

- `src/`: every decision, verified with Verus. It touches no file, clock or
  program. `sweep` is the course of a scan and `sweep_laws` what holds of every
  scan; `cancel` and `daemon` are the courses of the other commands; `state`
  and `entries` are the record; `qsub` is what the scheduler is told and what
  it answers; `calendar`, `paths`, `text` and `time` are what these are made
  of; `setup` and `cli` are the settings and the output.
- `app/`: the program. It does what `src/` asks for: it reads the command line,
  the directory and the state file, and starts `qsub` and `qdel`.
- `tests/`: tests of `src/`.

## What is trusted

`src/` believes two things about the standard library that `vstd` does not
state: that `String::push` appends one character, and that
`String::from_utf8_lossy` gives the text that its bytes are the UTF-8 of or,
where they are not UTF-8, some text that depends on them alone.
