# sqlite3_rsync_cli

The verified core of the `sqlite3_rsync` command-line front end, written in
Verus.

- `src/` is the library: reading the command line (`args`), shell quoting of
  arguments (`shell`), the command lines that start the other side of a sync
  and the retry decisions of a remote session (`commands`, `session`), database
  names (`paths`), decimal text (`numbers`) and UTF-8 byte helpers (`text`).
- `app/main.rs` is the program around it: logging, the SQLite calls, spawning
  the SSH or local replica process, and the sync protocol itself, which comes
  from the `sqlite3_rsync` library.
- `tests/` exercises the library on concrete values.

Command lines are written for one of two shells, chosen by
a `Platform` argument: POSIX `sh` quoting (single quotes or backslashes,
`./` before a file name that begins with `-`), or Windows `cmd.exe` quoting
(double quotes, `.\` or `.` in front, doubled `"` and `\`, `%cd:~,%` after
`%` in file names), where a drive path such as `C:/data/db.sqlite` is also
never taken for `HOST:PATH`.  `app/` picks the platform it is built for.
