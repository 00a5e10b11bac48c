# ntep_launcher

The verified core of the NTEP launcher, the desktop program that prepares the
NTEPilot backend workspace (a relocatable Python runtime made with uv),
syncs its dependencies, starts its web UI on `127.0.0.1:9150` and stops it
again with every process it left behind.

- `src/` is the library, verified with Verus: reading `netstat`/`lsof` port
  scans (`backend`), uv's output and the splash screen's progress (`uv`,
  `splash`, `pipe`), the workspace and runtime layout (`layout`), the small
  rules of the setup steps (`steps`, `tips`) and the text functions they rest
  on (`text`), each with its contract and the laws that tie them together.
- `app/` runs them: processes, files, threads, environment variables and
  localized messages.
- `tests/` exercises the library on concrete values.
