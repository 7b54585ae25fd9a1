# den

A Docker-based sandbox runtime for AI agents. It keeps a pool of containers ready,
hands them out as sandboxes with a volume each, runs commands in them, and cleans
up after them. Releasing a sandbox keeps its volume, so that it can be resumed in a
new container; destroying it removes everything.

## Layout

- `src/` is the library, verified with Verus: configuration and its checks, the
  states of a sandbox, the pool and the life of the sandboxes made from it, the
  reaper, the scheduler, what is asked of Docker and what is made of its answers,
  file paths and bind mounts, streamed commands, and where the reverse proxy may
  forward to. It does no input or output: each step takes what has happened and
  says what is to be done.
- `app/` is the server around it: command line, configuration file, the Docker
  client, HTTP, WebSockets and the background tasks.
- `tests/` runs the library on concrete values.

## What is proved

Each function states what it returns and changes. Beyond that, the laws that relate
several functions are proof functions beside them, among others:

- a released sandbox keeps its volume, and resuming it brings it back on that volume
  (`pool::release_keeps_the_volume`, `pool::resume_undoes_release`);
- a destroyed sandbox is gone (`pool::destroyed_sandbox_is_gone`);
- warming up fills every tier and replenishing restores its size
  (`pool::warmed_up_pool_is_full`, `pool::replenishing_restores_the_size`);
- containers of the pool from different draws share no volume and no name
  (`pool::jobs_share_nothing`);
- a sweep of the reaper stops what is due and loses no volume, and overdue volumes
  go (`reaper::sweep_stops_what_is_due`, `reaper::reaping_keeps_volumes`,
  `reaper::overdue_sandboxes_are_forgotten`);
- no file path leaves the sandbox home (`api::resolved_path_stays_home`) and no
  request is forwarded outside the Docker bridges (`proxy::only_bridges_are_reached`);
- a streamed command tells its output in order and its exit code last
  (`session::session_tells_output_then_exit`), and nothing after its deadline
  (`session::deadline_ends_the_output`).

What comes from other crates stands behind a few trusted functions, each with a
comment that says what is claimed of it: the clock (`clock`), random names
(`naming`), the concurrent map (`registry`), archives and the decoding of output
(`docker`).
