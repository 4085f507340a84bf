# forkpool

A pool of forked worker processes: jobs go in, a router hands them to the workers over Unix
sockets, and the answers come back to whoever handed the jobs in.

What the pool decides is in `src/`, written and proved with Verus; it does no input or output
of its own.

- `codec`: frames on a byte stream, a little-endian length and then the payload.
- `message`: what the router and the workers say to each other.
- `router`: the queue, the idle workers, the jobs that are out and the answers that are due.
- `router_laws`: what holds of a router over time: a job that is to be answered is in one place,
  and is not answered twice.
- `worker`: what a worker does, from its start to its end.
- `system`: the router and its workers together; that workers behave as the router expects,
  and that every job is accounted for however the pool runs.
- `history`: what becomes of each job: it is answered with the outcome of the work on its own
  input, once; it goes to each worker at most once, and to another only after a death; jobs go
  out in the order in which they came. Although workers fail and die, every job is answered as
  long as one worker is left and none dies while it is idle: a job that is handed to a worker
  that died while idle stays with that worker, and is answered only when the pool gives up.
- `pool`: starting a pool, and handing it a job.
- `dummy`, `pdfium`, `lok`: the jobs.
- `error`, `text`: what can go wrong, and how it is put into words.

`app/` is the program around it: processes, sockets, channels and serialization. `tests/`
runs the library, up to whole pools in one process.
