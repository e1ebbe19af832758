# asyncsync

Runtime-independent synchronization primitives for asynchronous Rust, built around
verified state machines.

`src/` is the verified library. Each primitive is a plain value whose operations take the
event that drives them (a poll with the current task's waker, a notification, a release of
permits) and return what happens next: the value handed out and the wakers to wake. Wakers
are named by `u64` numbers chosen by the caller.

- `linked_list`: a doubly-linked list of node keys, with its links kept consistent with
  the order of the linked keys.
- `notify`: `Notify` and its `Notified` futures, with a FIFO waiter list.
- `semaphore`: `Semaphore`, its `Acquire` futures and `Permit`s. Waiting acquisitions are
  served oldest first: one proceeds only when the permits also cover every earlier
  request.
- `channel::oneshot`, `local::channel::oneshot`: the state of one-shot channels, kept in
  flag bytes.
- `channel::mpsc`: the ring buffer of a bounded channel; only a buffer without slots can
  be created.
- `channel::broadcast`: a channel whose halves share a buffer of slots.
- `errors`: the channel errors.

Each operation's contract states the resulting abstract state exactly, through spec
functions such as `notify::poll_next` or `semaphore::wakeups`; the `law_*` proof functions
state what holds across operations.

Waiter records of completed or dropped futures are reused.

`app/` puts the state machines behind locks and shared handles, implements `Future`,
`FusedFuture`, `Drop`, `Display` and `Error`, and maps waker numbers to real `Waker`s.
