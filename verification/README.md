# asqu

An asynchronous question queue for coding agents: an agent submits
questions through a command-line client, they queue up in a desktop window,
and the agent later waits for, reads or cancels the answers.

The library under `src/` holds the logic, each function with a contract
proved by Verus:

- `state` — the store (sessions, questions, the id counter, the shutdown
  flag, the events owed to the window) and its model `StoreView`;
- `question_store` — asking, answering, denying, dismissing, session
  clean-up, reading answers, and the decisions of a blocked wait;
- `ipc` — the requests and responses of the pipe protocol and their
  handling;
- `ui` — what the window asks of the store;
- `cli` — the client's argument handling, session id, transcript title,
  and its run as a step function from state and event to action;
- `text` — strings as character sequences: decimal ids, ordering, sorting;
- `laws` — properties that relate several operations (read-back of writes,
  what every operation keeps, isolation of sessions, single delivery of
  instant answers).

`app/` is the program around it: the window (Tauri), the named-pipe server
and client, JSON conversion, and the threads that block and wake.
