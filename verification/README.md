# TailChatter

A chat application for private networks: a desktop client and a TCP chat server that
speaks both JSON (GUI clients) and plain text (telnet/nc clients).

The library (`src/`) holds the logic, verified with Verus:

- `protocol`: the messages exchanged between client and server.
- `server`: the server's state (sessions, group history, direct-message histories), the
  effect of each command on it (`ChatState::process_at`), the routing of a client's input
  to commands (`handler`), and the plain-text rendering of server messages.
- `lobby`: a lighter single-room server with case-insensitive handles and a sorted
  presence list.
- `client`: the client state (login form, conversations, unread counts) and what each
  server message, click and keystroke does to it; `client::ui` holds the decisions behind
  the screens (port parsing, name colours, button labels).
- `clock`, `text`, `assoc`: timestamps, text helpers and association lists.
- `*/laws.rs`: properties that span operations, stated and proved over the models.

`app/` is the program around it: sockets, tasks and channels (tokio), the JSON encoding
(serde), and the window (egui/eframe).
