# privy

A small chat server. Clients connect over TCP and receive a random token;
the first client to connect is the administrator. Every line a client sends
is checked (valid UTF-8, sender allowed to send, not sooner than two seconds
after its last accepted line) and then relayed to all the other clients.

- `src/` is the verified library: roles and permissions, tokens, message
  encoding, the map of connected clients, and the server's decision step
  (`ServerManager::handle_message`), which turns one message into the new
  state and the list of things to print and send.
- `app/` holds the networking: the accept loop, the per-connection tasks,
  the loop that feeds the manager and carries out its actions, the terminal
  client and a plain echo server.
- `tests/` exercises the library on concrete values.
