# chat

A small chat service: a server that keeps accounts in SQLite, signs users
in, queues messages between them and delivers them every few seconds, and
a terminal client.

- `src/` is the verified library (Verus). It holds everything the service
  decides: addresses and their spelling (`utils`), messages (`message`),
  the client's setup (`client_manager`), splitting command lines into words
  (`words`), the signed-in users and the waiting messages (`state`), the
  commands and what they ask of the database (`command_manager`,
  `requests`), and each delivery tick (`timer`). Decimal spelling and
  parsing of integers live in `text`.
- `app/` is the program around it: sockets, the terminal, the SQLite
  calls, locks and the five-second timer. Run `server` (the default) or
  `client`.
- `tests/` runs the library on concrete values.
