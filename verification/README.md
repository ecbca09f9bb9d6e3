# http_server

A small HTTP/1.1 server. The library (`src/`) is verified with Verus:

- `request`: reads a request (method, path, version, headers, body) from the
  text a client sent, line by line, as `str::lines` and `split_whitespace`
  split it.
- `response`: builds responses and the text that carries them, with a
  `Content-Length` equal to the body's UTF-8 length.
- `headers`: a name-to-value map in which no name occurs twice.
- `router`: decides how a request is answered, as a sequence of steps
  (read a public file, load the orders, send a response).
- `server`: the server's settings.
- `laws`: properties across these functions.

`app/` is the program around it: command-line options, logging, the thread
pool, sockets, reading files, and the orders' JSON.
