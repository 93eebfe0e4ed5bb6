# chatgpt

A small command-line client for the ChatGPT web backend: it lists the user's
conversations and sends a message to one of them, printing the streamed reply.

- `src/` is the verified library: the server-sent-event parser (`sse`), the
  text model it is specified over (`text`), the state of a streamed reply
  (`stream`), the HTTP requests the client sends (`request`), the arkose
  public-key form (`arkose`), the backend's records (`models`) and `is_unit`
  (`util`).
- `app/` is the program around it: argument handling, the HTTP transfers
  (reqwest and curl), the JSON decoding into the records, the clock, the
  random number and printing.
- `tests/` runs the library on concrete inputs.

The `crypto` module that encrypts the fingerprint is not included here;
`app/api/mod.rs` declares it, and the program needs it to send a message.
