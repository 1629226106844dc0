# twic

Two-factor (RFID card and fingerprint) access control for port checkpoints,
as a Verus library with its contracts and proofs, and a program around it.

## Layout

- `src/` — the verified library.
  - `messages`, `text`: the wire messages, roles, and the text
    parsing and printing they rest on.
  - `port`, `central`, `checkpoint`, `approval`, `prototype`: the decisions
    of the port server, the central database, the checkpoint (registration,
    card then fingerprint, the dashboard's changes), its administrator
    approval and the single-board prototype, each a function from state and
    input to reply or to next state and actions.
  - `poly`, `ring`, `rlwe`, `rlwe_text`: polynomial arithmetic modulo
    `x^n + 1`, the ring-LWE scheme and its text form; `ring` holds the algebra
    behind the proof that decryption undoes encryption.
  - `codec`, `link`: base64, hex and AES-256-CBC, and the key exchange between
    a port server and the central database.
  - `lcd`, `sensors`, `tui`: the display's command bytes, the sensor scripts'
    answers, and the administrator's terminal form.
- `tests/` — tests of the library on concrete values.
- `app/` — the program: sockets, threads, the local database, the devices and
  the terminal, calling the library for every decision.
