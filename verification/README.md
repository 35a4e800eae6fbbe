# prism

The connection plane of a service of actors: a WebSocket gateway with two
codecs, device and account identity, a registry of node keys with its admin
surface, and a static export of code, all on one port.

The library under `src/` is verified with Verus. It decides; it does not wait,
send or store. `app/` is the program around it: sockets, the durable store and
the actor engine.

| module                    | what it holds |
|---------------------------|---------------|
| `protocol`                | the one wire frame and its two codecs |
| `gateway`, `gateway_laws` | connections, identity, dispatch and broadcast; what holds of them |
| `identity`                | accounts, devices and their binding |
| `nodes`, `node_laws`      | node records, verdicts, approval and revocation; what holds of them |
| `admin`                   | the HTTP surface over the node registry |
| `code_export`             | request heads, plain responses, `GET /code/{sha256}` |
| `framing_laws`            | how responses are cut into head and body |
| `actors`                  | the echo actors |
| `table`                   | records under ascending ids, with a journal of writes |
| `json`, `text`, `clock`   | values, strings and time |

## Storage

The registry keeps its tables in memory. Every row it writes also goes to a
journal; the program takes the journal after each request and stores the rows
under their ids, and loads all of them when it boots. `table::journal_replays`
states that replaying the journal gives the table.

## Running

`PRISM_IDENTITY` declares the trust mode, `required` or `open`; without it the
program does not start. `PRISM_DATA` is the directory of the store
(`prism-data`), `PRISM_ADDR` the address (`127.0.0.1:8765`).
