# sp2p

A crawler for the peer-to-peer network of Spectre nodes, with its decisions
verified by Verus.

- `src/` is the verified library: peer addresses and their text
  (`address`, `text`), the breadth-first crawl (`crawl`), the query of one
  peer (`session`), the records kept of nodes (`models`), the handshake
  announcement (`handshake`) and the geolocation of crawled nodes (`geo`).
- `app/` is the program around it: command line, p2p connections, HTTP
  queries, the JSON API server and the timers.  It drives the library's
  state machines and converts between the library's types and the
  serialisable ones.
- `tests/` exercises the library on concrete values.
