# idp

The request-handling core of a small OpenID Connect identity provider, verified
with Verus.

- `src/text.rs`, `src/text_map.rs`: character classes, splitting and trimming
  of text over `Seq<char>`, and an insertion-ordered string map whose view is a
  `Map`.
- `src/http/`: methods and statuses; the request line (target, percent-decoded
  query, version) and the request head; responses and their wire form;
  routing; and `ConnectionHandler`, the machine that reads one request from a
  connection and says what to read next or how to answer.
- `src/log.rs`, `src/oidc/`: log entries and the discovery metadata.
- `app/`: the program around the library: the SQLite database, the TCP
  listener and the loop that drives `ConnectionHandler`.
