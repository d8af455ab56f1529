# Zaphyl

An HTTP/1·2·3 reverse proxy and web server: host and path routing, round-robin
load balancing with health checks, response caching in memory and on disk,
compression, static files, access control, rate limiting, automatic
certificates over ACME, and WebAssembly plugins.

`src/` is the library: everything the proxy decides, verified with Verus. Each
function states in its contract what it returns, over the texts and numbers
that it works on; the public proof functions named `law_` state what holds of
several of them together. The library does no I/O. Where a decision waits for
the network, a file or a plugin, it is a step of a state machine: the caller
carries out the step and hands back the event.

- `router`, `static_files`, `access`, `ratelimit`, `challenge`: which route,
  target or file a request gets, and who may ask.
- `cache`, `codec`, `store`, `consult`: what may be cached, the form of an entry
  on disk, the two tiers, and what the cache says of a request.
- `message`, `relay`, `encoding`, `upstream`, `plugin`: header lists, replies,
  content codings, requests to the origin, plugin chains.
- `http3`, `exchange`: a request over HTTP/3 from arrival to its last byte.
- `proxy`, `filter`: a request over HTTP/1 or HTTP/2.
- `config`, `sites`, `setup`, `cli`, `acme`, `tls`, `front`, `metrics`: the
  configuration and the services around the proxy.
- `text`, `numeral`, `order`, `clock`, `headers`, `paths`: the vocabulary of the
  contracts.

What other crates compute (compression, CIDR blocks, percent-decoding, media
types, header syntax, certificates) is called through small functions marked
`#[verifier::external_body]`, whose doc comments say what is taken on trust.

`app/` is the server around the library: the command line, the configuration
files, the listeners, the clients, the plugin host and the file system.
