# google-ddns

A dynamic DNS updater for Google Cloud DNS: it keeps A/AAAA records
(wildcards included) in sync with the host's public IPv4/IPv6 address.

- `src/` is the verified library (Verus): configuration checks, the DNS
  request URLs and JSON bodies, the decision of what to write for a record,
  the JWT assertion and the access-token cache, with a reader for the JSON
  it writes so that the request bodies can be proved to read back.
- `app/` is the program around it: reading files, HTTP, the random source
  used for RSA blinding, JSON parsing of files and replies, and the loop.
- `tests/` exercises the library on concrete values.
