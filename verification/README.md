# roto_api

Longest-prefix lookup of IP addresses against routing data: RIS Whois dumps
(prefix, origin AS, peer count) and, optionally, the delegated-statistics files
of the regional registries. The library is written in Verus; every function in
`src/` carries a contract that Verus proves.

## Layout

- `src/addr.rs`: addresses, prefixes and network masks.
- `src/allocation.rs`: splitting an IPv4 allocation into CIDR prefixes.
- `src/record.rs`: registries, AS numbers and the metadata of a prefix, with its
  merge rule.
- `src/tree.rs`: the two `rotonda-store` tree bitmaps behind trusted wrappers.
- `src/store.rs`: the prefix store and its longest-prefix query.
- `src/csv_input.rs`, `src/load.rs`, `src/delegated.rs`: reading RIS Whois and
  delegated records into the store.
- `src/lookup.rs`: lookup modes, origin selection and the fallback to a less
  specific prefix.
- `src/timestamps.rs`: the time stamp files of the data sources.
- `app/lib.rs`: the Python module (`pyo3`), file reading and the parsing and
  printing of IP addresses.
- `tests/`: tests of the library.

Trusted items (the calls into `rotonda-store`, `csv`, `chrono` and std's
integer parsing) are marked `#[verifier::external_body]`; their doc comments
say what their contracts claim.
