# astra-dns

A DNS server for routers. It forwards queries to servers upstream, blocks the
domains of filter lists, and answers some domains with addresses of its own.

The library under `src/` is verified with [Verus](https://github.com/verus-lang/verus):
every function has a contract over mathematical models, and the properties that
span functions are stated as `law_*` proof functions. The program under `app/`
is ordinary Rust that does the I/O and asks the library what to do.

## Who answers a query

1. an exact override, from a line such as `1.2.3.4 internal.example.com`
2. a rewrite of the domain
3. nobody here, where an important rule allows it: the servers upstream do
4. the block list, where an important rule blocks it
5. the servers upstream, where another rule allows it
6. the block list, where another rule blocks it
7. the servers upstream

Answers from upstream can still be replaced, by the networks of their addresses
or by the domains that they lead through.

## Modules

| module | what it is about |
| --- | --- |
| `text`, `number` | trimming, splitting and building texts; numerals |
| `ip`, `domain`, `name` | addresses and networks; domains and patterns; names as labels |
| `rule` | what one rule says |
| `rule_sets` | the rules of all lists together |
| `overrides`, `compiled` | addresses for domains; everything ready to be asked |
| `authority`, `chain` | who answers a query, and in which order |
| `filtering`, `server` | the configuration |
| `fetch` | how a remote list is had |
| `settings`, `startup`, `lifecycle` | what a reload must not change; start, run and stop |
| `laws`, `upstream_laws` | what holds of all of this |

Calls into other crates stand behind items whose contracts are taken on trust.
Each of them has a doc comment that says what is claimed of the call: regular
expressions (`rule`), names and record types (`name`, `rule`), networks (`ip`),
log levels (`server`), and two functions of the standard library (`text`,
`filtering`).
