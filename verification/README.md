# vchat

The backend of a group voice and text chat: it lists rooms, hands out signed tokens for a LiveKit
server, and keeps people from taking each other's names.

`src/` is the library, verified with Verus: what a request asks for, what the server remembers, and
what it answers, with a contract on every function. `app/` is the server around it: sockets, files,
environment, threads.

| module      | what it holds                                                            |
|-------------|--------------------------------------------------------------------------|
| `text`      | characters, trimming, the order of names                                 |
| `clock`     | the wall clock in seconds                                                |
| `encoding`  | base64url and hexadecimal                                                |
| `json`      | the model of JSON documents, and the calls into `serde_json`             |
| `table`     | a table under textual keys, no key twice                                 |
| `rooms`     | the rooms and how many people are in each                                |
| `nicks`     | who goes by which name in which room                                     |
| `rate`      | how often an address may ask for something                               |
| `names`     | which names rooms and people may have                                    |
| `config`    | how the server is set up                                                 |
| `http`      | what is taken from a request and what is answered                        |
| `jwt`       | the signed tokens                                                        |
| `routes`    | which request asks for what                                              |
| `documents` | the JSON documents that are answered with                                |
| `server`    | the state of the server and how it answers                               |
| `laws`      | what holds of the server as a whole                                      |

The server is set up by environment variables. `LIVEKIT_API_SECRET` has to be set, to at least 32
characters; all others have defaults.

A request is dealt with in two steps, so that no lock is held while a body is read:
`State::handle` takes the request in and says what comes next, and `State::finish` deals with the
body. Functions that read the clock have a twin whose name ends in `_at` and that is given the time.
