# triskelion

A server for Wine clients, the launcher that prepares prefixes and starts games in them, and the reader of
display hardware that runs before both. The decisions are a verified library; the program around it does the
input and output.

- `src/` is the library. Every function states what it returns and what it changes, and Verus proves it.
- `app/` is the program: it reads and writes, calls the kernel, and hands plain values to the library.
- `tests/` runs the library.

## How the library is used

`state::EventLoop` holds all that the server knows. A request is answered by a method of it, named after the
request. What the kernel has to do for an answer is not done by the library. Effects that need no result are
put into `outbox`, in order, and are done before the answer is sent. Where an answer needs a result, the method
returns a step that says what to do, and a second method takes what came back. Fresh events, descriptors and
socket pairs stand in stocks that are filled between requests. Times come in as arguments.

The launcher works the same way. It lists the paths it wants looked up (`lookups`), decides on what was found,
and returns the work as a list of `fileops::FileOp`.

| part | modules |
|---|---|
| protocol and framing | `protocol`, `framing`, `wire`, `bytes`, `text` |
| server state | `state`, `objects`, `table`, `names`, `lists`, `side_tables`, `boot`, `session`, `holders` |
| requests | `sync`, `select`, `ports`, `pipes`, `files`, `mappings`, `pe`, `handles`, `atoms`, `registry`, `token`, `access` |
| threads and clients | `io`, `authority`, `disconnect`, `alerts`, `report`, `log` |
| launcher | `launch`, `discovery`, `lookups`, `paths`, `settings`, `env`, `prefix`, `deploy`, `copytree`, `saves`, `fileops`, `digest` |
| display hardware | `display`, `parallax` |
