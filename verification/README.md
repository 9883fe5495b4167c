# oxicode

The decision core of a coding agent, verified with Verus.

`src/` is the library. Every function in it is verified against its contract:

- `tools`: the tool contexts and results, the registry of tools, and the searches
  (`exact_search`, `grep`, `workspace_search`)
- `settings`, `json`, `layers`: settings, how a file lies over them, and how older files are
  brought up to date
- `agent_session`, `session_log`, `messages`: a session, what it stores, and how a
  conversation comes back from what was stored
- `session_runtime`, `app`, `bootstrap`: what sessions, the program and its start are made with
- `handoff`, `handoff_prompt`: documents that hand a session over to the next
- `foundation`, `brain_workspace`: what is shared with other hosts, and the workspace index
- `text`, `paths`: texts and paths

Where the library calls an outside crate, the call stands behind a small function whose
contract is believed; its doc comment names the outside function and says what is claimed of
it. Floating-point numbers are held by their bits or by their text.

`app/` is ordinary Rust around the library: files, directories, processes and traversals.
`tests/` runs the library on concrete values.
