# dot-agent-deck

The decisions behind a deck of coding agents, with their contracts proved by Verus.

`src/` decides: what to show, what to start, what to deliver, what to delete. It takes what was
read as plain values and gives back what to do. `app/` does it: files, processes, the network,
the terminal and the log.

| module | what it decides |
| --- | --- |
| `palette` | the color and the priority of a session's status |
| `prompt_delivery` | when a prompt that was written into a pane counts as delivered, and when it is written again |
| `dispatch` | the name, the place and the course of work that is started in a git worktree of its own |
| `llm` | the request to a language model, and where its answer stands |
| `watch` | what is written to the screen while a command runs again and again |
| `clean_tmp` | where leftovers of test runs are looked for, which may be deleted, and what is said about it |
| `verify_pr_stream` | what counts as a record in the output of the pull-request scripts |
| `text`, `path`, `json` | what the others are stated in |

Contracts are stated over sequences of characters: the text that a function returns is given
exactly. What holds of several functions together stands at the end of each module, under
"Laws".

A few items are taken on trust, each with a comment that says what is claimed of the code
behind it: `chrono` subtracts seconds from a moment, `regex` matches two patterns,
`serde_json` quotes a text and reads a document, and `std` classifies characters, escapes
texts and paths, and takes paths apart on a host that does not separate components by `/`.
