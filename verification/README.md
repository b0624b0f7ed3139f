# amp-rs

An agent memory server: lessons learned, checkpoints of what an agent is
working on, and a semantic index of code repositories, kept in SQLite and
served over MCP and HTTP.

`src/` is the library, written in Verus and proved: chunking of source
text (sliding windows and language-aware blocks), language detection and
the rules for which files are indexed, the comparison of a scanned
repository with given index records, the decisions of the step-by-step
indexing run, the rows written to and read from the database, agent idle
detection, severity parsing, path joining and the health and status
answers given their counts. Calls into rusqlite, serde_json, chrono and
uuid stand behind small trusted wrappers whose contracts say what those
crates document; what the database holds, and so what a query returns, is
not modelled, so the functions that query it state what holds of every
answer. The storage functions have `_traced` forms that also give, as a
ghost value, the statements handed to SQLite with their arguments and
replies, so their contracts say exactly what each one hands SQLite and
how its answer follows from the replies.

`app/` is the program around it: the command line (clap), directory walks
(ignore), file watching (notify), the ONNX embedding model (ort,
tokenizers), the async runtime and HTTP server (tokio, axum) and JSON
answers (serde).

`tests/` runs the library against real SQLite databases.
