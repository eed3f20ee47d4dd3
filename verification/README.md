# llamadeck

Chat with a local `llama-server`: in the browser, in the terminal, or through an
agent that may use tools.

`src/` is the library. It holds every decision, and Verus proves each of its
functions against its contract:

- `text`, `order`, `json`: characters, stable sorting, JSON documents;
- `backend`, `sse`: requests to the model server, its answers and event streams;
- `tools`, `agent`, `session`: the tools, what the model is told of them, and the steps
  of a run of the agent;
- `chronicle`, `session_laws`: a run as a whole, and what holds of every run;
- `history`, `engine`, `repl`, `server`, `stats`: conversations on disk, the server as
  a child process, the terminal chat, the answers of the web server, the counters.

`app/` is the program around it: sockets, files, processes, floating point. The page
of the web chat is read from `assets/index.html`.

What is believed without proof: that `serde_json` reads a text the same way each time
and hands out what a value holds, and a few functions of the standard library
(`String::push`, `String::from_utf8_lossy`, the clocks).
