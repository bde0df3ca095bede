# nb_client

A verified core for a Jupyter Server client and its `terminal` command.

- `src/` (verified with Verus) plans every request to the Jupyter Server
  REST API (method, URL, query, headers, JSON body), builds WebSocket URLs,
  takes apart `Set-Cookie` values for password logins, names notebooks after
  their file, and reads a remote terminal's output up to a done-marker.
  - `text.rs`: string operations stated over `Seq<char>`
    (replace, trim, prefix, last occurrence, splitting).
  - `client.rs`: `JupyterClient`, request planning, login steps.
  - `terminal.rs`: the command line typed into a terminal and the reading
    of its messages.
  - `notebook.rs`: reading the Contents API's answer for a notebook.
  - `server_url.rs`, `json.rs`: the calls into `url` and `serde_json`.
- `app/` is the `nb` program: argument parsing (clap), HTTP (reqwest),
  WebSockets (tokio-tungstenite), JSON decoding of kernel and session
  responses (serde), printing.
