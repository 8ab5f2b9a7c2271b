# rich_tui_core

The verified core of a rich terminal client for Codex, written in Verus.

`src/` holds the logic, each function with a contract that Verus proves:

- `followup_directives`, `directive_attributes`: `:codex-followup[label]{...}` lines rewritten
  into Markdown bullets, and the prompt they carry.
- `followups`: the selection view of suggested follow-ups and composer prefilling.
- `local_auto_router`, `endpoint`: the opt-in `Auto` model routing with a local classifier,
  restricted to plain-HTTP loopback endpoints.
- `auto_selection`: each thread's `Auto` versus manual selection.
- `markdown_code_blocks`: the block that `/copy-code` copies.
- `code_panel`: hard wrapping of syntax-highlighted code rows.
- `oauth_transport`: the pending rejected access token that pauses SSE reconnects.
- `text`: characters, whitespace and trimming shared by the modules above.

`app/` performs the I/O around the library: HTTP requests to the classifier, the selection
files, `ratatui` lines, and the MCP OAuth transport wrapper.
