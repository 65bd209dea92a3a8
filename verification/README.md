# rtwkit

Verified core logic of the rtwKit extension packages: the package manager
(repository settings, registry validation, catalog merging, dependency
resolution, install planning, the manager's state machine and its UI surface),
the web runtime's HTTP/WebSocket handling, Tavern character-card import and
export, and the chat (model, projection, system rules, UI) and
character-library data rules.

The library is written in Verus, and Verus proves the contracts of its
functions; most small helpers carry contracts too. Calls into outside crates
(`semver`, `sha1`, `sha2`, `base64`, `crc32fast`, `flate2`, `httparse`,
`serde_json`) sit behind small trusted wrappers whose contracts say what those
crates' sources and documentation show.

Layout:

- `src/` — the verified library, one module per area (`registry`, `catalog`,
  `resolve`, `order`, `plan`, `install`, `manager`, `listing`, `dispatch`,
  `install_flow`, `surface`, `screens`, `web`, `tavern`, `tavern_card`,
  `chat`, `chat_view`, `chat_system`, `chat_ui`, `charlib`, and the helpers
  `text`, `version`, `codec`, `messages`).
- `tests/` — tests run against the compiled library.
- `app/` — host-side glue: serde documents (registry index, stored settings)
  and the JSON wire form of UI surfaces.
