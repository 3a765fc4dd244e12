# openforge

OpenForge patches the CurseForge desktop client (an Electron application) to
remove its advertising, telemetry and update endpoints, and carries a small
mod-manager client. The logic lives in a library whose behaviour is stated in
`requires` / `ensures` contracts and proved with Verus.

## Layout

- `src/` — the verified library.
  - Bytes and text: `text`, `chars`, `number`, `ascii`, `search`, `literal`,
    `digest`.
  - The application archive: `asar` (header framing and parsing), `pack`
    (offset assignment), `extract` (extraction plan), `listing`.
  - Patching: `rules` (the rule table), `pattern` (regular expressions through
    the `regex` crate), `patch` (applying rules to in-memory files), `json`
    (locale rebranding), `brand` (what rebranding leaves in a
    document), `integrity` (the embedded header hash), `fuses`
    (Electron fuse wire).
  - Building and installing: `portable`, `setup`, `icon`, `inspect`,
    `console`, `installer`.
  - The mod client: `api`, `models`, `games`, `resolver`, `paths`, `config`,
    `modpack`, `launcher`, `cli`, `error`.
- `app/` — the two command-line programs around the library: file and network
  I/O, argument parsing, serde and TOML, image resampling for icons and the
  Windows resource and console calls.
- `tests/` — tests of the library on concrete values.
