# vtcode_runloop

The decision and text-shaping core of a coding agent's run loop, written in
Verus with its behaviour stated in `requires`/`ensures` contracts and proved.

- `src/` is the verified library: tool-name normalisation and code fences
  (`canonical`, `code_fence`), proposed-plan blocks in whole and streamed text
  (`plan_stream`, `plan_streaming`, `plan_display`), tool output shaping and
  routing (`output`, `spool`, `activity`, `trajectory`, `ls_styles`), the tool
  permission and hook approval prompts (`permission`, `hook_approval`,
  `overlay`, `limits`), the status line (`status`), the input queue (`queue`)
  and the settings palette over a settings tree (`settings_*`).
- `tests/` runs the library on concrete values.
- `app/` is the host glue: files, the clock, JSON and TOML values, terminal
  styles, and the loops that perform the I/O each verified step asks for.

Calls into `shell-words`, `hashbrown`, `unicode-width`, `serde_json` and
`toml` stand behind small trusted wrappers whose contracts say what those
crates' sources do.
