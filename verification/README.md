# pku3b command layer

The command layer of `pku3b`, a command-line client for PKU Blackboard, as a
verified library.

- `src/` is the library, checked by Verus: title matching (`query_match`),
  stable sorting (`sorting`), JSON values with sorted members (`json`), the
  Markdown renderer (`markdown_output`), the result envelopes, the course-table
  formatter and its calendar fallback, the per-command record building,
  filtering, ordering and text output (`cmd_*`), and the login and cache
  decisions (`cli`). Each public function states its result in its contract;
  the laws that span functions are public proof functions.
- `app/` is the shell around it: clap argument parsing, serde serialisation,
  terminal styles, standard output, the file system and the prompts.
- `tests/` runs the library on concrete inputs.
