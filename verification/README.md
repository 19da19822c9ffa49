# forja

A command-line tool that collapses repetitive git sequences into single,
safe commands (`init`, `show`, `doctor`, `setup`, `sync`, `cleanup`), with
its logic written and proved in Verus.

## Layout

- `src/` — the verified library (`forja_core`).
  - `config/` — validation of a parsed `forja.toml`: every problem is
    collected, defaults are filled in, unknown keys become warnings.
  - `sync.rs`, `cleanup.rs`, `setup.rs`, `doctor.rs` — each flow is a spec
    function from the outcomes of the commands run so far to the next
    command or the final result (`*_next`), an executable step function
    proved equal to it (`*_step`), and a driver that sends each command the
    step asks for to a `CommandRunner` and feeds its outcome back. A runner
    keeps a log of its exchanges (`CommandRunner::log`), and each driver's
    contract says that the log grows by exactly the exchanges of one run of
    the flow (`exchanges`, `followed`) and by nothing else, and that the
    result is what `*_next` gives at the end of that run. The laws of each
    flow (what it never runs, in what order, when it stops, what it
    reports) are public proof functions named `law_*`; those whose names
    speak of sending state them of the exchanges, so of what a driver sends.
    Each module also renders what its command prints.
  - `show.rs` — the text of `forja show`.
  - `error.rs` — the errors, their exit codes and their messages.
  - `text.rs` — the string functions the flows need (trimming, lines,
    substring search, decimal printing, string order), each with a spec.
  - `patterns.rs` — the two regular expressions, matched by the `regex`
    crate behind trusted wrappers.
- `tests/` — the library's tests, with scripted command runners.
- `app/` — the `forja` binary: argument parsing (clap), reading and
  parsing the config file (toml, serde), running git through
  `std::process`, the terminal prompt, writing files, printing the text
  the library renders, and JSON output.
