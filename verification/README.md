# init-anything

A tool that initializes projects from templates and runs named command
shorthands, driven by a template's `init-anything.json`.

- `src/` is the verified library: splitting command lines into arguments
  (`%20` keeps a space inside one argument), separating flags from
  arguments, substituting `$variable` references from `--variable=value`
  flags and defaults, validating configurations, and planning which
  programs the `init` and `run` modes start, in which order and how.
- `app/` is the command itself: it reads the templates and the
  configuration (JSON), asks which template to use, and starts the planned
  programs.
- `tests/` exercises the library on the configurations the documentation
  describes.
