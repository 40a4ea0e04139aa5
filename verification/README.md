# fixtures

Generates git fixture repositories from declarative JSON definitions, for the
integration tests and benchmarks of release tooling.

The crate is split in two:

- `src/` is the verified library. It holds the definition types, the checks
  of a definition and their report, the command-line parser, the seeded generator of
  synthetic commits, the dependency graph of bulk monorepos, and the incremental
  tree builder. Generating a fixture is planned there: `explicit::plan_explicit`
  and `bulk::plan_bulk` give every file to write, commit to make, tag to place
  and branch to create, in order, each against a specification of the plan.
- `app/` is the program around it: it reads the definitions, carries the plans
  out with `git2`, writes `.expect.toml` with `toml`, and prints the reports.

Run the generator with `--definitions <DIR>` and `--output <DIR>`.
