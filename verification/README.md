# domino

Semantic change detection for monorepos: which projects of a workspace does a diff affect?

The crate has two parts.

- `src/` is the library, written and proved in Verus. It reads no file and starts no process. Callers
  hand it texts, listings of files (`files::FileTree`) and the replies of commands, and it says what
  follows from them.
- `app/` is ordinary Rust around it: it reads the workspace, runs git, asks the module resolver and
  writes the report.

## The library

| Module | What it decides |
| --- | --- |
| `git` | which files and lines a diff touches, and which git commands tell |
| `lockfile` | what changed between two lockfiles, and which direct dependencies that affects |
| `named_inputs` | which changed files invalidate every project, and which count for nothing |
| `workspace` | which projects a workspace has |
| `semantic` | what files import and export, what an import stands for, who uses a symbol |
| `report` | the report as a page, a graph and a JSON document |
| `profiler` | counters and their report |
| `text`, `paths`, `files`, `collections`, `json`, `json_text`, `yaml`, `captures`, `glob_match` | what the others are built on |

A question that takes several commands, such as "which files changed since `origin/main`?", is a
function of the replies so far. It returns either the next command or the answer, so that every path
through the conversation is covered by one contract.

## Reading the contracts

Texts are sequences of characters, maps and sets are `Map` and `Set`. Each function's `ensures` names
a spec function that says what the result is; the laws that hold across functions are the public
proof functions, most of them at the end of their modules and in `lockfile::laws` and
`report::safety`.

What parsers, regular expressions and glob patterns make of a text is not written out. It has a name
(`json_document`, `yaml_document`, `yaml_lists`, `syntax_of`, `first_groups`, `groups_of_all`, `is_glob`,
`glob_matches` and others), and the contracts say what the library does with it.
