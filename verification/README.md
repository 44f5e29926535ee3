# bsl_context

Checks code in the 1C:Enterprise language (BSL) against what the platform and a configuration
offer: unknown methods and types, names that shadow read-only members of a context, references
to objects that a configuration does not have, and mistakes in the query language (SDBL). The
program around it answers such questions over MCP.

The library under `src/` is verified with Verus. What it can say nothing about for certain it
does not report: the functions named `law_...` state this, and the other properties that span
several functions.

- `text`, `distance`, `fuzzy`, `paths`: characters, edit distance, close names, module paths.
- `sdbl`: lexer, tree and parser of the query language, and what holds of lexemes and of joined
  texts.
- `platform`, `symbols`, `facts`, `findings`: what is known of the platform, of a configuration
  and of a parsed module, and what is reported.
- `scope`, `declarations`, `directives`, `context_names`, `config_objects`, `query_rules`,
  `check`, `expression`, `module`: the checks.
- `lite_index`: an index of a dump of a configuration, made from its modules and descriptions.
- `server`: settings, the slots of platform versions, the state of a server, the rebuilding of
  an index.

Calls of `regex`, `quick_xml` and of a few functions of `std` stand behind small functions
marked `external_body`; the comment above each says what is taken on trust.

`app/` holds the program: command line, files, SQLite, HTTP and MCP.
