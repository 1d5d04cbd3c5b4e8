# privguide

Compliance analysis of system descriptions. Descriptions (JSON or YAML) and
the syntax trees of source files are turned into RDF quads and loaded into an
in-memory oxigraph store; SPARQL queries kept in an analysis directory are
then run as reasoner rules, regulations, attack trees, requirements and
extra-data queries, and the outcomes are gathered into a report. Graph query
results can be turned into a JSON tree that drives code generation.

## Layout

- `src/` is the library, verified with Verus:
  - `text`, `string_map`, `json`, `rdf`: plain-data models (characters,
    string-keyed maps, JSON values, RDF terms and quads);
  - `query`: query metadata read from the top comment of a query, queries,
    attack trees and their evaluation;
  - `loader`, `source_code`: the translation of descriptions and syntax trees
    into quads;
  - `database`: the database over an oxigraph store;
  - `export`, `graph`: JSON trees and labelled graphs of query triples;
  - `codegen`: rendering the entries of a code generation tree through tera
    templates;
  - `workspace`, `analysis`, `report`: the layout of an analysis directory,
    the steps of an analysis and its report.
- `tests/` runs the library on concrete inputs.
- `app/` is the command-line program: argument parsing, file system access,
  JSON/YAML parsing, tree-sitter parsing, reading the template files and writing the generated files and the report.
