# complex_code_spotter

Extracts snippets of code deemed complex according to the cyclomatic and
cognitive complexity metrics. The source files are parsed by
`rust-code-analysis`; every function space whose metric value, or the largest
value among the spaces it holds, exceeds a threshold gives a snippet made of
its lines. The snippets are written as json, markdown or html files.

## Layout

- `src/` is the library, verified with Verus:
  - `metrics.rs`: the metrics, the threshold rule and their names;
  - `space.rs`: the tree of function spaces and the languages, with the calls
    into `rust-code-analysis`;
  - `text.rs`: decoding source bytes, splitting them into lines and taking
    line ranges;
  - `snippets.rs`: the snippets of a space tree and of a source file;
  - `files.rs`: glob sets (`globset`) and the choice of the files to analyse;
  - `output.rs`: output formats, output file names, the sorted html index and
    the order of the html sections;
  - `pages.rs`: the markdown, html and index pages, rendered from templates
    (`minijinja`);
  - `producer.rs`: the `SnippetsProducer` settings and the decisions of a run;
  - `error.rs`: the error type.
- `app/` is the program around it: command line (`clap`), the walk of the
  source tree and the threads (`walkdir`, `crossbeam`, `rayon`), reading
  files, and writing the pages and the json files (`serde_json`).
- `tests/` holds the tests of the library.
