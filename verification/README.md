# spl_lib

Serverless programs over JSON, with their behaviour proved in Verus.

- `src/json.rs`: JSON values (objects sorted by key, doubles held as their
  bits) and their mathematical model.
- `src/json_transformers/`: the language of JSON transformers (`$in.x`,
  `$in.map(..)`, literals, comparisons): syntax, parser and evaluator.
- `src/jtlib/`: the first form of transformers and its parser.
- `src/llspl/`: LLSPL programs (`pure`, `project`, `download`, `split`,
  `if`, `;`): syntax, parser, the evaluator, the collection of programs the
  server keeps, and the addresses of Cloud Functions.
- `src/simple/`: the smallest language, functions in sequence.
- `src/lexer.rs`: the pieces of text the parsers share.

Evaluation never does outside work itself: given a program, its input and
the answers to the work asked for so far, it gives the result or the next
piece of work (invoke a function, fetch an object, download a URL, read
JSON text).  `app/` is the HTTP server that does that work and feeds the
answers back.
