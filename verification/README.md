# fsl

Failang (FSL) is a small scripting language written in Arabic or English
(`دع`/`let`, `اطبع`/`print`, `دالة`/`fn`, ...), with blocks marked by
indentation.

`src/` is the library, verified with Verus:

- `compiler::lexer` turns source text into tokens, tracking indentation with
  `Indent`/`Dedent` tokens; `compiler::parser` is a recursive-descent parser
  that collects every error it meets; `compiler::frontend::compile` runs both.
  Each is specified against a mathematical definition of what it reads
  (`lex`, `parse_tokens`), and the lexer's output is proved to end with `Eof`
  and to balance its blocks.
- `tools::formatter` spaces operators outside string literals and trims
  lines; `pattern` holds the text searching and replacing it is built on.
- `compiler::interpreter::builtins` holds the text builtins of the language
  and the table of builtin names; `stdlib` the textual standard-library
  bridge; `diagnostics` the bilingual error texts; and `cli` the reading
  of the command line and of shell input.

`app/` is the `fsl` program around it: the command line, the interactive
shell, file access, the evaluator, whose numbers are `f64`, and the values
and channels shared between threads.
