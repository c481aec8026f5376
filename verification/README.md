# xur

A small expression language for quick data manipulation at a prompt, in
which everything is a function and every function can be applied partially.

- `src/lexer`: the tokenizer. Character classes come from `unicode-xid` and
  from `char`; every token is tied to a spec function of the source text.
- `src/ast`: the parser, from tokens to statements, with its laws (every
  statement reads a token; `a f b` is `f(a, b)`).
- `src/xurvm`: values, callables and the machine that evaluates statements,
  with the evaluation rules as spec functions and the laws of the language
  (the `.` function, partial application, parameter sets, read after write).
- `app/main.rs`: a small driver that tokenizes, parses and runs a sample.
