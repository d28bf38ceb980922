# myshell

A small interactive shell. The library under `src/` holds its logic, each
function with a contract proved by Verus:

- `tokenizer` — splitting a line into words (quotes, escapes, an unquoted
  `|` as a word of its own), words into pipeline stages, and the longest
  common prefix of a list of words;
- `command` — the command of each stage: name, arguments and redirections
  (the word right after an operator is its file; operators and their files
  leave the arguments, other words stay; each stream's last operator
  decides);
- `pipeline` — where each stage's input and output go, by one rule for a
  lone command and for every stage of a pipeline, builtins and external
  commands alike;
- `external` — the places an external command is looked for on the search
  path, and which of them is taken;
- `helper` — tab completion of the word under the cursor: command names
  (builtins and executables on the search path) and paths (the entries of
  the word's directory);
- `history_helper` — the command history and its file format;
- `builtins` — `cd`, `echo`, `exit`, `help`, `history`, `pwd` and `type`;
- `order`, `text` — string order and character-level helpers.

One item is trusted rather than proved: `text::push_char`, which appends a
character to a `String` by calling `String::push` (vstd gives that method no
contract); its contract says that the character is appended.

The program under `app/` reads lines with `rustyline`, lists directories,
runs processes and pipes, and reads and writes files; it asks the library
what to do.
