# headerdoc

Turns the documentation comments of C headers into Markdown pages.

A header's text is scanned for `/** ... */` comments and the declaration that
follows each of them (`scanner`). Each block is read into a documented
function, enumeration or structure (`parser`): the comment's tags (`@brief`,
`@param`, `@return`, `@note`, `@see`, `@author`, `@since`, `@version`,
`@date`) and the declaration's names and types. Each item is then rendered as a
Markdown page with front matter (`writer`). `discovery` decides which header
files are documented and where their pages go.

- `src/` is the verified library. `text` holds the character-level model
  (trimming, searching, splitting, lines, replacing, decimal numerals, byte
  offsets) and its verified implementations; every public function states its
  result exactly in terms of these spec functions. Public proof functions named
  `law_...` state properties of the library as a whole.
- `app/` is the command-line program: it walks the library directory, reads
  the headers and writes the pages.
- `tests/` runs the library on concrete inputs.
