# eu4save

A library for Europa Universalis IV save files, written in Verus: the
logic carries contracts that Verus proves.

- `src/` is the verified library. It recognises the save encodings (plain
  text, binary, and zip archives of either), lexes the binary token
  stream, decides how each binary token is written when a save is melted
  to text, decodes the game's strings, classifies the keys of the dated
  histories, follows countries through their tag switches, and answers
  questions about a parsed save (players, the countries they played,
  great powers and the countries they grew out of, yearly statistics,
  buildings, mana spent).
- `app/` holds what the library cannot: reading files, the serde side of
  parsing a save, jomini's token reader and text writer driven by the
  library's melting decisions, token tables read from the file that `EU4_IRONMAN_TOKENS`
  names, and error messages.
- `tests/` exercise the library from outside.

The calls into other crates (jomini's dates, string decoding and text
parser, rawzip, flate2, miniz_oxide) stand behind small functions whose
contracts say what those crates do. Where a result would take pages to
state (the records rawzip reads from an archive, what a deflate stream
inflates to, whether jomini parses a document), the contract gives it a
name, and the library's contracts are proved over those names.
jomini's token reader and text writer, which drive a melt over a stream,
are used from `app/`.
