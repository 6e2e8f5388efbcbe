# dota_tools

A desktop tool that copies the Dota 2 settings of one Steam account to another,
and shows how each account has behaved in its recent matches.

- `src/` is the library, verified with Verus: finding Steam's user data and its
  libraries, reading accounts, conduct summaries and public profiles, listing
  and searching the accounts, and copying settings. It does no input or output:
  it is given facts, or asks for them one question at a time.
- `tests/` runs the library.
- `app/` is the program around it: the window, the disk and the network.

What is taken on trust stands in `src/pattern.rs` (searching by regular
expression) and at the top of `src/text.rs` (lower case, numeric characters,
appending a character).
