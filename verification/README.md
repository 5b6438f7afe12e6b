# bunnylol

A search redirector. A query whose first word is the shortcut of a bookmark leads to that
bookmark's URL, the rest of the query filled (percent-encoded) into the URL of one of its
commands; `/help` leads to the bookmark list; anything else leads to a Google search.
Bookmarks and their commands live in a JSON file and are managed through a small JSON API.

- `src/` is the library, verified with Verus: query splitting, percent-encoding, URL
  construction, the bookmark store and its changes, and what each web route decides.
- `app/` is the web server around it: routes, templates, reading and writing the JSON file.
- `tests/` runs the library on concrete inputs.
