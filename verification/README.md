# wikibot

Tools for maintaining a MediaWiki wiki (the German League of Legends wiki and the
Skylords Reborn card data), written in Rust and verified with Verus.

- `src/` is the verified library.
  - `json.rs`: a JSON value model (`Json`, with `JsonView` as its mathematical model),
    the lookups of `serde_json::Value` that the bot uses, and the in-place edits.
  - `client.rs`: the MediaWiki API client: endpoint, credentials, CSRF token, the forms
    it sends, and the login exchange as a state machine.
  - `http.rs`: the `reqwest` client that the wiki client carries, with the settings it
    was built with.
  - `json_text.rs`: reading JSON text into `Json` and writing it back, through
    `serde_json`.
  - `skylords.rs`: the card index built from the Skylords Reborn card base, and the
    cards ordered by name.
  - `card_data.rs`: reshaping the stored card data and recording upgrade locations.
  - `listing.rs`: paged `list=` queries and the infobox lists.
  - `upload.rs`: the parameters of file uploads.
  - `response.rs`, `error.rs`: reply and error types.
  - `text.rs`: string equality and order, substring search and decimal rendering.
- `app/` holds the I/O: the HTTP requests and reading and writing files.
- `tests/` runs the library on concrete values.
