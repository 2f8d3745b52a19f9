# standard-reader

A reader for [standard.site](https://standard.site) publications on the AT Protocol: it
follows publications, fetches and decodes their documents, keeps them in a cache for
offline reading and shows them in a terminal.

## Layout

- `src/` is the library. Every item in it is verified with [Verus](https://github.com/verus-lang/verus):
  what a function returns or changes stands in its `ensures`, over spec functions and views.
  - `model`, `json`, `atp`, `url`, `text`, `table`: documents, JSON values, AT-URIs and
    requests, strings, a map keyed by strings.
  - `decode`: the block formats of the publishing platforms, Markdown and HTML.
  - `read`: identities, records, pages of records and documents, over a `Transport`.
  - `search`, `store`, `memstore`, `persist`: what the cache holds and how it is searched,
    the cache in memory, and the order in which it is written out.
  - `account`, `auth`, `auth_provider`: sign-in state and the one grant that is accepted.
  - `worker`: the commands that fetch, follow, reconcile and search.
  - `app`, `input`, `prefs`: the state machine behind the screen.
  - `ui`: themes, documents as lines, the layout of panes, images and links.
  - `print`, `report`: the printed reports; `transport`, `browser`: rules of the two shells.
- `tests/` runs the library, with the outside crates linked.
- `app/` is the `sr` program: the terminal, HTTP, the cache file, OAuth, and the decoding of
  images, which the worker asks for and is told the outcome of.

## What is trusted

The outside functions that the library calls stand behind small wrappers marked
`#[verifier::external_body]`; the doc comment of each names the function and says what is
believed of it. Results that take pages to describe (a parsed JSON document, the events of
a Markdown text, a wrapped paragraph) are named, and the contracts speak of the names.

`Transport`, `Store`, `FrontendStore`, `AuthProvider` and `ContentDecoder` are for shells
to implement. What a network or an authorization server answers is a relation of which
nothing is known.
