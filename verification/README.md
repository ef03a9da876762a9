# habr_reader

A reader for articles of habr.com, built around a verified library.

- `src/` is the library, verified with Verus:
  - `request`: the API requests (URLs, query parameters, headers);
  - `hub`: hubs and the hub list, ordered by title;
  - `article`: article descriptions, the list data shown for each, and the
    data of the article view;
  - `content`: the paragraphs, headers and images of an article, extracted
    from its HTML;
  - `html`: the document tree of an HTML fragment, built from a depth-first
    walk over the tree that `scraper` parses;
  - `text`: trimming, joining, decimal rendering and ordering of text;
  - `time`: publication times in the machine's time zone (`chrono`);
  - `image_data`: decoded and blank images (`image`).
- `app/` is the program around it: the HTTP client (`reqwest`, `tokio`), JSON
  decoding (`serde`), and a console front end that calls the handlers of the
  reader's window.
- `tests/` runs the library on concrete inputs.
