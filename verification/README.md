# Coventry course scraper

Collects structured course data from coventry.ac.uk. The rules of the scraper are a
library written in Verus; a small program around it does the network and file work.

## Layout

- `src/` is the verified library.
  - `schema`, `fields`: the record of a course and how its fields are filled.
  - `text`, `unicode`, `number`, `order`, `pattern`, `json`, `dom`: texts, numbers,
    sorting, regular expressions, JSON values and HTML elements.
  - `layer1`, `layer2`, `level`, `page`, `scores`, `english`, `intakes`, `duration`,
    `extractor`: what is read off a page, layer by layer.
  - `urls`, `sitemap`, `discovery`: which URLs are courses, and how they are found.
  - `fetcher`: retries, delays and `robots.txt`.
  - `summary`: what a run reports.
  - `text_laws`, `english_laws`, `record_laws`, `intake_laws`, `fallback_laws`: properties of the library
    as a whole. Properties of one module stand in that module, as proof functions whose
    names start with `law_`.
- `tests/` runs the library on concrete pages, texts and replies.
- `app/` is the program: the HTTP client, the browser, the output file. With the argument
  `--js-render` it renders pages that lack critical fields with headless Chrome.

## What is trusted

The library calls the `scraper`, `regex` and `serde_json` crates and a few functions
of the standard library. What it takes of them for granted stands in `dom`, `pattern`,
`json` and `unicode`, next to each call.

## Rules worth knowing

- A field that was not found is `NA`; a field that was found is never overwritten.
- A test score has one to three digits and at most one decimal place. A PTE score lies
  between 36 and 90.
- The scores of English tests stand in the fields on English. A sentence that holds such a
  score next to the name of its test is left out of every other field but the course
  name; a sentence that only names a test stays. The documents field takes the sentences
  that name a document.
- The score of an admission test stands in the sentence that names the test, before the
  first English test or score.
- A course page lies under `/course-structure/{level}/{faculty}/{slug}/` or, in the legacy
  scheme, under `/courses/{level}/{slug}/`; a legacy URL has a scheme.
- Intakes before 2025 are not listed, and those from 2025 on are kept.
- A course is collected once, whatever intake year its URL names; a sitemap URL that
  names a year is preferred.
- A page is requested at most four times. The delay doubles from half a second on, up
  to 16 seconds, unless the server asks for another one.
