# Weaver

A logo discovery tool: it reads domains, crawls each of them for logos (icons,
`og:image`s, images that speak of a logo), hashes what it finds, and keeps a
progress log from which a CSV file is made and from which an interrupted crawl
goes on.

The library under `src/` holds everything that the tool knows and decides, and
is verified with Verus. The program under `app/` reads and writes files, fetches
with tokio and reqwest, runs the threads, and asks the library what to do.

| module | what it holds |
| --- | --- |
| `text`, `string_map` | text as characters; maps and sets of strings |
| `messages`, `error` | what the parts exchange, and what errors say |
| `log_entry`, `progress` | the entries of the log, and its replay |
| `export` | the CSV file |
| `url_utils`, `document`, `heuristics` | links, pages, and which images may be logos |
| `worker` | searching a page, hashing a logo |
| `coordinator` | the state of every domain, the limits, the end of the crawl |
| `async_executor`, `fetch` | what is fetched, and how a fetch is answered |
| `coordinator_laws`, `executor_laws`, `recovery_laws` | what holds of these, whatever happens |

Each state has a view, and each function is specified by what it does to views.
Laws are the public proof functions whose names begin with `law_`. What other
libraries compute (`url`, `scraper`, `sha2`, `csv`, `dashmap`) is called through
small functions whose contracts are taken on trust; each says what it claims.
