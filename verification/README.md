Mike's Crawler
==============

A web server that crawls the domain of a URL, with its decisions verified by Verus.

- `/crawl/{seed}` crawls a domain starting with `{seed}`, and returns information
  about all the links on every page reachable from it.
- `/crawl/{seed}/list` lists all the URLs that can be found.
- `/crawl/{seed}/count` counts them.
- `/status` shows the crawls in progress.

The crawler respects the robots.txt of the domain. The running server has
interactive API docs on `/swagger/index.html`.

Layout
------

`src/` is the verified library.

- `crawl_model` is a crawl as a state machine, and `crawl_laws` what holds of every
  crawl: it fetches nothing twice and nothing that the robots.txt excludes, it ends
  with a record of exactly what can be reached, and the order in which responses
  come in does not matter.
- `crawler` and `prod_crawler` implement one crawl, and all crawls in progress.
- `link_extractor` finds the links of a page; `html` has its tokens from html5ever.
- `http_client` decides what a response amounts to, from its status and headers.
- `urls` and `robots` stand on url and robotstxt.
- `api` and `serializers` turn the outcome of a crawl into an answer.
- `better_logging` has the ids of requests, the log lines and the log filter.

`tests/` runs the library with the real outside crates. `app/` is the server itself:
Rocket, reqwest, slog and the loop that performs what the library asks for.
