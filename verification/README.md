# rush-qdrant

Code search for editors and agents: a local program that speaks JSON-RPC over standard
input and output, keeps a hosted index up to date with a directory, and answers the tools
`semantic_search` and `view_chunks`.

`src/` is the library. It holds the decisions of the program, written in Rust and proved
with Verus against the contracts beside it. What rests on floating-point numbers, the
order of scores and how they are written, is left to `app/`.

| Module | What it decides |
|---|---|
| `stdio`, `protocol`, `describe` | what a request is answered, and what the index is asked on the way |
| `selector`, `report` | what a selector means, and how results and chunks read |
| `api_client`, `url` | the requests to the index, and what a refusal says |
| `crawl`, `paths`, `catalog` | what of a directory is indexed, under which names, and in which order |
| `watcher` | when a watched directory is indexed again |
| `embedder` | how texts are grouped into batches, and what a reply leads to |
| `dump`, `audit` | what is printed when chunks are inspected |
| `json`, `text` | values and strings, which the others are stated over |
| `outside` | the functions of other crates, with what is believed of them |

The library does no I/O. Where the outside world has a say, it hands out the next action
and takes back what came of it: `stdio::Step`, `crawl::CrawlStep`, `embedder::EmbedStep`.
The proof functions whose names start with `law_` state what holds of whole dialogues.

`app/` is the program around it: arguments, files, processes, HTTP and serialisation. The
engine that cuts source files into chunks comes with the build, behind the trait
`engine::Engine`. This tree holds none, so built from it alone the program answers searches
and views, and says that it cannot index or inspect.

`tests/` runs the library on concrete values.
