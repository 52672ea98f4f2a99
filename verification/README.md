# subruster

Subdomain enumeration for a domain: brute-force guessing against a word list,
searches of public DNS and certificate sources, and a recursive search of web
page content for names under the domain, followed by resolution of every name
found and a check of which ones serve the web.

The library in `src/` is verified with Verus. It holds everything that is
decided or computed:

- `text`: the lexicographic order of strings (a proven strict total order),
  decimal and hexadecimal text of numbers.
- `sorted_set`: sorting a list of names and dropping repeats, with the proof
  that the sorted, repeat-free form of a set of names is unique.
- `pattern`: regular-expression matching through the `regex` crate.
- `http_operations`: the requests each search sends, how an answer is read,
  and which names the answers yield. Requests are performed by a `fetch`
  function that the caller passes in.
- `address`: IP addresses and their usual text form.
- `session_manager`: the state of a run and the steps that grow it
  (merging names, the recursive content search, resolution results).
- `report`: the printed summary, the report file, and the JSON report.

`app/` is the command-line program: option parsing, the HTTP client
(`reqwest`), DNS lookups (`trust-dns-resolver` on `tokio`), thread pools
(`rayon`), file output, and JSON serialisation (`serde_json`).
