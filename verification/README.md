# gitblog

Builds a static blog (HTML, an Atom feed and optionally Gemini pages) from the Markdown files of a
git repository, and can push the result to storage.

The library under `src/` is written in Verus: each function carries a `requires`/`ensures`
contract that Verus proves.

- `blog_post`, `store_index`, `assoc`: posts and the store that finds them by path and by git blob
  id; the store's indexes are a type invariant, and `law_*` proof functions state what a read gives
  back after a write.
- `git`: the tree diff between two commits and how a diff or a commit history updates the store
  (renames keep the publication date, published drafts are dated at their commit, deleted sources
  leave the store).
- `markdown`, `gemini`, `html`, `feed`, `xml`: front matter, titles and summaries, Markdown to
  Gemtext, the values handed to the HTML templates, and the Atom feed and its XML.
- `site`, `push`, `repo_uri`, `user_profile`: reading back a published feed, which remote files a
  push deletes, repository URLs, and the GitHub profile metadata.
- `text`, `order`, `paths`, `time`: character sequences, string and path order, path pieces and
  timestamps.

Calls into `chrono`, `comrak`, `gix`, `ignore`, `quick-xml`, `regex` and `reqwest`'s URL type
sit behind small trusted wrappers whose contracts name or state what the crate returns.
Verified functions do not panic, with one assumption left open: rendering Markdown to HTML goes
through `comrak::markdown_to_html`, and nothing here shows that it returns on every text.

`app/` is the program around the library: command-line arguments, the file system, the network,
git repositories on disk, template rendering and uploads. `tests/` holds the tests.
