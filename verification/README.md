# ds_verify

The decision logic of a harness that has goals verified by a panel of adversarial
skeptics, and of the credentials that such a harness needs: everything that can be
decided without touching a file, a terminal or the network, with its behaviour
stated in contracts and proved by Verus.

- `src/` is the library.
  - `plan`, `facets`, `sources`: what a goal is about and what its plan promises.
  - `scope`, `manifest`, `snapshot`, `paths`, `digest`: what a round reviews, and
    whether it stays what it was.
  - `runtime`, `prompt`, `skeptic`, `subagent_failure`: one skeptic, from the prompt
    to the end of its run.
  - `verdict`, `receipts`: what a verdict has to say to be taken.
  - `panel`, `fingerprint`, `stage`: what the verdicts amount to.
  - `api_key`, `config_doc`: saving, finding and clearing the API key.
  - `chatgpt_auth`, `chatgpt_catalog`, `model_entries`, `json_doc`: the optional
    ChatGPT subscription.
  - `text`: strings as sequences of characters.
- `app/` is the harness around it: files, processes, terminals, HTTP.
- `tests/` runs the library.

What crates outside the library do is stated in the contracts of small wrappers next
to the code that calls them; each names the function it stands for. Properties that
span several functions are proof functions whose names begin with `law_`.
