# kubectl-ditto

A kubectl plugin that generates YAML for **any** Kubernetes resource or CRD using the cluster's
OpenAPI schema and smart defaults. What it decides and computes is a library that Verus verifies.

## Usage

```bash
# Generate a Deployment
kubectl ditto deployment -n my-namespace my-app

# Generate a CRD resource
kubectl ditto certificates.cert-manager.io -n my-namespace my-cert

# Interactive mode — prompts for required values, with --full for all
kubectl ditto deployment -n my-namespace my-app -i

# Required fields only, all fields, no description comments
kubectl ditto deployment my-app --minimal
kubectl ditto deployment my-app --full
kubectl ditto deployment my-app --no-comments
```

## Layout

| Place | What it holds |
| --- | --- |
| `src/cli.rs` | the command line, and which client the arguments ask for |
| `src/discovery.rs` | which resources a cluster serves, and which of them a name means |
| `src/schema/` | the fields of a resource: which requests lead to its schema (`fetch`), which definition is its own (`lookup`), and how OpenAPI v3 (`v3`, `openapi`) and v2 (`v2`) describe fields (`field`) |
| `src/interactive.rs` | the dialogue that fills in fields |
| `src/generate.rs`, `src/yaml.rs` | the document: what is in it, and its text |
| `src/json.rs`, `src/value.rs` | JSON values, and the bridge to those of `serde_json` |
| `src/text.rs`, `src/request.rs` | text, and requests to the API server |
| `app/` | the program: it sends the requests, shows the notices, asks the questions |
| `tests/` | what the library does on given values |

## How the library meets the world

The library makes no request and shows no prompt. It says what is to be asked next and is told what
came back:

- `Discovery` and `Fetch` say which request is to be sent, and take the response.
- `generate_yaml` is given all answers so far and says what is to be shown and asked next, or returns
  the document. With more answers the dialogue only ever goes on, which is proved.

## What is not proved

Where the library calls `serde_json`, `openapiv3`, `indexmap`, `http`, `clap` or the standard library
beyond what `vstd` specifies, a small wrapper makes the call. The contract of each is believed; its
comment says what it claims. Results that take the source of a crate to describe have names
(`compact_text`, `read_document`, `read_line`, `lowercase`, …), and the contracts of the callers speak
of them.
