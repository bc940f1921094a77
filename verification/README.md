# frontmatter-mcp

Reads and patches the YAML front matter of Markdown files. The body of a file is never parsed or
changed, keys keep their places, and new keys are appended. What is written of keys that are not set
stays as it is, comments included, wherever the patched front matter then reads as it should; where
it does not, all of it is written anew.

The library is written in [Verus](https://github.com/verus-lang/verus): every function states what
it does in `requires` and `ensures`, and the statements are proved.

## Layout

| Module        | What it holds                                                          |
| ------------- | ---------------------------------------------------------------------- |
| `document`    | splitting a document into front matter and body, and joining the two   |
| `frontmatter` | front matter as text and as a mapping                                  |
| `layout`      | the parts of front matter at its lines                                 |
| `flow`        | the parts of front matter that is a mapping in braces                  |
| `splice`      | patching front matter part by part                                     |
| `meta`        | reading, patching and bumping a document                               |
| `laws`        | what reading, writing and bumping have to do with each other           |
| `windows`     | documents with line breaks of Windows                                  |
| `entries`     | the entries of a mapping: finding, setting, setting several            |
| `value`       | YAML and JSON values, and what they are                                |
| `convert`     | from JSON to YAML and back                                             |
| `number`      | numbers of YAML and JSON                                               |
| `classify`    | the types that are told apart among values                             |
| `zone`        | what may follow the seconds of a time                                  |
| `semver`      | versions of three components, and how they are raised                  |
| `yaml`, `json`| the boundary to `serde_yaml` and `serde_json`                          |
| `clock`       | the boundary to `chrono`: the local time                               |
| `request`     | what can be asked of a file, and how it is answered from its text      |
| `tools`       | the tools of the MCP server, and what a call of one asks for           |
| `cli`         | the command line                                                       |
| `probe`       | the answer to clients that probe a server before they initialise it    |
| `path`        | where the file of a request is                                         |

`app/` is the program around the library: files, the environment, the terminal and the server.

## What is taken on trust

The contracts of the functions marked `#[verifier::external_body]` and of the
`assume_specification` items are believed. They stand in `text`, `number`, `yaml`, `json` and
`clock`, and each names the outside function that it speaks of.

A value is called plain where no key in it is a sequence, a mapping or tagged, no tag has other
characters than letters and digits of ASCII, hyphens and underscores or stands behind another tag,
and nothing is nested deeper than `serde_yaml` reads. Plain front matter can be written, and reads
back as the same entries.
