# podman_compose_mgr

A manager for podman compose projects: it finds the compose, quadlet,
Docker and Make files under a directory, asks about refreshing the images
of compose services, and keeps secret files in sync with Azure Key Vault
and S3-compatible object stores (Cloudflare R2, Backblaze B2).

The library in `src/` is verified with Verus. Its functions state in
`requires`/`ensures` what they compute, over sequences, maps and the views
of its types; laws that span several functions are public proof functions
named `lemma_*`.

- `text`, `order`, `sorting`, `assoc`, `utf8_len`: character-level string
  work, orders, stable sorting and small association tables.
- `makefile`, `quadlet`, `discovery`: reading Makefile targets and the
  images their recipes tag, quadlet files, and the bookkeeping of a scan.
- `prompt`, `prompt_check`: laying prompts out in the terminal's width and
  reading answers.
- `rebuild`, `run`, `podman`, `cmdline`: which services are asked about,
  the podman commands that follow, and how a run is started and logged.
- `secrets::*`: records of secret files, where each goes, how uploads and
  downloads are planned, what stored answers mean, how records merge.

Calls into other crates (regex, chrono, hashing, base64, hostname, paths)
sit behind small wrappers whose contracts name or state their results.

`app/` is the program around the library: arguments, the directory walk,
the terminal, podman processes and the network clients. `tests/` runs the
library on concrete values.
