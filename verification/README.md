# draffity_services

The service layer of the Draffity writing studio, verified with Verus.

- `src/` is the verified library: prompt builders and manuscript
  validators, the Markdown/HTML/PDF/EPUB/DOCX exporters and the Markdown
  and DOCX importers, footnotes and media bundling, the project memory
  used for AI context, backup naming and retention, writing statistics,
  citations and bibliography normalisation, secret storage, the retry and
  streaming rules of the OpenRouter client, and the application's
  directory layout. Calls into outside crates (chrono, pulldown-cmark,
  html2md, scraper, roxmltree, zip, docx-rs, epub-builder, biblatex,
  base64, sha2, uuid, keyring) go through small trusted wrappers whose
  contracts are documented where they are declared.
- `tests/` exercises the library from outside.
- `app/` is the unverified shell around it: files and directories, the
  HTTP client, JSON forms of the library's types, and the parts that
  compute in floating point.
