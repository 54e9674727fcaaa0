# hangar_application

The application rules of Hangar, a self-hosted npm and Docker registry, as a verified library.

- `src/` holds the rules, each with a contract that Verus proves: reading through repository
  groups, manifest pushes and digests, npm publishing and metadata documents, dependency-tree
  audits, retention sweeps, access scopes, invitations, TOTP, branding, settings, import and
  export of an instance's configuration. Stores, remote registries and mail are not part of it:
  each use case takes what they answered as plain values and says what to do next.
- `tests/` runs the library on concrete values.
- `app/` converts between the library's values and `serde_json`, `uuid` and `chrono`, gives the
  error its `Display`, and drives the verified steps that call for I/O.
