# inertia_axum

Server-side adapter for the [Inertia.js](https://inertiajs.com) protocol on axum, with its
protocol logic proved correct with Verus.

- `src/` is the verified library: the prop tree and how a request selects from it (partial
  reloads, dot paths, always / optional / deferred / once / merge / infinite-scroll props),
  the page object, redirects with errors and flash data, same-site `back()`, Precognition,
  the version check and `303` rule of the middleware, the flash cookie's shrinking, the
  CSRF double-submit check, the SSR circuit breaker and the SSR-or-client choice, Vite asset tags
  and version, form values read as booleans and integers, form field
  trees, the code generator's plan and the `settings.inertia` rules. Every public function
  states its result in its `ensures`; the public `lemma_*` proof functions state the laws
  that relate several calls.
- `app/` is the HTTP glue around it: extractors and middleware, cookie encryption, the SSR
  HTTP client, lazy prop resolvers, serde conversions, Tera and file access.
- `tests/` runs the library on concrete scenarios.

Calls into outside crates that the library makes (URI parsing, signed cookies, randomness,
constant-time comparison, urlencoded parsing) sit behind small trusted wrappers whose
contracts are documented where they are declared.
