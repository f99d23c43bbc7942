# sdkcore

The verified core of `sdkm`, a command-line manager of SDK versions (Java,
Node.js, Python, Maven, Go and custom SDKs).

- `src/` — the library, verified with Verus: every decision the program makes
  (which version a request names, which release asset fits the platform, what
  an install, switch or uninstall does and how a failure is rolled back, which
  environment script a directory gets) is a function with a contract, and the
  properties that span functions are proof functions.
- `tests/` — tests of the library on concrete values.
- `app/` — the `sdkm` program: argument parsing, files, network, terminal and
  processes around the library.
