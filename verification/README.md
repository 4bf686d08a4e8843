# todo_framework

A small HTTP framework for a to-do service, written in Verus.

- `src/` is the verified library: routers (a list per method, an exact-path
  route table, and a prefix tree), path components and file extensions under
  Unix rules, status codes and replies, and the static-file rules. Each public
  function carries a contract; the laws that tie functions together are proof
  functions beside them.
- `app/` is the hyper server around it: requests, handlers, the database, and
  the conversion between hyper's types and the library's plain values.
- `tests/` runs the library on concrete values, including comparisons with
  `std::path` on sample paths.
