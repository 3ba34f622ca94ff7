# analyzer_benches

Benchmarks of a Rust language server and of its macro server.

`src/` is the verified core, checked with Verus: what each benchmark does, which
step comes next, how the file under test is edited and where that leaves the
cursor, how the body of a `slint!` invocation is cut out of a file, which build
of the macro library is taken, and what the settings are. It does no input or
output and trusts nothing but the verifier's standard library.

`app/` is the part that touches the world: it reads the environment and the
file system, talks to the language server and the macro server, and prints the
times. Its benchmarks are tests, and return at once unless `RUN_SLOW_BENCHES` is
set. It is built inside the language server's workspace, whose crates it uses and
whose manifest has the feature `slint-bench-pprof`, which builds the sampling
profiler in.

`tests/` runs the core on concrete values, with a small stand-in for the server.
