# almanac

Finds the segment of a loaded SPK kernel that answers for an identifier, or for a name, at an
instant. Kernels are searched from the most recently loaded to the first. A cache remembers where
the last answer for an identifier was found.

- `src/epoch.rs`: instants, durations and ephemeris seconds as integers.
- `src/spk.rs`: the summaries of one kernel and the searches within it.
- `src/index.rs`: which identifiers of a kernel have their segments in chronological order.
- `src/kernels.rs`: the kernels by alias, in an `IndexMap`.
- `src/search.rs`: what a query of several kernels answers, and which answers may be remembered.
- `src/cache.rs`: the cache, behind a reader-writer lock.
- `src/almanac.rs`: loading, unloading and the queries.
- `src/laws.rs`: what holds of every context and every sequence of queries.
- `app/`: the same for callers that use `hifitime` epochs, `snafu` errors and a log.

A kernel that is loaded is the most recently loaded one, also under an alias that was in use before:
the kernel that had the alias is unloaded.

The cache never changes an answer. It answers only inside a segment; on a boundary, where 100 ns of
pad or the rounding of an instant to seconds can let two segments claim the same instant, the kernels
are searched. `laws::law_memory_never_changes_an_answer` and `laws::law_warm_answers_as_cold` state
this for every instant.
