# nodespace_core

The decision logic of a node-based knowledge store, written in Verus: node properties, schemas,
identifiers, mentions, hierarchy, relationships, imports, queries, embeddings and search.

An operation that needs the database, the language model or the clock is a step function: from its
arguments and the replies so far it computes the next step, which is a request, an outcome or an
error. Its contract equates the step with a mathematical function of the same arguments
(`protocol.rs` has the requests and replies). Laws about whole operations stand beside them as
public proof functions whose names start with `law_`.

- `src/` is the verified library.
- `tests/` runs it: values, identifiers, chunks, searches, and whole scenarios on a store in memory.
- `app/` is the asynchronous service around it: it performs the requests and hands the replies back.
