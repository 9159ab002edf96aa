# databend_query

Parts of a query engine whose behaviour is stated in contracts and proved with Verus.

- `merge`: a processor that merges sorted inputs into one sorted output, block by block, with a
  limit. `merge::laws` states what it promises as a whole: rows leave in order, each once, all of
  them, and no more than the limit allows.
- `pipeline`: what pipelines are built of to merge sorted outputs, to fill the columns of a table
  that rows do not have, and to replace rows of a table.
- `binder`: binding of the having clause.
- `http`: the tables of the queries and sessions of HTTP clients, and the watch over a query that
  nobody asks for any more.
- `interpreters`, `planners`: creating a stream, and the plan that shows a plan.
- `expression`, `exception`, `text`: values, schemas, blocks, errors and numbers in messages.

A step that needs a catalog, a storage, a clock or another service is not taken by the library. It
says what is to be done next and goes on with what came of it. `app` takes these steps, and holds
the locks, tasks and timers.
