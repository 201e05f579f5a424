# startgg-interactions

Builds a Glicko-2 ranking of BBTag players from start.gg (and Challonge)
results and stores it in the site's SQLite database.

- `src/` is the verified library: the data read from the services, the
  reading of start.gg GraphQL responses and Challonge bracket pages, the
  rating table, the request throttles, the bracket search and the rows stored
  in the database, each with a contract proved by Verus.
- `app/` is the program around it: HTTP requests, the browser session that
  reads Challonge, the SQLite queries, progress bars and `main`.
- `tests/` runs the library on concrete values.
