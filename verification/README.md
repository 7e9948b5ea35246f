# rosemary

The verified core of Rosemary, a Postgres management GUI.

- `src/` is the library, verified with Verus: how a column's type decides
  how its cells are read (`postgres`), how cells are rendered and ordered,
  the stable sort of result rows and the header buttons that drive it,
  paging, the metrics line, the table list grouped by schema with its name
  filter, the statement chosen from the editor's text, the colours that the theme
  gives the interface (`themes`), and the state of the
  application with the decisions it takes between frames (`app`).
- `app/` is the window: egui drawing, the frame loop, the connection pool,
  the async runtime and the Postgres queries. It hands the library plain
  values and performs the I/O that the library's decisions ask for.
- `tests/` runs the library on concrete values.
