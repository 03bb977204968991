# munchbox

The core of a meal-planning web app: a recipe book, a weekly planner and the
grocery checklist that the plan produces, written in Verus with contracts
proved over mathematical models.

- `src/` is the verified library: the records and their views (`model`), the
  recipe book (`recipe_book`), the planner and its grocery aggregation
  (`planner`), the checklist and sync state (`grocery`), storage keys and the
  sample book (`storage`), backend addresses and messages (`endpoints`), the
  app's tabs (`shell`), text helpers (`text`) and fresh ids (`ids`).
- `app/` is the Yew front end around it: components, local storage, HTTP
  requests, and the floating-point parts (parsing, adding up and printing
  amounts).
- `tests/` runs the library on concrete values.
