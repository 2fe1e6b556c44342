# rustbasic_permission

Role-based access control for RustBasic applications, verified with Verus.

- `src/entities/` — the rows of the five tables (`roles`, `permissions`,
  `model_has_roles`, `model_has_permissions`, `role_has_permissions`).
- `src/model.rs` — what the tables mean: lookups by name, links, and the
  outcome of every operation as a spec function.
- `src/tables.rs` — `RbacTables`, the tables with their invariant (unique
  names and identifiers) and identifier counters; links may repeat, as the
  schema allows.
- `src/service.rs` — `PermissionService`: find-or-create roles and
  permissions, assign and remove roles, give and revoke permissions (directly
  or through roles), and the queries; each proved to match its outcome.
- `src/checker.rs` — `PermissionChecker`: the checks for the signed-in user.
- `src/laws.rs` — properties across operations (idempotence, undo,
  inheritance through roles, isolation between models, listings that agree
  with the checks).
- `app/` — the database and web side: creating the tables, reading them into
  `RbacTables`, reading the clock for new rows, writing the tables back, and
  turning sessions and refusals into HTTP terms.
