# dbx_storage

The rules of the DBX persistence layer, written in Verus and proved against
their contracts: what is read from and written to the SQLite settings
database, which secrets go where, how the secret-store migration decides, and
how history searches are built.

## Layout

- `src/` — the verified library.
  - `text.rs` — whitespace, trimming, ordering and substring specs with their
    executable counterparts; canonical (sorted, duplicate-free) id lists.
  - `json.rs` — a plain-value model of JSON documents and the object
    operations the settings logic uses.
  - `storage.rs` — the storage handle (database path, key policy), the
    key decision of writes, the import of a user-data database, database file
    names and permissions.
  - `settings.rs` — desktop settings, plugin permissions, snippet sync state,
    pinned nodes and other keys of the settings document.
  - `mcp_policy.rs` — normalization of the MCP access policy to its single
    fail-closed form.
  - `migration.rs` — the secret-store migration: preflight, start decision,
    recorded state, backups, and the move of legacy credentials.
  - `fingerprint.rs` — the framed SHA-256 fingerprint of migration sources.
  - `history.rs` — history search predicates (every `?` has its bound value),
    paging and connection options.
  - `secrets.rs`, `secret_writes.rs` — secret key names, lookup order, and the
    write plans of saving a connection, restoring a sync snapshot and moving
    legacy inline credentials.
  - `connection_load.rs` — loading a saved connection's credentials and
    plugin secrets from the secret store.
  - `connection_copy.rs` — the checks and the secret copy of duplicating a
    connection.
  - `connection_list.rs` — saving the whole connection list: which stored
    rows and which secret owners stay, and whether a configuration carries
    credentials inline.
  - `driver_secrets.rs` — the credentials in the driver options of MQTT,
    message-queue token signing, Nacos, Cassandra TLS and Salesforce
    connections: the writes of a save and the hydration of a load.
  - `connection_json.rs` — credentials inside connection driver options.
  - `sidebar.rs` — placing a duplicated connection in the sidebar layout.
  - `folders.rs` — which saved-SQL folders a folder deletion removes.
  - `ai_conversations.rs` — binding legacy conversations to connections.
  - `templates.rs` — prompt template validation.
  - `cache.rs` — tab-runtime and schema cache limits and pruning.
- `tests/` — executable tests of the library.
- `app/` — a partial SQLite and file-system driver: for the operations it
  covers (app and desktop settings, plugin permissions, history search and
  retention limit, caches, the MCP policy's load and save, the migration
  state, the migration run (given the backup, migrate and restore steps) and
  backup cleanup, duplicating and removing a connection for MCP, sidebar
  entries, SQL folders, prompt templates and secret writes) it reads, hands
  plain values to the library, and writes what the library decided. Loading
  and saving connections and sync import have no driver here: their
  configuration types live outside this crate.
