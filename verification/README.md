# whatsvault

A local viewer core for WhatsApp chat histories, verified with Verus.

It reads two kinds of sources:

- **WhatsApp "Export chat" ZIP archives** (`sources::whatsapp_export_zip`):
  finds the one transcript, parses its timestamped lines into messages within a
  bounded recent-message window, resolves media references against the archive
  and reads attachment payloads by normalized path.
- **iPhone backups** (`sources::iphone_backup`, `whatsapp::chat_storage`):
  locates backups, sorts the WhatsApp files out of `Manifest.db`, maps file ids
  to their place on disk, writes the SQL that reads `ChatStorage.sqlite` for the
  columns a database has, and turns its rows into chats and messages
  (`whatsapp::chat_storage_display` hides internal identifiers from previews).

From an imported chat it builds a standalone HTML page (`exports::html`) whose
text is always escaped, a privacy-safe proof report over local backups
(`backup_proof`), and the values of the desktop interface (`desktop`: opaque
source handles, redacted error messages, safe export file names, previews).

`src/` is the verified library; every public function has a contract stating
its result exactly, and the laws of the library are proof functions
(`lemma_*`). `app/` holds what touches the outside world: files, SQLite,
property lists, the environment and serialization.

The tests are in `tests/`.
