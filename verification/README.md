# iz

A kanban board for one workspace, with its logic proved in Verus.

`src/` is the library. Every public function in it carries a contract over
mathematical models, and the laws that span functions stand beside them as
public proof functions.

| modules | what they hold |
| --- | --- |
| `board`, `assemble`, `order`, `groups`, `load` | cards, deadlines, search and filters; the board joined from six sweeps |
| `store`, `rows`, `statements`, `schema` | the records, the SQL that writes and reads them, the migrations |
| `frames`, `directory`, `mirror`, `beat` | the directory's event stream and how the member list follows it |
| `storage`, `drain` | the Files service and the drain of local attachments |
| `health`, `avatar`, `sweep`, `boot` | the switcher's probes, the faces, the mail sweep, the arguments |
| `text`, `clock` | characters, days, instants |

What comes from other crates (calendar arithmetic and RFC 3339 from `time`,
JSON from `serde_json`, identifiers from `uuid`, media types from `reqwest`)
stands behind small functions whose contracts are believed; each says in its
doc comment what it claims.

`app/` is the process around the library: sockets, the database, the clock. A
loop that alternates I/O and decisions is a state machine in `src/` that `app/`
drives. What the process needs of the sibling services, and of the member,
mail, settings and attachment tables, are the traits of `app/peers.rs`; the
build as it stands links none of them, and every call then says so.

`tests/` runs the library, and the statements against a real database.
