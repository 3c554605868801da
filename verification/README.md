# adpa

Read-only analysis of NTFS, SMB and Active Directory permissions: who has which
effective rights on a path, through which groups, and how far the answer can be
trusted.

- `src/` is the library. Every function in it is verified with Verus against the
  contract in its header.
  - `model/` holds the data: SIDs, identities, memberships, access masks, markers
    (diagnostics), trusts, trustees.
  - `ad/` turns directory entries and account lookups into identities and group
    memberships with the chains that lead to them.
  - `fs/` reads security descriptors and walks directory trees.
  - `export/` renders CSV, HTML and JSON fields and lists the trustees of a path.
  - `cli/` holds the decisions and the wording of the command line.
  - `text`, `order`, `error` and `analysis` are shared by the rest.
- `app/` is the program around it: arguments, LDAP, the Windows API, files.
- `tests/` runs the library from outside.

Where the library depends on the outside world (a directory server, the file
system, the account database), it takes the answer as a value or as the next
event of a state machine (`ad::lookups::MembershipLookup`, `fs::walker::TreeWalk`).

Proof functions named `law_*` state what holds of several functions together.
Functions marked `#[verifier::external_body]` and the `assume_specification` in
`src/text.rs` are not proved; their contracts say what is relied upon of `std`,
`csv` and `serde_json`.
