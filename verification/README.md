# whisperfish

The verified core of a Signal client for Sailfish OS, written in Verus.

- `src/` is the library. Every function is verified against its
  `requires`/`ensures` contract; the calls into the RustCrypto crates,
  `hex`, `phonenumber`, `mime_guess` and `mime_classifier` go through
  trusted wrappers whose contracts state what those crates compute.
  - `protocol_store`, `quirk`, `decimal`, `migration`: the file-based key
    store (identity, registration id, session, identity and pre-key file
    names), the quirks of the old key encoding, and the reading of old file
    names when moving them to the database.
  - `encryption`, `crypto`, `hex`: encryption of the storage files and
    derivation of the storage and database keys.
  - `incoming`, `new_message`, `attachments`, `receipts`: what is stored for
    incoming and outgoing messages, attachments and delivery receipts.
  - `session_list`, `message_list`, `devices`, `contact`, `fingerprint`,
    `settings`: the lists and texts that the user interface shows.
  - `connection`, `typing`, `profile_refresh`, `timers`, `args`: the state
    machines of the network tracker, the typing notifications, the profile
    refresh and the event-loop timers, and the command line.
- `tests/` runs the library on concrete values.
- `app/` is the program around the library: configuration file, command
  line, and the files of the store on disk.
