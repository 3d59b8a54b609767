# voice_room

The rules of a single-room voice chat whose participants are recorded one track each,
written in Rust and verified with Verus. The media runs through LiveKit; this project decides
who is in the room, who hosts it, what is recorded, and where every sample of a recording
belongs.

## Layout

- `src/` is the verified library.
  - `domain`, `table`, `order`, `model`, `store`: the records of the server, an abstract model
    of every operation on them, and the store that implements it.
  - `laws`: what holds of the store across operations.
  - `room`: joining, resuming, leaving, hosting, and the life of the room.
  - `recording`, `egress`, `events`, `webhook`: starting, feeding, stopping and finishing
    recordings, and the media server's news.
  - `report`, `log`: the files that tell of a recording.
  - `pcm`, `wav`, `clock`: stereo to mono, segments on one timeline, WAV files, instants.
  - `auth`, `claims`, `jwt`, `crypto`, `json`, `ids`, `text`: tokens, digests, JSON and
    identifiers.
  - `rows`: records as database rows.
  - `reply`: refusals with their HTTP status and message.
- `app/` is the server around it: HTTP and WebSocket with axum, SQLite, files, and requests to
  LiveKit.
- `tests/` runs the library with the crates it calls.

## Model

`StoreModel` (in `model`) holds what the server knows as plain maps. Each operation of `Store` is
stated as one function of that model, so that the laws about late news, hosts, generations and
segments are laws about the model. Instants are nanoseconds since the Unix epoch and identifiers
are 128-bit numbers. What chance or the clock decides is drawn first (`room::draw`) and handed to
functions whose results it then determines.

## Trusted calls

Calls into uuid, chrono, serde_json, jsonwebtoken, sha2, hmac, base64, argon2, rand and hound stand
behind small functions marked `external_body`, each with a comment that says what is claimed of the
call. A few functions of the standard library have a contract in `text`.

## Environment

`LIVEKIT_API_KEY` and `LIVEKIT_API_SECRET` are required. `LIVEKIT_URL`, `LIVEKIT_EGRESS_URL`,
`EGRESS_CALLBACK_BASE_URL`, `RECORDINGS_DIR`, `SQLITE_PATH`, `BIND_ADDR` and `RUST_LOG` have
defaults. `HOST_PASSWORD` (or `HOST_BOOTSTRAP_KEY`) lets a participant claim the room.
