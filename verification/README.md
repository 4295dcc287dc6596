# litecord_backend

The decision logic of a small chat server (users, friends, direct messages,
guilds with roles and channel permission overwrites, voice presence), written
in Verus with its behaviour stated in `requires` / `ensures` contracts.

- `src/` — the verified library.
  - `permissions`, `roles`, `guilds`, `guild_channels`: the permission
    vocabulary, effective permissions of a member (defaults ∪ roles, owner and
    `administrator` bypass), channel overwrites (role deny < role allow < user
    deny < user allow), role hierarchy, and the verdict of every guild
    operation.
  - `friends`, `channels`, `messages`: friendships, DM channels (the
    participants key does not depend on their order), message history access.
  - `jwt`, `users`: HS384 tokens and their freshness rules, encrypted storage
    of refresh tokens, sign-up / login / refresh decisions, bearer
    authentication.
  - `chat`: the hub (connections and voice states in a verified keyed table),
    the server frames, and the step functions of every socket flow (routing,
    direct messages, DM channels, guild channels, relay, authentication,
    token refresh).
  - `cdn`: upload validation and object naming.
- `tests/` — tests of the library on concrete values.
- `app/` — the Rocket server around the library: routes, the socket loop,
  SurrealDB queries and S3 presigning.
