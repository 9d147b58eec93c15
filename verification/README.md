# lemicraft_launcher

The core of the LemiCraft Minecraft launcher, written in Verus: every decision, parser and
formatter behind the launcher's commands carries a contract that Verus proves.

- `src/` — the verified library.
  - `text` — the character-level model (`trim`, `find`, `split`, `lines`, numbers) shared by the rest.
  - `server_status` — the status ping: VarInt coding, packet framing, the reply's JSON and MOTD.
  - `mods` — the mod manager: dependency resolution, conflicts, archive limits, on-disk state.
  - `news`, `update`, `content`, `settings` — what the backend publishes and the launcher's settings.
  - `game` — launching: game folder, JVM and session arguments, the log4j log filter, retries.
  - `auth`, `auth_ely`, `net` — Microsoft and Ely.by sign-in, the stored account, URLs.
  - `skin`, `skin_elyby` — skin images, caches, and Ely.by skin management.
  - `server_list` — the game's `servers.dat` entry for the server.
- `tests/` — tests of the library on concrete values.
- `app/` — the I/O around the library (files, HTTP, DNS, processes, windows), unverified.

Calls into outside crates (`sha2`, `chrono`, `url`, `base64`, `sysinfo`) and a few std
functions go through small trusted wrappers whose contracts state what their documentation
promises.
