# bedwars_bot

The logic of a Discord bot that tracks Hypixel Bedwars stats and awards XP
for them, verified with Verus.

- `src/` — the verified library:
  - `stat_config` — a guild's XP configuration (stat name → XP per unit) and
    the add / edit / remove decisions of `/edit-stats`;
  - `suggestions` — slash-command autocomplete: case-insensitive substring
    match, sorted, without repeats, at most 25;
  - `guild_commands` — the admin and guild checks, the reply texts and the
    stat listing of `/edit-stats`;
  - `stats_card` — the content of the `/stats` embeds;
  - `hypixel` — API addresses, the Mojang 404 rule, the cache-or-fetch step
    of a player lookup;
  - `timed_cache` — a string-keyed cache whose entries expire;
  - `keyed` — the string-keyed map both of these are built on;
  - `text` — string order, substring search, decimal digits, joining.
- `app/` — the Discord commands (poise), the HTTP client (reqwest), the
  stored JSON configuration (serde_json) and the storage interface.
- `tests/` — tests of the library on concrete values.
