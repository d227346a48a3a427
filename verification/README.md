# django

The verified core of a Discord bot that plays internet radio stations and music from a
Jellyfin server in voice channels.

- `src/` is the library, verified with Verus:
  - `text.rs`: string helpers (joining, prefixes, substring search, Unicode lowercase);
  - `jellyfin.rs`: the items the Jellyfin server reports, the tracks and albums built from
    them, lookups and autocomplete over the catalogue;
  - `catalog.rs`: properties of the catalogue (distinct ids and titles, which track is
    stored under an id, what each album lists, and that tracks and albums agree);
  - `choices.rs`: autocomplete filtering, and why a longer query never offers more;
  - `response.rs`: the embeds the bot answers with;
  - `commands.rs`: what the radio, media, stop and play commands decide;
  - `voice.rs`: when to join a channel (joining twice changes nothing) and when to leave it.
- `app/` is the bot itself: Discord, voice and HTTP plumbing around the library.
- `tests/` runs the library on concrete values.
