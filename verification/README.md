# rust-mumble anticheat (verified core)

The voice anticheat of a Mumble server for FiveM, as a Verus-verified library.

* `src/` — the verified library:
  * `actions` — action codes and their names, sliding-window keys;
  * `text`, `clock` — decimal and `HH:MM:SS` formatting; the server's
    monotonic clock (windows, cooldowns) and the system clock (times of day);
  * `window` — the per-client sliding window of distinct targets (a `HashMap`);
  * `logring` — the bounded log of detections shown by the panel (a `VecDeque`);
  * `counters` — per-client anticheat state, the "who spoke to this player"
    list and its recording, counter resets;
  * `config` — the hot-reloadable configuration, its updates, target recording;
  * `sampler` — the periodic evaluation (reach over connected players, window
    reach, mutuality, listens, consecutive strikes, flags, punishments — mute,
    kick or ban — and the notices for the Discord webhook);
  * `voice` — VoiceTarget messages, audio packet routing and delivery;
  * `order`, `panel` — panel ordering (a stable sort), heard lists,
    moderation commands, credentials, IP hiding;
  * `bans` — the persistent list of bans and mutes;
  * `laws` — properties of the detector proved over the specifications.
* `tests/` — tests of the library on concrete values.
* `app/` — the server glue: shared state, voice handlers, sampler loop, HTTP API,
  webhook delivery.
