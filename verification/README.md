# yunyin

The logic of YUNYIN, a music player for the PS Vita, as a verified library: what is
decided and computed is written in Rust with Verus contracts, and proved.

| Module | What it holds |
| --- | --- |
| `bgm`, `decoder` | the player's state, the turns of the audio thread, frames and milliseconds |
| `deck`, `pump` | the deck that shares its tracks with the system shell, and the pump into the ring |
| `source` | the source of bytes: files, the window over HTTP, the valve, the byte cache, track lists |
| `net` | transport results, redirects, and the plan and report of the network probe |
| `provider` | formats and qualities; for NetEase: the request cipher, song addresses, the login by QR code |
| `tags` | ID3, Vorbis comments, FLAC pictures, covers and their cache |
| `platform` | directories, the key-value store, the log, the power tick, the PS button |
| `ui` | frames that can be skipped, fonts to refresh, streamed glyphs, local requests |
| `host` | what is asked of the PocketJS core |
| `text`, `json` | characters, numbers, escaping |

Each module states its model with spec functions and views; the laws that relate several
functions are the public proof functions whose names begin with `law_`.

`tests/` runs the library on concrete values. `app/` is the device side: threads, files,
system calls and the script bindings. It performs what the library decides and hands
back what came of it.
