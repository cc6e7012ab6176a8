# iidx_on_ear

Turns the songs of a beatmania IIDX `contents/` folder into a tagged music library: one Opus file per song, tagged
with its title, artist, genre and version album, filed under a per-version folder.

- `src/` is the verified library (Verus): the music database decoder and merger (`music_db`), the audio-container
  extractor (`unpack`, `bytes`), the song planner and incremental filter (`scan`), the naming rules (`common`,
  `jacket`, `text`), the tag and render-order decisions (`packer`) and the CSV export (`tool`).
- `app/` is the command-line program around it: argument parsing, reading files, probing the disk, downloading
  covers, rendering audio and writing tags, and the worker pool.
- `tests/` runs the library on concrete inputs.
