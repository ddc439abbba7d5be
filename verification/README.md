# SpotCapture

SpotCapture records a track while the Spotify desktop client plays it on Linux. The
client's audio goes to a silent PipeWire sink, the sink is recorded by FFmpeg, and
afterwards everything is put back: the sink is destroyed and the audio is heard again.

Everything that the recorder decides or computes is a library that is verified with
Verus. A small program around it runs the commands, talks to the network and touches
files.

## Layout

- `src/` is the verified library.
  - `capture` is the session: its steps, what follows each of them, and the proofs that
    every session ends, cleans up, plays in silence and replaces no file.
  - `spotify_dbus` builds the `dbus-send` calls, reads their replies and decides when a
    track has started and ended.
  - `pipewire_capture` reads the PipeWire graph and builds the commands that redirect,
    record and restore.
  - `output` has formats, tags, FFmpeg's arguments, the encoder's account, and the way
    in which a finished file is published.
  - `metadata` reads track links, names files, and turns the Web API's data into tags.
  - `extract` lists the tracks of an album or a playlist.
  - `events` writes the lines for the user interface.
  - `auth` is the sign-in to the Web API and the tokens.
  - `links`, `json`, `codec` and `pattern` call the `url`, `serde_json`, `base64`,
    `sha2` and `regex` crates; what they return is named there, or stated.
  - `text` is text as sequences of characters.
- `tests/` runs the library.
- `app/` is the program.

## Use

```
spotcapture download "https://open.spotify.com/track/..."
spotcapture download "spotify:track:..." --format flac
spotcapture download "..." --format mp3 --bitrate 192 --output-dir ~/Desktop
spotcapture extract "https://open.spotify.com/album/..."
spotcapture login --client-id YOUR_ID
```

The Spotify desktop client, PipeWire with WirePlumber, and FFmpeg must be installed, and
the client must be running.
