# dv_hls_gateway

A gateway that takes a DASH (MPD) or HLS (M3U8) source and publishes it as HLS with
transport-stream segments. Nothing is transcoded: samples are decrypted, taken out of their MP4
fragments and packed into transport-stream packets. HEVC and H.264 units pass through unchanged,
Dolby Vision metadata among them, and so do AC-3 and E-AC-3 frames; AAC frames get an ADTS header.

The library is written in Verus. What each function does is stated in its contract and proved.

## Layout

- `src/wire.rs`, `src/text.rs`, `src/time.rs`, `src/clock.rs`: bytes, texts, durations and the
  90 kHz clock.
- `src/mp4/`: boxes of init segments and fragments.
- `src/hevc/`: NAL units, access units and what a sequence parameter set says of the range.
- `src/ts/`: packets, tables, PES packets and the muxer.
- `src/crypto/`: content keys, CENC in counter and pattern mode, AES-128 segments, PlayReady.
- `src/mpd/`, `src/hls/`, `src/xml.rs`, `src/web.rs`: manifests and playlists.
- `src/subtitle/`: WebVTT and TTML, plain or in fragments.
- `src/segment/`: the segments in memory and the playlists over them.
- `src/fetch/`: failures of downloads and when to try again.
- `src/task/`: what a task does. `mpd_session` follows a manifest, `hls_run`, `hls_ts` and
  `hls_fmp4` follow playlists, `manager` holds the states of a task.
- `src/server/`: the answers of the control interface and of the player routes.
- `src/config.rs`: settings.
- `app/`: the server around the library, with all input and output.

## What is proved

Public proof functions named `law_..` state what holds across functions, such as: decryption undoes
encryption, a segment carries every frame untouched and in order, a playlist never lists a segment that is
not served, numbers of segments never go back, memory stays bounded, no segment of a source is taken
twice, and what is published has its sound.

Calls into other crates stand behind small functions whose contracts are believed without proof.
The comment above each names the function that is called and says what is claimed of it.
