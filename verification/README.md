# anymic

The desktop server of anyMic, a wireless microphone: a phone streams Opus
audio over UDP, and the server plays it into a virtual audio device
(BlackHole 2ch on macOS, VB-CABLE on Windows) that any application can use
as its microphone.

## Layout

- `src/` is the verified library (Verus):
  - `packet` — the v1 wire format: header codec, errors, wrap-aware
    sequence and timestamp differences; decoding and encoding are proved
    to be inverse.
  - `jitter` — the adaptive jitter buffer, modelled by `JitterModel`;
    warm-up (wrap-aware), in-order playback over whole runs, first copy
    kept, PLC, stall and disconnect escalation and target-depth smoothing
    are proved against the model.
  - `playback` — what each 5 ms tick does with the buffer's output, and
    the state kept for cross-fading after concealed audio.
  - `sink` — the sample ring between the server and the device callback,
    mono-to-stereo writes with top-up, and underrun filling.
  - `discovery` — the mDNS service configuration, its TXT record,
    validation, the host fingerprint, and the preparation of a
    registration with `mdns-sd`.
  - `decoder`, `config`, `server`, `net`, `text` — decoder parameter
    checks, server settings, start-up errors, LAN address recognition and
    text rendering.
- `tests/` runs the library on concrete values.
- `app/` is the program around it: sockets, tasks, the Opus decoder, the
  mDNS daemon, the platform audio devices, and the floating-point jitter
  estimator and cross-fade.
